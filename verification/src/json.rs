//! JSON documents, read with `serde_json`.

use crate::text::same_text;
use vstd::prelude::*;

verus! {

/// A JSON document. Of a number only its value as an unsigned 64-bit integer is
/// kept, where it has one.
#[derive(Debug)]
pub enum Json {
    Null,
    Bool(bool),
    Number(Option<u64>),
    Text(String),
    List(Vec<Json>),
    Record(Vec<(String, Json)>),
}

/// The content of a [`Json`] document.
pub enum JsonTree {
    Null,
    Bool(bool),
    Number(Option<u64>),
    Text(Seq<char>),
    List(Seq<JsonTree>),
    Record(Seq<(Seq<char>, JsonTree)>),
}

impl View for Json {
    type V = JsonTree;

    open spec fn view(&self) -> JsonTree {
        self.tree()
    }
}

impl Json {
    /// The content of the document.
    pub open spec fn tree(&self) -> JsonTree
        decreases self,
    {
        match self {
            Json::Null => JsonTree::Null,
            Json::Bool(b) => JsonTree::Bool(*b),
            Json::Number(n) => JsonTree::Number(*n),
            Json::Text(s) => JsonTree::Text(s@),
            Json::List(items) => JsonTree::List(
                Seq::new(
                    items@.len(),
                    |i: int|
                        if 0 <= i < items@.len() {
                            items@[i].tree()
                        } else {
                            JsonTree::Null
                        },
                ),
            ),
            Json::Record(fields) => JsonTree::Record(
                Seq::new(
                    fields@.len(),
                    |i: int|
                        if 0 <= i < fields@.len() {
                            (fields@[i].0@, fields@[i].1.tree())
                        } else {
                            (Seq::empty(), JsonTree::Null)
                        },
                ),
            ),
        }
    }
}

impl JsonTree {
    /// The value of the first field named `key`, where this is a record that has one.
    pub open spec fn field(self, key: Seq<char>) -> Option<JsonTree> {
        match self {
            JsonTree::Record(fields) => field_in(fields, key),
            _ => None,
        }
    }

    /// The items, where this is a list.
    pub open spec fn items(self) -> Option<Seq<JsonTree>> {
        match self {
            JsonTree::List(items) => Some(items),
            _ => None,
        }
    }

    /// The text, where this is one.
    pub open spec fn string(self) -> Option<Seq<char>> {
        match self {
            JsonTree::Text(s) => Some(s),
            _ => None,
        }
    }

    /// The text of the field named `key`, where it holds one.
    pub open spec fn string_at(self, key: Seq<char>) -> Option<Seq<char>> {
        match self.field(key) {
            Some(v) => v.string(),
            None => None,
        }
    }

    /// The items of the field named `key`; none where it holds no list.
    pub open spec fn items_at(self, key: Seq<char>) -> Seq<JsonTree> {
        match self.field(key) {
            Some(JsonTree::List(items)) => items,
            _ => Seq::empty(),
        }
    }
}

/// The value of the first of the fields that is named `key`.
pub open spec fn field_in(fields: Seq<(Seq<char>, JsonTree)>, key: Seq<char>) -> Option<JsonTree>
    decreases fields.len(),
{
    if fields.len() == 0 {
        None
    } else if fields[0].0 == key {
        Some(fields[0].1)
    } else {
        field_in(fields.skip(1), key)
    }
}

impl Json {
    /// The value of the first field named `key`, where this is a record that has one.
    pub fn get(&self, key: &str) -> (r: Option<&Json>)
        ensures
            match r {
                Some(v) => self@.field(key@) == Some(v@),
                None => self@.field(key@) is None,
            },
    {
        match self {
            Json::Record(fields) => {
                let ghost all = self.tree()->Record_0;
                let mut i: usize = 0;
                assert(all.skip(0) =~= all);
                while i < fields.len()
                    invariant
                        i <= fields@.len(),
                        self@ == JsonTree::Record(all),
                        all.len() == fields@.len(),
                        forall|j: int|
                            0 <= j < fields@.len() ==> #[trigger] all[j] == (
                                fields@[j].0@,
                                fields@[j].1.tree(),
                            ),
                        field_in(all, key@) == field_in(all.skip(i as int), key@),
                    decreases fields@.len() - i,
                {
                    assert(all.skip(i as int)[0] == all[i as int]);
                    if same_text(fields[i].0.as_str(), key) {
                        return Some(&fields[i].1);
                    }
                    assert(all.skip(i as int).skip(1) =~= all.skip(i + 1));
                    i += 1;
                }
                None
            },
            _ => None,
        }
    }

    /// The text of the field named `key`, where it holds one.
    pub fn text_at(&self, key: &str) -> (r: Option<&String>)
        ensures
            match r {
                Some(s) => self@.string_at(key@) == Some(s@),
                None => self@.string_at(key@) is None,
            },
    {
        match self.get(key) {
            Some(Json::Text(s)) => Some(s),
            _ => None,
        }
    }
}

/// `serde_json::Value`: a parsed JSON document.
#[verifier::external_type_specification]
#[verifier::external_body]
pub struct ExValue(serde_json::Value);

/// What a `serde_json::Value` holds.
pub uninterp spec fn value_tree(v: serde_json::Value) -> JsonTree;

/// What `serde_json::from_str` reads a text as; nothing where it refuses the text.
pub uninterp spec fn json_of(text: Seq<char>) -> Option<JsonTree>;

/// `serde_json::from_str` into a `Value`: whether it succeeds, and what the value
/// holds, depend on the text alone.
#[verifier::external_body]
fn read_value(text: &str) -> (r: Option<serde_json::Value>)
    ensures
        match r {
            Some(v) => json_of(text@) == Some(value_tree(v)),
            None => json_of(text@) is None,
        },
{
    serde_json::from_str(text).ok()
}

/// A `serde_json::Value` opened by one level.
enum Opened {
    Null,
    Bool(bool),
    Number(Option<u64>),
    Text(String),
    List(Vec<serde_json::Value>),
    Record(Vec<(String, serde_json::Value)>),
}

impl Opened {
    spec fn tree(self) -> JsonTree {
        match self {
            Opened::Null => JsonTree::Null,
            Opened::Bool(b) => JsonTree::Bool(b),
            Opened::Number(n) => JsonTree::Number(n),
            Opened::Text(s) => JsonTree::Text(s@),
            Opened::List(items) => JsonTree::List(
                items@.map_values(|v: serde_json::Value| value_tree(v)),
            ),
            Opened::Record(fields) => JsonTree::Record(
                fields@.map_values(|f: (String, serde_json::Value)| (f.0@, value_tree(f.1))),
            ),
        }
    }
}

/// The variants of `serde_json::Value`: each holds what the variant here of the same
/// kind is given, a number by way of `serde_json::Number::as_u64`.
#[verifier::external_body]
fn open_value(v: serde_json::Value) -> (r: Opened)
    ensures
        r.tree() == value_tree(v),
{
    match v {
        serde_json::Value::Null => Opened::Null,
        serde_json::Value::Bool(b) => Opened::Bool(b),
        serde_json::Value::Number(n) => Opened::Number(n.as_u64()),
        serde_json::Value::String(s) => Opened::Text(s),
        serde_json::Value::Array(items) => Opened::List(items),
        serde_json::Value::Object(fields) => Opened::Record(fields.into_iter().collect()),
    }
}

fn build(v: serde_json::Value) -> (r: Json)
    ensures
        r@ == value_tree(v),
    decreases value_tree(v),
{
    let ghost whole = value_tree(v);
    match open_value(v) {
        Opened::Null => Json::Null,
        Opened::Bool(b) => Json::Bool(b),
        Opened::Number(n) => Json::Number(n),
        Opened::Text(s) => Json::Text(s),
        Opened::List(items) => {
            let mut out: Vec<Json> = Vec::new();
            let ghost trees = items@.map_values(|v: serde_json::Value| value_tree(v));
            for x in it: items
                invariant
                    whole == value_tree(v),
                    whole == JsonTree::List(trees),
                    trees == it.seq().map_values(|v: serde_json::Value| value_tree(v)),
                    out@.len() == it.index(),
                    forall|j: int| 0 <= j < out@.len() ==> (#[trigger] out@[j]).tree() == trees[j],
            {
                assert(trees[it.index()] == value_tree(x));
                assert(decreases_to!(whole => whole->List_0));
                assert(decreases_to!(trees => trees[it.index()]));
                out.push(build(x));
            }
            let r = Json::List(out);
            assert(r.tree()->List_0 =~= trees);
            r
        },
        Opened::Record(fields) => {
            let mut out: Vec<(String, Json)> = Vec::new();
            let ghost trees = fields@.map_values(
                |f: (String, serde_json::Value)| (f.0@, value_tree(f.1)),
            );
            for f in it: fields
                invariant
                    whole == value_tree(v),
                    whole == JsonTree::Record(trees),
                    trees == it.seq().map_values(
                        |f: (String, serde_json::Value)| (f.0@, value_tree(f.1)),
                    ),
                    out@.len() == it.index(),
                    forall|j: int|
                        0 <= j < out@.len() ==> (#[trigger] out@[j]).0@ == trees[j].0
                            && out@[j].1.tree() == trees[j].1,
            {
                assert(trees[it.index()] == (f.0@, value_tree(f.1)));
                assert(decreases_to!(whole => whole->Record_0));
                assert(decreases_to!(trees => trees[it.index()]));
                assert(decreases_to!(trees[it.index()] => trees[it.index()].1));
                out.push((f.0, build(f.1)));
            }
            let r = Json::Record(out);
            assert(r.tree()->Record_0 =~= trees);
            r
        },
    }
}

/// Reads a text as a JSON document.
pub fn parse(text: &str) -> (r: Option<Json>)
    ensures
        match r {
            Some(j) => json_of(text@) == Some(j@),
            None => json_of(text@) is None,
        },
{
    match read_value(text) {
        Some(v) => Some(build(v)),
        None => None,
    }
}

/// A record's field is the first one of that name.
pub proof fn fields_are_found_by_name(
    fields: Seq<(Seq<char>, JsonTree)>,
    key: Seq<char>,
    i: int,
)
    requires
        0 <= i < fields.len(),
        fields[i].0 == key,
        forall|j: int| 0 <= j < i ==> (#[trigger] fields[j]).0 != key,
    ensures
        JsonTree::Record(fields).field(key) == Some(fields[i].1),
    decreases fields.len(),
{
    if i > 0 {
        assert(fields[0].0 != key);
        let rest = fields.skip(1);
        assert forall|j: int| 0 <= j < i - 1 implies (#[trigger] rest[j]).0 != key by {
            assert(rest[j] == fields[j + 1]);
        }
        fields_are_found_by_name(rest, key, i - 1);
        assert(JsonTree::Record(rest).field(key) == field_in(rest, key));
    }
}

/// A record without a field of that name has none, and nothing but a record has fields.
pub proof fn missing_fields_are_not_found(t: JsonTree, key: Seq<char>)
    requires
        t matches JsonTree::Record(fields) ==> forall|j: int|
            0 <= j < fields.len() ==> (#[trigger] fields[j]).0 != key,
    ensures
        t.field(key) is None,
        t.string_at(key) is None,
        t.items_at(key).len() == 0,
    decreases t,
{
    if let JsonTree::Record(fields) = t {
        lemma_no_field(fields, key);
    }
}

proof fn lemma_no_field(fields: Seq<(Seq<char>, JsonTree)>, key: Seq<char>)
    requires
        forall|j: int| 0 <= j < fields.len() ==> (#[trigger] fields[j]).0 != key,
    ensures
        field_in(fields, key) is None,
    decreases fields.len(),
{
    if fields.len() > 0 {
        assert(fields[0].0 != key);
        let rest = fields.skip(1);
        assert forall|j: int| 0 <= j < rest.len() implies (#[trigger] rest[j]).0 != key by {
            assert(rest[j] == fields[j + 1]);
        }
        lemma_no_field(rest, key);
    }
}

/// Texts and lists are what the fields hold; a field of another kind holds neither.
pub proof fn fields_hold_texts_and_lists(t: JsonTree, key: Seq<char>)
    ensures
        forall|s: Seq<char>|
            t.string_at(key) == Some(s) <==> #[trigger] t.field(key) == Some(JsonTree::Text(s)),
        t.field(key) matches Some(JsonTree::List(items)) ==> t.items_at(key) == items,
        !(t.field(key) matches Some(JsonTree::List(_))) ==> t.items_at(key).len() == 0,
{
}

} // verus!
