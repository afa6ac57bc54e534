//! A small map that remembers the order in which its keys came.

use crate::text::same_text;
use vstd::prelude::*;

verus! {

/// A value that can serve as a key: two keys are the same when their views are.
pub trait Key: View + Sized {
    /// Whether two keys are the same.
    fn same(&self, other: &Self) -> (r: bool)
        ensures
            r == (self@ == other@),
    ;
}

impl Key for String {
    fn same(&self, other: &Self) -> (r: bool) {
        same_text(self.as_str(), other.as_str())
    }
}

/// The index of the first `a` in `keys`, or the length of `keys` where there is
/// none.
pub open spec fn spot<A>(keys: Seq<A>, a: A) -> int
    decreases keys.len(),
{
    if keys.len() == 0 || keys[0] == a {
        0
    } else {
        1 + spot(keys.skip(1), a)
    }
}

/// The keys of a row of pairs.
pub open spec fn keys_of<A, B>(pairs: Seq<(A, B)>) -> Seq<A> {
    pairs.map_values(|p: (A, B)| p.0)
}

/// The pairs after `a` is given the value `b`: in the place that `a` has, or
/// behind all others.
pub open spec fn put<A, B>(pairs: Seq<(A, B)>, a: A, b: B) -> Seq<(A, B)> {
    let i = spot(keys_of(pairs), a);
    if i < pairs.len() {
        pairs.update(i, (a, b))
    } else {
        pairs.push((a, b))
    }
}

/// The pairs without the one for `a`.
pub open spec fn without<A, B>(pairs: Seq<(A, B)>, a: A) -> Seq<(A, B)> {
    let i = spot(keys_of(pairs), a);
    if i < pairs.len() {
        pairs.remove(i)
    } else {
        pairs
    }
}

/// The map that a row of pairs stands for.
pub open spec fn map_of<A, B>(pairs: Seq<(A, B)>) -> Map<A, B> {
    Map::new(
        |a: A| spot(keys_of(pairs), a) < pairs.len(),
        |a: A| pairs[spot(keys_of(pairs), a)].1,
    )
}

pub proof fn lemma_spot<A>(keys: Seq<A>, a: A)
    ensures
        0 <= spot(keys, a) <= keys.len(),
        spot(keys, a) < keys.len() ==> keys[spot(keys, a)] == a,
        forall|j: int| 0 <= j < spot(keys, a) ==> keys[j] != a,
    decreases keys.len(),
{
    if keys.len() > 0 && keys[0] != a {
        lemma_spot(keys.skip(1), a);
        assert forall|j: int| 0 <= j < spot(keys, a) implies keys[j] != a by {
            if j > 0 {
                assert(keys.skip(1)[j - 1] != a);
            }
        }
    }
}

proof fn lemma_spot_is<A>(keys: Seq<A>, a: A, i: int)
    requires
        0 <= i <= keys.len(),
        i < keys.len() ==> keys[i] == a,
        forall|j: int| 0 <= j < i ==> keys[j] != a,
    ensures
        spot(keys, a) == i,
{
    lemma_spot(keys, a);
    let s = spot(keys, a);
    if s < i {
        assert(keys[s] != a);
    }
    if i < s {
        assert(keys[i] != a);
    }
}

/// Giving `a` the value `b` changes the map there and nowhere else.
pub proof fn putting_inserts<A, B>(pairs: Seq<(A, B)>, a: A, b: B)
    ensures
        map_of(put(pairs, a, b)) == map_of(pairs).insert(a, b),
        keys_of(pairs).no_duplicates() ==> keys_of(put(pairs, a, b)).no_duplicates(),
{
    let keys = keys_of(pairs);
    let next = put(pairs, a, b);
    let i = spot(keys, a);
    lemma_spot(keys, a);
    if i < pairs.len() {
        assert(keys_of(next) =~= keys);
        assert forall|k: A| #[trigger] map_of(next).dom().contains(k) implies map_of(next)[k]
            == map_of(pairs).insert(a, b)[k] by {
            lemma_spot(keys, k);
        }
        assert(map_of(next) =~= map_of(pairs).insert(a, b));
    } else {
        assert(keys_of(next) =~= keys.push(a));
        assert forall|k: A| k != a implies spot(keys_of(next), k) == (if spot(keys, k)
            < keys.len() {
            spot(keys, k)
        } else {
            keys.len() as int + 1
        }) by {
            lemma_spot(keys, k);
            let at = spot(keys, k);
            if at < keys.len() {
                lemma_spot_is(keys_of(next), k, at);
            } else {
                lemma_spot_is(keys_of(next), k, keys.len() as int + 1);
            }
        }
        assert(spot(keys_of(next), a) == keys.len()) by {
            lemma_spot_is(keys_of(next), a, keys.len() as int);
        }
        assert forall|k: A| #[trigger] map_of(next).dom().contains(k) == map_of(pairs).insert(
            a,
            b,
        ).dom().contains(k) by {
            lemma_spot(keys, k);
        }
        assert forall|k: A| #[trigger] map_of(next).dom().contains(k) implies map_of(next)[k]
            == map_of(pairs).insert(a, b)[k] by {
            lemma_spot(keys, k);
        }
        assert(map_of(next) =~= map_of(pairs).insert(a, b));
    }
}

/// Taking `a` out changes the map there and nowhere else.
pub proof fn taking_out_removes<A, B>(pairs: Seq<(A, B)>, a: A)
    requires
        keys_of(pairs).no_duplicates(),
    ensures
        map_of(without(pairs, a)) == map_of(pairs).remove(a),
        keys_of(without(pairs, a)).no_duplicates(),
{
    let keys = keys_of(pairs);
    let next = without(pairs, a);
    let i = spot(keys, a);
    lemma_spot(keys, a);
    if i < pairs.len() {
        assert(keys_of(next) =~= keys.remove(i));
        assert forall|k: A| k != a implies spot(keys_of(next), k) == (if spot(keys, k) < i {
            spot(keys, k)
        } else {
            spot(keys, k) - 1
        }) by {
            lemma_spot(keys, k);
            let at = spot(keys, k);
            assert(at != i);
            if at < i {
                lemma_spot_is(keys_of(next), k, at);
            } else {
                lemma_spot_is(keys_of(next), k, at - 1);
            }
        }
        assert(spot(keys_of(next), a) == next.len()) by {
            assert forall|j: int| 0 <= j < next.len() implies keys_of(next)[j] != a by {
                let from = if j < i {
                    j
                } else {
                    j + 1
                };
                assert(keys[from] != a);
            }
            lemma_spot_is(keys_of(next), a, next.len() as int);
        }
        assert forall|k: A| #[trigger] map_of(next).dom().contains(k) == map_of(pairs).remove(
            a,
        ).dom().contains(k) by {
            lemma_spot(keys, k);
        }
        assert forall|k: A| #[trigger] map_of(next).dom().contains(k) implies map_of(next)[k]
            == map_of(pairs).remove(a)[k] by {
            lemma_spot(keys, k);
        }
    }
    assert(map_of(next) =~= map_of(pairs).remove(a));
}

pub proof fn lemma_next_pair<A, B>(pairs: Seq<(A, B)>, i: int)
    requires
        0 <= i < pairs.len(),
        keys_of(pairs).no_duplicates(),
    ensures
        pairs.take(i + 1) == put(pairs.take(i), pairs[i].0, pairs[i].1),
{
    let part = pairs.take(i);
    let a = pairs[i].0;
    lemma_spot(keys_of(part), a);
    let at = spot(keys_of(part), a);
    if at < part.len() {
        assert(keys_of(pairs)[at] == a);
        assert(keys_of(pairs)[i] == a);
    }
    assert(pairs.take(i + 1) =~= part.push(pairs[i]));
}

/// A map from `K` to `V`. Iteration follows the order in which the keys came.
pub struct Keyed<K: Key, V> {
    entries: Vec<(K, V)>,
}

impl<K: Key, V> View for Keyed<K, V> {
    type V = Map<K::V, V>;

    open spec fn view(&self) -> Map<K::V, V> {
        map_of(self.pairs())
    }
}

impl<K: Key, V> Keyed<K, V> {
    /// The pairs in the order in which their keys came.
    pub closed spec fn pairs(&self) -> Seq<(K::V, V)> {
        self.entries@.map_values(|e: (K, V)| (e.0@, e.1))
    }

    #[verifier::type_invariant]
    spec fn distinct(&self) -> bool {
        keys_of(self.pairs()).no_duplicates()
    }

    /// A map without entries.
    pub fn new() -> (r: Self)
        ensures
            r.pairs() == Seq::<(K::V, V)>::empty(),
            r@ == Map::<K::V, V>::empty(),
    {
        let r = Keyed { entries: Vec::new() };
        proof {
            assert(r.pairs() =~= Seq::empty());
            assert(r@ =~= Map::empty());
        }
        r
    }

    /// How many keys the map has. No key occurs twice.
    pub fn len(&self) -> (r: usize)
        ensures
            r == self.pairs().len(),
            keys_of(self.pairs()).no_duplicates(),
    {
        proof {
            use_type_invariant(self);
        }
        self.entries.len()
    }

    /// Whether the map has no key.
    pub fn is_empty(&self) -> (r: bool)
        ensures
            r == (self.pairs().len() == 0),
            r == (self@ == Map::<K::V, V>::empty()),
    {
        proof {
            if self.pairs().len() == 0 {
                assert(self@ =~= Map::empty());
            } else {
                let k = self.pairs()[0].0;
                assert(keys_of(self.pairs())[0] == k);
                assert(self@.dom().contains(k));
            }
        }
        self.entries.len() == 0
    }

    fn index_of(&self, key: &K) -> (r: usize)
        ensures
            r == spot(keys_of(self.pairs()), key@),
            r <= self.entries@.len(),
    {
        let mut i: usize = 0;
        while i < self.entries.len() && !self.entries[i].0.same(key)
            invariant
                i <= self.entries@.len(),
                forall|j: int| 0 <= j < i ==> keys_of(self.pairs())[j] != key@,
            decreases self.entries@.len() - i,
        {
            i += 1;
        }
        proof {
            lemma_spot_is(keys_of(self.pairs()), key@, i as int);
        }
        i
    }

    /// The value of `key`.
    pub fn get(&self, key: &K) -> (r: Option<&V>)
        ensures
            match r {
                Some(v) => self@.dom().contains(key@) && self@[key@] == *v,
                None => !self@.dom().contains(key@),
            },
    {
        let i = self.index_of(key);
        if i < self.entries.len() {
            Some(&self.entries[i].1)
        } else {
            None
        }
    }

    /// Whether `key` has a value.
    pub fn contains_key(&self, key: &K) -> (r: bool)
        ensures
            r == self@.dom().contains(key@),
    {
        self.index_of(key) < self.entries.len()
    }

    /// The key and the value in place `i`.
    pub fn entry(&self, i: usize) -> (r: (&K, &V))
        requires
            i < self.pairs().len(),
        ensures
            self.pairs()[i as int] == (r.0@, *r.1),
    {
        let e = &self.entries[i];
        (&e.0, &e.1)
    }

    /// Gives `key` a value, in place of the one that it has.
    pub fn insert(&mut self, key: K, value: V)
        ensures
            final(self).pairs() == put(old(self).pairs(), key@, value),
            final(self)@ == old(self)@.insert(key@, value),
    {
        proof {
            use_type_invariant(&*self);
            putting_inserts(self.pairs(), key@, value);
        }
        let ghost before = self.pairs();
        let ghost k = key@;
        let i = self.index_of(&key);
        let mut entries: Vec<(K, V)> = Vec::new();
        std::mem::swap(&mut entries, &mut self.entries);
        if i < entries.len() {
            entries.set(i, (key, value));
        } else {
            entries.push((key, value));
        }
        proof {
            let after = entries@.map_values(|e: (K, V)| (e.0@, e.1));
            assert(after =~= put(before, k, value));
        }
        self.entries = entries;
    }

    /// Takes `key` out and hands back the value that it had.
    pub fn remove(&mut self, key: &K) -> (r: Option<V>)
        ensures
            final(self).pairs() == without(old(self).pairs(), key@),
            final(self)@ == old(self)@.remove(key@),
            match r {
                Some(v) => old(self)@.dom().contains(key@) && old(self)@[key@] == v,
                None => !old(self)@.dom().contains(key@),
            },
    {
        proof {
            use_type_invariant(&*self);
            taking_out_removes(self.pairs(), key@);
        }
        let ghost before = self.pairs();
        let i = self.index_of(key);
        if i >= self.entries.len() {
            return None;
        }
        let mut entries: Vec<(K, V)> = Vec::new();
        std::mem::swap(&mut entries, &mut self.entries);
        let e = entries.remove(i);
        proof {
            let after = entries@.map_values(|e: (K, V)| (e.0@, e.1));
            assert(after =~= without(before, key@));
        }
        self.entries = entries;
        Some(e.1)
    }
}

} // verus!
