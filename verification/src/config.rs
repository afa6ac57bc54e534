//! Settings: a configuration file layered under the environment.

use crate::keyed::{lemma_spot, spot};
use crate::text::{
    affixes_come_off, decimal, decimal_text, halves, lacks, lowered, number, opt_str, opt_text,
    parse_capped, parse_u64, pieces, same_text, split_char, split_once_char,
    splitting_cuts_at_separators, starts_with, strip_prefix, stripped_prefix, texts, trim, trimmed,
    trimming_leaves_what_is_between, whole_number,
};
use crate::theme::{flavor_named, Flavor};
use vstd::prelude::*;

verus! {

/// The bytes of one gibibyte.
pub const GIB: u64 = 1_073_741_824;

/// The warning threshold where none is set, in percent.
pub const DEFAULT_WARN_PCT: u64 = 85;

/// The critical threshold where none is set, in percent.
pub const DEFAULT_CRIT_PCT: u64 = 90;

/// The memory cap where none is set, in gibibytes.
pub const DEFAULT_CAP_GIB: u64 = 24;

/// A prefix of container names and the repository that the containers' jobs run for.
/// A rule without a repository leaves its containers unmatched.
#[derive(Debug, PartialEq)]
pub struct PrefixRule {
    pub prefix: String,
    pub repo: Option<String>,
}

/// The content of a [`PrefixRule`].
pub struct RuleView {
    pub prefix: Seq<char>,
    pub repo: Option<Seq<char>>,
}

impl View for PrefixRule {
    type V = RuleView;

    open spec fn view(&self) -> RuleView {
        RuleView { prefix: self.prefix@, repo: opt_text(self.repo) }
    }
}

impl Clone for PrefixRule {
    fn clone(&self) -> (r: Self)
        ensures
            r == *self,
    {
        PrefixRule { prefix: self.prefix.clone(), repo: clone_text(&self.repo) }
    }
}

/// A copy of an optional string.
pub fn clone_text(o: &Option<String>) -> (r: Option<String>)
    ensures
        r == *o,
{
    match o {
        Some(s) => Some(s.clone()),
        None => None,
    }
}

/// The contents of a row of rules.
pub open spec fn rule_views(rules: Seq<PrefixRule>) -> Seq<RuleView> {
    rules.map_values(|r: PrefixRule| r@)
}

/// The `repo` key of the file: one text, or a list of them. Each text may hold
/// several repositories, with commas between them.
#[derive(Debug)]
pub enum RepoField {
    One(String),
    Many(Vec<String>),
}

/// An entry of the file's `prefix` list.
#[derive(Debug)]
pub struct PrefixEntry {
    pub prefix: String,
    pub repo: Option<String>,
}

/// The `prefix` key of the file: one prefix, or a list of entries.
#[derive(Debug)]
pub enum PrefixField {
    One(String),
    Many(Vec<PrefixEntry>),
}

/// The settings of the configuration file. Each may be missing.
#[derive(Debug)]
pub struct FileConfig {
    pub socket: Option<String>,
    pub repo: Option<RepoField>,
    pub prefix: Option<PrefixField>,
    pub slice_cap_gib: Option<u64>,
    pub theme: Option<String>,
}

impl Default for FileConfig {
    fn default() -> (r: Self)
        ensures
            r.socket is None,
            r.repo is None,
            r.prefix is None,
            r.slice_cap_gib is None,
            r.theme is None,
    {
        FileConfig { socket: None, repo: None, prefix: None, slice_cap_gib: None, theme: None }
    }
}

/// The environment: the variables that are set, and their values.
#[derive(Debug)]
pub struct Env {
    pub vars: Vec<(String, String)>,
}

impl View for Env {
    type V = Seq<(Seq<char>, Seq<char>)>;

    open spec fn view(&self) -> Seq<(Seq<char>, Seq<char>)> {
        self.vars@.map_values(|v: (String, String)| (v.0@, v.1@))
    }
}

/// The value of the first variable named `key`.
pub open spec fn lookup(env: Seq<(Seq<char>, Seq<char>)>, key: Seq<char>) -> Option<Seq<char>>
    decreases env.len(),
{
    if env.len() == 0 {
        None
    } else if env[0].0 == key {
        Some(env[0].1)
    } else {
        lookup(env.skip(1), key)
    }
}

/// The value of a variable, where it is set to something.
pub open spec fn setting(env: Seq<(Seq<char>, Seq<char>)>, key: Seq<char>) -> Option<Seq<char>> {
    match lookup(env, key) {
        Some(v) => if v.len() > 0 {
            Some(v)
        } else {
            None
        },
        None => None,
    }
}

/// The value of a variable; one that is set to nothing counts as unset.
pub fn env_nonempty(env: &Env, key: &str) -> (r: Option<String>)
    ensures
        opt_text(r) == setting(env@, key@),
{
    let ghost all = env@;
    let mut i: usize = 0;
    assert(all.skip(0) =~= all);
    while i < env.vars.len()
        invariant
            i <= env.vars@.len(),
            all == env@,
            lookup(all, key@) == lookup(all.skip(i as int), key@),
        decreases env.vars@.len() - i,
    {
        assert(all.skip(i as int)[0] == all[i as int]);
        if same_text(env.vars[i].0.as_str(), key) {
            return if env.vars[i].1.as_str().is_empty() {
                None
            } else {
                Some(env.vars[i].1.clone())
            };
        }
        assert(all.skip(i as int).skip(1) =~= all.skip(i + 1));
        i += 1;
    }
    None
}

/// The percentage that a text gives: a whole number of any size with whitespace round it,
/// or `default` where there is none, and 100 where that is larger.
pub open spec fn percent(raw: Option<Seq<char>>, default: u64) -> int {
    let n = match raw {
        Some(s) => match whole_number(trimmed(s)) {
            Some(v) => v as int,
            None => default as int,
        },
        None => default as int,
    };
    if n <= 100 {
        n
    } else {
        100
    }
}

/// The percentage that `raw` gives, or `default`, and no more than 100.
pub fn parse_pct(raw: Option<&str>, default: u64) -> (r: u64)
    ensures
        r == percent(opt_str(raw), default),
{
    let n: u64 = match raw {
        Some(s) => {
            let bare = trim(s);
            match parse_capped(bare.as_str(), 100) {
                Some(v) => v,
                None => default,
            }
        },
        None => default,
    };
    if n <= 100 {
        n
    } else {
        100
    }
}

/// The warning and the critical threshold, in percent. The warning threshold never
/// exceeds the critical one.
pub fn resolve_thresholds(warn_raw: Option<&str>, crit_raw: Option<&str>) -> (r: (u64, u64))
    ensures
        r.1 == percent(opt_str(crit_raw), DEFAULT_CRIT_PCT),
        r.0 == (if percent(opt_str(warn_raw), DEFAULT_WARN_PCT) <= r.1 {
            percent(opt_str(warn_raw), DEFAULT_WARN_PCT)
        } else {
            r.1 as int
        }),
        r.0 <= r.1 <= 100,
{
    let crit = parse_pct(crit_raw, DEFAULT_CRIT_PCT);
    let warn = parse_pct(warn_raw, DEFAULT_WARN_PCT);
    (if warn <= crit {
        warn
    } else {
        crit
    }, crit)
}

/// The path of a Unix socket in the value of `DOCKER_HOST`.
pub open spec fn unix_socket(h: Seq<char>) -> Option<Seq<char>> {
    match stripped_prefix(h, "unix://"@) {
        Some(path) => Some(path),
        None => if h.len() > 0 && h[0] == '/' {
            Some(h)
        } else {
            None
        },
    }
}

/// The path of a Unix socket in the value of `DOCKER_HOST`: what follows `unix://`,
/// or an absolute path. Every other scheme gives none.
pub fn unix_socket_from_docker_host(h: &str) -> (r: Option<String>)
    ensures
        opt_text(r) == unix_socket(h@),
{
    match strip_prefix(h, "unix://") {
        Some(path) => Some(path),
        None => if starts_with_slash(h) {
            Some(h.to_owned())
        } else {
            None
        },
    }
}

fn starts_with_slash(h: &str) -> (r: bool)
    ensures
        r == (h@.len() > 0 && h@[0] == '/'),
{
    proof {
        reveal_strlit("/");
        assert("/"@ =~= seq!['/']);
        if h@.len() > 0 {
            assert(h@.subrange(0, 1) =~= seq![h@[0]]);
        }
        assert("/"@.is_prefix_of(h@) ==> h@.subrange(0, 1)[0] == '/');
    }
    starts_with(h, "/")
}

/// The socket of a user's own Docker daemon.
pub open spec fn default_socket(uid: u32) -> Seq<char> {
    "/run/user/"@ + decimal(uid as nat) + "/docker.sock"@
}

/// The socket of a user's own Docker daemon.
pub fn default_socket_path(uid: u32) -> (r: String)
    ensures
        r@ == default_socket(uid),
{
    let mut out = "/run/user/".to_owned();
    let digits = decimal_text(uid as u64);
    out.append(digits.as_str());
    out.append("/docker.sock");
    out
}

/// Where the configuration file is.
#[derive(Debug, PartialEq)]
pub enum ConfigPath {
    /// Named by the user: the file has to be there.
    Explicit(String),
    /// The usual place: the file may be missing.
    Default(String),
    /// Nowhere: nothing says where to look.
    Nowhere,
}

/// The content of a [`ConfigPath`].
pub enum PathView {
    Explicit(Seq<char>),
    Default(Seq<char>),
    Nowhere,
}

impl View for ConfigPath {
    type V = PathView;

    open spec fn view(&self) -> PathView {
        match self {
            ConfigPath::Explicit(p) => PathView::Explicit(p@),
            ConfigPath::Default(p) => PathView::Default(p@),
            ConfigPath::Nowhere => PathView::Nowhere,
        }
    }
}

/// A relative path below a directory: a slash goes between them unless the directory
/// ends with one.
pub open spec fn below(dir: Seq<char>, name: Seq<char>) -> Seq<char> {
    if dir.len() == 0 || dir.last() == '/' {
        dir + name
    } else {
        dir + seq!['/'] + name
    }
}

fn path_below(dir: &str, name: &str) -> (r: String)
    ensures
        r@ == below(dir@, name@),
{
    let n = dir.unicode_len();
    let mut out = dir.to_owned();
    if n > 0 && dir.get_char(n - 1) != '/' {
        out.push('/');
        assert(out@ =~= dir@ + seq!['/']);
    }
    out.append(name);
    out
}

/// Where the configuration file is: `PITWALL_CONFIG` names it, or else it lies below
/// `XDG_CONFIG_HOME`, or else below `HOME`.
pub open spec fn config_path(env: Seq<(Seq<char>, Seq<char>)>) -> PathView {
    match setting(env, "PITWALL_CONFIG"@) {
        Some(p) => PathView::Explicit(p),
        None => match setting(env, "XDG_CONFIG_HOME"@) {
            Some(dir) => PathView::Default(below(below(dir, "pitwall"@), "config.toml"@)),
            None => match setting(env, "HOME"@) {
                Some(dir) => PathView::Default(
                    below(below(below(dir, ".config"@), "pitwall"@), "config.toml"@),
                ),
                None => PathView::Nowhere,
            },
        },
    }
}

/// Where the configuration file is.
pub fn resolve_config_path(env: &Env) -> (r: ConfigPath)
    ensures
        r@ == config_path(env@),
{
    if let Some(p) = env_nonempty(env, "PITWALL_CONFIG") {
        return ConfigPath::Explicit(p);
    }
    if let Some(xdg) = env_nonempty(env, "XDG_CONFIG_HOME") {
        let dir = path_below(xdg.as_str(), "pitwall");
        return ConfigPath::Default(path_below(dir.as_str(), "config.toml"));
    }
    if let Some(home) = env_nonempty(env, "HOME") {
        let dot = path_below(home.as_str(), ".config");
        let dir = path_below(dot.as_str(), "pitwall");
        return ConfigPath::Default(path_below(dir.as_str(), "config.toml"));
    }
    ConfigPath::Nowhere
}

/// What became of reading the configuration file, with the reason where it failed.
#[derive(Debug)]
pub enum FileRead {
    Text(String),
    NotFound(String),
    Failed(String),
}

/// What follows from reading the configuration file.
#[derive(Debug)]
pub enum FileStep {
    /// There is no file: every setting is missing.
    NoFile,
    /// The text has to be parsed; `context` goes in front of a parser's complaint.
    Parse { text: String, context: String },
    /// The file cannot be had.
    Fail { context: String, cause: String },
}

/// What follows from reading the file at `cp`: a missing file fails only where the
/// user named it, every other failure fails, and a text has to be parsed.
pub open spec fn step_after(cp: PathView, read: FileRead, step: FileStep) -> bool {
    match (cp, read) {
        (PathView::Nowhere, _) => step is NoFile,
        (PathView::Default(_), FileRead::NotFound(_)) => step is NoFile,
        (PathView::Explicit(path), FileRead::NotFound(why)) => step matches FileStep::Fail {
            context,
            cause,
        } && context@ == "reading config file "@ + path && cause@ == why@,
        (PathView::Explicit(path), FileRead::Failed(why)) => step matches FileStep::Fail {
            context,
            cause,
        } && context@ == "reading config file "@ + path && cause@ == why@,
        (PathView::Default(path), FileRead::Failed(why)) => step matches FileStep::Fail {
            context,
            cause,
        } && context@ == "reading config file "@ + path && cause@ == why@,
        (PathView::Explicit(path), FileRead::Text(t)) => step matches FileStep::Parse {
            text,
            context,
        } && context@ == "parsing config file "@ + path && text@ == t@,
        (PathView::Default(path), FileRead::Text(t)) => step matches FileStep::Parse {
            text,
            context,
        } && context@ == "parsing config file "@ + path && text@ == t@,
    }
}

/// What follows from reading the configuration file.
pub fn load_file(cp: ConfigPath, read: FileRead) -> (r: FileStep)
    ensures
        step_after(cp@, read, r),
{
    let (path, required) = match cp {
        ConfigPath::Explicit(p) => (p, true),
        ConfigPath::Default(p) => (p, false),
        ConfigPath::Nowhere => return FileStep::NoFile,
    };
    match read {
        FileRead::Text(text) => FileStep::Parse {
            text,
            context: "parsing config file ".to_owned().concat(path.as_str()),
        },
        FileRead::NotFound(cause) => if required {
            FileStep::Fail {
                context: "reading config file ".to_owned().concat(path.as_str()),
                cause,
            }
        } else {
            FileStep::NoFile
        },
        FileRead::Failed(cause) => FileStep::Fail {
            context: "reading config file ".to_owned().concat(path.as_str()),
            cause,
        },
    }
}

/// The texts without whitespace at their ends, but for those that are then empty.
pub open spec fn tidy(parts: Seq<Seq<char>>) -> Seq<Seq<char>>
    decreases parts.len(),
{
    if parts.len() == 0 {
        Seq::empty()
    } else {
        let front = tidy(parts.drop_last());
        let last = trimmed(parts.last());
        if last.len() > 0 {
            front.push(last)
        } else {
            front
        }
    }
}

/// The repositories that a text lists, with commas between them.
pub open spec fn repos_in(s: Seq<char>) -> Seq<Seq<char>> {
    tidy(pieces(s, ','))
}

/// The repositories that `s` lists.
pub fn split_repos(s: &str) -> (r: Vec<String>)
    ensures
        texts(r@) == repos_in(s@),
{
    let parts = split_char(s, ',');
    let ghost all = pieces(s@, ',');
    let mut out: Vec<String> = Vec::new();
    let mut i: usize = 0;
    assert(texts(out@) =~= tidy(all.take(0)));
    while i < parts.len()
        invariant
            i <= parts@.len(),
            texts(parts@) == all,
            texts(out@) == tidy(all.take(i as int)),
        decreases parts@.len() - i,
    {
        let ghost before = texts(out@);
        let bare = trim(parts[i].as_str());
        proof {
            assert(texts(parts@)[i as int] == parts@[i as int]@);
            assert(all.take(i + 1).drop_last() =~= all.take(i as int));
            assert(all.take(i + 1).last() == parts@[i as int]@);
        }
        if !bare.as_str().is_empty() {
            let ghost b = bare@;
            out.push(bare);
            assert(texts(out@) =~= before.push(b));
        }
        i += 1;
    }
    assert(all.take(all.len() as int) =~= all);
    out
}

/// The first occurrence of each item, in order.
pub open spec fn first_of_each<T>(s: Seq<T>) -> Seq<T>
    decreases s.len(),
{
    if s.len() == 0 {
        s
    } else {
        let front = first_of_each(s.drop_last());
        if front.contains(s.last()) {
            front
        } else {
            front.push(s.last())
        }
    }
}

/// Whether `v` holds the text `s`.
pub fn holds_text(v: &Vec<String>, s: &str) -> (r: bool)
    ensures
        r == texts(v@).contains(s@),
{
    let mut i: usize = 0;
    while i < v.len()
        invariant
            i <= v@.len(),
            forall|j: int| 0 <= j < i ==> texts(v@)[j] != s@,
        decreases v@.len() - i,
    {
        if same_text(v[i].as_str(), s) {
            assert(texts(v@)[i as int] == s@);
            return true;
        }
        i += 1;
    }
    false
}

/// The first occurrence of each text, in order.
pub fn dedup_preserve(v: Vec<String>) -> (r: Vec<String>)
    ensures
        texts(r@) == first_of_each(texts(v@)),
{
    let ghost all = texts(v@);
    let mut out: Vec<String> = Vec::new();
    let mut i: usize = 0;
    assert(texts(out@) =~= first_of_each(all.take(0)));
    while i < v.len()
        invariant
            i <= v@.len(),
            all == texts(v@),
            texts(out@) == first_of_each(all.take(i as int)),
        decreases v@.len() - i,
    {
        let ghost before = texts(out@);
        proof {
            assert(all.take(i + 1).drop_last() =~= all.take(i as int));
            assert(all.take(i + 1).last() == v@[i as int]@);
        }
        if !holds_text(&out, v[i].as_str()) {
            out.push(v[i].clone());
            assert(texts(out@) =~= before.push(v@[i as int]@));
        }
        i += 1;
    }
    assert(all.take(all.len() as int) =~= all);
    out
}

/// Deduplication keeps every item once and adds none.
pub proof fn dedup_keeps_each_item_once<T>(s: Seq<T>)
    ensures
        first_of_each(s).no_duplicates(),
        forall|x: T|
            #![trigger first_of_each(s).contains(x)]
            #![trigger s.contains(x)]
            first_of_each(s).contains(x) <==> s.contains(x),
    decreases s.len(),
{
    if s.len() > 0 {
        let front = s.drop_last();
        dedup_keeps_each_item_once(front);
        let d = first_of_each(front);
        let r = first_of_each(s);
        assert forall|x: T|
            #![trigger r.contains(x)]
            #![trigger s.contains(x)]
            r.contains(x) <==> s.contains(x) by {
            if s.contains(x) && x != s.last() {
                let i = choose|i: int| 0 <= i < s.len() && s[i] == x;
                assert(front[i] == x);
                assert(front.contains(x));
                assert(d.contains(x));
                let j = choose|j: int| 0 <= j < d.len() && d[j] == x;
                assert(r[j] == x);
            }
            if x == s.last() {
                assert(s[s.len() - 1] == x);
                if !d.contains(x) {
                    assert(r[d.len() as int] == x);
                }
            }
            if r.contains(x) && x != s.last() {
                let j = choose|j: int| 0 <= j < r.len() && r[j] == x;
                assert(d[j] == x);
                assert(front.contains(x));
                let i = choose|i: int| 0 <= i < front.len() && front[i] == x;
                assert(s[i] == x);
            }
        }
    }
}

/// Deduplication keeps the items in the order of their first occurrences.
pub proof fn dedup_keeps_the_order<T>(s: Seq<T>, a: int, b: int)
    requires
        0 <= a < b < first_of_each(s).len(),
    ensures
        spot(s, first_of_each(s)[a]) < spot(s, first_of_each(s)[b]),
    decreases s.len(),
{
    if s.len() > 0 {
        let front = s.drop_last();
        let d = first_of_each(front);
        let r = first_of_each(s);
        dedup_keeps_each_item_once(front);
        assert forall|k: int| 0 <= k < d.len() implies spot(s, #[trigger] d[k]) == spot(front, d[k])
            && spot(front, d[k]) < front.len() by {
            assert(d.contains(d[k]));
            assert(front.contains(d[k]));
            lemma_spot_of_front(s, d[k]);
        }
        if b < d.len() {
            assert(r[a] == d[a] && r[b] == d[b]);
            dedup_keeps_the_order(front, a, b);
        } else {
            let x = s.last();
            assert(r[b] == x && r[a] == d[a]);
            assert(!front.contains(x));
            lemma_spot(s, x);
            if spot(s, x) < front.len() {
                assert(front[spot(s, x)] == x);
            }
        }
    }
}

proof fn lemma_spot_of_front<T>(s: Seq<T>, x: T)
    requires
        s.len() > 0,
        s.drop_last().contains(x),
    ensures
        spot(s, x) == spot(s.drop_last(), x),
        spot(s, x) < s.len() - 1,
    decreases s.len(),
{
    let front = s.drop_last();
    let i = choose|i: int| 0 <= i < front.len() && front[i] == x;
    assert(front[i] == x);
    if s[0] != x {
        assert(front.skip(1)[i - 1] == x);
        assert(s.skip(1).drop_last() =~= front.skip(1));
        lemma_spot_of_front(s.skip(1), x);
    }
}

/// Deduplication of a longer list begins with that of the shorter one.
pub proof fn dedup_of_more_begins_the_same<T>(a: Seq<T>, b: Seq<T>)
    ensures
        first_of_each(a).is_prefix_of(first_of_each(a + b)),
    decreases b.len(),
{
    if b.len() == 0 {
        assert(a + b =~= a);
    } else {
        dedup_of_more_begins_the_same(a, b.drop_last());
        assert((a + b).drop_last() =~= a + b.drop_last());
        let d = first_of_each(a);
        let more = first_of_each(a + b.drop_last());
        let r = first_of_each(a + b);
        assert(r.subrange(0, d.len() as int) =~= more.subrange(0, d.len() as int));
    }
}

/// The repositories that a list of texts lists.
pub open spec fn repos_in_all(parts: Seq<Seq<char>>) -> Seq<Seq<char>>
    decreases parts.len(),
{
    if parts.len() == 0 {
        Seq::empty()
    } else {
        repos_in_all(parts.drop_last()) + repos_in(parts.last())
    }
}

/// The repositories of the file's `repo` key.
pub open spec fn file_repos(f: Option<RepoField>) -> Seq<Seq<char>> {
    match f {
        Some(RepoField::One(s)) => repos_in(s@),
        Some(RepoField::Many(v)) => repos_in_all(texts(v@)),
        None => Seq::empty(),
    }
}

/// The repositories of the file's `repo` key.
pub fn repo_field_to_vec(f: Option<RepoField>) -> (r: Vec<String>)
    ensures
        texts(r@) == file_repos(f),
{
    match f {
        Some(RepoField::One(s)) => split_repos(s.as_str()),
        Some(RepoField::Many(v)) => {
            let ghost all = texts(v@);
            let mut out: Vec<String> = Vec::new();
            let mut i: usize = 0;
            assert(texts(out@) =~= repos_in_all(all.take(0)));
            while i < v.len()
                invariant
                    i <= v@.len(),
                    all == texts(v@),
                    texts(out@) == repos_in_all(all.take(i as int)),
                decreases v@.len() - i,
            {
                let ghost before = out@;
                let mut more = split_repos(v[i].as_str());
                let ghost added = more@;
                proof {
                    assert(all.take(i + 1).drop_last() =~= all.take(i as int));
                    assert(all.take(i + 1).last() == v@[i as int]@);
                }
                out.append(&mut more);
                assert(texts(out@) =~= texts(before) + texts(added));
                i += 1;
            }
            assert(all.take(all.len() as int) =~= all);
            out
        },
        None => {
            let out: Vec<String> = Vec::new();
            assert(texts(out@) =~= Seq::empty());
            out
        },
    }
}

/// A text, unless it is empty.
pub open spec fn unless_empty(s: Seq<char>) -> Option<Seq<char>> {
    if s.len() > 0 {
        Some(s)
    } else {
        None
    }
}

fn some_unless_empty(s: String) -> (r: Option<String>)
    ensures
        opt_text(r) == unless_empty(s@),
{
    if s.as_str().is_empty() {
        None
    } else {
        Some(s)
    }
}

/// The rule that an entry of `PITWALL_PREFIX` gives: a prefix, and behind an equals
/// sign a repository. An entry with an empty prefix gives none.
pub open spec fn env_rule(raw: Seq<char>) -> Option<RuleView> {
    let prefix = match halves(raw, '=') {
        Some((p, _)) => trimmed(p),
        None => trimmed(raw),
    };
    let repo = match halves(raw, '=') {
        Some((_, r)) => unless_empty(trimmed(r)),
        None => None,
    };
    if prefix.len() > 0 {
        Some(RuleView { prefix, repo })
    } else {
        None
    }
}

/// The content of an optional rule.
pub open spec fn opt_rule(r: Option<PrefixRule>) -> Option<RuleView> {
    match r {
        Some(rule) => Some(rule@),
        None => None,
    }
}

/// The rule that an entry of `PITWALL_PREFIX` gives.
pub fn parse_env_prefix_entry(raw: &str) -> (r: Option<PrefixRule>)
    ensures
        opt_rule(r) == env_rule(raw@),
{
    let (prefix, repo) = match split_once_char(raw, '=') {
        Some((p, r)) => {
            let bare = trim(r.as_str());
            (trim(p.as_str()), some_unless_empty(bare))
        },
        None => (trim(raw), None),
    };
    if prefix.as_str().is_empty() {
        return None;
    }
    Some(PrefixRule { prefix, repo })
}

/// The rules that the entries of `PITWALL_PREFIX` give.
pub open spec fn env_rules(parts: Seq<Seq<char>>) -> Seq<RuleView>
    decreases parts.len(),
{
    if parts.len() == 0 {
        Seq::empty()
    } else {
        let front = env_rules(parts.drop_last());
        match env_rule(parts.last()) {
            Some(rule) => front.push(rule),
            None => front,
        }
    }
}

/// The rule of an entry of the file's `prefix` list.
pub open spec fn file_rule(e: PrefixEntry) -> Option<RuleView> {
    let prefix = trimmed(e.prefix@);
    let repo = match e.repo {
        Some(r) => unless_empty(trimmed(r@)),
        None => None,
    };
    if prefix.len() > 0 {
        Some(RuleView { prefix, repo })
    } else {
        None
    }
}

/// The rules of the file's `prefix` list.
pub open spec fn file_rules(entries: Seq<PrefixEntry>) -> Seq<RuleView>
    decreases entries.len(),
{
    if entries.len() == 0 {
        Seq::empty()
    } else {
        let front = file_rules(entries.drop_last());
        match file_rule(entries.last()) {
            Some(rule) => front.push(rule),
            None => front,
        }
    }
}

/// The rules that were given: those of the environment, or else those of the file.
pub open spec fn given_rules(
    env_val: Option<Seq<char>>,
    file: Option<PrefixField>,
) -> Seq<RuleView> {
    match env_val {
        Some(v) => env_rules(pieces(v, ',')),
        None => match file {
            Some(PrefixField::One(s)) => if trimmed(s@).len() > 0 {
                seq![RuleView { prefix: trimmed(s@), repo: None }]
            } else {
                Seq::empty()
            },
            Some(PrefixField::Many(entries)) => file_rules(entries@),
            None => Seq::empty(),
        },
    }
}

/// The rule where none was given.
pub open spec fn built_in_rule() -> RuleView {
    RuleView { prefix: "ci-runner-"@, repo: None }
}

/// The rules: the ones that were given, or the built-in one.
pub open spec fn all_rules(
    env_val: Option<Seq<char>>,
    file: Option<PrefixField>,
) -> Seq<RuleView> {
    let given = given_rules(env_val, file);
    if given.len() > 0 {
        given
    } else {
        seq![built_in_rule()]
    }
}

fn rules_from_env(v: &str) -> (r: Vec<PrefixRule>)
    ensures
        rule_views(r@) == env_rules(pieces(v@, ',')),
{
    let parts = split_char(v, ',');
    let ghost all = pieces(v@, ',');
    let mut out: Vec<PrefixRule> = Vec::new();
    let mut i: usize = 0;
    assert(rule_views(out@) =~= env_rules(all.take(0)));
    while i < parts.len()
        invariant
            i <= parts@.len(),
            texts(parts@) == all,
            rule_views(out@) == env_rules(all.take(i as int)),
        decreases parts@.len() - i,
    {
        let ghost before = rule_views(out@);
        proof {
            assert(texts(parts@)[i as int] == parts@[i as int]@);
            assert(all.take(i + 1).drop_last() =~= all.take(i as int));
            assert(all.take(i + 1).last() == parts@[i as int]@);
        }
        if let Some(rule) = parse_env_prefix_entry(parts[i].as_str()) {
            let ghost view = rule@;
            out.push(rule);
            assert(rule_views(out@) =~= before.push(view));
        }
        i += 1;
    }
    assert(all.take(all.len() as int) =~= all);
    out
}

fn rules_from_entries(entries: &Vec<PrefixEntry>) -> (r: Vec<PrefixRule>)
    ensures
        rule_views(r@) == file_rules(entries@),
{
    let mut out: Vec<PrefixRule> = Vec::new();
    let mut i: usize = 0;
    assert(rule_views(out@) =~= file_rules(entries@.take(0)));
    while i < entries.len()
        invariant
            i <= entries@.len(),
            rule_views(out@) == file_rules(entries@.take(i as int)),
        decreases entries@.len() - i,
    {
        let ghost before = rule_views(out@);
        proof {
            assert(entries@.take(i + 1).drop_last() =~= entries@.take(i as int));
            assert(entries@.take(i + 1).last() == entries@[i as int]);
        }
        let prefix = trim(entries[i].prefix.as_str());
        if !prefix.as_str().is_empty() {
            let repo = match &entries[i].repo {
                Some(r) => some_unless_empty(trim(r.as_str())),
                None => None,
            };
            let rule = PrefixRule { prefix, repo };
            let ghost view = rule@;
            out.push(rule);
            assert(rule_views(out@) =~= before.push(view));
        }
        i += 1;
    }
    assert(entries@.take(entries@.len() as int) =~= entries@);
    out
}

/// The rules: those of the environment, or else those of the file, or else the
/// built-in one.
pub fn resolve_prefixes(env_val: Option<String>, file: Option<PrefixField>) -> (r: Vec<
    PrefixRule,
>)
    ensures
        rule_views(r@) == all_rules(opt_text(env_val), file),
        r@.len() > 0,
{
    let ghost given = given_rules(opt_text(env_val), file);
    let mut rules: Vec<PrefixRule> = match env_val {
        Some(v) => rules_from_env(v.as_str()),
        None => match file {
            Some(PrefixField::One(s)) => {
                let bare = trim(s.as_str());
                let mut one: Vec<PrefixRule> = Vec::new();
                if !bare.as_str().is_empty() {
                    one.push(PrefixRule { prefix: bare, repo: None });
                }
                assert(rule_views(one@) =~= given);
                one
            },
            Some(PrefixField::Many(entries)) => rules_from_entries(&entries),
            None => {
                let none: Vec<PrefixRule> = Vec::new();
                assert(rule_views(none@) =~= given);
                none
            },
        },
    };
    assert(rule_views(rules@).len() == rules@.len());
    if rules.len() == 0 {
        rules.push(PrefixRule { prefix: "ci-runner-".to_owned(), repo: None });
        assert(rule_views(rules@) =~= seq![built_in_rule()]);
    }
    rules
}

/// The rules after the first one, where it has no repository, is given the first
/// configured one.
pub open spec fn with_first_repo(
    rules: Seq<RuleView>,
    configured: Seq<Seq<char>>,
) -> Seq<RuleView> {
    if rules.len() > 0 && rules[0].repo is None && configured.len() > 0 {
        rules.update(0, RuleView { prefix: rules[0].prefix, repo: Some(configured[0]) })
    } else {
        rules
    }
}

/// Gives the first rule, where it has no repository, the first configured one.
pub fn fold_implicit_first_repo(rules: &mut Vec<PrefixRule>, configured_repos: &[String])
    ensures
        rule_views(final(rules)@) == with_first_repo(
            rule_views(old(rules)@),
            texts(configured_repos@),
        ),
{
    if rules.len() > 0 && configured_repos.len() > 0 && rules[0].repo.is_none() {
        let ghost before = rule_views(rules@);
        let rule = PrefixRule {
            prefix: rules[0].prefix.clone(),
            repo: Some(configured_repos[0].clone()),
        };
        let ghost view = rule@;
        rules.set(0, rule);
        assert(rule_views(rules@) =~= before.update(0, view));
    }
}

/// Only the first rule can take over a configured repository: every other rule, and
/// every rule that has a repository, stays as it is. So no two rules without a
/// repository come to share one.
pub proof fn only_the_first_rule_takes_over_a_repo(
    rules: Seq<RuleView>,
    configured: Seq<Seq<char>>,
    i: int,
)
    requires
        0 <= i < rules.len(),
    ensures
        with_first_repo(rules, configured).len() == rules.len(),
        with_first_repo(rules, configured)[i].prefix == rules[i].prefix,
        i > 0 || rules[i].repo is Some ==> with_first_repo(rules, configured)[i] == rules[i],
{
}

/// The repositories that rules name, in order.
pub open spec fn mapped_repos(rules: Seq<RuleView>) -> Seq<Seq<char>>
    decreases rules.len(),
{
    if rules.len() == 0 {
        Seq::empty()
    } else {
        let front = mapped_repos(rules.drop_last());
        match rules.last().repo {
            Some(repo) => front.push(repo),
            None => front,
        }
    }
}

/// The repositories to poll: the configured ones and then those that rules name, each
/// once.
pub fn prefix_poll_seed(configured_repos: &[String], prefixes: &[PrefixRule]) -> (r: Vec<String>)
    ensures
        texts(r@) == first_of_each(
            texts(configured_repos@) + mapped_repos(rule_views(prefixes@)),
        ),
{
    let ghost configured = texts(configured_repos@);
    let ghost rules = rule_views(prefixes@);
    let mut seed: Vec<String> = Vec::new();
    let mut n: usize = 0;
    assert(texts(seed@) =~= configured.take(0));
    while n < configured_repos.len()
        invariant
            n <= configured_repos@.len(),
            configured == texts(configured_repos@),
            texts(seed@) == configured.take(n as int),
        decreases configured_repos@.len() - n,
    {
        let ghost before = texts(seed@);
        seed.push(configured_repos[n].clone());
        proof {
            assert(texts(seed@) =~= before.push(configured[n as int]));
            assert(configured.take(n + 1) =~= configured.take(n as int).push(configured[n as int]));
        }
        n += 1;
    }
    let mut i: usize = 0;
    assert(configured.take(configured.len() as int) =~= configured);
    assert(texts(seed@) =~= configured + mapped_repos(rules.take(0)));
    while i < prefixes.len()
        invariant
            i <= prefixes@.len(),
            rules == rule_views(prefixes@),
            texts(seed@) == configured + mapped_repos(rules.take(i as int)),
        decreases prefixes@.len() - i,
    {
        let ghost before = texts(seed@);
        proof {
            assert(rules.take(i + 1).drop_last() =~= rules.take(i as int));
            assert(rules.take(i + 1).last() == prefixes@[i as int]@);
        }
        if let Some(repo) = &prefixes[i].repo {
            seed.push(repo.clone());
            assert(texts(seed@) =~= before.push(repo@));
        }
        assert(texts(seed@) =~= configured + mapped_repos(rules.take(i + 1)));
        i += 1;
    }
    assert(rules.take(rules.len() as int) =~= rules);
    dedup_preserve(seed)
}

/// The poll list holds every configured repository and every one that a rule names,
/// none of them twice, and the configured ones come first and in their order.
pub proof fn poll_seed_covers_config_and_rules(
    configured: Seq<Seq<char>>,
    rules: Seq<RuleView>,
    repo: Seq<char>,
)
    ensures
        ({
            let seed = first_of_each(configured + mapped_repos(rules));
            &&& seed.no_duplicates()
            &&& first_of_each(configured).is_prefix_of(seed)
            &&& seed.contains(repo) <==> (configured.contains(repo) || mapped_repos(rules).contains(
                repo,
            ))
        }),
{
    let all = configured + mapped_repos(rules);
    dedup_keeps_each_item_once(all);
    dedup_of_more_begins_the_same(configured, mapped_repos(rules));
    assert(all.contains(repo) <==> (configured.contains(repo) || mapped_repos(rules).contains(
        repo,
    ))) by {
        if configured.contains(repo) {
            let i = choose|i: int| 0 <= i < configured.len() && configured[i] == repo;
            assert(all[i] == repo);
        }
        if mapped_repos(rules).contains(repo) {
            let m = mapped_repos(rules);
            let i = choose|i: int| 0 <= i < m.len() && m[i] == repo;
            assert(all[configured.len() + i] == repo);
        }
        if all.contains(repo) {
            let i = choose|i: int| 0 <= i < all.len() && all[i] == repo;
            if i >= configured.len() {
                assert(mapped_repos(rules)[i - configured.len()] == repo);
            } else {
                assert(configured[i] == repo);
            }
        }
    }
}

/// The settings that are in force.
#[derive(Debug)]
pub struct Config {
    pub socket_path: String,
    pub prefixes: Vec<PrefixRule>,
    pub slice_cap_bytes: u64,
    pub flavor: Flavor,
    pub warn_pct: u64,
    pub crit_pct: u64,
    /// The repositories that are polled for jobs.
    pub repos: Vec<String>,
    /// The organisations that are polled for busy runners.
    pub orgs: Vec<String>,
    /// The repositories that the user configured.
    pub configured_repos: Vec<String>,
}

/// The content of a [`Config`].
#[verifier::ext_equal]
pub struct ConfigView {
    pub socket_path: Seq<char>,
    pub prefixes: Seq<RuleView>,
    pub slice_cap_bytes: int,
    pub flavor: Flavor,
    pub warn_pct: int,
    pub crit_pct: int,
    pub repos: Seq<Seq<char>>,
    pub orgs: Seq<Seq<char>>,
    pub configured_repos: Seq<Seq<char>>,
}

impl View for Config {
    type V = ConfigView;

    open spec fn view(&self) -> ConfigView {
        ConfigView {
            socket_path: self.socket_path@,
            prefixes: rule_views(self.prefixes@),
            slice_cap_bytes: self.slice_cap_bytes as int,
            flavor: self.flavor,
            warn_pct: self.warn_pct as int,
            crit_pct: self.crit_pct as int,
            repos: texts(self.repos@),
            orgs: texts(self.orgs@),
            configured_repos: texts(self.configured_repos@),
        }
    }
}

impl Clone for Config {
    fn clone(&self) -> (r: Self)
        ensures
            r@ == self@,
    {
        let mut prefixes: Vec<PrefixRule> = Vec::new();
        let mut i: usize = 0;
        while i < self.prefixes.len()
            invariant
                i <= self.prefixes@.len(),
                prefixes@ == self.prefixes@.take(i as int),
            decreases self.prefixes@.len() - i,
        {
            prefixes.push(self.prefixes[i].clone());
            assert(self.prefixes@.take(i + 1) =~= self.prefixes@.take(i as int).push(
                self.prefixes@[i as int],
            ));
            i += 1;
        }
        assert(self.prefixes@.take(self.prefixes@.len() as int) =~= self.prefixes@);
        Config {
            socket_path: self.socket_path.clone(),
            prefixes,
            slice_cap_bytes: self.slice_cap_bytes,
            flavor: self.flavor,
            warn_pct: self.warn_pct,
            crit_pct: self.crit_pct,
            repos: clone_texts(self.repos.as_slice()),
            orgs: clone_texts(self.orgs.as_slice()),
            configured_repos: clone_texts(self.configured_repos.as_slice()),
        }
    }
}

/// The socket in force: the environment's, or else the file's, or else the one in
/// `DOCKER_HOST`, or else the user's own.
pub open spec fn socket_in_force(
    file: Option<Seq<char>>,
    env: Seq<(Seq<char>, Seq<char>)>,
    uid: u32,
) -> Seq<char> {
    match setting(env, "PITWALL_SOCKET"@) {
        Some(s) => s,
        None => match file {
            Some(s) => s,
            None => match setting(env, "DOCKER_HOST"@) {
                Some(h) => match unix_socket(h) {
                    Some(s) => s,
                    None => default_socket(uid),
                },
                None => default_socket(uid),
            },
        },
    }
}

/// The configured repositories: the environment's, or else the file's.
pub open spec fn repos_in_force(
    file: Option<RepoField>,
    env: Seq<(Seq<char>, Seq<char>)>,
) -> Seq<Seq<char>> {
    first_of_each(
        match setting(env, "PITWALL_REPO"@) {
            Some(v) => repos_in(v),
            None => file_repos(file),
        },
    )
}

/// The memory cap in gibibytes: the environment's where it is a number, or else the
/// file's, or else the default.
pub open spec fn cap_in_force(file: Option<u64>, env: Seq<(Seq<char>, Seq<char>)>) -> int {
    let given = match setting(env, "PITWALL_SLICE_CAP_GIB"@) {
        Some(v) => number(v, u64::MAX as nat),
        None => None,
    };
    match given {
        Some(n) => n as int,
        None => match file {
            Some(n) => n as int,
            None => DEFAULT_CAP_GIB as int,
        },
    }
}

/// The flavor in force: the environment's, or else the file's.
pub open spec fn flavor_in_force(
    file: Option<Seq<char>>,
    env: Seq<(Seq<char>, Seq<char>)>,
) -> Flavor {
    match setting(env, "PITWALL_THEME"@) {
        Some(v) => flavor_named(v),
        None => match file {
            Some(v) => flavor_named(v),
            None => flavor_named(Seq::empty()),
        },
    }
}

/// The settings in force for a file, an environment and a user.
pub open spec fn resolved(
    file: FileConfig,
    env: Seq<(Seq<char>, Seq<char>)>,
    uid: u32,
) -> ConfigView {
    let repos = repos_in_force(file.repo, env);
    let crit = percent(setting(env, "PITWALL_MEM_CRIT_PCT"@), DEFAULT_CRIT_PCT);
    let warn = percent(setting(env, "PITWALL_MEM_WARN_PCT"@), DEFAULT_WARN_PCT);
    let cap = cap_in_force(file.slice_cap_gib, env);
    ConfigView {
        socket_path: socket_in_force(opt_text(file.socket), env, uid),
        prefixes: with_first_repo(
            all_rules(setting(env, "PITWALL_PREFIX"@), file.prefix),
            repos,
        ),
        slice_cap_bytes: if cap * GIB <= u64::MAX {
            cap * GIB
        } else {
            u64::MAX as int
        },
        flavor: flavor_in_force(opt_text(file.theme), env),
        warn_pct: if warn <= crit {
            warn
        } else {
            crit
        },
        crit_pct: crit,
        repos,
        orgs: Seq::empty(),
        configured_repos: repos,
    }
}

fn resolve_socket(file: Option<String>, env: &Env, uid: u32) -> (r: String)
    ensures
        r@ == socket_in_force(opt_text(file), env@, uid),
{
    if let Some(s) = env_nonempty(env, "PITWALL_SOCKET") {
        return s;
    }
    if let Some(s) = file {
        return s;
    }
    if let Some(h) = env_nonempty(env, "DOCKER_HOST") {
        if let Some(s) = unix_socket_from_docker_host(h.as_str()) {
            return s;
        }
    }
    default_socket_path(uid)
}

fn resolve_cap(file: Option<u64>, env: &Env) -> (r: u64)
    ensures
        r == (if cap_in_force(file, env@) * GIB <= u64::MAX {
            cap_in_force(file, env@) * GIB
        } else {
            u64::MAX as int
        }),
{
    let given: Option<u64> = match env_nonempty(env, "PITWALL_SLICE_CAP_GIB") {
        Some(s) => parse_u64(s.as_str()),
        None => None,
    };
    let gib: u64 = match given {
        Some(n) => n,
        None => match file {
            Some(n) => n,
            None => DEFAULT_CAP_GIB,
        },
    };
    match gib.checked_mul(GIB) {
        Some(bytes) => bytes,
        None => u64::MAX,
    }
}

/// Copies of the texts.
pub fn clone_texts(v: &[String]) -> (r: Vec<String>)
    ensures
        texts(r@) == texts(v@),
{
    let mut out: Vec<String> = Vec::new();
    let mut i: usize = 0;
    while i < v.len()
        invariant
            i <= v@.len(),
            out@ == v@.take(i as int),
        decreases v@.len() - i,
    {
        out.push(v[i].clone());
        assert(v@.take(i + 1) =~= v@.take(i as int).push(v@[i as int]));
        i += 1;
    }
    assert(v@.take(v@.len() as int) =~= v@);
    out
}

/// The settings in force: for each key a usable value of the environment wins over the
/// file's, and the file's over the default.
pub fn resolve(file: FileConfig, env: &Env, uid: u32) -> (r: Config)
    ensures
        r@ == resolved(file, env@, uid),
        r.warn_pct <= r.crit_pct <= 100,
        r.prefixes@.len() > 0,
{
    let socket_path = resolve_socket(file.socket, env, uid);
    let listed = match env_nonempty(env, "PITWALL_REPO") {
        Some(v) => split_repos(v.as_str()),
        None => repo_field_to_vec(file.repo),
    };
    let configured_repos = dedup_preserve(listed);
    let mut prefixes = resolve_prefixes(env_nonempty(env, "PITWALL_PREFIX"), file.prefix);
    assert(rule_views(prefixes@).len() == prefixes@.len());
    fold_implicit_first_repo(&mut prefixes, configured_repos.as_slice());
    assert(rule_views(prefixes@).len() == prefixes@.len());
    let slice_cap_bytes = resolve_cap(file.slice_cap_gib, env);
    let flavor = match env_nonempty(env, "PITWALL_THEME") {
        Some(v) => Flavor::parse_lenient(v.as_str()),
        None => match file.theme {
            Some(v) => Flavor::parse_lenient(v.as_str()),
            None => {
                proof {
                    reveal_strlit("");
                    assert(""@ =~= Seq::<char>::empty());
                }
                Flavor::parse_lenient("")
            },
        },
    };
    let warn_raw = env_nonempty(env, "PITWALL_MEM_WARN_PCT");
    let crit_raw = env_nonempty(env, "PITWALL_MEM_CRIT_PCT");
    let (warn_pct, crit_pct) = resolve_thresholds(as_str(&warn_raw), as_str(&crit_raw));
    let r = Config {
        repos: clone_texts(configured_repos.as_slice()),
        orgs: Vec::new(),
        socket_path,
        configured_repos,
        prefixes,
        slice_cap_bytes,
        flavor,
        warn_pct,
        crit_pct,
    };
    assert(r@ =~= resolved(file, env@, uid));
    r
}

fn as_str(o: &Option<String>) -> (r: Option<&str>)
    ensures
        opt_str(r) == opt_text(*o),
{
    match o {
        Some(s) => Some(s.as_str()),
        None => None,
    }
}

/// A variable that is set to nothing counts as unset.
pub proof fn empty_variables_count_as_unset(env: Seq<(Seq<char>, Seq<char>)>, key: Seq<char>)
    requires
        lookup(env, key) matches Some(v) ==> v.len() == 0,
    ensures
        setting(env, key) is None,
{
}

/// Where a variable is set to something usable the file's value does not matter. The
/// thresholds are never taken from the file.
pub proof fn the_environment_wins_over_the_file(
    a: FileConfig,
    b: FileConfig,
    env: Seq<(Seq<char>, Seq<char>)>,
    uid: u32,
)
    ensures
        ({
            let x = resolved(a, env, uid);
            let y = resolved(b, env, uid);
            &&& setting(env, "PITWALL_SOCKET"@) is Some ==> x.socket_path == y.socket_path
            &&& setting(env, "PITWALL_REPO"@) is Some ==> x.configured_repos == y.configured_repos
            &&& setting(env, "PITWALL_REPO"@) is Some && setting(env, "PITWALL_PREFIX"@) is Some
                ==> x.prefixes == y.prefixes
            &&& (setting(env, "PITWALL_SLICE_CAP_GIB"@) matches Some(v) && number(
                v,
                u64::MAX as nat,
            ) is Some) ==> x.slice_cap_bytes == y.slice_cap_bytes
            &&& setting(env, "PITWALL_THEME"@) is Some ==> x.flavor == y.flavor
            &&& x.warn_pct == y.warn_pct && x.crit_pct == y.crit_pct
        }),
{
}

/// The contents of these are those of their fields.
pub proof fn setting_contents_are_those_of_the_fields(
    rule: PrefixRule,
    cfg: Config,
    env: Env,
    path: ConfigPath,
    i: int,
)
    ensures
        rule@.prefix == rule.prefix@,
        rule.repo matches Some(r) ==> rule@.repo == Some(r@),
        rule.repo is None ==> rule@.repo is None,
        cfg@.socket_path == cfg.socket_path@,
        cfg@.slice_cap_bytes == cfg.slice_cap_bytes,
        cfg@.flavor == cfg.flavor,
        cfg@.warn_pct == cfg.warn_pct,
        cfg@.crit_pct == cfg.crit_pct,
        cfg@.repos == texts(cfg.repos@),
        cfg@.orgs == texts(cfg.orgs@),
        cfg@.configured_repos == texts(cfg.configured_repos@),
        cfg@.prefixes.len() == cfg.prefixes@.len(),
        0 <= i < cfg.prefixes@.len() ==> cfg@.prefixes[i] == cfg.prefixes@[i]@,
        env@.len() == env.vars@.len(),
        0 <= i < env.vars@.len() ==> env@[i].0 == env.vars@[i].0@ && env@[i].1 == env.vars@[i].1@,
        path matches ConfigPath::Explicit(p) ==> path@ == PathView::Explicit(p@),
        path matches ConfigPath::Default(p) ==> path@ == PathView::Default(p@),
        path is Nowhere ==> path@ is Nowhere,
{
}

/// A variable has the value that it is first given.
pub proof fn variables_have_their_first_value(
    env: Seq<(Seq<char>, Seq<char>)>,
    key: Seq<char>,
    i: int,
)
    requires
        0 <= i < env.len(),
        env[i].0 == key,
        forall|j: int| 0 <= j < i ==> (#[trigger] env[j]).0 != key,
    ensures
        lookup(env, key) == Some(env[i].1),
        env[i].1.len() > 0 ==> setting(env, key) == Some(env[i].1),
        env[i].1.len() == 0 ==> setting(env, key) is None,
    decreases env.len(),
{
    if i > 0 {
        assert(env[0].0 != key);
        let rest = env.skip(1);
        assert forall|j: int| 0 <= j < i - 1 implies (#[trigger] rest[j]).0 != key by {
            assert(rest[j] == env[j + 1]);
        }
        variables_have_their_first_value(rest, key, i - 1);
    }
}

/// A variable that is nowhere given has no value.
pub proof fn variables_that_are_not_given_are_unset(
    env: Seq<(Seq<char>, Seq<char>)>,
    key: Seq<char>,
)
    requires
        forall|j: int| 0 <= j < env.len() ==> (#[trigger] env[j]).0 != key,
    ensures
        setting(env, key) is None,
    decreases env.len(),
{
    if env.len() > 0 {
        assert(env[0].0 != key);
        let rest = env.skip(1);
        assert forall|j: int| 0 <= j < rest.len() implies (#[trigger] rest[j]).0 != key by {
            assert(rest[j] == env[j + 1]);
        }
        variables_that_are_not_given_are_unset(rest, key);
    }
}

/// Each threshold comes from its own variable: a whole number is taken as it is, up to 100,
/// and the warning threshold up to the critical one. Otherwise they are 90 and 85.
pub proof fn each_threshold_comes_from_its_own_variable(
    file: FileConfig,
    env: Seq<(Seq<char>, Seq<char>)>,
    uid: u32,
    text: Seq<char>,
    n: nat,
)
    ensures
        ({
            let c = resolved(file, env, uid);
            let warn = setting(env, "PITWALL_MEM_WARN_PCT"@);
            let crit = setting(env, "PITWALL_MEM_CRIT_PCT"@);
            let read = whole_number(trimmed(text)) == Some(n);
            &&& crit == Some(text) && read && n <= 100 ==> c.crit_pct == n
            &&& crit == Some(text) && read && n > 100 ==> c.crit_pct == 100
            &&& crit is None || (crit == Some(text) && whole_number(trimmed(text)) is None)
                ==> c.crit_pct == 90
            &&& warn == Some(text) && read && n <= c.crit_pct ==> c.warn_pct == n
            &&& warn == Some(text) && read && n > c.crit_pct ==> c.warn_pct == c.crit_pct
            &&& warn is None || (warn == Some(text) && whole_number(trimmed(text)) is None)
                ==> c.warn_pct == (if 85 <= c.crit_pct {
                85
            } else {
                c.crit_pct
            })
        }),
{
}

/// Settings do not interfere: where two environments agree on the variables of a setting,
/// the setting is the same, whatever the others hold.
pub proof fn settings_do_not_interfere(
    file: FileConfig,
    a: Seq<(Seq<char>, Seq<char>)>,
    b: Seq<(Seq<char>, Seq<char>)>,
    uid: u32,
)
    ensures
        ({
            let x = resolved(file, a, uid);
            let y = resolved(file, b, uid);
            let crit = setting(a, "PITWALL_MEM_CRIT_PCT"@) == setting(b, "PITWALL_MEM_CRIT_PCT"@);
            let repo = setting(a, "PITWALL_REPO"@) == setting(b, "PITWALL_REPO"@);
            &&& crit ==> x.crit_pct == y.crit_pct
            &&& crit && setting(a, "PITWALL_MEM_WARN_PCT"@) == setting(b, "PITWALL_MEM_WARN_PCT"@)
                ==> x.warn_pct == y.warn_pct
            &&& repo ==> x.configured_repos == y.configured_repos && x.repos == y.repos
            &&& repo && setting(a, "PITWALL_PREFIX"@) == setting(b, "PITWALL_PREFIX"@)
                ==> x.prefixes == y.prefixes
            &&& setting(a, "PITWALL_SLICE_CAP_GIB"@) == setting(b, "PITWALL_SLICE_CAP_GIB"@)
                ==> x.slice_cap_bytes == y.slice_cap_bytes
            &&& setting(a, "PITWALL_THEME"@) == setting(b, "PITWALL_THEME"@) ==> x.flavor
                == y.flavor
            &&& setting(a, "PITWALL_SOCKET"@) == setting(b, "PITWALL_SOCKET"@) && setting(
                a,
                "DOCKER_HOST"@,
            ) == setting(b, "DOCKER_HOST"@) ==> x.socket_path == y.socket_path
        }),
{
}

/// The socket is the one that the environment names, or else the file, or else
/// `DOCKER_HOST` as an address or a path of a Unix socket, or else the user's own.
pub proof fn sockets_come_from_where_they_are_named(
    file: FileConfig,
    env: Seq<(Seq<char>, Seq<char>)>,
    uid: u32,
    path: Seq<char>,
)
    ensures
        ({
            let socket = resolved(file, env, uid).socket_path;
            let named = setting(env, "PITWALL_SOCKET"@);
            let host = setting(env, "DOCKER_HOST"@);
            let own = "/run/user/"@ + decimal(uid as nat) + "/docker.sock"@;
            let unnamed = named is None && file.socket is None;
            &&& named == Some(path) ==> socket == path
            &&& named is None && file.socket is Some ==> socket == file.socket->0@
            &&& unnamed && host == Some("unix://"@ + path) ==> socket == path
            &&& unnamed && path.len() > 0 && path[0] == '/' && host == Some(path) ==> socket == path
            &&& unnamed && host is None ==> socket == own
            &&& unnamed && host == Some(path) && !"unix://"@.is_prefix_of(path) && (path.len() == 0
                || path[0] != '/') ==> socket == own
        }),
{
    affixes_come_off("unix://"@, path);
    reveal_strlit("unix://");
    if "unix://"@.is_prefix_of(path) {
        assert(path.subrange(0, 7)[0] == 'u');
    }
}

/// The memory cap is the environment's number of gibibytes, or else the file's, or else 24;
/// it stops at the largest number of bytes.
pub proof fn caps_are_gibibytes(
    file: FileConfig,
    env: Seq<(Seq<char>, Seq<char>)>,
    uid: u32,
    text: Seq<char>,
    n: nat,
)
    ensures
        ({
            let cap = resolved(file, env, uid).slice_cap_bytes;
            let given = setting(env, "PITWALL_SLICE_CAP_GIB"@);
            let usable = given == Some(text) && number(text, u64::MAX as nat) == Some(n);
            let unusable = given is None || (given == Some(text) && number(
                text,
                u64::MAX as nat,
            ) is None);
            &&& usable && n * 1_073_741_824 <= u64::MAX ==> cap == n * 1_073_741_824
            &&& usable && n * 1_073_741_824 > u64::MAX ==> cap == u64::MAX
            &&& unusable && file.slice_cap_gib is Some && file.slice_cap_gib->0 * 1_073_741_824
                <= u64::MAX ==> cap == file.slice_cap_gib->0 * 1_073_741_824
            &&& unusable && file.slice_cap_gib is None ==> cap == 25_769_803_776
        }),
{
}

/// The flavor is the one that the environment names, or else the file, or else Mocha.
pub proof fn flavors_come_from_where_they_are_named(
    file: FileConfig,
    env: Seq<(Seq<char>, Seq<char>)>,
    uid: u32,
    name: Seq<char>,
)
    ensures
        ({
            let flavor = resolved(file, env, uid).flavor;
            let named = setting(env, "PITWALL_THEME"@);
            &&& named == Some(name) ==> flavor == flavor_named(name)
            &&& named is None && file.theme is Some ==> flavor == flavor_named(file.theme->0@)
            &&& named is None && file.theme is None ==> flavor is Mocha
        }),
{
    reveal_strlit("macchiato");
    reveal_strlit("frappe");
    reveal_strlit("latte");
    let none = Seq::<char>::empty();
    trimming_leaves_what_is_between(none, none, none);
    assert(none + none + none =~= none);
    assert(lowered(none).len() == 0);
    assert("macchiato"@.len() == 9 && "frappe"@.len() == 6 && "latte"@.len() == 5);
}

/// Repositories are listed with commas between them; whitespace round them and empty places
/// do not count.
pub proof fn repositories_are_listed_with_commas(a: Seq<char>, rest: Seq<char>)
    requires
        lacks(a, ','),
    ensures
        trimmed(a).len() > 0 ==> repos_in(a) == seq![trimmed(a)],
        trimmed(a).len() == 0 ==> repos_in(a).len() == 0,
        repos_in(a + seq![','] + rest) == repos_in(a) + repos_in(rest),
{
    splitting_cuts_at_separators(a, ',', rest);
    lemma_tidy_concat(seq![a], pieces(rest, ','));
    reveal_with_fuel(tidy, 2);
    assert(seq![a].drop_last() =~= Seq::empty());
    if trimmed(a).len() > 0 {
        assert(repos_in(a) =~= seq![trimmed(a)]);
    }
}

proof fn lemma_tidy_concat(a: Seq<Seq<char>>, b: Seq<Seq<char>>)
    ensures
        tidy(a + b) == tidy(a) + tidy(b),
    decreases b.len(),
{
    if b.len() == 0 {
        assert(a + b =~= a);
    } else {
        lemma_tidy_concat(a, b.drop_last());
        assert((a + b).drop_last() =~= a + b.drop_last());
    }
    assert(tidy(a + b) =~= tidy(a) + tidy(b));
}

/// The configured repositories are those that the environment lists, or else the file, each
/// once; they are polled, and no organisation is.
pub proof fn configured_repositories_are_those_listed(
    file: FileConfig,
    env: Seq<(Seq<char>, Seq<char>)>,
    uid: u32,
    list: Seq<char>,
    repo: Seq<char>,
)
    ensures
        ({
            let c = resolved(file, env, uid);
            let given = setting(env, "PITWALL_REPO"@);
            &&& c.configured_repos.no_duplicates()
            &&& c.repos == c.configured_repos
            &&& c.orgs.len() == 0
            &&& given == Some(list) ==> (c.configured_repos.contains(repo) <==> repos_in(
                list,
            ).contains(repo))
            &&& given is None ==> match file.repo {
                Some(RepoField::One(s)) => c.configured_repos.contains(repo) <==> repos_in(
                    s@,
                ).contains(repo),
                Some(RepoField::Many(v)) => c.configured_repos.contains(repo) <==> repos_in_all(
                    texts(v@),
                ).contains(repo),
                None => c.configured_repos.len() == 0,
            }
        }),
{
    match setting(env, "PITWALL_REPO"@) {
        Some(v) => {
            dedup_keeps_each_item_once(repos_in(v));
        },
        None => {
            dedup_keeps_each_item_once(file_repos(file.repo));
        },
    }
}

/// Each text of the file's list adds the repositories that it lists.
pub proof fn lists_of_repositories_add_up(parts: Seq<Seq<char>>, last: Seq<char>)
    ensures
        repos_in_all(Seq::empty()).len() == 0,
        repos_in_all(parts.push(last)) == repos_in_all(parts) + repos_in(last),
{
    assert(parts.push(last).drop_last() =~= parts);
}

/// An entry of `PITWALL_PREFIX` is a prefix, or a prefix, an equals sign and its repository;
/// whitespace round either does not count, and an empty repository is none.
pub proof fn prefix_entries_may_name_a_repository(prefix: Seq<char>, repo: Seq<char>)
    requires
        lacks(prefix, '='),
    ensures
        trimmed(prefix).len() > 0 && trimmed(repo).len() > 0 ==> env_rule(
            prefix + seq!['='] + repo,
        ) == Some(RuleView { prefix: trimmed(prefix), repo: Some(trimmed(repo)) }),
        trimmed(prefix).len() > 0 && trimmed(repo).len() == 0 ==> env_rule(
            prefix + seq!['='] + repo,
        ) == Some(RuleView { prefix: trimmed(prefix), repo: None }),
        trimmed(prefix).len() > 0 ==> env_rule(prefix) == Some(
            RuleView { prefix: trimmed(prefix), repo: None },
        ),
        trimmed(prefix).len() == 0 ==> env_rule(prefix) is None && env_rule(
            prefix + seq!['='] + repo,
        ) is None,
{
    splitting_cuts_at_separators(prefix, '=', repo);
}

proof fn lemma_env_rules_concat(a: Seq<Seq<char>>, b: Seq<Seq<char>>)
    ensures
        env_rules(a + b) == env_rules(a) + env_rules(b),
    decreases b.len(),
{
    if b.len() == 0 {
        assert(a + b =~= a);
    } else {
        lemma_env_rules_concat(a, b.drop_last());
        assert((a + b).drop_last() =~= a + b.drop_last());
    }
    assert(env_rules(a + b) =~= env_rules(a) + env_rules(b));
}

/// The entries of `PITWALL_PREFIX` are separated by commas, and give their rules in order,
/// whatever the file holds.
pub proof fn prefix_entries_are_listed_with_commas(
    a: Seq<char>,
    rest: Seq<char>,
    file: Option<PrefixField>,
)
    requires
        lacks(a, ','),
    ensures
        env_rule(a) matches Some(rule) ==> given_rules(Some(a), file) == seq![rule],
        env_rule(a) is None ==> given_rules(Some(a), file).len() == 0,
        given_rules(Some(a + seq![','] + rest), file) == given_rules(Some(a), file) + given_rules(
            Some(rest),
            file,
        ),
{
    splitting_cuts_at_separators(a, ',', rest);
    lemma_env_rules_concat(seq![a], pieces(rest, ','));
    reveal_with_fuel(env_rules, 2);
    assert(seq![a].drop_last() =~= Seq::empty());
    if let Some(rule) = env_rule(a) {
        assert(env_rules(seq![a]) =~= seq![rule]);
    }
}

/// The file's rules are its prefix, or those of its entries that have one, in order, each
/// with its own repository.
pub proof fn file_entries_give_their_rules(
    entries: Seq<PrefixEntry>,
    last: PrefixEntry,
    s: String,
)
    ensures
        file_rules(Seq::empty()).len() == 0,
        trimmed(last.prefix@).len() == 0 ==> file_rules(entries.push(last)) == file_rules(entries),
        trimmed(last.prefix@).len() > 0 ==> file_rules(entries.push(last)).len() == file_rules(
            entries,
        ).len() + 1 && file_rules(entries.push(last)).drop_last() == file_rules(entries)
            && file_rules(entries.push(last)).last().prefix == trimmed(last.prefix@),
        trimmed(last.prefix@).len() > 0 && (last.repo is None || trimmed(last.repo->0@).len() == 0)
            ==> file_rules(entries.push(last)).last().repo is None,
        trimmed(last.prefix@).len() > 0 && last.repo is Some && trimmed(last.repo->0@).len() > 0
            ==> file_rules(entries.push(last)).last().repo == Some(trimmed(last.repo->0@)),
        given_rules(None, None).len() == 0,
        trimmed(s@).len() > 0 ==> given_rules(None, Some(PrefixField::One(s))) == seq![
            RuleView { prefix: trimmed(s@), repo: None },
        ],
        trimmed(s@).len() == 0 ==> given_rules(None, Some(PrefixField::One(s))).len() == 0,
{
    assert(entries.push(last).drop_last() =~= entries);
    if trimmed(last.prefix@).len() > 0 {
        assert(file_rules(entries.push(last)).drop_last() =~= file_rules(entries));
    }
}

/// The rules in force are those that were given, and `ci-runner-` where none was. The first
/// of them, where it has no repository, takes over the first configured one.
pub proof fn rules_in_force_are_those_given(
    file: FileConfig,
    env: Seq<(Seq<char>, Seq<char>)>,
    uid: u32,
    i: int,
)
    ensures
        ({
            let c = resolved(file, env, uid);
            let given = given_rules(setting(env, "PITWALL_PREFIX"@), file.prefix);
            &&& given.len() == 0 ==> c.prefixes.len() == 1 && c.prefixes[0].prefix == "ci-runner-"@
            &&& given.len() > 0 ==> c.prefixes.len() == given.len()
            &&& 0 <= i < given.len() ==> c.prefixes[i].prefix == given[i].prefix
            &&& 0 < i < given.len() ==> c.prefixes[i].repo == given[i].repo
            &&& given.len() > 0 && given[0].repo is Some ==> c.prefixes[0].repo == given[0].repo
            &&& (given.len() == 0 || given[0].repo is None) && c.configured_repos.len() > 0
                ==> c.prefixes[0].repo == Some(c.configured_repos[0])
            &&& (given.len() == 0 || given[0].repo is None) && c.configured_repos.len() == 0
                ==> c.prefixes[0].repo is None
        }),
{
}

/// The repositories that rules name are those of the rules that name one, in order.
pub proof fn rules_name_their_repositories(rules: Seq<RuleView>, last: RuleView)
    ensures
        mapped_repos(Seq::empty()).len() == 0,
        last.repo matches Some(r) ==> mapped_repos(rules.push(last)) == mapped_repos(rules).push(r),
        last.repo is None ==> mapped_repos(rules.push(last)) == mapped_repos(rules),
{
    assert(rules.push(last).drop_last() =~= rules);
}

/// The configuration file is the one that `PITWALL_CONFIG` names, or else the one below
/// `XDG_CONFIG_HOME`, or else the one below `.config` in `HOME`.
pub proof fn the_file_lies_where_the_environment_says(
    env: Seq<(Seq<char>, Seq<char>)>,
    dir: Seq<char>,
)
    requires
        dir.len() > 0,
        dir.last() != '/',
    ensures
        ({
            let named = setting(env, "PITWALL_CONFIG"@);
            let xdg = setting(env, "XDG_CONFIG_HOME"@);
            let home = setting(env, "HOME"@);
            &&& named == Some(dir) ==> config_path(env) == PathView::Explicit(dir)
            &&& named is None && xdg == Some(dir) ==> config_path(env) == PathView::Default(
                dir + "/pitwall/config.toml"@,
            )
            &&& named is None && xdg is None && home == Some(dir) ==> config_path(env)
                == PathView::Default(dir + "/.config/pitwall/config.toml"@)
            &&& named is None && xdg is None && home is None ==> config_path(env) is Nowhere
        }),
{
    reveal_strlit("/pitwall/config.toml");
    reveal_strlit("/.config/pitwall/config.toml");
    reveal_strlit("pitwall");
    reveal_strlit("config.toml");
    reveal_strlit(".config");
    let x = below(dir, "pitwall"@);
    assert(x.last() == 'l');
    assert(below(x, "config.toml"@) =~= dir + "/pitwall/config.toml"@);
    let y = below(dir, ".config"@);
    assert(y.last() == 'g');
    let z = below(y, "pitwall"@);
    assert(z.last() == 'l');
    assert(below(z, "config.toml"@) =~= dir + "/.config/pitwall/config.toml"@);
}

/// A file that was read is parsed; one that is missing is an error only where the user named
/// it; one that cannot be read is always an error, with its path and the reason.
pub proof fn missing_files_matter_only_where_named(
    path: Seq<char>,
    why: String,
    text: String,
    step: FileStep,
)
    ensures
        step_after(PathView::Explicit(path), FileRead::NotFound(why), step) || step_after(
            PathView::Explicit(path),
            FileRead::Failed(why),
            step,
        ) || step_after(PathView::Default(path), FileRead::Failed(why), step) ==> (
        step matches FileStep::Fail { context, cause } && context@ == "reading config file "@ + path
            && cause@ == why@),
        step_after(PathView::Default(path), FileRead::NotFound(why), step) ==> step is NoFile,
        step_after(PathView::Nowhere, FileRead::Text(text), step) ==> step is NoFile,
        step_after(PathView::Explicit(path), FileRead::Text(text), step) || step_after(
            PathView::Default(path),
            FileRead::Text(text),
            step,
        ) ==> (step matches FileStep::Parse { text: t, context } && t@ == text@ && context@
            == "parsing config file "@ + path),
{
}

/// The settings in force have each threshold from its own variable, and the socket, the cap,
/// the flavor, the repositories and the rules that are resolved for them.
pub proof fn settings_in_force_are_resolved(
    file: FileConfig,
    env: &Env,
    uid: u32,
    r: Config,
    text: Seq<char>,
    n: nat,
)
    requires
        call_ensures(resolve, (file, env, uid), r),
        whole_number(trimmed(text)) == Some(n),
    ensures
        setting(env@, "PITWALL_MEM_CRIT_PCT"@) == Some(text) && n <= 100 ==> r.crit_pct == n,
        setting(env@, "PITWALL_MEM_CRIT_PCT"@) is None ==> r.crit_pct == 90,
        setting(env@, "PITWALL_MEM_WARN_PCT"@) == Some(text) && n <= r.crit_pct ==> r.warn_pct == n,
        setting(env@, "PITWALL_MEM_WARN_PCT"@) is None && r.crit_pct >= 85 ==> r.warn_pct == 85,
        setting(env@, "PITWALL_SOCKET"@) is Some ==> r.socket_path@ == setting(
            env@,
            "PITWALL_SOCKET"@,
        )->0,
        setting(env@, "PITWALL_THEME"@) is Some ==> r.flavor == flavor_named(
            setting(env@, "PITWALL_THEME"@)->0,
        ),
        r.slice_cap_bytes == resolved(file, env@, uid).slice_cap_bytes,
        texts(r.configured_repos@) == resolved(file, env@, uid).configured_repos,
        rule_views(r.prefixes@) == resolved(file, env@, uid).prefixes,
        r.socket_path@ == resolved(file, env@, uid).socket_path,
        r.flavor == resolved(file, env@, uid).flavor,
{
    each_threshold_comes_from_its_own_variable(file, env@, uid, text, n);
    if setting(env@, "PITWALL_SOCKET"@) is Some {
        sockets_come_from_where_they_are_named(
            file,
            env@,
            uid,
            setting(env@, "PITWALL_SOCKET"@)->0,
        );
    }
    if setting(env@, "PITWALL_THEME"@) is Some {
        flavors_come_from_where_they_are_named(
            file,
            env@,
            uid,
            setting(env@, "PITWALL_THEME"@)->0,
        );
    }
    setting_contents_are_those_of_the_fields_in_force(r);
}

/// The content of the settings in force is that of their fields.
pub proof fn setting_contents_are_those_of_the_fields_in_force(c: Config)
    ensures
        c@.socket_path == c.socket_path@,
        c@.warn_pct == c.warn_pct && c@.crit_pct == c.crit_pct,
        c@.slice_cap_bytes == c.slice_cap_bytes,
        c@.flavor == c.flavor,
        c@.repos == texts(c.repos@) && c@.orgs == texts(c.orgs@),
        c@.configured_repos == texts(c.configured_repos@),
        c@.prefixes == rule_views(c.prefixes@),
{
}

/// The content of an optional rule is that of the rule.
pub proof fn optional_rules_are_there_or_not(r: PrefixRule)
    ensures
        opt_rule(Some(r)) == Some(r@),
        opt_rule(None) is None,
{
}

/// The file is looked for where the environment says, and what reading it gave decides what
/// follows: a missing file is an error only where the user named it.
pub proof fn files_are_looked_for_and_loaded(
    env: &Env,
    cp: ConfigPath,
    read: FileRead,
    step: FileStep,
)
    requires
        call_ensures(resolve_config_path, (env,), cp),
        call_ensures(load_file, (cp, read), step),
    ensures
        cp@ == config_path(env@),
        cp@ is Nowhere ==> step is NoFile,
        cp@ is Default && read is NotFound ==> step is NoFile,
        cp@ is Explicit && read is NotFound ==> step is Fail,
        cp@ !is Nowhere && read is Failed ==> step is Fail,
        cp@ !is Nowhere && read is Text ==> step is Parse,
{
}

/// The repositories to poll are the configured ones and those that rules name, each once.
pub proof fn polled_repositories_are_configured_or_named(
    configured_repos: &[String],
    prefixes: &[PrefixRule],
    r: Vec<String>,
    x: Seq<char>,
)
    requires
        call_ensures(prefix_poll_seed, (configured_repos, prefixes), r),
    ensures
        texts(r@).no_duplicates(),
        texts(r@).contains(x) <==> texts(configured_repos@).contains(x) || mapped_repos(
            rule_views(prefixes@),
        ).contains(x),
{
    let a = texts(configured_repos@);
    let b = mapped_repos(rule_views(prefixes@));
    dedup_keeps_each_item_once(a + b);
    if a.contains(x) {
        let i = choose|i: int| 0 <= i < a.len() && a[i] == x;
        assert((a + b)[i] == x);
    }
    if b.contains(x) {
        let i = choose|i: int| 0 <= i < b.len() && b[i] == x;
        assert((a + b)[a.len() + i] == x);
    }
}

/// Only the first rule, and only where it names no repository, gets the first configured
/// one.
pub proof fn the_first_rule_gets_the_first_repository(
    rules: &mut Vec<PrefixRule>,
    configured_repos: &[String],
    i: int,
)
    requires
        call_ensures(fold_implicit_first_repo, (rules, configured_repos), ()),
        0 <= i < old(rules)@.len(),
    ensures
        final(rules)@.len() == old(rules)@.len(),
        final(rules)@[i]@.prefix == old(rules)@[i]@.prefix,
        i > 0 || old(rules)@[i].repo is Some || configured_repos@.len() == 0
            ==> final(rules)@[i]@.repo == old(rules)@[i]@.repo,
        old(rules)@[0].repo is None && configured_repos@.len() > 0 ==> final(rules)@[0]@.repo
            == Some(configured_repos@[0]@),
{
    let before = rule_views(old(rules)@);
    let after = rule_views(final(rules)@);
    assert(before.len() == old(rules)@.len() && after.len() == final(rules)@.len());
    assert(before[i] == old(rules)@[i]@ && before[0] == old(rules)@[0]@);
    assert(after.len() == before.len());
    assert(after[i] == final(rules)@[i]@ && after[0] == final(rules)@[0]@);
}

/// Exactly one slash stands between a directory and what lies below it, whether or not the
/// directory is written with one at its end.
pub proof fn one_slash_stands_below_a_directory(dir: Seq<char>, name: Seq<char>)
    requires
        dir.len() > 0,
        dir.last() != '/',
    ensures
        below(dir, name) == dir + seq!['/'] + name,
        below(dir + seq!['/'], name) == below(dir, name),
{
    let closed = dir + seq!['/'];
    assert(closed.last() == '/');
}

} // verus!
