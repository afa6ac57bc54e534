//! Runners that the machine's service manager runs: how they are found, and what their
//! control groups say.

use crate::config::{clone_texts, dedup_keeps_each_item_once, dedup_preserve, first_of_each};
use crate::json::{json_of, parse, Json, JsonTree};
use crate::history::SeriesView;
use crate::keyed::Keyed;
use crate::model::{
    clone_key, keyed_row, opt_job, opt_key, resource_views, JobInfo, KeyView, ResourceView,
    RunnerKey, RunnerResource, SourceKind,
};
use crate::resource::ResourceUpdate;
use crate::stats_math::{cgroup_cpu_pct, less, mem_used, no_cpu, CpuShare};
use crate::text::{
    affixes_come_off, all_white, before_last, decimal, decimals_grow_digit_by_digit,
    drop_tail_while, ends_with, first_word, head_before_last, is_digit, is_white, join_texts, joined,
    joining_puts_separators_between, lacks, lemma_decimal, lines, lines_of, number, only, opt_str,
    opt_text, parse_u64, pieces, same_text, skip_while, split_char, splitting_cuts_at_separators,
    starts_with, strip_prefix, strip_suffix, stripped_prefix, stripped_suffix,
    taking_off_one_character, texts, the_last_separator_parts_a_text, trim, trim_end_char,
    trim_start_char, trimmed, trimming_leaves_what_is_between, word,
};
use vstd::prelude::*;

verus! {

/// What a runner is registered for: one repository, or a whole organisation.
#[derive(Debug, PartialEq, Eq)]
pub enum Scope {
    Repo(String),
    Org(String),
}

/// The content of a [`Scope`].
pub enum ScopeView {
    Repo(Seq<char>),
    Org(Seq<char>),
}

impl View for Scope {
    type V = ScopeView;

    open spec fn view(&self) -> ScopeView {
        match self {
            Scope::Repo(s) => ScopeView::Repo(s@),
            Scope::Org(s) => ScopeView::Org(s@),
        }
    }
}

impl ScopeView {
    /// The scope's text, which pairs a runner with its job.
    pub open spec fn key(self) -> Seq<char> {
        match self {
            ScopeView::Repo(s) => s,
            ScopeView::Org(s) => s,
        }
    }
}

impl Clone for Scope {
    fn clone(&self) -> (r: Self)
        ensures
            r == *self,
    {
        match self {
            Scope::Repo(s) => Scope::Repo(s.clone()),
            Scope::Org(s) => Scope::Org(s.clone()),
        }
    }
}

impl Scope {
    /// The scope's text.
    pub fn as_key(&self) -> (r: &str)
        ensures
            r@ == self@.key(),
    {
        match self {
            Scope::Repo(s) => s.as_str(),
            Scope::Org(s) => s.as_str(),
        }
    }
}

/// The content of an optional scope.
pub open spec fn opt_scope(s: Option<Scope>) -> Option<ScopeView> {
    match s {
        Some(scope) => Some(scope@),
        None => None,
    }
}

/// A runner that the service manager runs: where its control group is, and what it is
/// registered as. Without a registration it is shown but never matched with a job.
#[derive(Debug)]
pub struct NativeRunner {
    pub display: String,
    pub cgroup_path: String,
    pub scope: Option<Scope>,
    pub key: Option<RunnerKey>,
}

/// The content of a [`NativeRunner`].
pub struct NativeView {
    pub display: Seq<char>,
    pub cgroup_path: Seq<char>,
    pub scope: Option<ScopeView>,
    pub key: Option<KeyView>,
}

impl View for NativeRunner {
    type V = NativeView;

    open spec fn view(&self) -> NativeView {
        NativeView {
            display: self.display@,
            cgroup_path: self.cgroup_path@,
            scope: opt_scope(self.scope),
            key: opt_key(self.key),
        }
    }
}

impl Clone for NativeRunner {
    fn clone(&self) -> (r: Self)
        ensures
            r == *self,
    {
        NativeRunner {
            display: self.display.clone(),
            cgroup_path: self.cgroup_path.clone(),
            scope: match &self.scope {
                Some(s) => Some(s.clone()),
                None => None,
            },
            key: clone_key(&self.key),
        }
    }
}

/// The contents of a row of runners.
pub open spec fn native_views(rs: Seq<NativeRunner>) -> Seq<NativeView> {
    rs.map_values(|r: NativeRunner| r@)
}

/// The repositories that runners are registered for.
pub open spec fn repo_scopes(rs: Seq<NativeView>) -> Seq<Seq<char>>
    decreases rs.len(),
{
    if rs.len() == 0 {
        Seq::empty()
    } else {
        let front = repo_scopes(rs.drop_last());
        match rs.last().scope {
            Some(ScopeView::Repo(s)) => front.push(s),
            _ => front,
        }
    }
}

/// The organisations that runners are registered for.
pub open spec fn org_scopes(rs: Seq<NativeView>) -> Seq<Seq<char>>
    decreases rs.len(),
{
    if rs.len() == 0 {
        Seq::empty()
    } else {
        let front = org_scopes(rs.drop_last());
        match rs.last().scope {
            Some(ScopeView::Org(s)) => front.push(s),
            _ => front,
        }
    }
}

/// The scopes to poll for jobs: the repositories are `pulse_repo` and those that runners
/// are registered for, the organisations are those that runners are registered for, each
/// once.
pub fn derive_scopes(pulse_repo: &str, runners: &[NativeRunner]) -> (r: (Vec<String>, Vec<String>))
    ensures
        texts(r.0@) == first_of_each(seq![pulse_repo@] + repo_scopes(native_views(runners@))),
        texts(r.1@) == first_of_each(org_scopes(native_views(runners@))),
{
    let mut seed: Vec<String> = Vec::new();
    seed.push(pulse_repo.to_owned());
    assert(texts(seed@) =~= seq![pulse_repo@]);
    derive_scopes_from(seed.as_slice(), runners)
}

/// The scopes to poll for jobs: the repositories are those in `seed` and those that
/// runners are registered for, the organisations are those that runners are registered
/// for, each once.
pub fn derive_scopes_from(seed: &[String], runners: &[NativeRunner]) -> (r: (
    Vec<String>,
    Vec<String>,
))
    ensures
        texts(r.0@) == first_of_each(texts(seed@) + repo_scopes(native_views(runners@))),
        texts(r.1@) == first_of_each(org_scopes(native_views(runners@))),
{
    let ghost all = native_views(runners@);
    let mut repos = clone_texts(seed);
    let mut orgs: Vec<String> = Vec::new();
    let mut i: usize = 0;
    assert(texts(repos@) =~= texts(seed@) + repo_scopes(all.take(0)));
    assert(texts(orgs@) =~= org_scopes(all.take(0)));
    while i < runners.len()
        invariant
            i <= runners@.len(),
            all == native_views(runners@),
            texts(repos@) == texts(seed@) + repo_scopes(all.take(i as int)),
            texts(orgs@) == org_scopes(all.take(i as int)),
        decreases runners@.len() - i,
    {
        let ghost repos_before = texts(repos@);
        let ghost orgs_before = texts(orgs@);
        proof {
            assert(all.take(i + 1).drop_last() =~= all.take(i as int));
            assert(all.take(i + 1).last() == runners@[i as int]@);
        }
        match &runners[i].scope {
            Some(Scope::Repo(s)) => {
                repos.push(s.clone());
                assert(texts(repos@) =~= repos_before.push(s@));
            },
            Some(Scope::Org(s)) => {
                orgs.push(s.clone());
                assert(texts(orgs@) =~= orgs_before.push(s@));
            },
            None => {},
        }
        assert(texts(repos@) =~= texts(seed@) + repo_scopes(all.take(i + 1)));
        i += 1;
    }
    assert(all.take(all.len() as int) =~= all);
    (dedup_preserve(repos), dedup_preserve(orgs))
}

/// Whether a word names a runner's service unit.
pub open spec fn is_runner_unit(t: Seq<char>) -> bool {
    "actions.runner."@.is_prefix_of(t) && ".service"@.is_suffix_of(t)
}

/// The runners' units among the lines of a list of units: the first word of each line,
/// where it names one.
pub open spec fn units_in(ls: Seq<Seq<char>>) -> Seq<Seq<char>>
    decreases ls.len(),
{
    if ls.len() == 0 {
        Seq::empty()
    } else {
        let front = units_in(ls.drop_last());
        match first_word(ls.last()) {
            Some(t) => if is_runner_unit(t) {
                front.push(t)
            } else {
                front
            },
            None => front,
        }
    }
}

/// The runners' units in a list of units.
pub fn parse_units_output(s: &str) -> (r: Vec<String>)
    ensures
        texts(r@) == units_in(lines_of(s@)),
{
    let ls = lines(s);
    let ghost all = lines_of(s@);
    let mut out: Vec<String> = Vec::new();
    let mut i: usize = 0;
    assert(texts(out@) =~= units_in(all.take(0)));
    while i < ls.len()
        invariant
            i <= ls@.len(),
            texts(ls@) == all,
            texts(out@) == units_in(all.take(i as int)),
        decreases ls@.len() - i,
    {
        let ghost before = texts(out@);
        proof {
            assert(texts(ls@)[i as int] == ls@[i as int]@);
            assert(all.take(i + 1).drop_last() =~= all.take(i as int));
            assert(all.take(i + 1).last() == ls@[i as int]@);
        }
        if let Some(t) = word(ls[i].as_str()) {
            if starts_with(t.as_str(), "actions.runner.") && ends_with(t.as_str(), ".service") {
                let ghost view = t@;
                out.push(t);
                assert(texts(out@) =~= before.push(view));
            }
        }
        i += 1;
    }
    assert(all.take(all.len() as int) =~= all);
    out
}

/// What follows `prefix` in the last line that begins with it, without whitespace at its
/// ends.
pub open spec fn last_value(ls: Seq<Seq<char>>, prefix: Seq<char>) -> Option<Seq<char>>
    decreases ls.len(),
{
    if ls.len() == 0 {
        None
    } else {
        match stripped_prefix(ls.last(), prefix) {
            Some(v) => Some(trimmed(v)),
            None => last_value(ls.drop_last(), prefix),
        }
    }
}

/// What follows `prefix` in the first line that begins with it.
pub open spec fn first_value(ls: Seq<Seq<char>>, prefix: Seq<char>) -> Option<Seq<char>>
    decreases ls.len(),
{
    if ls.len() == 0 {
        None
    } else {
        match stripped_prefix(ls[0], prefix) {
            Some(v) => Some(v),
            None => first_value(ls.skip(1), prefix),
        }
    }
}

proof fn lemma_properties_differ(l: Seq<char>)
    ensures
        !("ControlGroup="@.is_prefix_of(l) && "WorkingDirectory="@.is_prefix_of(l)),
{
    reveal_strlit("ControlGroup=");
    reveal_strlit("WorkingDirectory=");
    let a = "ControlGroup="@;
    let b = "WorkingDirectory="@;
    if a.is_prefix_of(l) && b.is_prefix_of(l) {
        assert(a[0] == l.subrange(0, a.len() as int)[0]);
        assert(b[0] == l.subrange(0, b.len() as int)[0]);
    }
}

/// The control group and the working directory in a unit's properties.
pub fn parse_show(s: &str) -> (r: (Option<String>, Option<String>))
    ensures
        opt_text(r.0) == last_value(lines_of(s@), "ControlGroup="@),
        opt_text(r.1) == last_value(lines_of(s@), "WorkingDirectory="@),
{
    let ls = lines(s);
    let ghost all = lines_of(s@);
    let mut cgroup: Option<String> = None;
    let mut workdir: Option<String> = None;
    let mut i: usize = 0;
    while i < ls.len()
        invariant
            i <= ls@.len(),
            texts(ls@) == all,
            opt_text(cgroup) == last_value(all.take(i as int), "ControlGroup="@),
            opt_text(workdir) == last_value(all.take(i as int), "WorkingDirectory="@),
        decreases ls@.len() - i,
    {
        proof {
            assert(texts(ls@)[i as int] == ls@[i as int]@);
            assert(all.take(i + 1).drop_last() =~= all.take(i as int));
            assert(all.take(i + 1).last() == ls@[i as int]@);
            lemma_properties_differ(ls@[i as int]@);
        }
        if let Some(v) = strip_prefix(ls[i].as_str(), "ControlGroup=") {
            cgroup = Some(trim(v.as_str()));
        } else if let Some(v) = strip_prefix(ls[i].as_str(), "WorkingDirectory=") {
            workdir = Some(trim(v.as_str()));
        }
        i += 1;
    }
    assert(all.take(all.len() as int) =~= all);
    (cgroup, workdir)
}

/// The registration in a unit's name: what stands between the fixed ends, without the
/// last of its parts, which is the machine's name.
pub open spec fn registration(unit: Seq<char>) -> Option<Seq<char>> {
    match stripped_prefix(unit, "actions.runner."@) {
        Some(rest) => match stripped_suffix(rest, ".service"@) {
            Some(stem) => Some(before_last(stem, '.')),
            None => None,
        },
        None => None,
    }
}

/// The registration in a unit's name.
pub fn unit_display(unit: &str) -> (r: Option<String>)
    ensures
        opt_text(r) == registration(unit@),
{
    match strip_prefix(unit, "actions.runner.") {
        Some(rest) => match strip_suffix(rest.as_str(), ".service") {
            Some(stem) => Some(head_before_last(stem.as_str(), '.')),
            None => None,
        },
        None => None,
    }
}

/// The parts that are not empty.
pub open spec fn filled(parts: Seq<Seq<char>>) -> Seq<Seq<char>>
    decreases parts.len(),
{
    if parts.len() == 0 {
        Seq::empty()
    } else {
        let front = filled(parts.drop_last());
        if parts.last().len() > 0 {
            front.push(parts.last())
        } else {
            front
        }
    }
}

/// The path in the address of a page on the service's site.
pub open spec fn site_path(url: Seq<char>) -> Option<Seq<char>> {
    let bare = drop_tail_while(trimmed(url), only('/'));
    match stripped_prefix(bare, "https://github.com/"@) {
        Some(path) => Some(path),
        None => stripped_prefix(bare, "http://github.com/"@),
    }
}

/// The scope whose page has this address: an owner's page stands for the organisation,
/// a page below it for the repository.
pub open spec fn scope_at(url: Seq<char>) -> Option<ScopeView> {
    match site_path(url) {
        Some(path) => {
            let parts = filled(pieces(path, '/'));
            if parts.len() == 0 {
                None
            } else if parts.len() == 1 {
                Some(ScopeView::Org(parts[0]))
            } else {
                Some(ScopeView::Repo(parts[0] + "/"@ + parts[1]))
            }
        },
        None => None,
    }
}

fn filled_parts(path: &str) -> (r: Vec<String>)
    ensures
        texts(r@) == filled(pieces(path@, '/')),
{
    let parts = split_char(path, '/');
    let ghost all = pieces(path@, '/');
    let mut out: Vec<String> = Vec::new();
    let mut i: usize = 0;
    assert(texts(out@) =~= filled(all.take(0)));
    while i < parts.len()
        invariant
            i <= parts@.len(),
            texts(parts@) == all,
            texts(out@) == filled(all.take(i as int)),
        decreases parts@.len() - i,
    {
        let ghost before = texts(out@);
        proof {
            assert(texts(parts@)[i as int] == parts@[i as int]@);
            assert(all.take(i + 1).drop_last() =~= all.take(i as int));
            assert(all.take(i + 1).last() == parts@[i as int]@);
        }
        if !parts[i].as_str().is_empty() {
            out.push(parts[i].clone());
            assert(texts(out@) =~= before.push(parts@[i as int]@));
        }
        i += 1;
    }
    assert(all.take(all.len() as int) =~= all);
    out
}

/// The scope whose page has this address.
pub fn parse_scope(url: &str) -> (r: Option<Scope>)
    ensures
        opt_scope(r) == scope_at(url@),
{
    let tidy = trim(url);
    let bare = trim_end_char(tidy.as_str(), '/');
    let path = match strip_prefix(bare.as_str(), "https://github.com/") {
        Some(p) => p,
        None => match strip_prefix(bare.as_str(), "http://github.com/") {
            Some(p) => p,
            None => return None,
        },
    };
    let parts = filled_parts(path.as_str());
    let ghost all = filled(pieces(path@, '/'));
    assert(texts(parts@).len() == parts@.len());
    if parts.len() == 0 {
        None
    } else if parts.len() == 1 {
        assert(texts(parts@)[0] == parts@[0]@);
        Some(Scope::Org(parts[0].clone()))
    } else {
        assert(texts(parts@)[0] == parts@[0]@);
        assert(texts(parts@)[1] == parts@[1]@);
        let mut repo = parts[0].clone();
        repo.append("/");
        repo.append(parts[1].as_str());
        Some(Scope::Repo(repo))
    }
}

/// The name and the scope in a runner's registration document.
pub open spec fn registration_of(doc: JsonTree) -> Option<(Seq<char>, ScopeView)> {
    match (doc.string_at("agentName"@), doc.string_at("gitHubUrl"@)) {
        (Some(agent), Some(url)) => match scope_at(url) {
            Some(scope) => Some((agent, scope)),
            None => None,
        },
        _ => None,
    }
}

/// The name and the scope in a runner's registration file.
pub open spec fn registration_in(text: Seq<char>) -> Option<(Seq<char>, ScopeView)> {
    match json_of(skip_while(text, only('\u{feff}'))) {
        Some(doc) => registration_of(doc),
        None => None,
    }
}

/// The name and the scope in a runner's registration document.
pub fn registration_in_doc(doc: &Json) -> (r: Option<(String, Scope)>)
    ensures
        match r {
            Some((agent, scope)) => registration_of(doc@) == Some((agent@, scope@)),
            None => registration_of(doc@) is None,
        },
{
    match (doc.text_at("agentName"), doc.text_at("gitHubUrl")) {
        (Some(agent), Some(url)) => match parse_scope(url.as_str()) {
            Some(scope) => Some((agent.clone(), scope)),
            None => None,
        },
        _ => None,
    }
}

/// The name and the scope in a runner's registration file, which may begin with a byte
/// order mark.
pub fn parse_dot_runner(s: &str) -> (r: Option<(String, Scope)>)
    ensures
        match r {
            Some((agent, scope)) => registration_in(s@) == Some((agent@, scope@)),
            None => registration_in(s@) is None,
        },
{
    let bare = trim_start_char(s, '\u{feff}');
    match parse(bare.as_str()) {
        Some(doc) => registration_in_doc(&doc),
        None => None,
    }
}

/// The runner of a unit: its registration may be missing or unreadable, and then it is
/// matched with nothing.
pub open spec fn runner_of(
    unit: Seq<char>,
    cgroup_path: Seq<char>,
    dot_runner: Option<Seq<char>>,
) -> Option<NativeView> {
    let registered = match dot_runner {
        Some(text) => registration_in(text),
        None => None,
    };
    match registration(unit) {
        Some(display) => Some(
            match registered {
                Some((agent, scope)) => NativeView {
                    display,
                    cgroup_path,
                    scope: Some(scope),
                    key: Some(KeyView { scope: scope.key(), name: agent }),
                },
                None => NativeView { display, cgroup_path, scope: None, key: None },
            },
        ),
        None => None,
    }
}

/// The content of an optional runner.
pub open spec fn opt_native(r: Option<NativeRunner>) -> Option<NativeView> {
    match r {
        Some(runner) => Some(runner@),
        None => None,
    }
}

/// The runner of a unit.
pub fn build_runner(unit: &str, cgroup_path: String, dot_runner: Option<&str>) -> (r: Option<
    NativeRunner,
>)
    ensures
        opt_native(r) == runner_of(unit@, cgroup_path@, opt_str(dot_runner)),
{
    let display = match unit_display(unit) {
        Some(d) => d,
        None => return None,
    };
    let registered = match dot_runner {
        Some(text) => parse_dot_runner(text),
        None => None,
    };
    match registered {
        Some((agent, scope)) => {
            let key = RunnerKey { scope: scope.as_key().to_owned(), name: agent };
            Some(NativeRunner { display, cgroup_path, scope: Some(scope), key: Some(key) })
        },
        None => Some(NativeRunner { display, cgroup_path, scope: None, key: None }),
    }
}

/// A registered runner is keyed by its scope's text: the key under which the scope's
/// jobs are kept.
pub proof fn registered_runners_are_keyed_by_scope(
    unit: Seq<char>,
    cgroup_path: Seq<char>,
    dot_runner: Option<Seq<char>>,
)
    ensures
        runner_of(unit, cgroup_path, dot_runner) matches Some(r) ==> match r.scope {
            Some(scope) => r.key is Some && r.key->0.scope == scope.key(),
            None => r.key is None,
        },
{
}

/// The CPU time in the text of `cpu.stat`, in microseconds.
pub open spec fn usage_in(text: Seq<char>) -> Option<nat> {
    match first_value(lines_of(text), "usage_usec "@) {
        Some(v) => number(trimmed(v), u64::MAX as nat),
        None => None,
    }
}

/// The inactive file pages in the text of `memory.stat`, in bytes.
pub open spec fn inactive_in(text: Seq<char>) -> nat {
    match first_value(lines_of(text), "inactive_file "@) {
        Some(v) => match number(trimmed(v), u64::MAX as nat) {
            Some(n) => n,
            None => 0,
        },
        None => 0,
    }
}

/// The limit in the text of `memory.max`, in bytes; zero where there is none.
pub open spec fn limit_in(text: Seq<char>) -> nat {
    if trimmed(text) == "max"@ {
        0
    } else {
        match number(trimmed(text), u64::MAX as nat) {
            Some(n) => n,
            None => 0,
        }
    }
}

fn value_in(text: &str, prefix: &str) -> (r: Option<String>)
    ensures
        opt_text(r) == first_value(lines_of(text@), prefix@),
{
    let ls = lines(text);
    let ghost all = lines_of(text@);
    let mut i: usize = 0;
    assert(all.skip(0) =~= all);
    while i < ls.len()
        invariant
            i <= ls@.len(),
            texts(ls@) == all,
            all == lines_of(text@),
            first_value(all, prefix@) == first_value(all.skip(i as int), prefix@),
        decreases ls@.len() - i,
    {
        assert(texts(ls@)[i as int] == ls@[i as int]@);
        assert(all.skip(i as int)[0] == ls@[i as int]@);
        if let Some(v) = strip_prefix(ls[i].as_str(), prefix) {
            return Some(v);
        }
        assert(all.skip(i as int).skip(1) =~= all.skip(i + 1));
        i += 1;
    }
    None
}

/// The CPU time in the text of `cpu.stat`, in microseconds.
pub fn parse_usage_usec(cpu_stat: &str) -> (r: Option<u64>)
    ensures
        match r {
            Some(n) => usage_in(cpu_stat@) == Some(n as nat),
            None => usage_in(cpu_stat@) is None,
        },
{
    match value_in(cpu_stat, "usage_usec ") {
        Some(v) => {
            let bare = trim(v.as_str());
            parse_u64(bare.as_str())
        },
        None => None,
    }
}

/// The inactive file pages in the text of `memory.stat`, in bytes.
pub fn parse_inactive_file(memory_stat: &str) -> (r: u64)
    ensures
        r == inactive_in(memory_stat@),
{
    match value_in(memory_stat, "inactive_file ") {
        Some(v) => {
            let bare = trim(v.as_str());
            match parse_u64(bare.as_str()) {
                Some(n) => n,
                None => 0,
            }
        },
        None => 0,
    }
}

/// The limit in the text of `memory.max`, in bytes; zero where there is none.
pub fn parse_mem_max(memory_max: &str) -> (r: u64)
    ensures
        r == limit_in(memory_max@),
{
    let bare = trim(memory_max);
    if same_text(bare.as_str(), "max") {
        return 0;
    }
    match parse_u64(bare.as_str()) {
        Some(n) => n,
        None => 0,
    }
}

/// What became of reading a control group's file: its text, nothing where it is not
/// there, or the reason why it could not be read.
pub type FileText = Result<Option<String>, String>;

/// The files of a control group, and when they were read, in nanoseconds of a clock that
/// does not go back.
#[derive(Debug)]
pub struct CgroupFiles {
    pub cpu_stat: FileText,
    pub memory_current: FileText,
    pub memory_stat: FileText,
    pub memory_max: FileText,
    pub read_at: u64,
}

/// What a control group's files say of a runner.
#[derive(Debug)]
pub enum ReadOutcome {
    /// A reading.
    Reading(RunnerResource),
    /// The files are gone: the unit has stopped.
    Gone,
    /// The files could not be read or understood.
    Failed(String),
}

/// The content of a [`ReadOutcome`].
pub enum OutcomeView {
    Reading(ResourceView),
    Gone,
    Failed(Seq<char>),
}

impl View for ReadOutcome {
    type V = OutcomeView;

    open spec fn view(&self) -> OutcomeView {
        match self {
            ReadOutcome::Reading(r) => OutcomeView::Reading(r@),
            ReadOutcome::Gone => OutcomeView::Gone,
            ReadOutcome::Failed(e) => OutcomeView::Failed(e@),
        }
    }
}

/// A runner's earlier CPU time, in microseconds, and when it was read, in nanoseconds.
pub type Baselines = Keyed<String, (u64, u64)>;

/// The complaint about a runner.
pub open spec fn about(r: NativeView, what: Seq<char>) -> Seq<char> {
    r.display + ": "@ + what
}

/// A figure that may be missing: none where the file is missing or unreadable.
pub open spec fn figure(file: FileText, f: spec_fn(Seq<char>) -> nat) -> nat {
    match file {
        Ok(Some(s)) => f(s@),
        _ => 0,
    }
}

/// CPU use since the baseline; none where there is none.
pub open spec fn cpu_since(base: Option<(u64, u64)>, usage: u64, read_at: u64) -> CpuShare {
    match base {
        Some((before, at)) => {
            let wall = less(read_at, at) / 1000;
            if wall > 0 {
                CpuShare { busy: less(usage, before), span: wall, cores: 1 }
            } else {
                CpuShare::none()
            }
        },
        None => CpuShare::none(),
    }
}

/// A baseline that was kept, if any.
pub open spec fn baseline(prev: Map<Seq<char>, (u64, u64)>, path: Seq<char>) -> Option<(u64, u64)> {
    if prev.dom().contains(path) {
        Some(prev[path])
    } else {
        None
    }
}

/// What a control group's files say of a runner. The files with the CPU time and with
/// the memory in use are needed: where one is missing the unit has stopped, where one is
/// unreadable or has no figure there is a complaint. The other two may be missing.
pub open spec fn outcome_of(
    r: NativeView,
    files: CgroupFiles,
    prev: Map<Seq<char>, (u64, u64)>,
) -> OutcomeView {
    match files.cpu_stat {
        Err(e) => OutcomeView::Failed(about(r, e@)),
        Ok(None) => OutcomeView::Gone,
        Ok(Some(stat)) => match usage_in(stat@) {
            None => OutcomeView::Failed(about(r, "cpu.stat has no usage_usec"@)),
            Some(usage) => match files.memory_current {
                Err(e) => OutcomeView::Failed(about(r, e@)),
                Ok(None) => OutcomeView::Gone,
                Ok(Some(current)) => match number(trimmed(current@), u64::MAX as nat) {
                    None => OutcomeView::Failed(about(r, "bad memory.current"@)),
                    Some(used) => OutcomeView::Reading(
                        ResourceView {
                            name: r.display,
                            cpu_pct: cpu_since(
                                baseline(prev, r.cgroup_path),
                                usage as u64,
                                files.read_at,
                            ),
                            mem_bytes: less(
                                used as u64,
                                figure(files.memory_stat, |s: Seq<char>| inactive_in(s)) as u64,
                            ),
                            mem_limit: figure(
                                files.memory_max,
                                |s: Seq<char>| limit_in(s),
                            ) as u64,
                            key: r.key,
                            kind: SourceKind::Native,
                        },
                    ),
                },
            },
        },
    }
}

/// The baselines after a runner's files were read: a reading becomes the new baseline.
pub open spec fn baselines_after(
    r: NativeView,
    files: CgroupFiles,
    prev: Map<Seq<char>, (u64, u64)>,
) -> Map<Seq<char>, (u64, u64)> {
    if outcome_of(r, files, prev) is Reading {
        prev.insert(r.cgroup_path, (usage_in(files.cpu_stat->Ok_0->0@)->0 as u64, files.read_at))
    } else {
        prev
    }
}

fn complain(r: &NativeRunner, what: &str) -> (out: ReadOutcome)
    ensures
        out@ == OutcomeView::Failed(about(r@, what@)),
{
    let mut text = r.display.clone();
    text.append(": ");
    text.append(what);
    ReadOutcome::Failed(text)
}

/// What a control group's files say of a runner.
pub fn collect_one(r: &NativeRunner, files: &CgroupFiles, prev: &mut Baselines) -> (out:
    ReadOutcome)
    ensures
        out@ == outcome_of(r@, *files, old(prev)@),
        final(prev)@ == baselines_after(r@, *files, old(prev)@),
{
    let usage: u64 = match &files.cpu_stat {
        Ok(Some(s)) => match parse_usage_usec(s.as_str()) {
            Some(u) => u,
            None => return complain(r, "cpu.stat has no usage_usec"),
        },
        Ok(None) => return ReadOutcome::Gone,
        Err(e) => return complain(r, e.as_str()),
    };
    let current: u64 = match &files.memory_current {
        Ok(Some(s)) => {
            let bare = trim(s.as_str());
            match parse_u64(bare.as_str()) {
                Some(n) => n,
                None => return complain(r, "bad memory.current"),
            }
        },
        Ok(None) => return ReadOutcome::Gone,
        Err(e) => return complain(r, e.as_str()),
    };
    let inactive: u64 = match &files.memory_stat {
        Ok(Some(s)) => parse_inactive_file(s.as_str()),
        _ => 0,
    };
    let mem_limit: u64 = match &files.memory_max {
        Ok(Some(s)) => parse_mem_max(s.as_str()),
        _ => 0,
    };
    let cpu_pct = match prev.get(&r.cgroup_path) {
        Some(base) => cgroup_cpu_pct(
            usage.saturating_sub(base.0),
            files.read_at.saturating_sub(base.1) / 1000,
        ),
        None => no_cpu(),
    };
    prev.insert(r.cgroup_path.clone(), (usage, files.read_at));
    ReadOutcome::Reading(
        RunnerResource {
            name: r.display.clone(),
            cpu_pct,
            mem_bytes: mem_used(current, inactive),
            mem_limit,
            key: clone_key(&r.key),
            kind: SourceKind::Native,
        },
    )
}

/// The text that lists complaints; none where there are none.
pub open spec fn complaint_of(errs: Seq<Seq<char>>) -> Option<Seq<char>> {
    if errs.len() > 0 {
        Some("native: "@ + joined(errs, "; "@))
    } else {
        None
    }
}

fn list_complaints(errs: &Vec<String>) -> (r: Option<String>)
    ensures
        opt_text(r) == complaint_of(texts(errs@)),
{
    assert(texts(errs@).len() == errs@.len());
    if errs.len() == 0 {
        None
    } else {
        let list = join_texts(errs, "; ");
        Some("native: ".to_owned().concat(list.as_str()))
    }
}

/// The result of reading runners where one complaint spoils all readings: the readings, or,
/// where there is any complaint, no readings and the list of complaints.
pub fn finalize(resources: Vec<RunnerResource>, errs: Vec<String>) -> (r: (
    Vec<RunnerResource>,
    Option<String>,
))
    ensures
        errs@.len() == 0 ==> r.0 == resources && r.1 is None,
        errs@.len() > 0 ==> r.0@.len() == 0 && opt_text(r.1) == Some(
            "native: "@ + joined(texts(errs@), "; "@),
        ),
{
    assert(texts(errs@).len() == errs@.len());
    let error = list_complaints(&errs);
    if errs.len() == 0 {
        (resources, error)
    } else {
        (Vec::new(), error)
    }
}

/// The baselines after a sweep over the runners: a runner that is gone loses its own.
pub open spec fn baselines_after_sweep(
    runners: Seq<NativeView>,
    files: Seq<CgroupFiles>,
    prev: Map<Seq<char>, (u64, u64)>,
) -> Map<Seq<char>, (u64, u64)>
    decreases runners.len(),
{
    if runners.len() == 0 {
        prev
    } else {
        let r = runners.last();
        let f = files[runners.len() - 1];
        let front = baselines_after_sweep(runners.drop_last(), files, prev);
        if outcome_of(r, f, front) is Gone {
            front.remove(r.cgroup_path)
        } else {
            baselines_after(r, f, front)
        }
    }
}

/// The readings of a sweep over the runners.
pub open spec fn swept_readings(
    runners: Seq<NativeView>,
    files: Seq<CgroupFiles>,
    prev: Map<Seq<char>, (u64, u64)>,
) -> Seq<ResourceView>
    decreases runners.len(),
{
    if runners.len() == 0 {
        Seq::empty()
    } else {
        let front = swept_readings(runners.drop_last(), files, prev);
        match outcome_of(
            runners.last(),
            files[runners.len() - 1],
            baselines_after_sweep(runners.drop_last(), files, prev),
        ) {
            OutcomeView::Reading(r) => front.push(r),
            _ => front,
        }
    }
}

/// The complaints of a sweep over the runners.
pub open spec fn swept_complaints(
    runners: Seq<NativeView>,
    files: Seq<CgroupFiles>,
    prev: Map<Seq<char>, (u64, u64)>,
) -> Seq<Seq<char>>
    decreases runners.len(),
{
    if runners.len() == 0 {
        Seq::empty()
    } else {
        let front = swept_complaints(runners.drop_last(), files, prev);
        match outcome_of(
            runners.last(),
            files[runners.len() - 1],
            baselines_after_sweep(runners.drop_last(), files, prev),
        ) {
            OutcomeView::Failed(e) => front.push(e),
            _ => front,
        }
    }
}

/// A sweep over the runners, `files` being the files of each one's control group. It reports
/// every runner that could be read, and complains about those that could not.
pub fn sweep(runners: &[NativeRunner], files: &[CgroupFiles], prev: &mut Baselines) -> (r:
    ResourceUpdate)
    requires
        runners@.len() == files@.len(),
    ensures
        r.source is Native,
        r.matched_seen == 0,
        r.unmatched_seen == 0,
        resource_views(r.resources@) == swept_readings(native_views(runners@), files@, old(prev)@),
        opt_text(r.error) == complaint_of(
            swept_complaints(native_views(runners@), files@, old(prev)@),
        ),
        final(prev)@ == baselines_after_sweep(native_views(runners@), files@, old(prev)@),
{
    let ghost all = native_views(runners@);
    let ghost start = prev@;
    let mut resources: Vec<RunnerResource> = Vec::new();
    let mut errs: Vec<String> = Vec::new();
    let mut i: usize = 0;
    assert(resource_views(resources@) =~= swept_readings(all.take(0), files@, start));
    assert(texts(errs@) =~= swept_complaints(all.take(0), files@, start));
    while i < runners.len()
        invariant
            i <= runners@.len(),
            runners@.len() == files@.len(),
            all == native_views(runners@),
            resource_views(resources@) == swept_readings(all.take(i as int), files@, start),
            texts(errs@) == swept_complaints(all.take(i as int), files@, start),
            prev@ == baselines_after_sweep(all.take(i as int), files@, start),
        decreases runners@.len() - i,
    {
        let ghost readings = resource_views(resources@);
        let ghost complaints = texts(errs@);
        proof {
            assert(all.take(i + 1).drop_last() =~= all.take(i as int));
            assert(all.take(i + 1).last() == runners@[i as int]@);
        }
        match collect_one(&runners[i], &files[i], prev) {
            ReadOutcome::Reading(res) => {
                let ghost view = res@;
                resources.push(res);
                assert(resource_views(resources@) =~= readings.push(view));
            },
            ReadOutcome::Gone => {
                prev.remove(&runners[i].cgroup_path);
            },
            ReadOutcome::Failed(e) => {
                let ghost view = e@;
                errs.push(e);
                assert(texts(errs@) =~= complaints.push(view));
            },
        }
        i += 1;
    }
    assert(all.take(all.len() as int) =~= all);
    let error = list_complaints(&errs);
    ResourceUpdate {
        source: SourceKind::Native,
        resources,
        matched_seen: 0,
        unmatched_seen: 0,
        error,
    }
}

/// A runner that could be read is reported, whatever became of the others.
pub proof fn unreadable_runners_do_not_hide_the_others(
    runners: Seq<NativeView>,
    files: Seq<CgroupFiles>,
    prev: Map<Seq<char>, (u64, u64)>,
    i: int,
)
    requires
        0 <= i < runners.len(),
        outcome_of(
            runners[i],
            files[i],
            baselines_after_sweep(runners.take(i), files, prev),
        ) is Reading,
    ensures
        swept_readings(runners, files, prev).contains(
            outcome_of(
                runners[i],
                files[i],
                baselines_after_sweep(runners.take(i), files, prev),
            )->Reading_0,
        ),
    decreases runners.len(),
{
    let front = runners.drop_last();
    let all = swept_readings(runners, files, prev);
    let earlier = swept_readings(front, files, prev);
    let wanted = outcome_of(
        runners[i],
        files[i],
        baselines_after_sweep(runners.take(i), files, prev),
    )->Reading_0;
    if i == runners.len() - 1 {
        assert(runners.take(i) =~= front);
        assert(all[earlier.len() as int] == wanted);
    } else {
        assert(front.take(i) =~= runners.take(i));
        unreadable_runners_do_not_hide_the_others(front, files, prev, i);
        let k = choose|k: int| 0 <= k < earlier.len() && earlier[k] == wanted;
        assert(all[k] == wanted);
    }
}

/// The views of a row of string slices.
pub open spec fn strs(v: Seq<&str>) -> Seq<Seq<char>> {
    v.map_values(|s: &str| s@)
}

/// Whether `r` is an answer of the service manager to these arguments.
pub open spec fn answers<F: Fn(&[&str]) -> Option<String>>(
    systemctl: F,
    args: Seq<Seq<char>>,
    r: Option<String>,
) -> bool {
    exists|a: &[&str]| #[trigger] call_ensures(systemctl, (a,), r) && strs(a@) == args
}

/// Whether `r` is what reading the file at `path` gave.
pub open spec fn reads<G: Fn(&str) -> Option<String>>(
    read_file: G,
    path: Seq<char>,
    r: Option<String>,
) -> bool {
    exists|p: &str| #[trigger] call_ensures(read_file, (p,), r) && p@ == path
}

/// The arguments that ask the service manager for the runners' units.
pub open spec fn list_args() -> Seq<Seq<char>> {
    seq![
        "list-units"@,
        "--type=service"@,
        "--all"@,
        "--no-legend"@,
        "--plain"@,
        "actions.runner.*.service"@,
    ]
}

/// The arguments that ask the service manager for a unit's properties.
pub open spec fn show_args(unit: Seq<char>) -> Seq<Seq<char>> {
    seq!["show"@, unit, "-p"@, "ControlGroup"@, "-p"@, "WorkingDirectory"@]
}

/// The control group in a unit's properties, where it has one.
pub open spec fn cgroup_in(show: Seq<char>) -> Option<Seq<char>> {
    match last_value(lines_of(show), "ControlGroup="@) {
        Some(c) => if c.len() > 0 {
            Some(c)
        } else {
            None
        },
        None => None,
    }
}

/// The path of the registration file below the working directory in a unit's properties.
pub open spec fn registration_path(show: Seq<char>) -> Option<Seq<char>> {
    match last_value(lines_of(show), "WorkingDirectory="@) {
        Some(dir) => Some(dir + "/.runner"@),
        None => None,
    }
}

/// The runner of a unit, from the unit's properties and its registration file; none where
/// the properties are not to be had or name no control group.
pub open spec fn unit_runner(
    unit: Seq<char>,
    show: Option<Seq<char>>,
    dot_runner: Option<Seq<char>>,
) -> Option<NativeView> {
    match show {
        Some(properties) => match cgroup_in(properties) {
            Some(cgroup) => runner_of(unit, "/sys/fs/cgroup"@ + cgroup, dot_runner),
            None => None,
        },
        None => None,
    }
}

/// Whether `out` is `before` and behind it the runner of `unit`, as the service manager
/// and the unit's registration file describe it.
pub open spec fn adds_unit<F: Fn(&[&str]) -> Option<String>, G: Fn(&str) -> Option<String>>(
    systemctl: F,
    read_file: G,
    unit: Seq<char>,
    before: Seq<NativeView>,
    out: Seq<NativeView>,
) -> bool {
    exists|show: Option<String>, dot: Option<String>|
        {
            &&& #[trigger] answers(systemctl, show_args(unit), show)
            &&& #[trigger] registration_read(read_file, show, dot)
            &&& out == match unit_runner(unit, opt_text(show), opt_text(dot)) {
                Some(r) => before.push(r),
                None => before,
            }
        }
}

/// Whether `dot` is what the registration file that a unit's properties point to holds;
/// nothing is read where the properties name no control group or no directory.
pub open spec fn registration_read<G: Fn(&str) -> Option<String>>(
    read_file: G,
    show: Option<String>,
    dot: Option<String>,
) -> bool {
    match show {
        Some(properties) => match (cgroup_in(properties@), registration_path(properties@)) {
            (Some(_), Some(path)) => reads(read_file, path, dot),
            _ => dot is None,
        },
        None => dot is None,
    }
}

/// Whether `out` holds the runners of the units, as the service manager and the units'
/// registration files describe them.
pub open spec fn describes_units<F: Fn(&[&str]) -> Option<String>, G: Fn(&str) -> Option<String>>(
    systemctl: F,
    read_file: G,
    units: Seq<Seq<char>>,
    out: Seq<NativeView>,
) -> bool
    decreases units.len(),
{
    if units.len() == 0 {
        out.len() == 0
    } else {
        exists|before: Seq<NativeView>|
            {
                &&& describes_units(systemctl, read_file, units.drop_last(), before)
                &&& #[trigger] adds_unit(systemctl, read_file, units.last(), before, out)
            }
    }
}

/// The runners that the service manager knows of: none where it does not answer, and
/// otherwise those of the units that it lists, in its order.
pub fn discover_inner<F: Fn(&[&str]) -> Option<String>, G: Fn(&str) -> Option<String>>(
    systemctl: F,
    read_file: G,
) -> (r: Vec<NativeRunner>)
    requires
        forall|a: &[&str]| #[trigger] call_requires(systemctl, (a,)),
        forall|p: &str| #[trigger] call_requires(read_file, (p,)),
    ensures
        exists|list: Option<String>|
            {
                &&& #[trigger] answers(systemctl, list_args(), list)
                &&& match list {
                    Some(text) => describes_units(
                        systemctl,
                        read_file,
                        units_in(lines_of(text@)),
                        native_views(r@),
                    ),
                    None => r@.len() == 0,
                }
            },
{
    let mut out: Vec<NativeRunner> = Vec::new();
    let args: [&str; 6] = [
        "list-units",
        "--type=service",
        "--all",
        "--no-legend",
        "--plain",
        "actions.runner.*.service",
    ];
    let list = systemctl(args.as_slice());
    assert(strs(args@) =~= list_args());
    assert(answers(systemctl, list_args(), list));
    let text = match list {
        Some(s) => s,
        None => return out,
    };
    let units = parse_units_output(text.as_str());
    let ghost all = units_in(lines_of(text@));
    let mut i: usize = 0;
    assert(native_views(out@).len() == 0);
    while i < units.len()
        invariant
            i <= units@.len(),
            texts(units@) == all,
            forall|a: &[&str]| #[trigger] call_requires(systemctl, (a,)),
            forall|p: &str| #[trigger] call_requires(read_file, (p,)),
            describes_units(systemctl, read_file, all.take(i as int), native_views(out@)),
        decreases units@.len() - i,
    {
        let ghost before = native_views(out@);
        let unit = units[i].as_str();
        proof {
            assert(texts(units@)[i as int] == units@[i as int]@);
            assert(all.take(i + 1).drop_last() =~= all.take(i as int));
            assert(all.take(i + 1).last() == unit@);
        }
        let args: [&str; 6] = ["show", unit, "-p", "ControlGroup", "-p", "WorkingDirectory"];
        let show = systemctl(args.as_slice());
        assert(strs(args@) =~= show_args(unit@));
        assert(answers(systemctl, show_args(unit@), show));
        let dot = read_registration(&show, &read_file);
        if let Some(properties) = &show {
            let (cgroup, _) = parse_show(properties.as_str());
            if let Some(c) = cgroup {
                if !c.as_str().is_empty() {
                    let path = "/sys/fs/cgroup".to_owned().concat(c.as_str());
                    let dot_str = match &dot {
                        Some(d) => Some(d.as_str()),
                        None => None,
                    };
                    if let Some(r) = build_runner(unit, path, dot_str) {
                        let ghost view = r@;
                        out.push(r);
                        assert(native_views(out@) =~= before.push(view));
                    }
                }
            }
        }
        assert(adds_unit(systemctl, read_file, unit@, before, native_views(out@)));
        i += 1;
    }
    assert(all.take(all.len() as int) =~= all);
    out
}

fn read_registration<G: Fn(&str) -> Option<String>>(show: &Option<String>, read_file: &G) -> (r:
    Option<String>)
    requires
        forall|p: &str| #[trigger] call_requires(*read_file, (p,)),
    ensures
        registration_read(*read_file, *show, r),
{
    if let Some(properties) = show {
        let (cgroup, workdir) = parse_show(properties.as_str());
        if let Some(c) = cgroup {
            if !c.as_str().is_empty() {
                if let Some(dir) = workdir {
                    let path = dir.concat("/.runner");
                    let dot = read_file(path.as_str());
                    assert(reads(*read_file, path@, dot));
                    return dot;
                }
            }
        }
    }
    None
}

/// The contents of these are those of their fields.
pub proof fn native_contents_are_those_of_the_fields(r: NativeRunner, outcome: ReadOutcome)
    ensures
        r@.display == r.display@,
        r@.cgroup_path == r.cgroup_path@,
        r.key matches Some(k) ==> r@.key == Some(k@),
        r.key is None ==> r@.key is None,
        r.scope matches Some(s) ==> r@.scope == Some(s@),
        r.scope is None ==> r@.scope is None,
        r.scope matches Some(Scope::Repo(s)) ==> r@.scope == Some(ScopeView::Repo(s@)),
        r.scope matches Some(Scope::Org(s)) ==> r@.scope == Some(ScopeView::Org(s@)),
        outcome matches ReadOutcome::Reading(x) ==> outcome@ == OutcomeView::Reading(x@),
        outcome matches ReadOutcome::Failed(e) ==> outcome@ == OutcomeView::Failed(e@),
        outcome is Gone <==> outcome@ is Gone,
{
}

/// A reading carries its runner's own key and name, and is native.
pub proof fn readings_carry_their_runners_key(
    r: NativeView,
    files: CgroupFiles,
    prev: Map<Seq<char>, (u64, u64)>,
)
    ensures
        outcome_of(r, files, prev) matches OutcomeView::Reading(x) ==> x.key == r.key && x.name
            == r.display && x.kind is Native,
{
}

/// A runner that is registered as `agent` for a scope is matched with the job that the
/// scope's poll reports for that name: its row shows that job and is not idle.
pub proof fn native_rows_show_the_job_of_their_runner(
    unit: Seq<char>,
    cgroup_path: Seq<char>,
    text: Seq<char>,
    agent: Seq<char>,
    scope: ScopeView,
    files: CgroupFiles,
    prev: Map<Seq<char>, (u64, u64)>,
    jobs: Map<KeyView, Option<JobInfo>>,
    history: Map<Seq<char>, SeriesView>,
    warn_pct: u64,
    crit_pct: u64,
)
    requires
        registration_in(text) == Some((agent, scope)),
        runner_of(unit, cgroup_path, Some(text)) is Some,
        outcome_of(runner_of(unit, cgroup_path, Some(text))->0, files, prev) is Reading,
    ensures
        ({
            let key = KeyView {
                scope: match scope {
                    ScopeView::Repo(s) => s,
                    ScopeView::Org(s) => s,
                },
                name: agent,
            };
            let runner = runner_of(unit, cgroup_path, Some(text))->0;
            let reading = outcome_of(runner, files, prev)->Reading_0;
            let row = keyed_row(reading, jobs, history, warn_pct, crit_pct);
            &&& runner.scope == Some(scope)
            &&& runner.cgroup_path == cgroup_path
            &&& Some(runner.display) == registration(unit)
            &&& reading.key == Some(key)
            &&& row.name == runner.display
            &&& jobs.dom().contains(key) ==> row.job == opt_job(jobs[key]) && row.load !is Idle
            &&& !jobs.dom().contains(key) ==> row.job is None && row.load !is Busy
        }),
{
}

/// A runner whose registration cannot be read is shown under its unit's name, without key
/// and scope.
pub proof fn unregistered_runners_are_shown_without_key(
    unit: Seq<char>,
    cgroup_path: Seq<char>,
    text: Seq<char>,
)
    requires
        registration(unit) is Some,
    ensures
        ({
            let bare = runner_of(unit, cgroup_path, None);
            let odd = runner_of(unit, cgroup_path, Some(text));
            &&& bare is Some && bare->0.display == registration(unit)->0 && bare->0.cgroup_path
                == cgroup_path && bare->0.key is None && bare->0.scope is None
            &&& registration_in(text) is None ==> odd == bare
        }),
{
}

/// A registration document names the runner and the page that it is registered for.
pub proof fn registrations_name_runner_and_page(
    doc: JsonTree,
    agent: Seq<char>,
    url: Seq<char>,
    text: Seq<char>,
)
    requires
        doc.field("agentName"@) == Some(JsonTree::Text(agent)),
        doc.field("gitHubUrl"@) == Some(JsonTree::Text(url)),
        text.len() > 0,
        text[0] != '\u{feff}',
        json_of(text) == Some(doc),
    ensures
        scope_at(url) matches Some(scope) ==> registration_in(text) == Some((agent, scope))
            && registration_in(seq!['\u{feff}'] + text) == Some((agent, scope)),
        scope_at(url) is None ==> registration_in(text) is None,
{
    taking_off_one_character(seq!['\u{feff}'], text, '\u{feff}');
    taking_off_one_character(Seq::empty(), text, '\u{feff}');
    assert(Seq::<char>::empty() + text =~= text);
}

/// Whether `site` is how the address of a page on the service's site begins.
pub open spec fn is_site(site: Seq<char>) -> bool {
    site == "https://github.com/"@ || site == "http://github.com/"@
}

proof fn lemma_site_path(site: Seq<char>, path: Seq<char>, tail: Seq<char>)
    requires
        is_site(site),
        path.len() > 0,
        path.last() != '/',
        !is_white(path.last()),
        forall|i: int| 0 <= i < tail.len() ==> #[trigger] tail[i] == '/',
    ensures
        site_path(site + path + tail) == Some(path),
{
    reveal_strlit("https://github.com/");
    reveal_strlit("http://github.com/");
    let url = site + path + tail;
    assert(url[0] == 'h');
    if tail.len() > 0 {
        assert(url.last() == tail[tail.len() - 1]);
    } else {
        assert(url.last() == path.last());
    }
    trimming_leaves_what_is_between(Seq::empty(), url, Seq::empty());
    assert(Seq::<char>::empty() + url + Seq::<char>::empty() =~= url);
    assert((site + path).last() == path.last());
    taking_off_one_character(tail, site + path, '/');
    affixes_come_off(site, path);
    if site == "http://github.com/"@ {
        let s = "https://github.com/"@;
        assert((site + path)[4] == ':');
        assert(s[4] == 's');
        if s.is_prefix_of(site + path) {
            assert((site + path).subrange(0, s.len() as int)[4] == s[4]);
        }
    }
}

/// An owner's page stands for the organisation, and a page below it for the repository of
/// that name; slashes behind the address do not matter.
pub proof fn pages_stand_for_scopes(
    site: Seq<char>,
    owner: Seq<char>,
    repo: Seq<char>,
    tail: Seq<char>,
)
    requires
        is_site(site),
        owner.len() > 0,
        repo.len() > 0,
        lacks(owner, '/'),
        lacks(repo, '/'),
        !is_white(owner.last()),
        !is_white(repo.last()),
        forall|i: int| 0 <= i < tail.len() ==> #[trigger] tail[i] == '/',
    ensures
        scope_at(site + owner + tail) == Some(ScopeView::Org(owner)),
        scope_at(site + (owner + "/"@ + repo) + tail) == Some(
            ScopeView::Repo(owner + "/"@ + repo),
        ),
{
    reveal_strlit("/");
    assert("/"@ =~= seq!['/']);
    let both = owner + "/"@ + repo;
    assert(both =~= owner + seq!['/'] + repo);
    assert(owner[owner.len() - 1] != '/');
    assert(repo[repo.len() - 1] != '/');
    assert(both.last() == repo.last());
    lemma_site_path(site, owner, tail);
    lemma_site_path(site, both, tail);
    splitting_cuts_at_separators(owner, '/', repo);
    splitting_cuts_at_separators(repo, '/', Seq::empty());
    reveal_with_fuel(filled, 3);
    assert(seq![owner].drop_last() =~= Seq::empty());
    assert(filled(seq![owner]) =~= seq![owner]);
    let parts = seq![owner] + seq![repo];
    assert(parts.drop_last() =~= seq![owner]);
    assert(parts.last() == repo);
    assert(filled(parts) =~= parts);
    assert(parts[0] == owner && parts[1] == repo);
}

/// A unit's name holds the registration between its fixed ends, in front of the machine's
/// name.
pub proof fn units_name_their_registration(reg: Seq<char>, host: Seq<char>)
    requires
        lacks(host, '.'),
    ensures
        registration("actions.runner."@ + (reg + seq!['.'] + host) + ".service"@) == Some(reg),
        registration("actions.runner."@ + host + ".service"@) == Some(host),
{
    the_last_separator_parts_a_text(reg, '.', host);
    lemma_registration(reg + seq!['.'] + host);
    lemma_registration(host);
}

proof fn lemma_registration(stem: Seq<char>)
    ensures
        registration("actions.runner."@ + stem + ".service"@) == Some(before_last(stem, '.')),
{
    let front = "actions.runner."@;
    let back = ".service"@;
    affixes_come_off(front, stem + back);
    affixes_come_off(back, stem);
    assert(front + stem + back =~= front + (stem + back));
}

/// Nothing but a runner's unit has a registration.
pub proof fn only_runner_units_have_a_registration(unit: Seq<char>)
    ensures
        registration(unit) is Some ==> "actions.runner."@.is_prefix_of(unit)
            && ".service"@.is_suffix_of(unit),
{
    if registration(unit) is Some {
        let front = "actions.runner."@;
        let back = ".service"@;
        let rest = stripped_prefix(unit, front)->0;
        affixes_come_off(front, unit);
        affixes_come_off(back, rest);
        let stem = stripped_suffix(rest, back)->0;
        assert(unit =~= front + stem + back);
        assert(unit.subrange(unit.len() - back.len(), unit.len() as int) =~= back);
    }
}

/// The runners' units of a list are the first words of its lines that name one, in order.
pub proof fn units_are_read_line_by_line(
    a: Seq<Seq<char>>,
    b: Seq<Seq<char>>,
    line: Seq<char>,
)
    ensures
        units_in(a + b) == units_in(a) + units_in(b),
        first_word(line) matches Some(w) ==> (if "actions.runner."@.is_prefix_of(w)
            && ".service"@.is_suffix_of(w) {
            units_in(seq![line]) == seq![w]
        } else {
            units_in(seq![line]).len() == 0
        }),
        first_word(line) is None ==> units_in(seq![line]).len() == 0,
    decreases b.len(),
{
    if b.len() == 0 {
        assert(a + b =~= a);
    } else {
        units_are_read_line_by_line(a, b.drop_last(), line);
        assert((a + b).drop_last() =~= a + b.drop_last());
    }
    assert(units_in(a + b) =~= units_in(a) + units_in(b));
    reveal_with_fuel(units_in, 2);
    assert(seq![line].drop_last() =~= Seq::empty());
    if let Some(w) = first_word(line) {
        if is_runner_unit(w) {
            assert(units_in(seq![line]) =~= seq![w]);
        }
    }
}

/// Of several lines with a property the last one counts.
pub proof fn the_last_property_counts(
    ls: Seq<Seq<char>>,
    prefix: Seq<char>,
    value: Seq<char>,
    i: int,
)
    requires
        0 <= i < ls.len(),
        ls[i] == prefix + value,
        forall|j: int| i < j < ls.len() ==> !prefix.is_prefix_of(#[trigger] ls[j]),
    ensures
        last_value(ls, prefix) == Some(trimmed(value)),
    decreases ls.len(),
{
    affixes_come_off(prefix, value);
    if i < ls.len() - 1 {
        assert(!prefix.is_prefix_of(ls[ls.len() - 1]));
        let front = ls.drop_last();
        assert forall|j: int| i < j < front.len() implies !prefix.is_prefix_of(
            #[trigger] front[j],
        ) by {
            assert(front[j] == ls[j]);
        }
        the_last_property_counts(front, prefix, value, i);
    }
}

/// Of several lines with a figure the first one counts.
pub proof fn the_first_figure_counts(
    ls: Seq<Seq<char>>,
    prefix: Seq<char>,
    value: Seq<char>,
    i: int,
)
    requires
        0 <= i < ls.len(),
        ls[i] == prefix + value,
        forall|j: int| 0 <= j < i ==> !prefix.is_prefix_of(#[trigger] ls[j]),
    ensures
        first_value(ls, prefix) == Some(value),
    decreases ls.len(),
{
    affixes_come_off(prefix, value);
    if i > 0 {
        assert(!prefix.is_prefix_of(ls[0]));
        let rest = ls.skip(1);
        assert forall|j: int| 0 <= j < i - 1 implies !prefix.is_prefix_of(#[trigger] rest[j]) by {
            assert(rest[j] == ls[j + 1]);
        }
        the_first_figure_counts(rest, prefix, value, i - 1);
    }
}

/// Lines without a property or a figure give none.
pub proof fn absent_values_are_none(ls: Seq<Seq<char>>, prefix: Seq<char>)
    requires
        forall|j: int| 0 <= j < ls.len() ==> !prefix.is_prefix_of(#[trigger] ls[j]),
    ensures
        last_value(ls, prefix) is None,
        first_value(ls, prefix) is None,
    decreases ls.len(),
{
    if ls.len() > 0 {
        assert(!prefix.is_prefix_of(ls[0]));
        assert(!prefix.is_prefix_of(ls[ls.len() - 1]));
        let front = ls.drop_last();
        assert forall|j: int| 0 <= j < front.len() implies !prefix.is_prefix_of(
            #[trigger] front[j],
        ) by {
            assert(front[j] == ls[j]);
        }
        let rest = ls.skip(1);
        assert forall|j: int| 0 <= j < rest.len() implies !prefix.is_prefix_of(
            #[trigger] rest[j],
        ) by {
            assert(rest[j] == ls[j + 1]);
        }
        absent_values_are_none(front, prefix);
        absent_values_are_none(rest, prefix);
    }
}

/// The figures of a control group are the numbers in its files: the CPU time behind
/// `usage_usec`, the inactive pages behind `inactive_file`, and the limit, which is none
/// where the file says `max`.
pub proof fn figures_are_read_from_the_files(
    text: Seq<char>,
    i: int,
    n: nat,
    a: Seq<char>,
    b: Seq<char>,
)
    requires
        n <= u64::MAX,
        0 <= i < lines_of(text).len(),
        all_white(a),
        all_white(b),
    ensures
        lines_of(text)[i] == "usage_usec "@ + decimal(n) && (forall|j: int|
            0 <= j < i ==> !"usage_usec "@.is_prefix_of(#[trigger] lines_of(text)[j])) ==> usage_in(
            text,
        ) == Some(n),
        lines_of(text)[i] == "inactive_file "@ + decimal(n) && (forall|j: int|
            0 <= j < i ==> !"inactive_file "@.is_prefix_of(#[trigger] lines_of(text)[j]))
            ==> inactive_in(text) == n,
        limit_in(a + decimal(n) + b) == n,
        limit_in(a + "max"@ + b) == 0,
        number(trimmed(a + decimal(n) + b), u64::MAX as nat) == Some(n),
{
    let d = decimal(n);
    decimals_grow_digit_by_digit(n, 0);
    trimming_leaves_what_is_between(Seq::empty(), d, Seq::empty());
    assert(Seq::<char>::empty() + d + Seq::<char>::empty() =~= d);
    trimming_leaves_what_is_between(a, d, b);
    reveal_strlit("max");
    trimming_leaves_what_is_between(a, "max"@, b);
    lemma_decimal(n);
    assert(is_digit(d[0]));
    assert(d[0] != "max"@[0]);
    let ls = lines_of(text);
    if ls[i] == "usage_usec "@ + d && (forall|j: int|
        0 <= j < i ==> !"usage_usec "@.is_prefix_of(#[trigger] ls[j])) {
        the_first_figure_counts(ls, "usage_usec "@, d, i);
    }
    if ls[i] == "inactive_file "@ + d && (forall|j: int|
        0 <= j < i ==> !"inactive_file "@.is_prefix_of(#[trigger] ls[j])) {
        the_first_figure_counts(ls, "inactive_file "@, d, i);
    }
}

/// Text files that hold no figure give none; missing inactive pages count as none.
pub proof fn missing_figures_are_none(text: Seq<char>)
    ensures
        (forall|j: int|
            0 <= j < lines_of(text).len() ==> !"usage_usec "@.is_prefix_of(
                #[trigger] lines_of(text)[j],
            )) ==> usage_in(text) is None,
        (forall|j: int|
            0 <= j < lines_of(text).len() ==> !"inactive_file "@.is_prefix_of(
                #[trigger] lines_of(text)[j],
            )) ==> inactive_in(text) == 0,
{
    let ls = lines_of(text);
    if forall|j: int| 0 <= j < ls.len() ==> !"usage_usec "@.is_prefix_of(#[trigger] ls[j]) {
        absent_values_are_none(ls, "usage_usec "@);
    }
    if forall|j: int| 0 <= j < ls.len() ==> !"inactive_file "@.is_prefix_of(#[trigger] ls[j]) {
        absent_values_are_none(ls, "inactive_file "@);
    }
}

/// What a reading shows of readable files: the memory in use without the inactive pages, the
/// limit, and the CPU time since the last reading over the time since then. The first
/// reading measures no CPU time. Missing files of the two that may be missing count as zero.
pub proof fn readings_show_the_files(
    r: NativeView,
    files: CgroupFiles,
    prev: Map<Seq<char>, (u64, u64)>,
    usage: u64,
    used: u64,
)
    requires
        files.cpu_stat is Ok && files.cpu_stat->Ok_0 is Some,
        usage_in(files.cpu_stat->Ok_0->0@) == Some(usage as nat),
        files.memory_current is Ok && files.memory_current->Ok_0 is Some,
        number(trimmed(files.memory_current->Ok_0->0@), u64::MAX as nat) == Some(used as nat),
    ensures
        ({
            let x = outcome_of(r, files, prev)->Reading_0;
            let stat = files.memory_stat is Ok && files.memory_stat->Ok_0 is Some;
            let max = files.memory_max is Ok && files.memory_max->Ok_0 is Some;
            let idle = inactive_in(files.memory_stat->Ok_0->0@);
            let after = baselines_after(r, files, prev);
            &&& outcome_of(r, files, prev) is Reading
            &&& !stat ==> x.mem_bytes == used
            &&& stat && idle <= used ==> x.mem_bytes + idle == used
            &&& stat && idle > used && idle <= u64::MAX ==> x.mem_bytes == 0
            &&& !max ==> x.mem_limit == 0
            &&& max && limit_in(files.memory_max->Ok_0->0@) <= u64::MAX ==> x.mem_limit == limit_in(
                files.memory_max->Ok_0->0@,
            )
            &&& !prev.dom().contains(r.cgroup_path) ==> x.cpu_pct.percent_times_span() == 0
            &&& prev.dom().contains(r.cgroup_path) && usage >= prev[r.cgroup_path].0
                && files.read_at >= prev[r.cgroup_path].1 + 1000 ==> x.cpu_pct.busy == usage
                - prev[r.cgroup_path].0 && x.cpu_pct.span == (files.read_at
                - prev[r.cgroup_path].1) / 1000 && x.cpu_pct.cores == 1
            &&& after.dom().contains(r.cgroup_path) && after[r.cgroup_path] == (
                usage,
                files.read_at,
            )
            &&& forall|path: Seq<char>|
                path != r.cgroup_path ==> #[trigger] after.dom().contains(path)
                    == prev.dom().contains(path) && (prev.dom().contains(path) ==> after[path]
                    == prev[path])
        }),
{
    assert(CpuShare::none().percent_times_span() == 0);
}

/// A unit whose CPU file or memory file is not there has stopped; a file that cannot be read
/// or has no figure causes a complaint that names the runner and the reason. Neither changes
/// the baselines.
pub proof fn unreadable_files_cause_complaints(
    r: NativeView,
    files: CgroupFiles,
    prev: Map<Seq<char>, (u64, u64)>,
)
    ensures
        ({
            let out = outcome_of(r, files, prev);
            let cpu = files.cpu_stat;
            let mem = files.memory_current;
            let measured = cpu is Ok && cpu->Ok_0 is Some && usage_in(cpu->Ok_0->0@) is Some;
            &&& cpu is Err ==> out == OutcomeView::Failed(r.display + ": "@ + cpu->Err_0@)
            &&& cpu is Ok && cpu->Ok_0 is None ==> out is Gone
            &&& cpu is Ok && cpu->Ok_0 is Some && usage_in(cpu->Ok_0->0@) is None ==> out
                == OutcomeView::Failed(r.display + ": "@ + "cpu.stat has no usage_usec"@)
            &&& measured && mem is Err ==> out == OutcomeView::Failed(
                r.display + ": "@ + mem->Err_0@,
            )
            &&& measured && mem is Ok && mem->Ok_0 is None ==> out is Gone
            &&& measured && mem is Ok && mem->Ok_0 is Some && number(
                trimmed(mem->Ok_0->0@),
                u64::MAX as nat,
            ) is None ==> out == OutcomeView::Failed(r.display + ": "@ + "bad memory.current"@)
            &&& !(out is Reading) ==> baselines_after(r, files, prev) == prev
        }),
{
}

/// A sweep goes from runner to runner: a reading is added to the readings, a complaint to
/// the complaints, a runner that has stopped adds neither and loses its baseline.
pub proof fn sweeps_go_from_runner_to_runner(
    runners: Seq<NativeView>,
    files: Seq<CgroupFiles>,
    prev: Map<Seq<char>, (u64, u64)>,
)
    requires
        runners.len() > 0,
        files.len() == runners.len(),
    ensures
        ({
            let front = runners.drop_last();
            let base = baselines_after_sweep(front, files, prev);
            let r = runners.last();
            let out = outcome_of(r, files.last(), base);
            let readings = swept_readings(runners, files, prev);
            let complaints = swept_complaints(runners, files, prev);
            let after = baselines_after_sweep(runners, files, prev);
            &&& swept_readings(Seq::empty(), files, prev).len() == 0
            &&& swept_complaints(Seq::empty(), files, prev).len() == 0
            &&& baselines_after_sweep(Seq::empty(), files, prev) == prev
            &&& out matches OutcomeView::Reading(x) ==> readings == swept_readings(
                front,
                files,
                prev,
            ).push(x) && after.dom().contains(r.cgroup_path)
            &&& !(out is Reading) ==> readings == swept_readings(front, files, prev)
            &&& out matches OutcomeView::Failed(e) ==> complaints == swept_complaints(
                front,
                files,
                prev,
            ).push(e) && after == base
            &&& !(out is Failed) ==> complaints == swept_complaints(front, files, prev)
            &&& out is Gone ==> !after.dom().contains(r.cgroup_path)
            &&& forall|path: Seq<char>|
                path != r.cgroup_path ==> #[trigger] after.dom().contains(path)
                    == base.dom().contains(path) && (base.dom().contains(path) ==> after[path]
                    == base[path])
        }),
{
}

/// Complaints are listed behind `native: `, with semicolons between them; without any there
/// is no text.
pub proof fn complaints_are_listed(errs: Seq<Seq<char>>, e: Seq<char>)
    ensures
        complaint_of(Seq::empty()) is None,
        complaint_of(seq![e]) == Some("native: "@ + e),
        errs.len() > 0 ==> complaint_of(errs.push(e)) == Some(complaint_of(errs)->0 + "; "@ + e),
{
    joining_puts_separators_between(errs, e, "; "@);
    if errs.len() > 0 {
        assert("native: "@ + (joined(errs, "; "@) + "; "@ + e) =~= "native: "@ + joined(
            errs,
            "; "@,
        ) + "; "@ + e);
    }
}

/// The scopes of a list of runners are those of its runners, in order: repositories among
/// the repositories and organisations among the organisations.
pub proof fn scopes_are_those_of_the_runners(
    a: Seq<NativeView>,
    b: Seq<NativeView>,
    r: NativeView,
)
    ensures
        repo_scopes(a + b) == repo_scopes(a) + repo_scopes(b),
        org_scopes(a + b) == org_scopes(a) + org_scopes(b),
        r.scope matches Some(ScopeView::Repo(s)) ==> repo_scopes(seq![r]) == seq![s] && org_scopes(
            seq![r],
        ).len() == 0,
        r.scope matches Some(ScopeView::Org(s)) ==> org_scopes(seq![r]) == seq![s] && repo_scopes(
            seq![r],
        ).len() == 0,
        r.scope is None ==> repo_scopes(seq![r]).len() == 0 && org_scopes(seq![r]).len() == 0,
    decreases b.len(),
{
    if b.len() == 0 {
        assert(a + b =~= a);
    } else {
        scopes_are_those_of_the_runners(a, b.drop_last(), r);
        assert((a + b).drop_last() =~= a + b.drop_last());
    }
    assert(repo_scopes(a + b) =~= repo_scopes(a) + repo_scopes(b));
    assert(org_scopes(a + b) =~= org_scopes(a) + org_scopes(b));
    reveal_with_fuel(repo_scopes, 2);
    reveal_with_fuel(org_scopes, 2);
    assert(seq![r].drop_last() =~= Seq::empty());
    match r.scope {
        Some(ScopeView::Repo(s)) => {
            assert(repo_scopes(seq![r]) =~= seq![s]);
        },
        Some(ScopeView::Org(s)) => {
            assert(org_scopes(seq![r]) =~= seq![s]);
        },
        None => {},
    }
}

/// The service manager is asked with these command lines.
pub proof fn the_service_manager_is_asked_for_runner_units(unit: Seq<char>)
    ensures
        joined(list_args(), " "@)
            == "list-units --type=service --all --no-legend --plain actions.runner.*.service"@,
        joined(show_args(unit), " "@) == "show "@ + unit + " -p ControlGroup -p WorkingDirectory"@,
{
    reveal_with_fuel(joined, 7);
    reveal_strlit("list-units --type=service --all --no-legend --plain actions.runner.*.service");
    reveal_strlit("list-units");
    reveal_strlit("--type=service");
    reveal_strlit("--all");
    reveal_strlit("--no-legend");
    reveal_strlit("--plain");
    reveal_strlit("actions.runner.*.service");
    reveal_strlit(" ");
    reveal_strlit("show ");
    reveal_strlit("show");
    reveal_strlit("-p");
    reveal_strlit("ControlGroup");
    reveal_strlit("WorkingDirectory");
    reveal_strlit(" -p ControlGroup -p WorkingDirectory");
    let l = list_args();
    assert(l.drop_last().drop_last().drop_last().drop_last().drop_last() =~= seq!["list-units"@]);
    assert(joined(l, " "@)
        =~= "list-units --type=service --all --no-legend --plain actions.runner.*.service"@);
    let s = show_args(unit);
    assert(s.drop_last().drop_last().drop_last().drop_last().drop_last() =~= seq!["show"@]);
    assert(joined(s, " "@) =~= "show "@ + unit + " -p ControlGroup -p WorkingDirectory"@);
}

/// A unit's runner is read from the control group that its properties name, below the file
/// system's mount point, and its registration from `.runner` below its working directory.
/// Without a control group there is no runner.
pub proof fn units_point_to_their_files(
    unit: Seq<char>,
    show: Seq<char>,
    dot: Option<Seq<char>>,
)
    ensures
        ({
            let cgroup = last_value(lines_of(show), "ControlGroup="@);
            let dir = last_value(lines_of(show), "WorkingDirectory="@);
            let runner = unit_runner(unit, Some(show), dot);
            &&& unit_runner(unit, None, dot) is None
            &&& cgroup is None || cgroup->0.len() == 0 ==> runner is None
            &&& registration(unit) is Some && cgroup is Some && cgroup->0.len() > 0
                ==> runner is Some && runner->0.cgroup_path == "/sys/fs/cgroup"@ + cgroup->0
                && runner->0.display == registration(unit)->0
            &&& dir is Some ==> registration_path(show) == Some(dir->0 + "/.runner"@)
            &&& dir is None ==> registration_path(show) is None
        }),
{
}

/// Reading a runner gives it its own name and key, whatever its files hold, and the memory
/// in use without inactive file pages.
pub proof fn runners_are_read_under_their_own_key(
    r: &NativeRunner,
    files: &CgroupFiles,
    prev: &mut Baselines,
    out: ReadOutcome,
)
    requires
        call_ensures(collect_one, (r, files, prev), out),
    ensures
        out matches ReadOutcome::Reading(x) ==> x.name@ == r.display@ && x.kind is Native
            && opt_key(x.key) == opt_key(r.key),
        forall|path: Seq<char>|
            path != r.cgroup_path@ ==> (final(prev)@.dom().contains(path)
                <==> old(prev)@.dom().contains(path)) && (old(prev)@.dom().contains(path)
                ==> #[trigger] final(prev)@[path] == old(prev)@[path]),
{
    readings_carry_their_runners_key(r@, *files, old(prev)@);
}

/// A sweep is a report of the native runners that counts no containers; without runners it
/// reports none and complains about none.
pub proof fn sweeps_report_native_runners(
    runners: &[NativeRunner],
    files: &[CgroupFiles],
    prev: &mut Baselines,
    r: ResourceUpdate,
)
    requires
        call_ensures(sweep, (runners, files, prev), r),
        runners@.len() == files@.len(),
    ensures
        r.source is Native,
        r.matched_seen == 0 && r.unmatched_seen == 0,
        runners@.len() == 0 ==> r.resources@.len() == 0 && r.error is None,
        resource_views(r.resources@) == swept_readings(native_views(runners@), files@, old(prev)@),
        r.error is Some <==> swept_complaints(
            native_views(runners@),
            files@,
            old(prev)@,
        ).len() > 0,
        final(prev)@ == baselines_after_sweep(native_views(runners@), files@, old(prev)@),
{
    assert(resource_views(r.resources@).len() == r.resources@.len());
}

/// One complaint spoils all readings, and without one they stay.
pub proof fn one_complaint_spoils_all_readings(
    resources: Vec<RunnerResource>,
    errs: Vec<String>,
    r: (Vec<RunnerResource>, Option<String>),
)
    requires
        call_ensures(finalize, (resources, errs), r),
    ensures
        errs@.len() == 0 ==> r.0@ == resources@ && r.1 is None,
        errs@.len() > 0 ==> r.0@.len() == 0 && r.1 is Some,
        errs@.len() == 1 ==> r.1->0@ == "native: "@ + errs@[0]@,
        errs@.len() == 2 ==> r.1->0@ == "native: "@ + (errs@[0]@ + "; "@ + errs@[1]@),
{
    let ts = texts(errs@);
    if errs@.len() == 1 {
        reveal_with_fuel(joined, 2);
        assert(ts.drop_last() =~= Seq::empty());
    }
    if errs@.len() == 2 {
        reveal_with_fuel(joined, 3);
        assert(ts.drop_last() =~= seq![ts[0]]);
        assert(seq![ts[0]].drop_last() =~= Seq::empty());
    }
}

/// The scopes to poll are the given repositories and the runners' scopes, each once, with
/// the given ones in front.
pub proof fn scopes_to_poll_are_those_given_and_found(
    pulse_repo: &str,
    seed: &[String],
    runners: &[NativeRunner],
    a: (Vec<String>, Vec<String>),
    b: (Vec<String>, Vec<String>),
    x: Seq<char>,
)
    requires
        call_ensures(derive_scopes, (pulse_repo, runners), a),
        call_ensures(derive_scopes_from, (seed, runners), b),
    ensures
        texts(a.0@).no_duplicates() && texts(a.1@).no_duplicates(),
        texts(b.0@).no_duplicates() && texts(b.1@).no_duplicates(),
        texts(a.0@).contains(x) <==> x == pulse_repo@ || repo_scopes(
            native_views(runners@),
        ).contains(x),
        texts(b.0@).contains(x) <==> texts(seed@).contains(x) || repo_scopes(
            native_views(runners@),
        ).contains(x),
        texts(a.1@).contains(x) <==> org_scopes(native_views(runners@)).contains(x),
        texts(b.1@).contains(x) <==> org_scopes(native_views(runners@)).contains(x),
{
    let found = repo_scopes(native_views(runners@));
    dedup_keeps_each_item_once(seq![pulse_repo@] + found);
    dedup_keeps_each_item_once(texts(seed@) + found);
    dedup_keeps_each_item_once(org_scopes(native_views(runners@)));
    let first = seq![pulse_repo@];
    if x == pulse_repo@ {
        assert((first + found)[0] == x);
    }
    if texts(seed@).contains(x) {
        let i = choose|i: int| 0 <= i < texts(seed@).len() && texts(seed@)[i] == x;
        assert((texts(seed@) + found)[i] == x);
    }
    if found.contains(x) {
        let i = choose|i: int| 0 <= i < found.len() && found[i] == x;
        assert((first + found)[1 + i] == x);
        assert((texts(seed@) + found)[texts(seed@).len() + i] == x);
    }
}

/// The properties of a unit give its control group first and its working directory second.
pub proof fn properties_give_group_and_directory(
    s: &str,
    r: (Option<String>, Option<String>),
    i: int,
    value: Seq<char>,
)
    requires
        call_ensures(parse_show, (s,), r),
        0 <= i < lines_of(s@).len(),
    ensures
        lines_of(s@)[i] == "ControlGroup="@ + value && (forall|j: int|
            i < j < lines_of(s@).len() ==> !"ControlGroup="@.is_prefix_of(
                #[trigger] lines_of(s@)[j],
            )) ==> opt_text(r.0) == Some(trimmed(value)),
        lines_of(s@)[i] == "WorkingDirectory="@ + value && (forall|j: int|
            i < j < lines_of(s@).len() ==> !"WorkingDirectory="@.is_prefix_of(
                #[trigger] lines_of(s@)[j],
            )) ==> opt_text(r.1) == Some(trimmed(value)),
{
    let ls = lines_of(s@);
    if ls[i] == "ControlGroup="@ + value && (forall|j: int|
        i < j < ls.len() ==> !"ControlGroup="@.is_prefix_of(#[trigger] ls[j])) {
        the_last_property_counts(ls, "ControlGroup="@, value, i);
    }
    if ls[i] == "WorkingDirectory="@ + value && (forall|j: int|
        i < j < ls.len() ==> !"WorkingDirectory="@.is_prefix_of(#[trigger] ls[j])) {
        the_last_property_counts(ls, "WorkingDirectory="@, value, i);
    }
}

/// A runner is built from a runner's unit alone. Its key, where its registration file can be
/// read, is made of the scope and the name that the file gives.
pub proof fn runners_are_built_from_their_unit_and_file(
    unit: &str,
    cgroup_path: String,
    dot_runner: Option<&str>,
    r: Option<NativeRunner>,
)
    requires
        call_ensures(build_runner, (unit, cgroup_path, dot_runner), r),
    ensures
        r is Some ==> "actions.runner."@.is_prefix_of(unit@) && ".service"@.is_suffix_of(unit@),
        r is Some ==> r->0.cgroup_path@ == cgroup_path@ && r->0.display@ == registration(unit@)->0,
        r is Some && dot_runner is Some && registration_in(dot_runner->0@) is Some ==> ({
            let (agent, scope) = registration_in(dot_runner->0@)->0;
            &&& r->0.key is Some && r->0.key->0.name@ == agent
            &&& r->0.key->0.scope@ == match scope {
                ScopeView::Repo(s) => s,
                ScopeView::Org(s) => s,
            }
            &&& r->0.scope is Some && r->0.scope->0@ == scope
        }),
        r is Some && (dot_runner is None || registration_in(dot_runner->0@) is None)
            ==> r->0.key is None && r->0.scope is None,
{
    only_runner_units_have_a_registration(unit@);
}

/// What the service manager describes ends with the runner of its last unit, if that has
/// one: the answer about that unit names its control group and directory, and the file that
/// is read is the one in that directory.
pub proof fn units_are_described_one_by_one<
    F: Fn(&[&str]) -> Option<String>,
    G: Fn(&str) -> Option<String>,
>(systemctl: F, read_file: G, units: Seq<Seq<char>>, out: Seq<NativeView>)
    requires
        describes_units(systemctl, read_file, units, out),
    ensures
        units.len() == 0 ==> out.len() == 0,
        units.len() > 0 ==> exists|
            before: Seq<NativeView>,
            show: Option<String>,
            dot: Option<String>,
        |
            {
                &&& #[trigger] describes_units(systemctl, read_file, units.drop_last(), before)
                &&& #[trigger] answers(systemctl, show_args(units.last()), show)
                &&& #[trigger] registration_read(read_file, show, dot)
                &&& show is None ==> dot is None && out == before
                &&& show is Some && cgroup_in(show->0@) is None ==> dot is None && out == before
                &&& show is Some && cgroup_in(show->0@) is Some && registration_path(
                    show->0@,
                ) is None ==> dot is None
                &&& show is Some && cgroup_in(show->0@) is Some && registration_path(
                    show->0@,
                ) is Some ==> exists|p: &str| #[trigger]
                    call_ensures(read_file, (p,), dot) && p@ == registration_path(show->0@)->0
                &&& show is Some && cgroup_in(show->0@) is Some && registration(
                    units.last(),
                ) is Some ==> out.len() == before.len() + 1 && out.drop_last() == before
                    && out.last().cgroup_path == "/sys/fs/cgroup"@ + cgroup_in(show->0@)->0
                    && out.last().display == registration(units.last())->0
            },
{
    if units.len() > 0 {
        let before = choose|before: Seq<NativeView>|
            {
                &&& describes_units(systemctl, read_file, units.drop_last(), before)
                &&& #[trigger] adds_unit(systemctl, read_file, units.last(), before, out)
            };
        assert(describes_units(systemctl, read_file, units.drop_last(), before));
        let (show, dot) = choose|show: Option<String>, dot: Option<String>|
            {
                &&& #[trigger] answers(systemctl, show_args(units.last()), show)
                &&& #[trigger] registration_read(read_file, show, dot)
                &&& out == match unit_runner(units.last(), opt_text(show), opt_text(dot)) {
                    Some(r) => before.push(r),
                    None => before,
                }
            };
        assert(answers(systemctl, show_args(units.last()), show));
        assert(registration_read(read_file, show, dot));
        if let Some(r) = unit_runner(units.last(), opt_text(show), opt_text(dot)) {
            assert(before.push(r).drop_last() =~= before);
        }
    }
}

/// The service manager is asked for the runners' units, and the runners that come out are
/// those of the units that it lists; there are none where it does not answer.
pub proof fn discovered_runners_are_those_listed<
    F: Fn(&[&str]) -> Option<String>,
    G: Fn(&str) -> Option<String>,
>(systemctl: F, read_file: G, r: Vec<NativeRunner>)
    requires
        call_ensures(discover_inner::<F, G>, (systemctl, read_file), r),
    ensures
        exists|list: Option<String>|
            {
                &&& #[trigger] answers(systemctl, list_args(), list)
                &&& list is None ==> r@.len() == 0
                &&& list is Some ==> describes_units(
                    systemctl,
                    read_file,
                    units_in(lines_of(list->0@)),
                    native_views(r@),
                )
            },
{
}

/// The contents of native runners are theirs.
pub proof fn contents_of_runners_are_theirs(rs: Seq<NativeRunner>, r: NativeRunner, i: int)
    ensures
        native_views(rs).len() == rs.len(),
        0 <= i < rs.len() ==> native_views(rs)[i] == rs[i]@,
        opt_native(Some(r)) == Some(r@) && opt_native(None) is None,
{
}

proof fn lemma_tail_off_leaves_front(s: Seq<char>, c: char)
    ensures
        drop_tail_while(s, only(c)).is_prefix_of(s),
    decreases s.len(),
{
    let t = drop_tail_while(s, only(c));
    if s.len() > 0 && only(c)(s.last()) {
        lemma_tail_off_leaves_front(s.drop_last(), c);
        assert(t =~= s.drop_last().subrange(0, t.len() as int));
    }
    assert(t =~= s.subrange(0, t.len() as int));
}

/// A page on any other site stands for no scope.
pub proof fn pages_elsewhere_stand_for_no_scope(url: Seq<char>)
    requires
        !"https://github.com/"@.is_prefix_of(trimmed(url)),
        !"http://github.com/"@.is_prefix_of(trimmed(url)),
    ensures
        scope_at(url) is None,
{
    let all = trimmed(url);
    let bare = drop_tail_while(all, only('/'));
    lemma_tail_off_leaves_front(all, '/');
    let (a, b) = ("https://github.com/"@, "http://github.com/"@);
    if a.is_prefix_of(bare) {
        assert(all.subrange(0, a.len() as int) =~= bare.subrange(0, a.len() as int));
    }
    if b.is_prefix_of(bare) {
        assert(all.subrange(0, b.len() as int) =~= bare.subrange(0, b.len() as int));
    }
}

/// The contents of string slices are theirs, in order.
pub proof fn contents_of_slices_are_theirs(v: Seq<&str>, i: int)
    ensures
        strs(v).len() == v.len(),
        0 <= i < v.len() ==> strs(v)[i] == v[i]@,
{
}

/// A file that is no document registers nothing, nor does one without a name or without the
/// page of a scope.
pub proof fn other_files_register_nothing(text: Seq<char>, doc: JsonTree)
    ensures
        ({
            let read = json_of(skip_while(text, only('\u{feff}')));
            &&& read is None ==> registration_in(text) is None
            &&& read == Some(doc) && doc.field("agentName"@) is None ==> registration_in(
                text,
            ) is None
            &&& read == Some(doc) && doc.field("gitHubUrl"@) is None ==> registration_in(
                text,
            ) is None
        }),
{
}

} // verus!
