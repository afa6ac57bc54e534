//! Runners in containers: which containers count, and what their counters say.

use crate::config::{clone_text, rule_views, PrefixRule, RuleView};
use crate::history::SeriesView;
use crate::keyed::{keys_of, lemma_next_pair, map_of, putting_inserts, Keyed};
use crate::model::{
    index_of_runner, keyed_row, opt_job, resource_views, runner_index, JobInfo, KeyView,
    ResourceView, RunnerKey, RunnerResource, SourceKind,
};
use crate::resource::ResourceUpdate;
use crate::stats_math::{cpu_pct, less, mem_used, no_cpu, CpuShare};
use crate::text::{
    after_last, decimal, decimal_reads_back, decimal_text, only, opt_str, opt_text, rfind,
    same_text, skip_while, starts_with, taking_off_one_character, trim_start_char,
};
use vstd::prelude::*;

verus! {

/// A reading of a container's CPU counter and the machine's.
#[derive(Clone, Copy, Debug, PartialEq, Eq, Structural)]
pub struct CpuSample {
    pub total: u64,
    pub system: u64,
}

/// A container's name without the slashes in front of it.
pub open spec fn bare_name(name: Seq<char>) -> Seq<char> {
    skip_while(name, only('/'))
}

/// The first of the rules whose prefix begins the name, or their number where there is
/// none.
pub open spec fn rule_for(name: Seq<char>, rules: Seq<RuleView>) -> int
    decreases rules.len(),
{
    if rules.len() == 0 || rules[0].prefix.is_prefix_of(bare_name(name)) {
        0
    } else {
        1 + rule_for(name, rules.skip(1))
    }
}

/// The first rule whose prefix begins the container's name.
pub fn matching_rule<'a>(name: &str, rules: &'a [PrefixRule]) -> (r: Option<&'a PrefixRule>)
    ensures
        match r {
            Some(rule) => {
                &&& 0 <= rule_for(name@, rule_views(rules@)) < rules@.len()
                &&& *rule == rules@[rule_for(name@, rule_views(rules@))]
            },
            None => rule_for(name@, rule_views(rules@)) == rules@.len(),
        },
{
    let bare = trim_start_char(name, '/');
    let ghost all = rule_views(rules@);
    let mut i: usize = 0;
    assert(all.skip(0) =~= all);
    while i < rules.len()
        invariant
            i <= rules@.len(),
            all == rule_views(rules@),
            bare@ == bare_name(name@),
            rule_for(name@, all) == i + rule_for(name@, all.skip(i as int)),
        decreases rules@.len() - i,
    {
        assert(all.skip(i as int)[0] == rules@[i as int]@);
        if starts_with(bare.as_str(), rules[i].prefix.as_str()) {
            return Some(&rules[i]);
        }
        assert(all.skip(i as int).skip(1) =~= all.skip(i + 1));
        i += 1;
    }
    None
}

/// CPU use between two samples; none where there is no earlier one.
pub open spec fn cpu_between(prev: Option<CpuSample>, cur: CpuSample, online: u64) -> CpuShare {
    match prev {
        Some(p) => if cur.system > p.system && online > 0 {
            CpuShare {
                busy: less(cur.total, p.total),
                span: (cur.system - p.system) as u64,
                cores: online,
            }
        } else {
            CpuShare::none()
        },
        None => CpuShare::none(),
    }
}

/// CPU use between two samples; none on the first poll.
pub fn cpu_from_samples(prev: Option<CpuSample>, cur: CpuSample, online: u64) -> (r: CpuShare)
    ensures
        r == cpu_between(prev, cur, online),
{
    match prev {
        None => no_cpu(),
        Some(p) => cpu_pct(cur.total, p.total, cur.system, p.system, online),
    }
}

/// The name under which a container's runner is registered: `runner-` and the
/// container's number, or the container's own name where it has none.
pub open spec fn registered_name(container: Seq<char>) -> Seq<char> {
    match index_of_runner(container) {
        Some(i) => "runner-"@ + decimal(i),
        None => container,
    }
}

/// The name under which a container's runner is registered.
pub fn docker_runner_name(container: &str) -> (r: String)
    ensures
        r@ == registered_name(container@),
{
    match runner_index(container) {
        Some(i) => {
            let digits = decimal_text(i as u64);
            "runner-".to_owned().concat(digits.as_str())
        },
        None => container.to_owned(),
    }
}

proof fn lemma_rfind_before_digits(front: Seq<char>, n: nat)
    requires
        front.len() > 0,
        front.last() == '-',
    ensures
        rfind(front + decimal(n), '-') == front.len() - 1,
    decreases n,
{
    let all = front + decimal(n);
    if n < 10 {
        assert(all.drop_last() =~= front);
        assert(all.last() == decimal(n)[0]);
        assert(rfind(front, '-') == front.len() - 1);
    } else {
        lemma_rfind_before_digits(front, n / 10);
        assert(all.drop_last() =~= front + decimal(n / 10));
        assert(all.last() == decimal(n).last());
    }
}

/// A runner is registered under the number of its container.
pub proof fn runners_keep_their_number(container: Seq<char>)
    requires
        index_of_runner(container) is Some,
    ensures
        index_of_runner(registered_name(container)) == index_of_runner(container),
{
    let i = index_of_runner(container)->0;
    reveal_strlit("runner-");
    let front = "runner-"@;
    assert(front.last() == '-');
    lemma_rfind_before_digits(front, i);
    assert(after_last(front + decimal(i), '-') =~= decimal(i));
    decimal_reads_back(i, u32::MAX as nat);
}

/// A container's CPU counters, as far as the daemon gives them.
#[derive(Clone, Copy, Debug, PartialEq, Eq, Structural)]
pub struct CpuCounters {
    pub online_cpus: Option<u32>,
    /// How many cores the daemon gives a counter for.
    pub percpu_count: Option<u64>,
    pub total_usage: Option<u64>,
    pub system_cpu_usage: Option<u64>,
}

/// A container's memory counters, as far as the daemon gives them.
#[derive(Clone, Copy, Debug, PartialEq, Eq, Structural)]
pub struct MemCounters {
    pub usage: Option<u64>,
    pub limit: Option<u64>,
    pub inactive_file: Option<u64>,
}

/// What the daemon says of a container.
#[derive(Clone, Copy, Debug, PartialEq, Eq, Structural)]
pub struct ContainerStats {
    pub cpu: Option<CpuCounters>,
    pub memory: Option<MemCounters>,
}

/// A number, or `default` where there is none.
pub open spec fn or_default(o: Option<u64>, default: u64) -> u64 {
    match o {
        Some(n) => n,
        None => default,
    }
}

fn or_else(o: Option<u64>, default: u64) -> (r: u64)
    ensures
        r == or_default(o, default),
{
    match o {
        Some(n) => n,
        None => default,
    }
}

/// How many cores a container's CPU time is spread over: the number of cores online, or
/// else the number of counters, or else one.
pub open spec fn cores_of(cpu: CpuCounters) -> u64 {
    match cpu.online_cpus {
        Some(n) => n as u64,
        None => or_default(cpu.percpu_count, 1),
    }
}

/// The sample in a container's CPU counters.
pub open spec fn sample_of(cpu: CpuCounters) -> CpuSample {
    CpuSample {
        total: or_default(cpu.total_usage, 0),
        system: or_default(cpu.system_cpu_usage, 0),
    }
}

/// A sample that was kept, if any.
pub open spec fn kept(prev: Map<Seq<char>, CpuSample>, id: Seq<char>) -> Option<CpuSample> {
    if prev.dom().contains(id) {
        Some(prev[id])
    } else {
        None
    }
}

/// What a container's counters say of its runner; nothing where a group of counters is
/// missing. A runner of a fleet without a repository has no key.
pub open spec fn reading_of(
    id: Seq<char>,
    name: Seq<char>,
    repo: Option<Seq<char>>,
    s: ContainerStats,
    prev: Map<Seq<char>, CpuSample>,
) -> Option<ResourceView> {
    match (s.cpu, s.memory) {
        (Some(cpu), Some(mem)) => Some(
            ResourceView {
                name: bare_name(name),
                cpu_pct: cpu_between(kept(prev, id), sample_of(cpu), cores_of(cpu)),
                mem_bytes: less(or_default(mem.usage, 0), or_default(mem.inactive_file, 0)),
                mem_limit: or_default(mem.limit, 0),
                key: match repo {
                    Some(scope) => Some(
                        KeyView { scope, name: registered_name(bare_name(name)) },
                    ),
                    None => None,
                },
                kind: SourceKind::Docker,
            },
        ),
        _ => None,
    }
}

/// The samples to keep after a container's counters were read.
pub open spec fn kept_after(
    id: Seq<char>,
    s: ContainerStats,
    prev: Map<Seq<char>, CpuSample>,
) -> Map<Seq<char>, CpuSample> {
    match (s.cpu, s.memory) {
        (Some(cpu), Some(_)) => prev.insert(id, sample_of(cpu)),
        _ => prev,
    }
}

/// The content of an optional reading.
pub open spec fn opt_resource(r: Option<RunnerResource>) -> Option<ResourceView> {
    match r {
        Some(res) => Some(res@),
        None => None,
    }
}

/// What a container's counters say of its runner, measured against the sample that was
/// kept of it; the new sample takes that one's place.
pub fn to_resource(
    id: &str,
    name: &str,
    repo: Option<&str>,
    s: &ContainerStats,
    prev: &mut Keyed<String, CpuSample>,
) -> (r: Option<RunnerResource>)
    ensures
        opt_resource(r) == reading_of(id@, name@, opt_str(repo), *s, old(prev)@),
        final(prev)@ == kept_after(id@, *s, old(prev)@),
{
    let (cpu, mem) = match (s.cpu, s.memory) {
        (Some(cpu), Some(mem)) => (cpu, mem),
        _ => return None,
    };
    let online: u64 = match cpu.online_cpus {
        Some(n) => n as u64,
        None => or_else(cpu.percpu_count, 1),
    };
    let cur = CpuSample {
        total: or_else(cpu.total_usage, 0),
        system: or_else(cpu.system_cpu_usage, 0),
    };
    let key = id.to_owned();
    let earlier: Option<CpuSample> = match prev.get(&key) {
        Some(sample) => Some(*sample),
        None => None,
    };
    let pct = cpu_from_samples(earlier, cur, online);
    prev.insert(key, cur);
    let used = mem_used(or_else(mem.usage, 0), or_else(mem.inactive_file, 0));
    let display = trim_start_char(name, '/');
    let runner: Option<RunnerKey> = match repo {
        Some(scope) => Some(
            RunnerKey { scope: scope.to_owned(), name: docker_runner_name(display.as_str()) },
        ),
        None => None,
    };
    Some(
        RunnerResource {
            key: runner,
            name: display,
            cpu_pct: pct,
            mem_bytes: used,
            mem_limit: or_else(mem.limit, 0),
            kind: SourceKind::Docker,
        },
    )
}

/// A running container: its first name and its identifier, as far as the daemon gives
/// them.
#[derive(Debug)]
pub struct Container {
    pub name: Option<String>,
    pub id: Option<String>,
}

/// A container whose counters are to be read, and the repository of the rule that it
/// matched.
#[derive(Debug)]
pub struct Target {
    pub id: String,
    pub name: String,
    pub repo: Option<String>,
}

/// The content of a [`Target`].
pub struct TargetView {
    pub id: Seq<char>,
    pub name: Seq<char>,
    pub repo: Option<Seq<char>>,
}

impl View for Target {
    type V = TargetView;

    open spec fn view(&self) -> TargetView {
        TargetView { id: self.id@, name: self.name@, repo: opt_text(self.repo) }
    }
}

/// The contents of a row of targets.
pub open spec fn target_views(ts: Seq<Target>) -> Seq<TargetView> {
    ts.map_values(|t: Target| t@)
}

/// The name of a container; empty where it has none.
pub open spec fn container_name(c: Container) -> Seq<char> {
    match c.name {
        Some(n) => n@,
        None => Seq::empty(),
    }
}

/// Whether a rule matches a container.
pub open spec fn is_matched(c: Container, rules: Seq<RuleView>) -> bool {
    rule_for(container_name(c), rules) < rules.len()
}

/// The containers whose counters are to be read: those that a rule matches and that
/// have an identifier.
pub open spec fn targets_among(cs: Seq<Container>, rules: Seq<RuleView>) -> Seq<TargetView>
    decreases cs.len(),
{
    if cs.len() == 0 {
        Seq::empty()
    } else {
        let front = targets_among(cs.drop_last(), rules);
        let c = cs.last();
        match c.id {
            Some(id) => if is_matched(c, rules) {
                front.push(
                    TargetView {
                        id: id@,
                        name: container_name(c),
                        repo: rules[rule_for(container_name(c), rules)].repo,
                    },
                )
            } else {
                front
            },
            None => front,
        }
    }
}

/// How many containers a rule matches.
pub open spec fn matched_among(cs: Seq<Container>, rules: Seq<RuleView>) -> nat
    decreases cs.len(),
{
    if cs.len() == 0 {
        0
    } else {
        matched_among(cs.drop_last(), rules) + if is_matched(cs.last(), rules) {
            1nat
        } else {
            0nat
        }
    }
}

/// The containers to read, and how many there are with and without a rule that matches.
#[derive(Debug)]
pub struct Selection {
    pub targets: Vec<Target>,
    pub matched_seen: usize,
    pub unmatched_seen: usize,
}

/// Picks the containers whose counters are to be read.
pub fn select_containers(list: &[Container], rules: &[PrefixRule]) -> (r: Selection)
    ensures
        target_views(r.targets@) == targets_among(list@, rule_views(rules@)),
        r.matched_seen == matched_among(list@, rule_views(rules@)),
        r.matched_seen + r.unmatched_seen == list@.len(),
{
    let ghost all = rule_views(rules@);
    let mut targets: Vec<Target> = Vec::new();
    let mut matched: usize = 0;
    let mut i: usize = 0;
    assert(target_views(targets@) =~= targets_among(list@.take(0), all));
    while i < list.len()
        invariant
            i <= list@.len(),
            all == rule_views(rules@),
            matched <= i,
            target_views(targets@) == targets_among(list@.take(i as int), all),
            matched == matched_among(list@.take(i as int), all),
        decreases list@.len() - i,
    {
        let c = &list[i];
        let ghost before = target_views(targets@);
        proof {
            assert(list@.take(i + 1).drop_last() =~= list@.take(i as int));
            assert(list@.take(i + 1).last() == *c);
        }
        let name = match &c.name {
            Some(n) => n.clone(),
            None => String::new(),
        };
        assert(name@ == container_name(*c));
        if let Some(rule) = matching_rule(name.as_str(), rules) {
            matched += 1;
            if let Some(id) = &c.id {
                let target = Target { id: id.clone(), name, repo: clone_text(&rule.repo) };
                let ghost view = target@;
                targets.push(target);
                assert(target_views(targets@) =~= before.push(view));
                assert(all[rule_for(name@, all)] == rule@);
            }
        }
        i += 1;
    }
    assert(list@.take(list@.len() as int) =~= list@);
    Selection { targets, matched_seen: matched, unmatched_seen: list.len() - matched }
}

/// The samples to keep after a row of targets was read.
pub open spec fn kept_after_all(
    targets: Seq<TargetView>,
    stats: Seq<Option<ContainerStats>>,
    prev: Map<Seq<char>, CpuSample>,
) -> Map<Seq<char>, CpuSample>
    decreases targets.len(),
{
    if targets.len() == 0 {
        prev
    } else {
        let front = kept_after_all(targets.drop_last(), stats, prev);
        match stats[targets.len() - 1] {
            Some(s) => kept_after(targets.last().id, s, front),
            None => front,
        }
    }
}

/// What a row of targets says: one reading for each whose counters could be read.
pub open spec fn readings_of(
    targets: Seq<TargetView>,
    stats: Seq<Option<ContainerStats>>,
    prev: Map<Seq<char>, CpuSample>,
) -> Seq<ResourceView>
    decreases targets.len(),
{
    if targets.len() == 0 {
        Seq::empty()
    } else {
        let front = readings_of(targets.drop_last(), stats, prev);
        let t = targets.last();
        match stats[targets.len() - 1] {
            Some(s) => match reading_of(
                t.id,
                t.name,
                t.repo,
                s,
                kept_after_all(targets.drop_last(), stats, prev),
            ) {
                Some(r) => front.push(r),
                None => front,
            },
            None => front,
        }
    }
}

/// Whether one of the targets has this identifier.
pub open spec fn has_target(targets: Seq<TargetView>, id: Seq<char>) -> bool {
    exists|i: int| 0 <= i < targets.len() && (#[trigger] targets[i]).id == id
}

fn is_target(targets: &[Target], id: &str) -> (r: bool)
    ensures
        r == has_target(target_views(targets@), id@),
{
    let ghost all = target_views(targets@);
    let mut i: usize = 0;
    while i < targets.len()
        invariant
            i <= targets@.len(),
            all == target_views(targets@),
            forall|j: int| 0 <= j < i ==> (#[trigger] all[j]).id != id@,
        decreases targets@.len() - i,
    {
        if same_text(targets[i].id.as_str(), id) {
            assert(all[i as int].id == id@);
            return true;
        }
        i += 1;
    }
    false
}

/// The readings of the targets, `stats` being what the daemon said of each. Samples of
/// containers that are no longer among the targets are dropped.
pub fn collect(
    targets: &[Target],
    stats: &[Option<ContainerStats>],
    prev: &mut Keyed<String, CpuSample>,
) -> (r: Vec<RunnerResource>)
    requires
        targets@.len() == stats@.len(),
    ensures
        resource_views(r@) == readings_of(target_views(targets@), stats@, old(prev)@),
        final(prev)@ == kept_after_all(target_views(targets@), stats@, old(prev)@).restrict(
            Set::new(|id: Seq<char>| has_target(target_views(targets@), id)),
        ),
{
    let ghost all = target_views(targets@);
    let ghost start = prev@;
    let mut out: Vec<RunnerResource> = Vec::new();
    let mut i: usize = 0;
    assert(all.take(0) =~= Seq::empty());
    assert(resource_views(out@) =~= Seq::empty());
    while i < targets.len()
        invariant
            i <= targets@.len(),
            targets@.len() == stats@.len(),
            all == target_views(targets@),
            resource_views(out@) == readings_of(all.take(i as int), stats@, start),
            prev@ == kept_after_all(all.take(i as int), stats@, start),
        decreases targets@.len() - i,
    {
        let ghost before = resource_views(out@);
        let t = &targets[i];
        proof {
            assert(all.take(i + 1).drop_last() =~= all.take(i as int));
            assert(all.take(i + 1).last() == t@);
        }
        if let Some(s) = &stats[i] {
            let repo = match &t.repo {
                Some(r) => Some(r.as_str()),
                None => None,
            };
            if let Some(res) = to_resource(t.id.as_str(), t.name.as_str(), repo, s, prev) {
                let ghost view = res@;
                out.push(res);
                assert(resource_views(out@) =~= before.push(view));
            }
        }
        i += 1;
    }
    assert(all.take(all.len() as int) =~= all);
    drop_strangers(prev, targets);
    out
}

fn drop_strangers(prev: &mut Keyed<String, CpuSample>, targets: &[Target])
    ensures
        final(prev)@ == old(prev)@.restrict(
            Set::new(|id: Seq<char>| has_target(target_views(targets@), id)),
        ),
{
    let ghost all = target_views(targets@);
    let ghost wanted = Set::new(|id: Seq<char>| has_target(all, id));
    let ghost start = prev@;
    let ghost pairs = prev.pairs();
    let mut out: Keyed<String, CpuSample> = Keyed::new();
    let n = prev.len();
    let mut i: usize = 0;
    assert(map_of(pairs.take(0)).restrict(wanted) =~= Map::empty());
    while i < n
        invariant
            i <= n,
            n == prev.pairs().len(),
            pairs == prev.pairs(),
            keys_of(pairs).no_duplicates(),
            all == target_views(targets@),
            wanted == Set::new(|id: Seq<char>| has_target(all, id)),
            out@ == map_of(pairs.take(i as int)).restrict(wanted),
        decreases n - i,
    {
        let e = prev.entry(i);
        let ghost before = out@;
        proof {
            lemma_next_pair(pairs, i as int);
            putting_inserts(pairs.take(i as int), pairs[i as int].0, pairs[i as int].1);
        }
        if is_target(targets, e.0.as_str()) {
            out.insert(e.0.clone(), *e.1);
        }
        assert(out@ =~= map_of(pairs.take(i + 1)).restrict(wanted));
        i += 1;
    }
    assert(pairs.take(n as int) =~= pairs);
    *prev = out;
}

/// The report of a poll that read the targets.
pub fn docker_update(
    resources: Vec<RunnerResource>,
    matched_seen: usize,
    unmatched_seen: usize,
) -> (r: ResourceUpdate)
    ensures
        r.source is Docker,
        r.resources == resources,
        r.matched_seen == matched_seen,
        r.unmatched_seen == unmatched_seen,
        r.error is None,
{
    ResourceUpdate {
        source: SourceKind::Docker,
        resources,
        matched_seen,
        unmatched_seen,
        error: None,
    }
}

/// The report of a poll that failed: no readings, and the reason.
pub fn err_update(reason: &str) -> (r: ResourceUpdate)
    ensures
        r.source is Docker,
        r.resources@.len() == 0,
        r.matched_seen == 0,
        r.unmatched_seen == 0,
        opt_text(r.error) == Some("docker: "@ + reason@),
{
    ResourceUpdate {
        source: SourceKind::Docker,
        resources: Vec::new(),
        matched_seen: 0,
        unmatched_seen: 0,
        error: Some("docker: ".to_owned().concat(reason)),
    }
}

/// Every target comes from a container that a rule matches, and carries that rule's
/// repository: containers of a fleet without a repository get no key, so that no two
/// such fleets share one.
pub proof fn targets_carry_their_rules_repo(
    cs: Seq<Container>,
    rules: Seq<RuleView>,
    i: int,
    s: ContainerStats,
    prev: Map<Seq<char>, CpuSample>,
)
    requires
        0 <= i < targets_among(cs, rules).len(),
    ensures
        ({
            let t = targets_among(cs, rules)[i];
            let n = rule_for(t.name, rules);
            &&& 0 <= n < rules.len()
            &&& t.repo == rules[n].repo
            &&& rules[n].repo is None ==> (reading_of(t.id, t.name, t.repo, s, prev) matches Some(
                r,
            ) ==> r.key is None)
            &&& rules[n].repo is Some ==> (reading_of(t.id, t.name, t.repo, s, prev) matches Some(
                r,
            ) ==> r.key is Some && r.key->0.scope == rules[n].repo->0)
        }),
    decreases cs.len(),
{
    if cs.len() > 0 {
        let front = targets_among(cs.drop_last(), rules);
        lemma_rule_for_bounds(container_name(cs.last()), rules);
        if i < front.len() {
            targets_carry_their_rules_repo(cs.drop_last(), rules, i, s, prev);
        }
    }
}

proof fn lemma_rule_for_bounds(name: Seq<char>, rules: Seq<RuleView>)
    ensures
        0 <= rule_for(name, rules) <= rules.len(),
        rule_for(name, rules) < rules.len() ==> rules[rule_for(name, rules)].prefix.is_prefix_of(
            bare_name(name),
        ),
        forall|j: int|
            0 <= j < rule_for(name, rules) ==> !(#[trigger] rules[j]).prefix.is_prefix_of(
                bare_name(name),
            ),
    decreases rules.len(),
{
    if rules.len() > 0 && !rules[0].prefix.is_prefix_of(bare_name(name)) {
        lemma_rule_for_bounds(name, rules.skip(1));
        assert forall|j: int| 0 <= j < rule_for(name, rules) implies !(
        #[trigger] rules[j]).prefix.is_prefix_of(bare_name(name)) by {
            if j > 0 {
                assert(rules.skip(1)[j - 1] == rules[j]);
            }
        }
    }
}

/// The first rule that matches wins: its prefix begins the name, and no earlier rule's
/// does.
pub proof fn the_first_matching_rule_wins(name: Seq<char>, rules: Seq<RuleView>, j: int)
    requires
        0 <= j < rules.len(),
        rules[j].prefix.is_prefix_of(bare_name(name)),
    ensures
        0 <= rule_for(name, rules) <= j,
        rules[rule_for(name, rules)].prefix.is_prefix_of(bare_name(name)),
{
    lemma_rule_for_bounds(name, rules);
}

/// Container number `n` of a fleet with a repository is matched with that repository's
/// runner `runner-n`: its row shows that runner's job, and is not idle while that runner is
/// busy.
pub proof fn containers_show_the_job_of_their_runner(
    id: Seq<char>,
    name: Seq<char>,
    repo: Seq<char>,
    s: ContainerStats,
    prev: Map<Seq<char>, CpuSample>,
    jobs: Map<KeyView, Option<JobInfo>>,
    history: Map<Seq<char>, SeriesView>,
    warn_pct: u64,
    crit_pct: u64,
)
    requires
        index_of_runner(bare_name(name)) is Some,
        s.cpu is Some,
        s.memory is Some,
    ensures
        ({
            let n = index_of_runner(bare_name(name))->0;
            let key = KeyView { scope: repo, name: "runner-"@ + decimal(n) };
            let reading = reading_of(id, name, Some(repo), s, prev)->0;
            let row = keyed_row(reading, jobs, history, warn_pct, crit_pct);
            &&& reading_of(id, name, Some(repo), s, prev) is Some
            &&& reading.key == Some(key)
            &&& jobs.dom().contains(key) ==> row.job == opt_job(jobs[key]) && row.load !is Idle
            &&& !jobs.dom().contains(key) ==> row.job is None && row.load !is Busy
        }),
{
}

/// Runners of fleets with different repositories never have the same key, though their
/// containers have the same number.
pub proof fn fleets_of_different_repos_do_not_collide(
    a: (Seq<char>, Seq<char>, Seq<char>, ContainerStats),
    b: (Seq<char>, Seq<char>, Seq<char>, ContainerStats),
    prev: Map<Seq<char>, CpuSample>,
)
    requires
        a.2 != b.2,
    ensures
        reading_of(a.0, a.1, Some(a.2), a.3, prev) matches Some(x) ==> (reading_of(
            b.0,
            b.1,
            Some(b.2),
            b.3,
            prev,
        ) matches Some(y) ==> x.key != y.key),
{
}

/// A container's name loses the slashes in front of it, and nothing else.
pub proof fn names_lose_their_leading_slashes(slashes: Seq<char>, name: Seq<char>)
    requires
        forall|i: int| 0 <= i < slashes.len() ==> #[trigger] slashes[i] == '/',
        name.len() > 0,
        name[0] != '/',
    ensures
        bare_name(slashes + name) == name,
        bare_name(name) == name,
{
    taking_off_one_character(slashes, name, '/');
    taking_off_one_character(Seq::empty(), name, '/');
    assert(Seq::<char>::empty() + name =~= name);
}

/// A number that the daemon may leave out: what it gives, or what stands in for it.
pub open spec fn is_given_or(n: u64, given: Option<u64>, default: u64) -> bool {
    &&& given is Some ==> n == given->0
    &&& given is None ==> n == default
}

/// A reading shows the container's counters: its memory in use without the inactive pages,
/// its limit, its name and its rule's repository. It is there exactly when both groups of
/// counters are.
pub proof fn readings_show_the_counters(
    id: Seq<char>,
    name: Seq<char>,
    repo: Option<Seq<char>>,
    s: ContainerStats,
    prev: Map<Seq<char>, CpuSample>,
)
    ensures
        ({
            let r = reading_of(id, name, repo, s, prev);
            &&& r is Some <==> s.cpu is Some && s.memory is Some
            &&& r is Some ==> r->0.kind is Docker && r->0.name == bare_name(name)
            &&& r is Some ==> is_given_or(r->0.mem_limit, s.memory->0.limit, 0)
            &&& r is Some && s.memory->0.usage is None ==> r->0.mem_bytes == 0
            &&& r is Some && s.memory->0.inactive_file is None ==> is_given_or(
                r->0.mem_bytes,
                s.memory->0.usage,
                0,
            )
            &&& r is Some && s.memory->0.usage is Some && s.memory->0.inactive_file is Some ==> (
            if s.memory->0.inactive_file->0 <= s.memory->0.usage->0 {
                r->0.mem_bytes + s.memory->0.inactive_file->0 == s.memory->0.usage->0
            } else {
                r->0.mem_bytes == 0
            })
            &&& r is Some && repo is None ==> r->0.key is None
            &&& r is Some && repo is Some ==> r->0.key is Some && r->0.key->0.scope == repo->0
            &&& r is Some && repo is Some && index_of_runner(bare_name(name)) is None
                ==> r->0.key->0.name == bare_name(name)
        }),
{
}

/// CPU use is measured between two polls of a container: the CPU time that it took in
/// between, over the time that the machine's counter moved, on the cores that are online.
/// The first poll measures none.
pub proof fn cpu_use_is_measured_between_polls(
    id: Seq<char>,
    other: Seq<char>,
    name: Seq<char>,
    repo: Option<Seq<char>>,
    first: ContainerStats,
    second: ContainerStats,
    prev: Map<Seq<char>, CpuSample>,
)
    requires
        first.cpu is Some && first.memory is Some,
        second.cpu is Some && second.memory is Some,
        first.cpu->0.total_usage is Some && first.cpu->0.system_cpu_usage is Some,
        second.cpu->0.total_usage is Some && second.cpu->0.system_cpu_usage is Some,
        other != id,
    ensures
        ({
            let a = first.cpu->0;
            let b = second.cpu->0;
            let between = kept_after(id, first, prev);
            let share = reading_of(id, name, repo, second, between)->0.cpu_pct;
            let moved = b.system_cpu_usage->0 - a.system_cpu_usage->0;
            let took = b.total_usage->0 - a.total_usage->0;
            &&& moved > 0 && took >= 0 && b.online_cpus is Some && b.online_cpus->0 > 0
                ==> share.busy == took && share.span == moved && share.cores == b.online_cpus->0
            &&& moved > 0 && took >= 0 && b.online_cpus is None && b.percpu_count is Some
                && b.percpu_count->0 > 0 ==> share.busy == took && share.span == moved
                && share.cores == b.percpu_count->0
            &&& moved > 0 && took >= 0 && b.online_cpus is None && b.percpu_count is None
                ==> share.busy == took && share.span == moved && share.cores == 1
            &&& moved <= 0 || took < 0 ==> share.percent_times_span() == 0
            &&& !prev.dom().contains(id) ==> reading_of(
                id,
                name,
                repo,
                first,
                prev,
            )->0.cpu_pct.percent_times_span() == 0
            &&& between.dom().contains(other) == prev.dom().contains(other)
            &&& prev.dom().contains(other) ==> between[other] == prev[other]
        }),
{
    let between = kept_after(id, first, prev);
    let share = reading_of(id, name, repo, second, between)->0.cpu_pct;
    let (busy, cores) = (share.busy, share.cores);
    assert(busy == 0 ==> 100 * busy * cores == 0) by (nonlinear_arith);
}

/// A target is one of the containers: its identifier and its name are that container's.
pub proof fn targets_come_from_containers(cs: Seq<Container>, rules: Seq<RuleView>, i: int)
    requires
        0 <= i < targets_among(cs, rules).len(),
    ensures
        exists|k: int|
            0 <= k < cs.len() && (#[trigger] cs[k]).id is Some && cs[k].id->0@ == targets_among(
                cs,
                rules,
            )[i].id && (cs[k].name is Some ==> cs[k].name->0@ == targets_among(cs, rules)[i].name)
                && (cs[k].name is None ==> targets_among(cs, rules)[i].name.len() == 0),
    decreases cs.len(),
{
    if cs.len() > 0 {
        let front = targets_among(cs.drop_last(), rules);
        if i < front.len() {
            targets_come_from_containers(cs.drop_last(), rules, i);
            let k = choose|k: int|
                0 <= k < cs.drop_last().len() && (#[trigger] cs.drop_last()[k]).id is Some
                    && cs.drop_last()[k].id->0@ == front[i].id && (cs.drop_last()[k].name is Some
                    ==> cs.drop_last()[k].name->0@ == front[i].name) && (
                cs.drop_last()[k].name is None ==> front[i].name.len() == 0);
            assert(cs[k] == cs.drop_last()[k]);
        } else {
            assert(cs[cs.len() - 1].id is Some);
        }
    }
}

/// Every container with an identifier whose name a rule's prefix begins is a target, with
/// the repository of the first such rule.
pub proof fn matched_containers_are_targets(
    cs: Seq<Container>,
    rules: Seq<RuleView>,
    k: int,
    n: int,
)
    requires
        0 <= k < cs.len(),
        cs[k].id is Some,
        cs[k].name is Some,
        0 <= n < rules.len(),
        rules[n].prefix.is_prefix_of(bare_name(cs[k].name->0@)),
        forall|j: int|
            0 <= j < n ==> !(#[trigger] rules[j]).prefix.is_prefix_of(
                bare_name(cs[k].name->0@),
            ),
    ensures
        targets_among(cs, rules).contains(
            TargetView { id: cs[k].id->0@, name: cs[k].name->0@, repo: rules[n].repo },
        ),
    decreases cs.len(),
{
    let front = targets_among(cs.drop_last(), rules);
    let all = targets_among(cs, rules);
    let wanted = TargetView { id: cs[k].id->0@, name: cs[k].name->0@, repo: rules[n].repo };
    lemma_rule_for_bounds(cs[k].name->0@, rules);
    assert(rule_for(cs[k].name->0@, rules) == n) by {
        let m = rule_for(cs[k].name->0@, rules);
        if m < n {
            assert(!rules[m].prefix.is_prefix_of(bare_name(cs[k].name->0@)));
        }
        if m > n {
            assert(!rules[n].prefix.is_prefix_of(bare_name(cs[k].name->0@)));
        }
    }
    if k == cs.len() - 1 {
        assert(all[front.len() as int] == wanted);
    } else {
        matched_containers_are_targets(cs.drop_last(), rules, k, n);
        let i = choose|i: int| 0 <= i < front.len() && front[i] == wanted;
        assert(all[i] == wanted);
    }
}

/// A container counts as matched exactly when a rule's prefix begins its name, whether or
/// not it has an identifier.
pub proof fn matches_are_counted(cs: Seq<Container>, c: Container, rules: Seq<RuleView>)
    requires
        c.name is Some,
    ensures
        matched_among(Seq::empty(), rules) == 0,
        (exists|j: int|
            0 <= j < rules.len() && (#[trigger] rules[j]).prefix.is_prefix_of(
                bare_name(c.name->0@),
            )) ==> matched_among(cs.push(c), rules) == matched_among(cs, rules) + 1,
        (forall|j: int|
            0 <= j < rules.len() ==> !(#[trigger] rules[j]).prefix.is_prefix_of(
                bare_name(c.name->0@),
            )) ==> matched_among(cs.push(c), rules) == matched_among(cs, rules),
{
    assert(cs.push(c).drop_last() =~= cs);
    lemma_rule_for_bounds(c.name->0@, rules);
}

/// Each target that the daemon answered for adds its own reading, behind those of the
/// targets before it; one without an answer adds none and keeps its sample.
pub proof fn each_answer_adds_its_reading(
    targets: Seq<TargetView>,
    stats: Seq<Option<ContainerStats>>,
    prev: Map<Seq<char>, CpuSample>,
)
    requires
        targets.len() > 0,
        stats.len() == targets.len(),
    ensures
        ({
            let t = targets.last();
            let front = targets.drop_last();
            let kept = kept_after_all(front, stats, prev);
            let earlier = readings_of(front, stats, prev);
            let all = readings_of(targets, stats, prev);
            &&& readings_of(Seq::empty(), stats, prev).len() == 0
            &&& kept_after_all(Seq::empty(), stats, prev) == prev
            &&& stats.last() is None ==> all == earlier && kept_after_all(targets, stats, prev)
                == kept
            &&& stats.last() is Some && stats.last()->0.cpu is Some
                && stats.last()->0.memory is Some ==> all.len() == earlier.len() + 1 && all.drop_last() == earlier
                && all.last().name == bare_name(t.name) && Some(all.last()) == reading_of(
                t.id,
                t.name,
                t.repo,
                stats.last()->0,
                kept,
            )
            &&& stats.last() is Some && stats.last()->0.cpu is Some
                && stats.last()->0.memory is Some ==> kept_after_all(targets, stats, prev).dom().contains(t.id)
                && is_given_or(
                kept_after_all(targets, stats, prev)[t.id].total,
                stats.last()->0.cpu->0.total_usage,
                0,
            ) && is_given_or(
                kept_after_all(targets, stats, prev)[t.id].system,
                stats.last()->0.cpu->0.system_cpu_usage,
                0,
            )
            &&& stats.last() is Some && (stats.last()->0.cpu is None
                || stats.last()->0.memory is None) ==> all == earlier
        }),
{
    let all = readings_of(targets, stats, prev);
    let earlier = readings_of(targets.drop_last(), stats, prev);
    if all.len() > earlier.len() {
        assert(all.drop_last() =~= earlier);
    }
}

/// The content of a target is that of its fields.
pub proof fn target_contents_are_those_of_the_fields(t: Target)
    ensures
        t@.id == t.id@,
        t@.name == t.name@,
        t.repo is None ==> t@.repo is None,
        t.repo matches Some(r) ==> t@.repo == Some(r@),
{
}

/// The first rule whose prefix begins a container's name is the one that matches.
pub proof fn the_matching_rule_is_the_first(
    name: &str,
    rules: &[PrefixRule],
    r: Option<&PrefixRule>,
    n: int,
)
    requires
        call_ensures(matching_rule, (name, rules), r),
        0 <= n < rules@.len(),
        rules@[n].prefix@.is_prefix_of(bare_name(name@)),
        forall|j: int|
            0 <= j < n ==> !(#[trigger] rules@[j]).prefix@.is_prefix_of(bare_name(name@)),
    ensures
        r == Some(&rules@[n]),
{
    let views = rule_views(rules@);
    lemma_rule_for_bounds(name@, views);
    let m = rule_for(name@, views);
    assert(views[n].prefix == rules@[n].prefix@);
    if m < n {
        assert(views[m].prefix == rules@[m].prefix@);
    }
    assert(m == n);
}

/// A container's reading carries its name without leading slashes, the memory in use without
/// inactive file pages, its limit, and a key in the repository that is given; there is one
/// exactly where both groups of counters are there.
pub proof fn containers_are_read_into_readings(
    id: &str,
    name: &str,
    repo: Option<&str>,
    s: &ContainerStats,
    prev: &mut Keyed<String, CpuSample>,
    r: Option<RunnerResource>,
)
    requires
        call_ensures(to_resource, (id, name, repo, s, prev), r),
    ensures
        r is Some <==> s.cpu is Some && s.memory is Some,
        r is Some ==> r->0.kind is Docker && r->0.name@ == bare_name(name@),
        r is Some && s.memory->0.limit is Some ==> r->0.mem_limit == s.memory->0.limit->0,
        r is Some && s.memory->0.usage is Some && s.memory->0.inactive_file is Some
            && s.memory->0.inactive_file->0 <= s.memory->0.usage->0 ==> r->0.mem_bytes
            + s.memory->0.inactive_file->0 == s.memory->0.usage->0,
        r is Some ==> (r->0.key is Some <==> repo is Some),
        r is Some && repo is Some ==> r->0.key->0.scope@ == repo->0@,
        r is Some && s.cpu->0.total_usage is Some && s.cpu->0.system_cpu_usage is Some
            ==> final(prev)@ == old(prev)@.insert(
            id@,
            CpuSample {
                total: s.cpu->0.total_usage->0,
                system: s.cpu->0.system_cpu_usage->0,
            },
        ),
        r is None ==> final(prev)@ == old(prev)@,
{
}

/// The containers with an identifier whose names match a rule are picked with that rule's
/// repository, and every container counts as one that matches or as one that does not.
pub proof fn matching_containers_are_selected(
    list: &[Container],
    rules: &[PrefixRule],
    r: Selection,
    k: int,
    n: int,
)
    requires
        call_ensures(select_containers, (list, rules), r),
        0 <= k < list@.len(),
        list@[k].id is Some,
        list@[k].name is Some,
        0 <= n < rules@.len(),
        rules@[n].prefix@.is_prefix_of(bare_name(list@[k].name->0@)),
        forall|j: int|
            0 <= j < n ==> !(#[trigger] rules@[j]).prefix@.is_prefix_of(
                bare_name(list@[k].name->0@),
            ),
    ensures
        exists|i: int|
            0 <= i < r.targets@.len() && (#[trigger] r.targets@[i]).id@ == list@[k].id->0@
                && r.targets@[i].name@ == list@[k].name->0@ && opt_text(r.targets@[i].repo)
                == opt_text(rules@[n].repo),
        r.matched_seen >= 1,
        r.unmatched_seen == list@.len() - r.matched_seen,
{
    let views = rule_views(rules@);
    assert forall|j: int| 0 <= j < n implies !(#[trigger] views[j]).prefix.is_prefix_of(
        bare_name(list@[k].name->0@),
    ) by {
        assert(views[j].prefix == rules@[j].prefix@);
    }
    assert(views[n].prefix == rules@[n].prefix@);
    matched_containers_are_targets(list@, views, k, n);
    let wanted = TargetView { id: list@[k].id->0@, name: list@[k].name->0@, repo: views[n].repo };
    let ts = target_views(r.targets@);
    let i = choose|i: int| 0 <= i < ts.len() && ts[i] == wanted;
    assert(ts[i] == r.targets@[i]@);
    assert(r.targets@[i].id@ == list@[k].id->0@);
    lemma_matches_count(list@, views, k, n);
}

proof fn lemma_matches_count(cs: Seq<Container>, rules: Seq<RuleView>, k: int, n: int)
    requires
        0 <= k < cs.len(),
        cs[k].name is Some,
        0 <= n < rules.len(),
        rules[n].prefix.is_prefix_of(bare_name(cs[k].name->0@)),
    ensures
        matched_among(cs, rules) >= 1,
    decreases cs.len(),
{
    let front = cs.drop_last();
    if k < cs.len() - 1 {
        lemma_matches_count(front, rules, k, n);
    } else {
        matches_are_counted(front, cs.last(), rules);
        assert(front.push(cs.last()) =~= cs);
    }
}

/// A poll reports its readings with both counts and no complaint, and a poll that failed
/// reports nothing but the reason.
pub proof fn polls_report_readings_or_reasons(
    resources: Vec<RunnerResource>,
    matched_seen: usize,
    unmatched_seen: usize,
    reason: &str,
    a: ResourceUpdate,
    b: ResourceUpdate,
)
    requires
        call_ensures(docker_update, (resources, matched_seen, unmatched_seen), a),
        call_ensures(err_update, (reason,), b),
    ensures
        a.source is Docker && b.source is Docker,
        a.resources@ == resources@ && b.resources@.len() == 0,
        a.matched_seen == matched_seen && a.unmatched_seen == unmatched_seen,
        b.matched_seen == 0 && b.unmatched_seen == 0,
        a.error is None,
        b.error is Some && b.error->0@ == "docker: "@ + reason@,
{
}

/// A round over the targets adds one reading for each container whose counters are there,
/// in order, and forgets the samples of containers that are no targets.
pub proof fn targets_are_read_in_a_round(
    targets: &[Target],
    stats: &[Option<ContainerStats>],
    prev: &mut Keyed<String, CpuSample>,
    r: Vec<RunnerResource>,
    id: Seq<char>,
)
    requires
        call_ensures(collect, (targets, stats, prev), r),
        targets@.len() == stats@.len(),
    ensures
        targets@.len() == 0 ==> r@.len() == 0,
        targets@.len() > 0 && stats@.last() is Some && stats@.last()->0.cpu is Some
            && stats@.last()->0.memory is Some ==> r@.len() > 0 && r@.last().name@ == bare_name(
            targets@.last().name@,
        ),
        final(prev)@.dom().contains(id) ==> exists|i: int|
            0 <= i < targets@.len() && (#[trigger] targets@[i]).id@ == id,
        targets@.len() == 1 && stats@[0] is None ==> r@.len() == 0,
{
    let ts = target_views(targets@);
    let views = resource_views(r@);
    assert(views.len() == r@.len());
    if targets@.len() > 0 {
        each_answer_adds_its_reading(ts, stats@, old(prev)@);
        assert(ts.last() == targets@.last()@);
        assert(ts.len() == 1 ==> ts.drop_last() =~= Seq::empty());
        if r@.len() > 0 {
            assert(views.last() == r@.last()@);
        }
    }
    if final(prev)@.dom().contains(id) {
        assert(has_target(ts, id));
        let i = choose|i: int| 0 <= i < ts.len() && (#[trigger] ts[i]).id == id;
        assert(targets@[i].id@ == id);
    }
}

/// The contents of targets and of readings are theirs.
pub proof fn contents_of_targets_are_theirs(ts: Seq<Target>, r: RunnerResource, i: int)
    ensures
        target_views(ts).len() == ts.len(),
        0 <= i < ts.len() ==> target_views(ts)[i] == ts[i]@,
        opt_resource(Some(r)) == Some(r@) && opt_resource(None) is None,
{
}

} // verus!
