//! Runners, jobs and deployments, and how they are matched and ordered.

use crate::history::{series_of, History, SeriesView};
use crate::keyed::{Key, Keyed};
use crate::ordering::{
    by_key, in_order, key_values, lemma_slot_bounds, lemma_slot_of_keys, slot, slot_for, sorted_by,
    sorted_with, sorting_finds_every_item, sorting_keeps_the_items, sorting_orders_the_items,
    sorting_orders_the_keys,
};
use crate::stats_math::{CpuShare, MemShare};
use crate::text::{
    after_last, decimal, decimal_reads_back, in_front_of_last, is_digit, lacks, lemma_decimal,
    number, only_digits_read_as_numbers, parse_u32, same_text, tail_after_last, text_at_most,
    text_in_front_of_last, text_le, text_order_is_transitive, texts_are_ordered,
    the_last_separator_parts_a_text,
};
use std::collections::HashMap;
use vstd::prelude::*;
use vstd::relations::{strongly_connected, transitive};

verus! {

/// A point in time, counted from 1970-01-01T00:00:00Z.
#[derive(Clone, Copy, Debug, PartialEq, Eq, Structural)]
pub struct Timestamp {
    pub secs: i64,
    pub nanos: u32,
}

impl Timestamp {
    /// The nanoseconds since 1970-01-01T00:00:00Z.
    pub open spec fn instant(self) -> int {
        self.secs * 1_000_000_000 + self.nanos
    }
}

/// What pairs a runner with its job: the scope that the job was polled under and
/// the runner's name there.
#[derive(Debug, PartialEq, Eq, Hash)]
pub struct RunnerKey {
    pub scope: String,
    pub name: String,
}

/// The content of a [`RunnerKey`].
pub struct KeyView {
    pub scope: Seq<char>,
    pub name: Seq<char>,
}

impl View for RunnerKey {
    type V = KeyView;

    open spec fn view(&self) -> KeyView {
        KeyView { scope: self.scope@, name: self.name@ }
    }
}

impl Clone for RunnerKey {
    fn clone(&self) -> (r: Self)
        ensures
            r == *self,
    {
        RunnerKey { scope: self.scope.clone(), name: self.name.clone() }
    }
}

impl Key for RunnerKey {
    fn same(&self, other: &Self) -> (r: bool) {
        same_text(self.scope.as_str(), other.scope.as_str()) && same_text(
            self.name.as_str(),
            other.name.as_str(),
        )
    }
}

/// The content of an optional key.
pub open spec fn opt_key(k: Option<RunnerKey>) -> Option<KeyView> {
    match k {
        Some(key) => Some(key@),
        None => None,
    }
}

/// A copy of an optional key.
pub fn clone_key(k: &Option<RunnerKey>) -> (r: Option<RunnerKey>)
    ensures
        r == *k,
{
    match k {
        Some(key) => Some(key.clone()),
        None => None,
    }
}

/// Where a runner was found.
#[derive(Clone, Copy, Debug, PartialEq, Eq, Structural)]
pub enum SourceKind {
    Docker,
    Native,
}

/// One reading of a runner's resources.
#[derive(Debug)]
pub struct RunnerResource {
    pub name: String,
    pub cpu_pct: CpuShare,
    pub mem_bytes: u64,
    pub mem_limit: u64,
    /// The key of the runner's job; a runner without one is never matched.
    pub key: Option<RunnerKey>,
    pub kind: SourceKind,
}

/// The content of a [`RunnerResource`].
pub struct ResourceView {
    pub name: Seq<char>,
    pub cpu_pct: CpuShare,
    pub mem_bytes: u64,
    pub mem_limit: u64,
    pub key: Option<KeyView>,
    pub kind: SourceKind,
}

impl View for RunnerResource {
    type V = ResourceView;

    open spec fn view(&self) -> ResourceView {
        ResourceView {
            name: self.name@,
            cpu_pct: self.cpu_pct,
            mem_bytes: self.mem_bytes,
            mem_limit: self.mem_limit,
            key: opt_key(self.key),
            kind: self.kind,
        }
    }
}

impl Clone for RunnerResource {
    fn clone(&self) -> (r: Self)
        ensures
            r == *self,
    {
        RunnerResource {
            name: self.name.clone(),
            cpu_pct: self.cpu_pct,
            mem_bytes: self.mem_bytes,
            mem_limit: self.mem_limit,
            key: clone_key(&self.key),
            kind: self.kind,
        }
    }
}

/// The contents of a row of readings.
pub open spec fn resource_views(rs: Seq<RunnerResource>) -> Seq<ResourceView> {
    rs.map_values(|r: RunnerResource| r@)
}

/// A job in progress.
#[derive(Debug)]
pub struct JobInfo {
    pub workflow: String,
    pub job: String,
    pub branch: String,
    pub started_at: Timestamp,
}

/// The content of a [`JobInfo`].
pub struct JobView {
    pub workflow: Seq<char>,
    pub job: Seq<char>,
    pub branch: Seq<char>,
    pub started_at: Timestamp,
}

impl View for JobInfo {
    type V = JobView;

    open spec fn view(&self) -> JobView {
        JobView {
            workflow: self.workflow@,
            job: self.job@,
            branch: self.branch@,
            started_at: self.started_at,
        }
    }
}

impl Clone for JobInfo {
    fn clone(&self) -> (r: Self)
        ensures
            r == *self,
    {
        JobInfo {
            workflow: self.workflow.clone(),
            job: self.job.clone(),
            branch: self.branch.clone(),
            started_at: self.started_at,
        }
    }
}

/// The content of an optional job.
pub open spec fn opt_job(j: Option<JobInfo>) -> Option<JobView> {
    match j {
        Some(job) => Some(job@),
        None => None,
    }
}

/// A copy of an optional job.
pub fn clone_job(j: &Option<JobInfo>) -> (r: Option<JobInfo>)
    ensures
        r == *j,
{
    match j {
        Some(job) => Some(job.clone()),
        None => None,
    }
}

/// What a runner is doing, as its row's colour tells it.
#[derive(Clone, Copy, Debug, PartialEq, Eq, Structural)]
pub enum Load {
    Idle,
    Busy,
    NearCap,
}

/// How full a memory allowance is.
#[derive(Clone, Copy, Debug, PartialEq, Eq, Structural)]
pub enum MemLevel {
    Normal,
    Warn,
    Critical,
}

/// A runner as the table shows it.
#[derive(Debug)]
pub struct RunnerRow {
    pub name: String,
    pub cpu_pct: CpuShare,
    pub mem_bytes: u64,
    pub mem_limit: u64,
    pub job: Option<JobInfo>,
    pub load: Load,
    pub mem_level: MemLevel,
    pub kind: SourceKind,
    pub cpu_hist: Vec<CpuShare>,
    pub mem_hist: Vec<MemShare>,
}

/// The content of a [`RunnerRow`].
#[verifier::ext_equal]
pub struct RowView {
    pub name: Seq<char>,
    pub cpu_pct: CpuShare,
    pub mem_bytes: u64,
    pub mem_limit: u64,
    pub job: Option<JobView>,
    pub load: Load,
    pub mem_level: MemLevel,
    pub kind: SourceKind,
    pub cpu_hist: Seq<CpuShare>,
    pub mem_hist: Seq<MemShare>,
}

impl View for RunnerRow {
    type V = RowView;

    open spec fn view(&self) -> RowView {
        RowView {
            name: self.name@,
            cpu_pct: self.cpu_pct,
            mem_bytes: self.mem_bytes,
            mem_limit: self.mem_limit,
            job: opt_job(self.job),
            load: self.load,
            mem_level: self.mem_level,
            kind: self.kind,
            cpu_hist: self.cpu_hist@,
            mem_hist: self.mem_hist@,
        }
    }
}

/// The contents of the rows of a table.
pub open spec fn row_views(rows: Seq<RunnerRow>) -> Seq<RowView> {
    rows.map_values(|r: RunnerRow| r@)
}

/// The number behind the last dash of a runner's name.
pub open spec fn index_of_runner(name: Seq<char>) -> Option<nat> {
    number(after_last(name, '-'), u32::MAX as nat)
}

/// The number behind the last dash of a runner's name.
pub fn runner_index(name: &str) -> (r: Option<u32>)
    ensures
        match r {
            Some(i) => index_of_runner(name@) == Some(i as nat),
            None => index_of_runner(name@) is None,
        },
{
    let tail = tail_after_last(name, '-');
    parse_u32(tail.as_str())
}

/// The whole seconds from `started` to `now`; zero where `now` comes first.
pub open spec fn seconds_between(started: Timestamp, now: Timestamp) -> int {
    let nanos = now.instant() - started.instant();
    if nanos < 0 {
        0
    } else if nanos / 1_000_000_000 > u64::MAX {
        u64::MAX as int
    } else {
        nanos / 1_000_000_000
    }
}

/// The whole seconds from `started` to `now`; zero where `now` comes first.
pub fn elapsed_secs(started: Timestamp, now: Timestamp) -> (r: u64)
    ensures
        r == seconds_between(started, now),
{
    let from: i128 = started.secs as i128 * 1_000_000_000 + started.nanos as i128;
    let to: i128 = now.secs as i128 * 1_000_000_000 + now.nanos as i128;
    if to < from {
        return 0;
    }
    let nanos: u128 = (to - from) as u128;
    let secs: u128 = nanos / 1_000_000_000;
    if secs > u64::MAX as u128 {
        u64::MAX
    } else {
        secs as u64
    }
}

/// What a row adds to the total: its memory where the runner is in a container, and nothing
/// where it is native.
pub open spec fn counted_bytes(row: RowView) -> int {
    match row.kind {
        SourceKind::Docker => row.mem_bytes as int,
        SourceKind::Native => 0,
    }
}

/// The sum of the memory of the rows whose runners are in containers.
pub open spec fn total_bytes(rows: Seq<RowView>) -> int
    decreases rows.len(),
{
    if rows.len() == 0 {
        0
    } else {
        total_bytes(rows.drop_last()) + counted_bytes(rows.last())
    }
}

proof fn lemma_total_bytes_grows(rows: Seq<RowView>, k: int)
    requires
        0 <= k <= rows.len(),
    ensures
        0 <= total_bytes(rows.take(k)) <= total_bytes(rows),
    decreases rows.len(),
{
    if k == rows.len() {
        assert(rows.take(k) =~= rows);
        if k > 0 {
            lemma_total_bytes_grows(rows.drop_last(), k - 1);
            assert(rows.drop_last().take(k - 1) =~= rows.drop_last());
        }
    } else {
        lemma_total_bytes_grows(rows.drop_last(), k);
        assert(rows.drop_last().take(k) =~= rows.take(k));
    }
}

/// The sum of the memory of the rows whose runners are in containers, where it fits 64 bits.
pub fn slice_total(rows: &[RunnerRow]) -> (r: Option<u64>)
    ensures
        match r {
            Some(sum) => sum == total_bytes(row_views(rows@)),
            None => total_bytes(row_views(rows@)) > u64::MAX,
        },
{
    let ghost views = row_views(rows@);
    let mut sum: u64 = 0;
    let mut i: usize = 0;
    while i < rows.len()
        invariant
            i <= rows@.len(),
            views == row_views(rows@),
            sum == total_bytes(views.take(i as int)),
        decreases rows@.len() - i,
    {
        proof {
            lemma_total_bytes_grows(views, i + 1);
            assert(views.take(i + 1).drop_last() =~= views.take(i as int));
        }
        let bytes: u64 = match rows[i].kind {
            SourceKind::Docker => rows[i].mem_bytes,
            SourceKind::Native => 0,
        };
        match sum.checked_add(bytes) {
            Some(s) => {
                sum = s;
            },
            None => {
                return None;
            },
        }
        i += 1;
    }
    assert(views.take(views.len() as int) =~= views);
    Some(sum)
}

/// The sum of the memory of the rows whose runners are in containers.
pub fn slice_total_bytes(rows: &[RunnerRow]) -> (r: u64)
    requires
        total_bytes(row_views(rows@)) <= u64::MAX,
    ensures
        r == total_bytes(row_views(rows@)),
{
    match slice_total(rows) {
        Some(sum) => sum,
        None => 0,
    }
}

/// How full `used` of `limit` is: at or above `crit_pct` percent it is critical, at
/// or above `warn_pct` percent a warning. Without a limit it is normal.
pub open spec fn level_of(used: u64, limit: u64, warn_pct: u64, crit_pct: u64) -> MemLevel {
    if limit == 0 {
        MemLevel::Normal
    } else if 100 * used >= crit_pct * limit {
        MemLevel::Critical
    } else if 100 * used >= warn_pct * limit {
        MemLevel::Warn
    } else {
        MemLevel::Normal
    }
}

/// How full `used` of `limit` is.
pub fn mem_level(used: u64, limit: u64, warn_pct: u64, crit_pct: u64) -> (r: MemLevel)
    ensures
        r == level_of(used, limit, warn_pct, crit_pct),
{
    if limit == 0 {
        return MemLevel::Normal;
    }
    proof {
        lemma_product_fits(crit_pct, limit);
        lemma_product_fits(warn_pct, limit);
    }
    let scaled: u128 = 100 * used as u128;
    if scaled >= crit_pct as u128 * limit as u128 {
        MemLevel::Critical
    } else if scaled >= warn_pct as u128 * limit as u128 {
        MemLevel::Warn
    } else {
        MemLevel::Normal
    }
}

proof fn lemma_product_fits(a: u64, b: u64)
    ensures
        0 <= a * b <= u128::MAX,
{
    assert(0 <= a * b <= 0xffff_ffff_ffff_ffff * 0xffff_ffff_ffff_ffff) by (nonlinear_arith)
        requires
            0 <= a <= 0xffff_ffff_ffff_ffff,
            0 <= b <= 0xffff_ffff_ffff_ffff,
    ;
}

/// Where the warning threshold does not exceed the critical one, fuller memory
/// never has a lower level.
pub proof fn levels_rise_with_use(
    less: u64,
    more: u64,
    limit: u64,
    warn_pct: u64,
    crit_pct: u64,
)
    requires
        less <= more,
        warn_pct <= crit_pct,
    ensures
        level_of(less, limit, warn_pct, crit_pct) is Critical ==> level_of(
            more,
            limit,
            warn_pct,
            crit_pct,
        ) is Critical,
        level_of(less, limit, warn_pct, crit_pct) is Warn ==> !(level_of(
            more,
            limit,
            warn_pct,
            crit_pct,
        ) is Normal),
{
}

/// What a runner is doing: critical memory outweighs a job, and a job outweighs
/// none.
pub open spec fn load_of(level: MemLevel, busy: bool) -> Load {
    if level is Critical {
        Load::NearCap
    } else if busy {
        Load::Busy
    } else {
        Load::Idle
    }
}

fn load_for(level: MemLevel, busy: bool) -> (r: Load)
    ensures
        r == load_of(level, busy),
{
    match level {
        MemLevel::Critical => Load::NearCap,
        _ => if busy {
            Load::Busy
        } else {
            Load::Idle
        },
    }
}

/// What the rows of [`join`] are ordered by: the runner's number, and behind all numbers
/// where the name has none.
pub open spec fn row_key(r: RowView) -> int {
    match index_of_runner(r.name) {
        Some(i) => i as int,
        None => u32::MAX as int,
    }
}

fn order_of(name: &str) -> (r: u128)
    ensures
        r == (match index_of_runner(name@) {
            Some(i) => i as int,
            None => u32::MAX as int,
        }),
{
    match runner_index(name) {
        Some(i) => i as u128,
        None => u32::MAX as u128,
    }
}

fn place_row(
    rows: &mut Vec<RunnerRow>,
    keys: &mut Vec<u128>,
    row: RunnerRow,
    Ghost(done): Ghost<Seq<RowView>>,
)
    requires
        row_views(old(rows)@) == sorted_by(done, |r: RowView| row_key(r)),
        key_values(old(keys)@) == row_views(old(rows)@).map_values(|r: RowView| row_key(r)),
    ensures
        row_views(final(rows)@) == sorted_by(done.push(row@), |r: RowView| row_key(r)),
        key_values(final(keys)@) == row_views(final(rows)@).map_values(|r: RowView| row_key(r)),
{
    let ghost before = row_views(rows@);
    let ghost key = |r: RowView| row_key(r);
    let ghost keys_before = key_values(keys@);
    let ghost v = row@;
    let k = order_of(row.name.as_str());
    let at = slot_for(keys, k);
    proof {
        assert(done.push(v).drop_last() =~= done);
        lemma_slot_of_keys(before, v, key);
    }
    keys.insert(at, k);
    rows.insert(at, row);
    proof {
        assert(row_views(rows@) =~= before.insert(at as int, v));
        assert(key_values(keys@) =~= keys_before.insert(at as int, k as int));
        assert(before.insert(at as int, v).map_values(key) =~= before.map_values(key).insert(
            at as int,
            key(v),
        ));
    }
}

/// The fleet of a container: the text in front of the last dash of its name.
pub open spec fn fleet_of(name: Seq<char>) -> Seq<char> {
    in_front_of_last(name, '-')
}

/// What the rows of the table are ordered by.
pub struct RowPlace {
    pub native: bool,
    pub fleet: Seq<char>,
    pub number: int,
}

/// A row's place: native runners belong to no fleet.
pub open spec fn place_of(r: RowView) -> RowPlace {
    RowPlace {
        native: r.kind is Native,
        fleet: match r.kind {
            SourceKind::Docker => fleet_of(r.name),
            SourceKind::Native => Seq::empty(),
        },
        number: row_key(r),
    }
}

/// Whether the place `a` may come before `b`: containers before native runners, fleet by
/// fleet, and within a fleet by number.
pub open spec fn place_le(a: RowPlace, b: RowPlace) -> bool {
    if a.native != b.native {
        b.native
    } else if a.fleet != b.fleet {
        text_le(a.fleet, b.fleet)
    } else {
        a.number <= b.number
    }
}

/// The order of the rows of the table.
pub open spec fn row_order() -> spec_fn(RowView, RowView) -> bool {
    |a: RowView, b: RowView| place_le(place_of(a), place_of(b))
}

/// The order of the rows decides between any two, and carries over.
pub proof fn lemma_row_order()
    ensures
        strongly_connected(row_order()),
        transitive(row_order()),
{
    let le = row_order();
    assert forall|x: RowView, y: RowView| #[trigger] le(x, y) || #[trigger] le(y, x) by {
        texts_are_ordered(place_of(x).fleet, place_of(y).fleet);
    }
    assert forall|x: RowView, y: RowView, z: RowView| #[trigger]
        le(x, y) && #[trigger] le(y, z) implies le(x, z) by {
        let (a, b, c) = (place_of(x), place_of(y), place_of(z));
        if a.native == b.native && b.native == c.native && a.fleet != b.fleet && b.fleet
            != c.fleet {
            text_order_is_transitive(a.fleet, b.fleet, c.fleet);
            texts_are_ordered(a.fleet, b.fleet);
        }
    }
}

fn row_at_most(a: &RunnerRow, b: &RunnerRow) -> (r: bool)
    ensures
        r == row_order()(a@, b@),
{
    let (p, q) = match (a.kind, b.kind) {
        (SourceKind::Docker, SourceKind::Native) => return true,
        (SourceKind::Native, SourceKind::Docker) => return false,
        (SourceKind::Native, SourceKind::Native) => (String::new(), String::new()),
        (SourceKind::Docker, SourceKind::Docker) => (
            text_in_front_of_last(a.name.as_str(), '-'),
            text_in_front_of_last(b.name.as_str(), '-'),
        ),
    };
    if same_text(p.as_str(), q.as_str()) {
        order_of(a.name.as_str()) <= order_of(b.name.as_str())
    } else {
        text_at_most(p.as_str(), q.as_str())
    }
}

fn place_by_fleet(rows: &mut Vec<RunnerRow>, row: RunnerRow, Ghost(done): Ghost<Seq<RowView>>)
    requires
        row_views(old(rows)@) == sorted_with(done, row_order()),
    ensures
        row_views(final(rows)@) == sorted_with(done.push(row@), row_order()),
{
    let ghost before = row_views(rows@);
    let ghost v = row@;
    let mut at: usize = rows.len();
    assert(before.take(at as int) =~= before);
    while at > 0 && !row_at_most(&rows[at - 1], &row)
        invariant
            at <= rows@.len(),
            before == row_views(rows@),
            v == row@,
            slot(before.take(at as int), v, row_order()) == slot(before, v, row_order()),
        decreases at,
    {
        assert(before.take(at as int).drop_last() =~= before.take(at - 1));
        at -= 1;
    }
    assert(slot(before, v, row_order()) == at);
    rows.insert(at, row);
    proof {
        assert(done.push(v).drop_last() =~= done);
        assert(row_views(rows@) =~= before.insert(at as int, v));
    }
}

/// The warning threshold of a table whose thresholds were not configured.
pub const WARN_PCT: u64 = 85;

/// The critical threshold of a table whose thresholds were not configured.
pub const CRIT_PCT: u64 = 90;

/// The row of a runner whose job is looked up by the runner's number.
pub open spec fn numbered_row(r: ResourceView, jobs: Map<u32, JobInfo>) -> RowView {
    let job = match index_of_runner(r.name) {
        Some(i) => if jobs.dom().contains(i as u32) {
            Some(jobs[i as u32]@)
        } else {
            None
        },
        None => None,
    };
    let level = level_of(r.mem_bytes, r.mem_limit, WARN_PCT, CRIT_PCT);
    RowView {
        name: r.name,
        cpu_pct: r.cpu_pct,
        mem_bytes: r.mem_bytes,
        mem_limit: r.mem_limit,
        job,
        load: load_of(level, job is Some),
        mem_level: level,
        kind: r.kind,
        cpu_hist: Seq::empty(),
        mem_hist: Seq::empty(),
    }
}

/// One row per reading, with the job of the runner's number, in the order of those
/// numbers.
pub fn join(
    resources: Vec<RunnerResource>,
    jobs: &HashMap<u32, JobInfo>,
    _now: Timestamp,
) -> (rows: Vec<RunnerRow>)
    ensures
        row_views(rows@) == sorted_by(
            resource_views(resources@).map_values(|r: ResourceView| numbered_row(r, jobs@)),
            |r: RowView| row_key(r),
        ),
{
    broadcast use vstd::std_specs::hash::group_hash_axioms;

    let ghost all = resource_views(resources@).map_values(
        |r: ResourceView| numbered_row(r, jobs@),
    );
    let mut rows: Vec<RunnerRow> = Vec::new();
    let mut keys: Vec<u128> = Vec::new();
    let mut i: usize = 0;
    assert(row_views(rows@) =~= all.take(0));
    assert(key_values(keys@) =~= row_views(rows@).map_values(|r: RowView| row_key(r)));
    while i < resources.len()
        invariant
            i <= resources@.len(),
            all == resource_views(resources@).map_values(
                |r: ResourceView| numbered_row(r, jobs@),
            ),
            row_views(rows@) == sorted_by(all.take(i as int), |r: RowView| row_key(r)),
            key_values(keys@) == row_views(rows@).map_values(|r: RowView| row_key(r)),
        decreases resources@.len() - i,
    {
        let r = &resources[i];
        let job: Option<JobInfo> = match runner_index(r.name.as_str()) {
            Some(n) => match jobs.get(&n) {
                Some(j) => Some(j.clone()),
                None => None,
            },
            None => None,
        };
        let level = mem_level(r.mem_bytes, r.mem_limit, WARN_PCT, CRIT_PCT);
        let load = load_for(level, job.is_some());
        let row = RunnerRow {
            name: r.name.clone(),
            cpu_pct: r.cpu_pct,
            mem_bytes: r.mem_bytes,
            mem_limit: r.mem_limit,
            job,
            load,
            mem_level: level,
            kind: r.kind,
            cpu_hist: Vec::new(),
            mem_hist: Vec::new(),
        };
        proof {
            assert(all[i as int] == numbered_row(r@, jobs@));
            assert(row@ =~= all[i as int]);
            assert(all.take(i + 1) =~= all.take(i as int).push(row@));
        }
        place_row(&mut rows, &mut keys, row, Ghost(all.take(i as int)));
        i += 1;
    }
    assert(all.take(all.len() as int) =~= all);
    rows
}

/// The row of a runner whose job is looked up by the runner's key.
pub open spec fn keyed_row(
    r: ResourceView,
    jobs: Map<KeyView, Option<JobInfo>>,
    history: Map<Seq<char>, SeriesView>,
    warn_pct: u64,
    crit_pct: u64,
) -> RowView {
    let busy = match r.key {
        Some(k) => jobs.dom().contains(k),
        None => false,
    };
    let job = if busy {
        opt_job(jobs[r.key->0])
    } else {
        None
    };
    let level = level_of(r.mem_bytes, r.mem_limit, warn_pct, crit_pct);
    RowView {
        name: r.name,
        cpu_pct: r.cpu_pct,
        mem_bytes: r.mem_bytes,
        mem_limit: r.mem_limit,
        job,
        load: load_of(level, busy),
        mem_level: level,
        kind: r.kind,
        cpu_hist: series_of(history, r.name).cpu,
        mem_hist: series_of(history, r.name).mem_frac,
    }
}

/// The rows of the table that [`join_keyed`] builds, before they are ordered.
pub open spec fn keyed_rows(
    rs: Seq<ResourceView>,
    jobs: Map<KeyView, Option<JobInfo>>,
    history: Map<Seq<char>, SeriesView>,
    warn_pct: u64,
    crit_pct: u64,
) -> Seq<RowView> {
    rs.map_values(|r: ResourceView| keyed_row(r, jobs, history, warn_pct, crit_pct))
}

/// One row per reading, with the job of the runner's key and the runner's history. Runners
/// in containers come fleet by fleet, each fleet in the order of its numbers, and native
/// runners behind them. A runner whose key has an entry is busy, also where the entry holds
/// no detail; a runner without a key is idle.
pub fn join_keyed(
    resources: &[RunnerResource],
    jobs: &Keyed<RunnerKey, Option<JobInfo>>,
    history: &History,
    warn_pct: u64,
    crit_pct: u64,
) -> (rows: Vec<RunnerRow>)
    ensures
        row_views(rows@) == sorted_with(
            keyed_rows(resource_views(resources@), jobs@, history@, warn_pct, crit_pct),
            row_order(),
        ),
{
    let ghost all = keyed_rows(resource_views(resources@), jobs@, history@, warn_pct, crit_pct);
    let mut rows: Vec<RunnerRow> = Vec::new();
    let mut i: usize = 0;
    assert(row_views(rows@) =~= all.take(0));
    while i < resources.len()
        invariant
            i <= resources@.len(),
            all == keyed_rows(resource_views(resources@), jobs@, history@, warn_pct, crit_pct),
            row_views(rows@) == sorted_with(all.take(i as int), row_order()),
        decreases resources@.len() - i,
    {
        let r = &resources[i];
        let mut busy: bool = false;
        let mut job: Option<JobInfo> = None;
        if let Some(key) = &r.key {
            if let Some(found) = jobs.get(key) {
                busy = true;
                job = clone_job(found);
            }
        }
        let level = mem_level(r.mem_bytes, r.mem_limit, warn_pct, crit_pct);
        let row = RunnerRow {
            name: r.name.clone(),
            cpu_pct: r.cpu_pct,
            mem_bytes: r.mem_bytes,
            mem_limit: r.mem_limit,
            job,
            load: load_for(level, busy),
            mem_level: level,
            kind: r.kind,
            cpu_hist: history.cpu(r.name.as_str()),
            mem_hist: history.mem_frac(r.name.as_str()),
        };
        proof {
            assert(row@ =~= all[i as int]);
            assert(all.take(i + 1) =~= all.take(i as int).push(row@));
        }
        place_by_fleet(&mut rows, row, Ghost(all.take(i as int)));
        i += 1;
    }
    assert(all.take(all.len() as int) =~= all);
    rows
}

/// A row shows a near-full runner exactly when its memory is critical, whatever its
/// job; otherwise it shows whether the runner's key has a job.
pub proof fn near_cap_is_critical_memory(
    r: ResourceView,
    jobs: Map<KeyView, Option<JobInfo>>,
    history: Map<Seq<char>, SeriesView>,
    warn_pct: u64,
    crit_pct: u64,
)
    ensures
        ({
            let row = keyed_row(r, jobs, history, warn_pct, crit_pct);
            &&& row.load is NearCap <==> row.mem_level is Critical
            &&& row.mem_level == level_of(r.mem_bytes, r.mem_limit, warn_pct, crit_pct)
            &&& row.load is Busy <==> (row.mem_level !is Critical && r.key is Some
                && jobs.dom().contains(r.key->0))
            &&& r.key is None ==> row.job is None && row.load !is Busy
        }),
{
}

/// Whether a hosted job runs or waits.
#[derive(Clone, Copy, Debug, PartialEq, Eq, Structural)]
pub enum HostedStatus {
    InProgress,
    Queued,
}

/// A job on a machine that the CI service provides. `since` is when a running job
/// started and when a queued one was created.
#[derive(Debug)]
pub struct HostedJob {
    pub repo: String,
    pub workflow: String,
    pub job: String,
    pub label: String,
    pub branch: String,
    pub status: HostedStatus,
    pub since: Timestamp,
}

/// The content of a [`HostedJob`].
pub struct HostedView {
    pub repo: Seq<char>,
    pub workflow: Seq<char>,
    pub job: Seq<char>,
    pub label: Seq<char>,
    pub branch: Seq<char>,
    pub status: HostedStatus,
    pub since: Timestamp,
}

impl View for HostedJob {
    type V = HostedView;

    open spec fn view(&self) -> HostedView {
        HostedView {
            repo: self.repo@,
            workflow: self.workflow@,
            job: self.job@,
            label: self.label@,
            branch: self.branch@,
            status: self.status,
            since: self.since,
        }
    }
}

impl Clone for HostedJob {
    fn clone(&self) -> (r: Self)
        ensures
            r == *self,
    {
        HostedJob {
            repo: self.repo.clone(),
            workflow: self.workflow.clone(),
            job: self.job.clone(),
            label: self.label.clone(),
            branch: self.branch.clone(),
            status: self.status,
            since: self.since,
        }
    }
}

/// The contents of a row of hosted jobs.
pub open spec fn hosted_views(js: Seq<HostedJob>) -> Seq<HostedView> {
    js.map_values(|j: HostedJob| j@)
}

/// What an entry is ordered by: running entries come before queued ones, and the
/// longest since `since` before the others.
pub open spec fn age_key(queued: bool, since: Timestamp, now: Timestamp) -> int {
    (if queued {
        0x1_0000_0000_0000_0000int
    } else {
        0int
    }) + u64::MAX - seconds_between(since, now)
}

fn age_order(queued: bool, since: Timestamp, now: Timestamp) -> (r: u128)
    ensures
        r == age_key(queued, since, now),
{
    let rest: u64 = u64::MAX - elapsed_secs(since, now);
    if queued {
        0x1_0000_0000_0000_0000u128 + rest as u128
    } else {
        rest as u128
    }
}

/// What hosted jobs are ordered by.
pub open spec fn hosted_key(j: HostedView, now: Timestamp) -> int {
    age_key(j.status is Queued, j.since, now)
}

/// Puts running jobs before queued ones, each group with the oldest first.
pub fn sort_hosted(jobs: &mut Vec<HostedJob>, now: Timestamp)
    ensures
        hosted_views(final(jobs)@) == sorted_by(
            hosted_views(old(jobs)@),
            |j: HostedView| hosted_key(j, now),
        ),
{
    let ghost all = hosted_views(jobs@);
    let ghost key = |j: HostedView| hosted_key(j, now);
    let mut out: Vec<HostedJob> = Vec::new();
    let mut keys: Vec<u128> = Vec::new();
    let mut i: usize = 0;
    assert(hosted_views(out@) =~= all.take(0));
    assert(key_values(keys@) =~= hosted_views(out@).map_values(key));
    while i < jobs.len()
        invariant
            i <= jobs@.len(),
            all == hosted_views(jobs@),
            key == (|j: HostedView| hosted_key(j, now)),
            hosted_views(out@) == sorted_by(all.take(i as int), key),
            key_values(keys@) == hosted_views(out@).map_values(key),
        decreases jobs@.len() - i,
    {
        let j = jobs[i].clone();
        let queued = match j.status {
            HostedStatus::InProgress => false,
            HostedStatus::Queued => true,
        };
        let k = age_order(queued, j.since, now);
        let at = slot_for(&keys, k);
        let ghost before = hosted_views(out@);
        let ghost keys_before = key_values(keys@);
        let ghost v = j@;
        keys.insert(at, k);
        out.insert(at, j);
        proof {
            lemma_slot_of_keys(before, v, key);
            assert(all.take(i + 1).drop_last() =~= all.take(i as int));
            assert(all.take(i + 1).last() == v);
            assert(hosted_views(out@) =~= before.insert(at as int, v));
            assert(key_values(keys@) =~= keys_before.insert(at as int, k as int));
            assert(before.insert(at as int, v).map_values(key) =~= before.map_values(key).insert(
                at as int,
                key(v),
            ));
        }
        i += 1;
    }
    assert(all.take(all.len() as int) =~= all);
    *jobs = out;
}

/// In sorted hosted jobs no queued job precedes a running one, and of two with the
/// same status the one that comes first is at least as old.
pub proof fn hosted_jobs_run_first_and_oldest_first(
    js: Seq<HostedView>,
    now: Timestamp,
    a: int,
    b: int,
)
    requires
        0 <= a < b < js.len(),
    ensures
        ({
            let s = sorted_by(js, |j: HostedView| hosted_key(j, now));
            &&& s[a].status is Queued ==> s[b].status is Queued
            &&& s[a].status == s[b].status ==> seconds_between(s[a].since, now)
                >= seconds_between(s[b].since, now)
        }),
{
    let key = |j: HostedView| hosted_key(j, now);
    sorting_orders_the_keys(js, key);
    let s = sorted_by(js, key);
    assert(by_key(key)(s[a], s[b]));
}

/// Whether a deployment is being built or waits.
#[derive(Clone, Copy, Debug, PartialEq, Eq, Structural)]
pub enum DeployStatus {
    Building,
    Queued,
}

/// A deployment in flight.
#[derive(Debug)]
pub struct Deployment {
    pub repo: String,
    pub project: String,
    pub target: String,
    pub branch: String,
    pub commit_summary: String,
    pub status: DeployStatus,
    pub started_at: Timestamp,
}

/// The content of a [`Deployment`].
pub struct DeploymentView {
    pub repo: Seq<char>,
    pub project: Seq<char>,
    pub target: Seq<char>,
    pub branch: Seq<char>,
    pub commit_summary: Seq<char>,
    pub status: DeployStatus,
    pub started_at: Timestamp,
}

impl View for Deployment {
    type V = DeploymentView;

    open spec fn view(&self) -> DeploymentView {
        DeploymentView {
            repo: self.repo@,
            project: self.project@,
            target: self.target@,
            branch: self.branch@,
            commit_summary: self.commit_summary@,
            status: self.status,
            started_at: self.started_at,
        }
    }
}

impl Clone for Deployment {
    fn clone(&self) -> (r: Self)
        ensures
            r == *self,
    {
        Deployment {
            repo: self.repo.clone(),
            project: self.project.clone(),
            target: self.target.clone(),
            branch: self.branch.clone(),
            commit_summary: self.commit_summary.clone(),
            status: self.status,
            started_at: self.started_at,
        }
    }
}

/// The contents of a row of deployments.
pub open spec fn deployment_views(ds: Seq<Deployment>) -> Seq<DeploymentView> {
    ds.map_values(|d: Deployment| d@)
}

/// What deployments are ordered by.
pub open spec fn deployment_key(d: DeploymentView, now: Timestamp) -> int {
    age_key(d.status is Queued, d.started_at, now)
}

/// Puts deployments that are being built before queued ones, each group with the
/// oldest first.
pub fn sort_deployments(deployments: &mut Vec<Deployment>, now: Timestamp)
    ensures
        deployment_views(final(deployments)@) == sorted_by(
            deployment_views(old(deployments)@),
            |d: DeploymentView| deployment_key(d, now),
        ),
{
    let ghost all = deployment_views(deployments@);
    let ghost key = |d: DeploymentView| deployment_key(d, now);
    let mut out: Vec<Deployment> = Vec::new();
    let mut keys: Vec<u128> = Vec::new();
    let mut i: usize = 0;
    assert(deployment_views(out@) =~= all.take(0));
    assert(key_values(keys@) =~= deployment_views(out@).map_values(key));
    while i < deployments.len()
        invariant
            i <= deployments@.len(),
            all == deployment_views(deployments@),
            key == (|d: DeploymentView| deployment_key(d, now)),
            deployment_views(out@) == sorted_by(all.take(i as int), key),
            key_values(keys@) == deployment_views(out@).map_values(key),
        decreases deployments@.len() - i,
    {
        let d = deployments[i].clone();
        let queued = match d.status {
            DeployStatus::Building => false,
            DeployStatus::Queued => true,
        };
        let k = age_order(queued, d.started_at, now);
        let at = slot_for(&keys, k);
        let ghost before = deployment_views(out@);
        let ghost keys_before = key_values(keys@);
        let ghost v = d@;
        keys.insert(at, k);
        out.insert(at, d);
        proof {
            lemma_slot_of_keys(before, v, key);
            assert(all.take(i + 1).drop_last() =~= all.take(i as int));
            assert(all.take(i + 1).last() == v);
            assert(deployment_views(out@) =~= before.insert(at as int, v));
            assert(key_values(keys@) =~= keys_before.insert(at as int, k as int));
            assert(before.insert(at as int, v).map_values(key) =~= before.map_values(key).insert(
                at as int,
                key(v),
            ));
        }
        i += 1;
    }
    assert(all.take(all.len() as int) =~= all);
    *deployments = out;
}

/// In sorted deployments no queued one precedes one that is being built, and of two
/// with the same status the one that comes first is at least as old.
pub proof fn deployments_build_first_and_oldest_first(
    ds: Seq<DeploymentView>,
    now: Timestamp,
    a: int,
    b: int,
)
    requires
        0 <= a < b < ds.len(),
    ensures
        ({
            let s = sorted_by(ds, |d: DeploymentView| deployment_key(d, now));
            &&& s[a].status is Queued ==> s[b].status is Queued
            &&& s[a].status == s[b].status ==> seconds_between(s[a].started_at, now)
                >= seconds_between(s[b].started_at, now)
        }),
{
    let key = |d: DeploymentView| deployment_key(d, now);
    sorting_orders_the_keys(ds, key);
    let s = sorted_by(ds, key);
    assert(by_key(key)(s[a], s[b]));
}

/// Whether a row shows a container of the fleet.
pub open spec fn is_of_fleet(r: RowView, fleet: Seq<char>) -> bool {
    r.kind is Docker && fleet_of(r.name) == fleet
}

/// The table neither loses nor adds a row, and its memory is that of the readings. Rows of
/// containers come before those of native runners. The rows of one fleet stand together,
/// and rise in number; those without a number come last in their fleet.
pub proof fn tables_are_ordered_and_complete(
    rs: Seq<ResourceView>,
    jobs: Map<KeyView, Option<JobInfo>>,
    history: Map<Seq<char>, SeriesView>,
    warn_pct: u64,
    crit_pct: u64,
)
    ensures
        ({
            let rows = keyed_rows(rs, jobs, history, warn_pct, crit_pct);
            let table = sorted_with(rows, row_order());
            &&& in_order(table, row_order())
            &&& table.len() == rs.len()
            &&& table.to_multiset() == rows.to_multiset()
            &&& total_bytes(table) == total_bytes(rows)
            &&& forall|i: int, j: int|
                0 <= i < j < table.len() && (#[trigger] table[i]).kind is Native ==> (
                #[trigger] table[j]).kind is Native
            &&& forall|i: int, j: int, k: int, fleet: Seq<char>|
                0 <= i <= j <= k < table.len() && #[trigger] is_of_fleet(table[i], fleet)
                    && #[trigger] is_of_fleet(table[k], fleet) ==> is_of_fleet(
                    #[trigger] table[j],
                    fleet,
                )
            &&& forall|i: int, j: int, fleet: Seq<char>|
                0 <= i <= j < table.len() && #[trigger] is_of_fleet(table[i], fleet)
                    && #[trigger] is_of_fleet(table[j], fleet) ==> row_key(table[i]) <= row_key(
                    table[j],
                )
        }),
{
    let rows = keyed_rows(rs, jobs, history, warn_pct, crit_pct);
    let le = row_order();
    let table = sorted_with(rows, le);
    lemma_row_order();
    sorting_orders_the_items(rows, le);
    sorting_keeps_the_items(rows, le);
    lemma_sorting_keeps_the_total(rows, le);
    assert forall|i: int, j: int|
        0 <= i < j < table.len() && (#[trigger] table[i]).kind is Native implies (
    #[trigger] table[j]).kind is Native by {
        assert(le(table[i], table[j]));
    }
    assert forall|i: int, j: int, k: int, fleet: Seq<char>|
        0 <= i <= j <= k < table.len() && #[trigger] is_of_fleet(table[i], fleet)
            && #[trigger] is_of_fleet(table[k], fleet) implies is_of_fleet(
        #[trigger] table[j],
        fleet,
    ) by {
        assert(le(table[i], table[j]) && le(table[j], table[k]));
        texts_are_ordered(fleet, place_of(table[j]).fleet);
    }
    assert forall|i: int, j: int, fleet: Seq<char>|
        0 <= i <= j < table.len() && #[trigger] is_of_fleet(table[i], fleet)
            && #[trigger] is_of_fleet(table[j], fleet) implies row_key(table[i]) <= row_key(
        table[j],
    ) by {
        assert(le(table[i], table[j]));
    }
}

proof fn lemma_total_of_insert(rows: Seq<RowView>, at: int, row: RowView)
    requires
        0 <= at <= rows.len(),
    ensures
        total_bytes(rows.insert(at, row)) == total_bytes(rows) + counted_bytes(row),
    decreases rows.len(),
{
    let all = rows.insert(at, row);
    if at == rows.len() {
        assert(all.drop_last() =~= rows);
    } else {
        lemma_total_of_insert(rows.drop_last(), at, row);
        assert(all.drop_last() =~= rows.drop_last().insert(at, row));
    }
}

proof fn lemma_sorting_keeps_the_total(rows: Seq<RowView>, le: spec_fn(RowView, RowView) -> bool)
    ensures
        total_bytes(sorted_with(rows, le)) == total_bytes(rows),
    decreases rows.len(),
{
    if rows.len() > 0 {
        let t = sorted_with(rows.drop_last(), le);
        lemma_sorting_keeps_the_total(rows.drop_last(), le);
        lemma_slot_bounds(t, rows.last(), le);
        lemma_total_of_insert(t, slot(t, rows.last(), le), rows.last());
    }
}

/// The content of each of these is that of its fields.
pub proof fn contents_are_those_of_the_fields(
    key: RunnerKey,
    reading: RunnerResource,
    job: JobInfo,
    row: RunnerRow,
    hosted: HostedJob,
    deployment: Deployment,
)
    ensures
        key@.scope == key.scope@ && key@.name == key.name@,
        reading@.name == reading.name@ && reading@.cpu_pct == reading.cpu_pct
            && reading@.mem_bytes == reading.mem_bytes && reading@.mem_limit == reading.mem_limit
            && reading@.kind == reading.kind,
        reading.key matches Some(k) ==> reading@.key == Some(k@),
        reading.key is None ==> reading@.key is None,
        job@.workflow == job.workflow@ && job@.job == job.job@ && job@.branch == job.branch@
            && job@.started_at == job.started_at,
        row@.name == row.name@ && row@.cpu_pct == row.cpu_pct && row@.mem_bytes == row.mem_bytes
            && row@.mem_limit == row.mem_limit && row@.load == row.load && row@.mem_level
            == row.mem_level && row@.kind == row.kind && row@.cpu_hist == row.cpu_hist@
            && row@.mem_hist == row.mem_hist@,
        row.job matches Some(j) ==> row@.job == Some(j@),
        row.job is None ==> row@.job is None,
        hosted@.repo == hosted.repo@ && hosted@.workflow == hosted.workflow@ && hosted@.job
            == hosted.job@ && hosted@.label == hosted.label@ && hosted@.branch == hosted.branch@
            && hosted@.status == hosted.status && hosted@.since == hosted.since,
        deployment@.repo == deployment.repo@ && deployment@.project == deployment.project@
            && deployment@.target == deployment.target@ && deployment@.branch
            == deployment.branch@ && deployment@.commit_summary == deployment.commit_summary@
            && deployment@.status == deployment.status && deployment@.started_at
            == deployment.started_at,
{
}

/// The contents of a list are those of its items, in their places.
pub proof fn contents_of_lists_keep_their_places(
    rs: Seq<RunnerResource>,
    rows: Seq<RunnerRow>,
    js: Seq<HostedJob>,
    ds: Seq<Deployment>,
)
    ensures
        resource_views(rs).len() == rs.len(),
        forall|i: int| 0 <= i < rs.len() ==> #[trigger] resource_views(rs)[i] == rs[i]@,
        row_views(rows).len() == rows.len(),
        forall|i: int| 0 <= i < rows.len() ==> #[trigger] row_views(rows)[i] == rows[i]@,
        hosted_views(js).len() == js.len(),
        forall|i: int| 0 <= i < js.len() ==> #[trigger] hosted_views(js)[i] == js[i]@,
        deployment_views(ds).len() == ds.len(),
        forall|i: int| 0 <= i < ds.len() ==> #[trigger] deployment_views(ds)[i] == ds[i]@,
{
}

/// A row shows the figures of its reading, the series kept under its runner's name, and the
/// job, in all its parts, that is held under its runner's key.
pub proof fn rows_show_their_readings(
    r: ResourceView,
    jobs: Map<KeyView, Option<JobInfo>>,
    history: Map<Seq<char>, SeriesView>,
    warn_pct: u64,
    crit_pct: u64,
)
    ensures
        ({
            let row = keyed_row(r, jobs, history, warn_pct, crit_pct);
            &&& row.name == r.name
            &&& row.cpu_pct == r.cpu_pct
            &&& row.mem_bytes == r.mem_bytes
            &&& row.mem_limit == r.mem_limit
            &&& row.kind == r.kind
            &&& history.dom().contains(r.name) ==> row.cpu_hist == history[r.name].cpu
                && row.mem_hist == history[r.name].mem_frac
            &&& !history.dom().contains(r.name) ==> row.cpu_hist.len() == 0 && row.mem_hist.len()
                == 0
            &&& forall|k: KeyView|
                r.key == Some(k) && #[trigger] jobs.dom().contains(k) ==> match jobs[k] {
                    Some(j) => row.job matches Some(v) && v.workflow == j.workflow@ && v.job
                        == j.job@ && v.branch == j.branch@ && v.started_at == j.started_at,
                    None => row.job is None && row.load !is Idle,
                }
            &&& forall|k: KeyView|
                r.key == Some(k) && !#[trigger] jobs.dom().contains(k) ==> row.job is None
            &&& r.key is None ==> row.job is None
        }),
{
}

/// A row of the table by numbers shows the figures of its reading and the job that is held
/// under its runner's number.
pub proof fn numbered_rows_show_their_readings(r: ResourceView, jobs: Map<u32, JobInfo>)
    ensures
        ({
            let row = numbered_row(r, jobs);
            &&& row.name == r.name
            &&& row.cpu_pct == r.cpu_pct
            &&& row.mem_bytes == r.mem_bytes
            &&& row.mem_limit == r.mem_limit
            &&& row.kind == r.kind
            &&& forall|n: u32|
                index_of_runner(r.name) == Some(n as nat) && #[trigger] jobs.dom().contains(n)
                    ==> row.job is Some && row.job->0.workflow == jobs[n].workflow@
                    && row.job->0.job == jobs[n].job@ && row.job->0.branch == jobs[n].branch@
                    && row.job->0.started_at == jobs[n].started_at && row.load !is Idle
            &&& forall|n: u32|
                index_of_runner(r.name) == Some(n as nat) && !#[trigger] jobs.dom().contains(n)
                    ==> row.job is None && row.load !is Busy
            &&& index_of_runner(r.name) is None ==> row.job is None && row.load !is Busy
            &&& row.cpu_hist.len() == 0 && row.mem_hist.len() == 0
            &&& row.load is NearCap <==> (r.mem_limit > 0 && 10 * r.mem_bytes >= 9 * r.mem_limit)
            &&& row.mem_level is Warn <==> (r.mem_limit > 0 && 20 * r.mem_bytes >= 17 * r.mem_limit
                && 10 * r.mem_bytes < 9 * r.mem_limit)
        }),
{
}

/// Memory is critical from the critical percentage of its limit on, a warning from the
/// warning percentage up to that, and normal below; without a limit it is always normal.
pub proof fn levels_go_by_percentages(used: u64, limit: u64, warn_pct: u64, crit_pct: u64)
    ensures
        ({
            let level = level_of(used, limit, warn_pct, crit_pct);
            &&& limit == 0 ==> level is Normal
            &&& limit > 0 ==> (level is Critical <==> used * 100 >= limit * crit_pct)
            &&& limit > 0 ==> (level is Warn <==> used * 100 < limit * crit_pct && used * 100
                >= limit * warn_pct)
        }),
{
    assert(limit * crit_pct == crit_pct * limit) by (nonlinear_arith);
    assert(limit * warn_pct == warn_pct * limit) by (nonlinear_arith);
}

/// The time elapsed is the number of whole seconds that have passed; before the start none
/// has.
pub proof fn whole_seconds_elapse(started: Timestamp, now: Timestamp, d: nat)
    requires
        d <= u64::MAX,
    ensures
        started.instant() == started.secs * 1_000_000_000 + started.nanos,
        started.instant() + d * 1_000_000_000 <= now.instant() < started.instant() + (d + 1)
            * 1_000_000_000 ==> seconds_between(started, now) == d,
        now.instant() < started.instant() ==> seconds_between(started, now) == 0,
{
}

/// A name that ends in a dash and a number has that number, and what stands in front of the
/// dash is its fleet.
pub proof fn names_end_in_their_number(front: Seq<char>, n: nat)
    requires
        n <= u32::MAX,
    ensures
        index_of_runner(front + seq!['-'] + decimal(n)) == Some(n),
        fleet_of(front + seq!['-'] + decimal(n)) == front,
{
    lemma_decimal(n);
    assert forall|i: int| 0 <= i < decimal(n).len() implies #[trigger] decimal(n)[i] != '-' by {
        assert(is_digit(decimal(n)[i]));
    }
    the_last_separator_parts_a_text(front, '-', decimal(n));
    decimal_reads_back(n, u32::MAX as nat);
}

/// A name whose last part is no number has none.
pub proof fn names_without_a_number_have_none(front: Seq<char>, tail: Seq<char>, i: int)
    requires
        lacks(tail, '-'),
        0 <= i < tail.len(),
        !is_digit(tail[i]),
        i > 0 || tail[0] != '+',
    ensures
        index_of_runner(front + seq!['-'] + tail) is None,
        index_of_runner(tail) is None,
{
    the_last_separator_parts_a_text(front, '-', tail);
    only_digits_read_as_numbers(tail, i);
}

/// A row of a container adds its memory to the total, and a native one adds nothing.
pub proof fn containers_add_to_the_total(rows: Seq<RowView>, row: RowView)
    ensures
        total_bytes(Seq::empty()) == 0,
        row.kind is Docker ==> total_bytes(rows.push(row)) == total_bytes(rows) + row.mem_bytes,
        row.kind is Native ==> total_bytes(rows.push(row)) == total_bytes(rows),
{
    assert(rows.push(row).drop_last() =~= rows);
}

/// Whether the number `a` may stand before `b`: a missing number stands behind all but the
/// largest.
pub open spec fn numbers_rise(a: Option<nat>, b: Option<nat>) -> bool {
    match (a, b) {
        (Some(m), Some(n)) => m <= n,
        (None, Some(n)) => n == u32::MAX,
        (_, None) => true,
    }
}

/// In the table fleets come in the order of their names, numbers rise within a fleet and
/// among native runners, and a row without a number follows those that have one.
pub proof fn tables_go_by_fleet_and_number(rows: Seq<RowView>, i: int, j: int)
    requires
        0 <= i < j < rows.len(),
    ensures
        ({
            let table = sorted_with(rows, row_order());
            let a = table[i];
            let b = table[j];
            let together = (a.kind is Docker && b.kind is Docker && fleet_of(a.name) == fleet_of(
                b.name,
            )) || (a.kind is Native && b.kind is Native);
            &&& a.kind is Native ==> b.kind is Native
            &&& a.kind is Docker && b.kind is Docker ==> text_le(fleet_of(a.name), fleet_of(b.name))
            &&& together ==> numbers_rise(index_of_runner(a.name), index_of_runner(b.name))
        }),
{
    let le = row_order();
    lemma_row_order();
    sorting_orders_the_items(rows, le);
    let table = sorted_with(rows, le);
    assert(le(table[i], table[j]));
    texts_are_ordered(fleet_of(table[i].name), fleet_of(table[j].name));
    if index_of_runner(table[i].name) is Some {
        assert(index_of_runner(table[i].name)->0 <= u32::MAX);
    }
}

/// The table by numbers has the numbers in order, and rows without a number behind them.
pub proof fn numbered_tables_go_by_number(rows: Seq<RowView>, i: int, j: int)
    requires
        0 <= i < j < rows.len(),
    ensures
        ({
            let table = sorted_by(rows, |r: RowView| row_key(r));
            numbers_rise(index_of_runner(table[i].name), index_of_runner(table[j].name))
        }),
{
    let key = |r: RowView| row_key(r);
    sorting_orders_the_keys(rows, key);
    let table = sorted_by(rows, key);
    assert(by_key(key)(table[i], table[j]));
}

/// Whether a row shows a reading: its figures, the runner's history, and the job that `jobs`
/// holds under the runner's key.
pub open spec fn shows_reading(
    row: RunnerRow,
    r: RunnerResource,
    jobs: Map<KeyView, Option<JobInfo>>,
    history: Map<Seq<char>, SeriesView>,
) -> bool {
    let key = r.key->0@;
    let known = r.key is Some && jobs.dom().contains(key);
    &&& row.name@ == r.name@
    &&& row.cpu_pct == r.cpu_pct
    &&& row.mem_bytes == r.mem_bytes
    &&& row.mem_limit == r.mem_limit
    &&& row.kind == r.kind
    &&& history.dom().contains(r.name@) ==> row.cpu_hist@ == history[r.name@].cpu
        && row.mem_hist@ == history[r.name@].mem_frac
    &&& known && jobs[key] is Some ==> row.job is Some && row.job->0@ == jobs[key]->0@
    &&& known ==> row.load !is Idle
    &&& !known ==> row.job is None && row.load !is Busy
}

/// The table has one row for each reading and no other, each showing its reading; the rows
/// of containers come first, fleet by fleet.
pub proof fn every_reading_has_its_row(
    resources: &[RunnerResource],
    jobs: &Keyed<RunnerKey, Option<JobInfo>>,
    history: &History,
    warn_pct: u64,
    crit_pct: u64,
    rows: Vec<RunnerRow>,
)
    requires
        call_ensures(join_keyed, (resources, jobs, history, warn_pct, crit_pct), rows),
    ensures
        rows@.len() == resources@.len(),
        forall|i: int|
            0 <= i < resources@.len() ==> exists|j: int|
                0 <= j < rows@.len() && shows_reading(
                    #[trigger] rows@[j],
                    #[trigger] resources@[i],
                    jobs@,
                    history@,
                ),
        forall|i: int, j: int|
            0 <= i < j < rows@.len() && (#[trigger] rows@[i]).kind is Native ==> (
            #[trigger] rows@[j]).kind is Native,
        forall|i: int, j: int|
            0 <= i < j < rows@.len() && (#[trigger] rows@[i]).kind is Docker && (
            #[trigger] rows@[j]).kind is Docker ==> text_le(
                fleet_of(rows@[i].name@),
                fleet_of(rows@[j].name@),
            ),
{
    let given = resource_views(resources@);
    let all = keyed_rows(given, jobs@, history@, warn_pct, crit_pct);
    let shown = row_views(rows@);
    if all.len() > 0 {
        sorting_finds_every_item(all, row_order(), all[0]);
    }
    assert forall|i: int| 0 <= i < resources@.len() implies exists|j: int|
        0 <= j < rows@.len() && shows_reading(
            #[trigger] rows@[j],
            #[trigger] resources@[i],
            jobs@,
            history@,
        ) by {
        let row = all[i];
        assert(given[i] == resources@[i]@);
        assert(row == keyed_row(given[i], jobs@, history@, warn_pct, crit_pct));
        sorting_finds_every_item(all, row_order(), row);
        assert(all.contains(row));
        let j = choose|j: int| 0 <= j < shown.len() && shown[j] == row;
        assert(shown[j] == rows@[j]@);
        assert(shows_reading(rows@[j], resources@[i], jobs@, history@));
    }
    assert forall|i: int, j: int|
        0 <= i < j < rows@.len() && (#[trigger] rows@[i]).kind is Native implies (
    #[trigger] rows@[j]).kind is Native by {
        tables_go_by_fleet_and_number(all, i, j);
        assert(shown[i] == rows@[i]@ && shown[j] == rows@[j]@);
    }
    assert forall|i: int, j: int|
        0 <= i < j < rows@.len() && (#[trigger] rows@[i]).kind is Docker && (
        #[trigger] rows@[j]).kind is Docker implies text_le(
        fleet_of(rows@[i].name@),
        fleet_of(rows@[j].name@),
    ) by {
        tables_go_by_fleet_and_number(all, i, j);
        assert(shown[i] == rows@[i]@ && shown[j] == rows@[j]@);
    }
}

/// The table by numbers has one row for each reading, with its figures and the job of its
/// number, and the numbers rise.
pub proof fn every_numbered_reading_has_its_row(
    resources: Vec<RunnerResource>,
    jobs: &HashMap<u32, JobInfo>,
    now: Timestamp,
    rows: Vec<RunnerRow>,
)
    requires
        call_ensures(join, (resources, jobs, now), rows),
    ensures
        rows@.len() == resources@.len(),
        forall|i: int|
            0 <= i < resources@.len() ==> exists|j: int|
                0 <= j < rows@.len() && (#[trigger] rows@[j]).name@ == (
                #[trigger] resources@[i]).name@ && rows@[j].cpu_pct == resources@[i].cpu_pct
                    && rows@[j].mem_bytes == resources@[i].mem_bytes && rows@[j].mem_limit
                    == resources@[i].mem_limit && rows@[j].kind == resources@[i].kind,
        forall|i: int, j: int|
            0 <= i < j < rows@.len() ==> numbers_rise(
                index_of_runner((#[trigger] rows@[i]).name@),
                index_of_runner((#[trigger] rows@[j]).name@),
            ),
{
    let given = resource_views(resources@);
    let all = given.map_values(|r: ResourceView| numbered_row(r, jobs@));
    let key = |r: RowView| row_key(r);
    let shown = row_views(rows@);
    if all.len() > 0 {
        sorting_finds_every_item(all, by_key(key), all[0]);
    }
    assert forall|i: int| 0 <= i < resources@.len() implies exists|j: int|
        0 <= j < rows@.len() && (#[trigger] rows@[j]).name@ == (#[trigger] resources@[i]).name@
            && rows@[j].cpu_pct == resources@[i].cpu_pct && rows@[j].mem_bytes
            == resources@[i].mem_bytes && rows@[j].mem_limit == resources@[i].mem_limit
            && rows@[j].kind == resources@[i].kind by {
        let row = all[i];
        assert(given[i] == resources@[i]@);
        sorting_finds_every_item(all, by_key(key), row);
        assert(all.contains(row));
        let j = choose|j: int| 0 <= j < shown.len() && shown[j] == row;
        assert(shown[j] == rows@[j]@);
        assert(rows@[j].name@ == resources@[i].name@);
    }
    assert forall|i: int, j: int| 0 <= i < j < rows@.len() implies numbers_rise(
        index_of_runner((#[trigger] rows@[i]).name@),
        index_of_runner((#[trigger] rows@[j]).name@),
    ) by {
        numbered_tables_go_by_number(all, i, j);
        assert(shown[i] == rows@[i]@ && shown[j] == rows@[j]@);
    }
}

/// Sorting the hosted jobs and the deployments loses none, puts what runs in front of what
/// is queued, and among these what has lasted longest.
pub proof fn lists_are_sorted_in_place(
    jobs: &mut Vec<HostedJob>,
    deployments: &mut Vec<Deployment>,
    now: Timestamp,
)
    requires
        call_ensures(sort_hosted, (jobs, now), ()),
        call_ensures(sort_deployments, (deployments, now), ()),
    ensures
        hosted_views(final(jobs)@).to_multiset() == hosted_views(old(jobs)@).to_multiset(),
        deployment_views(final(deployments)@).to_multiset() == deployment_views(
            old(deployments)@,
        ).to_multiset(),
        forall|i: int, j: int|
            0 <= i < j < final(jobs)@.len() && (#[trigger] final(jobs)@[i]).status is Queued ==> (
            #[trigger] final(jobs)@[j]).status is Queued,
        forall|i: int, j: int|
            0 <= i < j < final(jobs)@.len() && (#[trigger] final(jobs)@[i]).status == (
            #[trigger] final(jobs)@[j]).status ==> seconds_between(final(jobs)@[i].since, now)
                >= seconds_between(final(jobs)@[j].since, now),
        forall|i: int, j: int|
            0 <= i < j < final(deployments)@.len() && (
            #[trigger] final(deployments)@[i]).status is Queued ==> (
            #[trigger] final(deployments)@[j]).status is Queued,
        forall|i: int, j: int|
            0 <= i < j < final(deployments)@.len() && (
            #[trigger] final(deployments)@[i]).status == (
            #[trigger] final(deployments)@[j]).status ==> seconds_between(
                final(deployments)@[i].started_at,
                now,
            ) >= seconds_between(final(deployments)@[j].started_at, now),
{
    let a = hosted_views(old(jobs)@);
    let b = deployment_views(old(deployments)@);
    let hk = |j: HostedView| hosted_key(j, now);
    let dk = |d: DeploymentView| deployment_key(d, now);
    sorting_keeps_the_items(a, by_key(hk));
    sorting_keeps_the_items(b, by_key(dk));
    sorting_orders_the_keys(a, hk);
    sorting_orders_the_keys(b, dk);
    let after = hosted_views(final(jobs)@);
    let done = deployment_views(final(deployments)@);
    assert forall|i: int, j: int| 0 <= i < j < final(jobs)@.len() implies hk(
        (#[trigger] final(jobs)@[i])@,
    ) <= hk((#[trigger] final(jobs)@[j])@) by {
        assert(by_key(hk)(after[i], after[j]));
    }
    assert forall|i: int, j: int| 0 <= i < j < final(deployments)@.len() implies dk(
        (#[trigger] final(deployments)@[i])@,
    ) <= dk((#[trigger] final(deployments)@[j])@) by {
        assert(by_key(dk)(done[i], done[j]));
    }
}

} // verus!
