//! A bounded history of each runner's CPU and memory use.

use crate::keyed::{keys_of, lemma_spot, Keyed};
use crate::model::{resource_views, ResourceView, RunnerResource};
use crate::stats_math::{mem_share, CpuShare, MemShare};
use crate::text::same_text;
use vstd::prelude::*;

verus! {

/// How many samples a series keeps.
pub const WINDOW: usize = 20;

struct RunnerSeries {
    cpu: Vec<CpuShare>,
    mem_frac: Vec<MemShare>,
}

/// A runner's samples, the oldest first.
#[verifier::ext_equal]
pub struct SeriesView {
    pub cpu: Seq<CpuShare>,
    pub mem_frac: Seq<MemShare>,
}

impl View for RunnerSeries {
    type V = SeriesView;

    closed spec fn view(&self) -> SeriesView {
        SeriesView { cpu: self.cpu@, mem_frac: self.mem_frac@ }
    }
}

/// A series after one more sample: the oldest gives way once the window is full.
pub open spec fn capped<T>(s: Seq<T>, x: T) -> Seq<T> {
    if s.len() >= WINDOW {
        s.push(x).skip(1)
    } else {
        s.push(x)
    }
}

/// The series of a runner, empty where none has been kept.
pub open spec fn series_of(m: Map<Seq<char>, SeriesView>, name: Seq<char>) -> SeriesView {
    if m.dom().contains(name) {
        m[name]
    } else {
        SeriesView { cpu: Seq::empty(), mem_frac: Seq::empty() }
    }
}

/// The history after one reading.
pub open spec fn with_sample(
    m: Map<Seq<char>, SeriesView>,
    r: ResourceView,
) -> Map<Seq<char>, SeriesView> {
    let s = series_of(m, r.name);
    m.insert(
        r.name,
        SeriesView {
            cpu: capped(s.cpu, r.cpu_pct),
            mem_frac: capped(s.mem_frac, MemShare::of(r.mem_bytes, r.mem_limit)),
        },
    )
}

/// The history after a row of readings.
pub open spec fn with_samples(
    m: Map<Seq<char>, SeriesView>,
    rs: Seq<ResourceView>,
) -> Map<Seq<char>, SeriesView>
    decreases rs.len(),
{
    if rs.len() == 0 {
        m
    } else {
        with_sample(with_samples(m, rs.drop_last()), rs.last())
    }
}

/// Whether one of the readings is of the runner `name`.
pub open spec fn names_runner(rs: Seq<ResourceView>, name: Seq<char>) -> bool {
    exists|i: int| 0 <= i < rs.len() && (#[trigger] rs[i]).name == name
}

/// The series of the runners that `known` names.
pub open spec fn pruned(
    m: Map<Seq<char>, SeriesView>,
    known: Seq<ResourceView>,
) -> Map<Seq<char>, SeriesView> {
    m.restrict(Set::new(|name: Seq<char>| names_runner(known, name)))
}

/// Whether no series is longer than the window.
pub open spec fn bounded(m: Map<Seq<char>, SeriesView>) -> bool {
    forall|name: Seq<char>| #[trigger]
        m.dom().contains(name) ==> m[name].cpu.len() <= WINDOW && m[name].mem_frac.len() <= WINDOW
}

/// The newest samples of a series, as many as the window has room for.
pub open spec fn newest<T>(s: Seq<T>) -> Seq<T> {
    if s.len() <= WINDOW {
        s
    } else {
        s.skip(s.len() - WINDOW)
    }
}

/// The readings of the runner `name`, in order.
pub open spec fn readings_for(rs: Seq<ResourceView>, name: Seq<char>) -> Seq<ResourceView>
    decreases rs.len(),
{
    if rs.len() == 0 {
        rs
    } else if rs.last().name == name {
        readings_for(rs.drop_last(), name).push(rs.last())
    } else {
        readings_for(rs.drop_last(), name)
    }
}

/// The CPU samples in a row of readings.
pub open spec fn cpu_samples(rs: Seq<ResourceView>) -> Seq<CpuShare> {
    rs.map_values(|r: ResourceView| r.cpu_pct)
}

/// The memory samples in a row of readings.
pub open spec fn mem_samples(rs: Seq<ResourceView>) -> Seq<MemShare> {
    rs.map_values(|r: ResourceView| MemShare::of(r.mem_bytes, r.mem_limit))
}

proof fn lemma_capped_newest<T>(s: Seq<T>, x: T)
    ensures
        capped(newest(s), x) == newest(s.push(x)),
{
    assert(capped(newest(s), x) =~= newest(s.push(x)));
}

/// A series holds the newest of the samples that it had and those that its runner's
/// readings add, as many as the window has room for, in the order in which they came.
pub proof fn series_holds_the_newest_samples(
    m: Map<Seq<char>, SeriesView>,
    rs: Seq<ResourceView>,
    name: Seq<char>,
)
    requires
        bounded(m),
    ensures
        series_of(with_samples(m, rs), name).cpu == newest(
            series_of(m, name).cpu + cpu_samples(readings_for(rs, name)),
        ),
        series_of(with_samples(m, rs), name).mem_frac == newest(
            series_of(m, name).mem_frac + mem_samples(readings_for(rs, name)),
        ),
    decreases rs.len(),
{
    let s = series_of(m, name);
    if rs.len() == 0 {
        assert(s.cpu + cpu_samples(rs) =~= s.cpu);
        assert(s.mem_frac + mem_samples(rs) =~= s.mem_frac);
    } else {
        let front = rs.drop_last();
        let r = rs.last();
        series_holds_the_newest_samples(m, front, name);
        if r.name == name {
            let cpu = s.cpu + cpu_samples(readings_for(front, name));
            let mem = s.mem_frac + mem_samples(readings_for(front, name));
            lemma_capped_newest(cpu, r.cpu_pct);
            lemma_capped_newest(mem, MemShare::of(r.mem_bytes, r.mem_limit));
            assert(s.cpu + cpu_samples(readings_for(rs, name)) =~= cpu.push(r.cpu_pct));
            assert(s.mem_frac + mem_samples(readings_for(rs, name)) =~= mem.push(
                MemShare::of(r.mem_bytes, r.mem_limit),
            ));
        }
    }
}

proof fn lemma_samples_bounded(m: Map<Seq<char>, SeriesView>, rs: Seq<ResourceView>)
    requires
        bounded(m),
    ensures
        bounded(with_samples(m, rs)),
    decreases rs.len(),
{
    if rs.len() > 0 {
        lemma_samples_bounded(m, rs.drop_last());
    }
}

proof fn lemma_samples_names(
    m: Map<Seq<char>, SeriesView>,
    rs: Seq<ResourceView>,
    name: Seq<char>,
)
    ensures
        with_samples(m, rs).dom().contains(name) == (m.dom().contains(name) || names_runner(
            rs,
            name,
        )),
    decreases rs.len(),
{
    if rs.len() > 0 {
        let front = rs.drop_last();
        lemma_samples_names(m, front, name);
        if names_runner(front, name) {
            let i = choose|i: int| 0 <= i < front.len() && (#[trigger] front[i]).name == name;
            assert(rs[i].name == name);
        }
        if names_runner(rs, name) {
            let i = choose|i: int| 0 <= i < rs.len() && (#[trigger] rs[i]).name == name;
            if i < front.len() {
                assert(front[i].name == name);
            }
        }
        if rs.last().name == name {
            assert(rs[rs.len() - 1].name == name);
        }
    }
}

/// After a snapshot is recorded the history has a series for each runner in the
/// snapshot, and for no other.
pub proof fn a_snapshot_leaves_its_own_runners(
    m: Map<Seq<char>, SeriesView>,
    rs: Seq<ResourceView>,
    name: Seq<char>,
)
    ensures
        pruned(with_samples(m, rs), rs).dom().contains(name) == names_runner(rs, name),
{
    lemma_samples_names(m, rs, name);
}

/// Recording a sample of some runners leaves the series of every other known
/// runner as it was.
pub proof fn other_runners_keep_their_series(
    m: Map<Seq<char>, SeriesView>,
    sample: Seq<ResourceView>,
    known: Seq<ResourceView>,
    name: Seq<char>,
)
    requires
        m.dom().contains(name),
        names_runner(known, name),
        !names_runner(sample, name),
    ensures
        pruned(with_samples(m, sample), known).dom().contains(name),
        pruned(with_samples(m, sample), known)[name] == m[name],
    decreases sample.len(),
{
    if sample.len() > 0 {
        let front = sample.drop_last();
        assert(!names_runner(front, name)) by {
            if names_runner(front, name) {
                let i = choose|i: int| 0 <= i < front.len() && (#[trigger] front[i]).name == name;
                assert(sample[i].name == name);
            }
        }
        assert(sample[sample.len() - 1].name != name);
        other_runners_keep_their_series(m, front, known, name);
    }
}

fn push_capped<T>(v: &mut Vec<T>, x: T)
    requires
        old(v)@.len() <= WINDOW,
    ensures
        final(v)@ == capped(old(v)@, x),
{
    let full = v.len() >= WINDOW;
    v.push(x);
    if full {
        let ghost whole = v@;
        v.remove(0);
        assert(whole.remove(0) =~= whole.skip(1));
    }
}

/// Per-runner series of CPU and memory use, by the runner's name.
pub struct History {
    series: Keyed<String, RunnerSeries>,
}

impl View for History {
    type V = Map<Seq<char>, SeriesView>;

    closed spec fn view(&self) -> Map<Seq<char>, SeriesView> {
        self.series@.map_values(|s: RunnerSeries| s@)
    }
}

impl Default for History {
    fn default() -> (r: Self)
        ensures
            r@ == Map::<Seq<char>, SeriesView>::empty(),
    {
        let series = Keyed::new();
        assert(series@.map_values(|s: RunnerSeries| s@) =~= Map::empty());
        History { series }
    }
}

fn is_known(known: &[RunnerResource], name: &str) -> (r: bool)
    ensures
        r == names_runner(resource_views(known@), name@),
{
    let mut i: usize = 0;
    while i < known.len()
        invariant
            i <= known@.len(),
            forall|j: int| 0 <= j < i ==> (#[trigger] known@[j]).name@ != name@,
        decreases known@.len() - i,
    {
        if same_text(known[i].name.as_str(), name) {
            assert(resource_views(known@)[i as int].name == name@);
            return true;
        }
        i += 1;
    }
    proof {
        if names_runner(resource_views(known@), name@) {
            let rs = resource_views(known@);
            let k = choose|k: int| 0 <= k < rs.len() && (#[trigger] rs[k]).name == name@;
            assert(known@[k].name@ == name@);
        }
    }
    false
}

impl History {
    #[verifier::type_invariant]
    spec fn within_window(&self) -> bool {
        bounded(self@)
    }

    /// Appends one sample per reading, then drops every runner that the readings
    /// do not name.
    pub fn record(&mut self, resources: &[RunnerResource])
        ensures
            final(self)@ == pruned(
                with_samples(old(self)@, resource_views(resources@)),
                resource_views(resources@),
            ),
    {
        self.record_among(resources, resources)
    }

    /// Appends one sample per reading in `sample`, then drops every runner that
    /// `known` does not name.
    pub fn record_among(&mut self, sample: &[RunnerResource], known: &[RunnerResource])
        ensures
            final(self)@ == pruned(
                with_samples(old(self)@, resource_views(sample@)),
                resource_views(known@),
            ),
    {
        proof {
            use_type_invariant(&*self);
            lemma_samples_bounded(self@, resource_views(sample@));
        }
        let ghost before = self@;
        let mut series: Keyed<String, RunnerSeries> = Keyed::new();
        assert(series@.map_values(|s: RunnerSeries| s@) =~= Map::empty());
        std::mem::swap(&mut series, &mut self.series);
        append_samples(&mut series, sample);
        prune(&mut series, known);
        self.series = series;
    }

    /// A runner's CPU samples, the oldest first; none for an unknown runner.
    pub fn cpu(&self, name: &str) -> (r: Vec<CpuShare>)
        ensures
            r@ == series_of(self@, name@).cpu,
            r@.len() <= WINDOW,
    {
        proof {
            use_type_invariant(self);
        }
        let key = name.to_owned();
        match self.series.get(&key) {
            Some(s) => {
                assert(self@.dom().contains(name@));
                s.cpu.clone()
            },
            None => Vec::new(),
        }
    }

    /// A runner's memory samples, the oldest first; none for an unknown runner.
    pub fn mem_frac(&self, name: &str) -> (r: Vec<MemShare>)
        ensures
            r@ == series_of(self@, name@).mem_frac,
            r@.len() <= WINDOW,
    {
        proof {
            use_type_invariant(self);
        }
        let key = name.to_owned();
        match self.series.get(&key) {
            Some(s) => {
                assert(self@.dom().contains(name@));
                s.mem_frac.clone()
            },
            None => Vec::new(),
        }
    }
}

spec fn contents(series: Keyed<String, RunnerSeries>) -> Map<Seq<char>, SeriesView> {
    series@.map_values(|s: RunnerSeries| s@)
}

fn append_samples(series: &mut Keyed<String, RunnerSeries>, sample: &[RunnerResource])
    requires
        bounded(contents(*old(series))),
    ensures
        contents(*final(series)) == with_samples(
            contents(*old(series)),
            resource_views(sample@),
        ),
{
    let ghost start = contents(*series);
    let ghost rs = resource_views(sample@);
    let mut i: usize = 0;
    assert(rs.take(0) =~= Seq::empty());
    while i < sample.len()
        invariant
            i <= sample@.len(),
            rs == resource_views(sample@),
            bounded(start),
            contents(*series) == with_samples(start, rs.take(i as int)),
        decreases sample@.len() - i,
    {
        let ghost m = contents(*series);
        let r = &sample[i];
        proof {
            lemma_samples_bounded(start, rs.take(i as int));
            assert(rs.take(i + 1).drop_last() =~= rs.take(i as int));
            assert(rs.take(i + 1).last() == r@);
        }
        let mut s = match series.remove(&r.name) {
            Some(s) => {
                assert(m.dom().contains(r.name@));
                assert(m[r.name@] == s@);
                s
            },
            None => RunnerSeries { cpu: Vec::new(), mem_frac: Vec::new() },
        };
        assert(s@ =~= series_of(m, r.name@));
        push_capped(&mut s.cpu, r.cpu_pct);
        push_capped(&mut s.mem_frac, mem_share(r.mem_bytes, r.mem_limit));
        series.insert(r.name.clone(), s);
        assert(contents(*series) =~= with_sample(m, r@));
        i += 1;
    }
    assert(rs.take(rs.len() as int) =~= rs);
}

fn prune(series: &mut Keyed<String, RunnerSeries>, known: &[RunnerResource])
    ensures
        contents(*final(series)) == pruned(contents(*old(series)), resource_views(known@)),
{
    let ghost start = contents(*series);
    let ghost pairs = series.pairs();
    let ghost rs = resource_views(known@);
    let mut stale: Vec<String> = Vec::new();
    let mut i: usize = 0;
    while i < series.len()
        invariant
            i <= series.pairs().len(),
            pairs == series.pairs(),
            rs == resource_views(known@),
            start == contents(*series),
            forall|j: int| 0 <= j < stale@.len() ==> !names_runner(rs, (#[trigger] stale@[j])@),
            forall|j: int|
                0 <= j < i && !names_runner(rs, (#[trigger] pairs[j]).0) ==> exists|k: int|
                    0 <= k < stale@.len() && (#[trigger] stale@[k])@ == pairs[j].0,
        decreases series.pairs().len() - i,
    {
        let e = series.entry(i);
        if !is_known(known, e.0.as_str()) {
            let ghost before = stale@;
            stale.push(e.0.clone());
            assert forall|j: int|
                0 <= j < i + 1 && !names_runner(rs, (#[trigger] pairs[j]).0) implies exists|k: int|
                0 <= k < stale@.len() && (#[trigger] stale@[k])@ == pairs[j].0 by {
                if j < i {
                    let k = choose|k: int|
                        0 <= k < before.len() && (#[trigger] before[k])@ == pairs[j].0;
                    assert(stale@[k]@ == pairs[j].0);
                } else {
                    assert(stale@[before.len() as int]@ == pairs[j].0);
                }
            }
        }
        i += 1;
    }
    proof {
        assert forall|name: Seq<char>| #[trigger]
            start.dom().contains(name) && !names_runner(rs, name) implies exists|k: int|
            0 <= k < stale@.len() && (#[trigger] stale@[k])@ == name by {
            lemma_spot(keys_of(pairs), name);
            let j = crate::keyed::spot(keys_of(pairs), name);
            assert(series@.dom().contains(name));
            assert(pairs[j].0 == name);
        }
    }
    let mut n: usize = 0;
    while n < stale.len()
        invariant
            n <= stale@.len(),
            forall|name: Seq<char>| #[trigger]
                contents(*series).dom().contains(name) == (start.dom().contains(name) && !(exists|
                    k: int,
                |
                    0 <= k < n && (#[trigger] stale@[k])@ == name)),
            forall|name: Seq<char>| #[trigger]
                contents(*series).dom().contains(name) ==> contents(*series)[name] == start[name],
        decreases stale@.len() - n,
    {
        let ghost m = contents(*series);
        series.remove(&stale[n]);
        let ghost gone = stale@[n as int]@;
        assert(contents(*series) =~= m.remove(gone));
        assert forall|name: Seq<char>| #[trigger]
            contents(*series).dom().contains(name) == (start.dom().contains(name) && !(exists|k: int|
                0 <= k < n + 1 && (#[trigger] stale@[k])@ == name)) by {
            if name == gone {
                assert(stale@[n as int]@ == name);
            }
        }
        n += 1;
    }
    assert(contents(*series) =~= pruned(start, rs));
}

/// A reading becomes the newest sample of its runner, in both series; no runner's series
/// changes but that one's.
pub proof fn a_reading_becomes_the_newest_sample(
    m: Map<Seq<char>, SeriesView>,
    rs: Seq<ResourceView>,
    r: ResourceView,
    other: Seq<char>,
)
    requires
        other != r.name,
    ensures
        ({
            let before = with_samples(m, rs);
            let after = with_samples(m, rs.push(r));
            &&& after.dom().contains(r.name)
            &&& after[r.name].cpu.len() > 0 && after[r.name].cpu.last() == r.cpu_pct
            &&& after[r.name].mem_frac.len() > 0
            &&& r.mem_limit > 0 ==> after[r.name].mem_frac.last() == (MemShare {
                used: r.mem_bytes,
                limit: r.mem_limit,
            })
            &&& r.mem_limit == 0 ==> after[r.name].mem_frac.last().used == 0
            &&& after.dom().contains(other) == before.dom().contains(other)
            &&& before.dom().contains(other) ==> after[other] == before[other]
        }),
{
    assert(rs.push(r).drop_last() =~= rs);
    let s = series_of(with_samples(m, rs), r.name);
    let cpu = capped(s.cpu, r.cpu_pct);
    let mem = capped(s.mem_frac, MemShare::of(r.mem_bytes, r.mem_limit));
    assert(cpu.last() == r.cpu_pct);
    assert(mem.last() == MemShare::of(r.mem_bytes, r.mem_limit));
}

/// A series grows by one sample until the window is full, and then drops its oldest one.
pub proof fn full_series_drop_their_oldest_sample<T>(s: Seq<T>, x: T, k: int)
    requires
        s.len() <= WINDOW,
        0 <= k < s.len(),
    ensures
        s.len() < 20 ==> capped(s, x).len() == s.len() + 1 && capped(s, x)[k] == s[k],
        s.len() == 20 ==> capped(s, x).len() == 20 && (k > 0 ==> capped(s, x)[k - 1] == s[k]),
        capped(s, x).last() == x,
{
}

} // verus!
