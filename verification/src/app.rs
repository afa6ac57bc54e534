//! The state behind the screen, and what changes it.

use crate::config::{
    dedup_keeps_each_item_once, first_of_each, mapped_repos, prefix_poll_seed, rule_views, Config,
    ConfigView, PrefixRule, RuleView,
};
use crate::history::{
    a_reading_becomes_the_newest_sample, names_runner, other_runners_keep_their_series, pruned,
    with_samples, History, SeriesView,
};
use crate::jobs::{JobsUpdate, Slice};
use crate::keyed::Keyed;
use crate::model::{
    deployment_views, hosted_views, join_keyed, keyed_row, keyed_rows, lemma_row_order,
    resource_views, row_order, row_views,
    Deployment, DeploymentView, HostedJob, HostedView, JobInfo, KeyView, ResourceView,
    RunnerResource, RunnerRow, SourceKind,
};
use crate::ordering::{
    in_order, sorted_with, sorting_finds_every_item, sorting_orders_the_items,
};
use crate::resource::ResourceUpdate;
use crate::resource_native::{
    derive_scopes_from, native_views, org_scopes, repo_scopes, NativeRunner,
};
use crate::stats_math::MemShare;
use crate::text::{join_texts, joined, opt_text, texts};
use crate::vercel::VercelUpdate;
use vstd::prelude::*;

verus! {

/// What is known of the runners, the jobs and the deployments.
pub struct AppState {
    pub docker_resources: Vec<RunnerResource>,
    pub native_resources: Vec<RunnerResource>,
    pub docker_err: Option<String>,
    pub native_err: Option<String>,
    pub jobs: Slice,
    pub jobs_err: Option<String>,
    pub hosted: Vec<HostedJob>,
    pub deployments: Vec<Deployment>,
    pub history: History,
    /// The containers that matched a prefix in the last poll that succeeded.
    pub matched_seen: usize,
    /// The containers that matched none.
    pub unmatched_seen: usize,
}

/// The content of an [`AppState`].
#[verifier::ext_equal]
pub struct AppView {
    pub docker_resources: Seq<ResourceView>,
    pub native_resources: Seq<ResourceView>,
    pub docker_err: Option<Seq<char>>,
    pub native_err: Option<Seq<char>>,
    pub jobs: Map<KeyView, Option<JobInfo>>,
    pub jobs_err: Option<Seq<char>>,
    pub hosted: Seq<HostedView>,
    pub deployments: Seq<DeploymentView>,
    pub history: Map<Seq<char>, SeriesView>,
    pub matched_seen: usize,
    pub unmatched_seen: usize,
}

impl View for AppState {
    type V = AppView;

    open spec fn view(&self) -> AppView {
        AppView {
            docker_resources: resource_views(self.docker_resources@),
            native_resources: resource_views(self.native_resources@),
            docker_err: opt_text(self.docker_err),
            native_err: opt_text(self.native_err),
            jobs: self.jobs@,
            jobs_err: opt_text(self.jobs_err),
            hosted: hosted_views(self.hosted@),
            deployments: deployment_views(self.deployments@),
            history: self.history@,
            matched_seen: self.matched_seen,
            unmatched_seen: self.unmatched_seen,
        }
    }
}

/// The state in which nothing is known.
pub open spec fn nothing_known() -> AppView {
    AppView {
        docker_resources: Seq::empty(),
        native_resources: Seq::empty(),
        docker_err: None,
        native_err: None,
        jobs: Map::empty(),
        jobs_err: None,
        hosted: Seq::empty(),
        deployments: Seq::empty(),
        history: Map::empty(),
        matched_seen: 0,
        unmatched_seen: 0,
    }
}

impl Default for AppState {
    fn default() -> (r: Self)
        ensures
            r@ == nothing_known(),
    {
        let r = AppState {
            docker_resources: Vec::new(),
            native_resources: Vec::new(),
            docker_err: None,
            native_err: None,
            jobs: Keyed::new(),
            jobs_err: None,
            hosted: Vec::new(),
            deployments: Vec::new(),
            history: History::default(),
            matched_seen: 0,
            unmatched_seen: 0,
        };
        assert(resource_views(r.docker_resources@) =~= Seq::empty());
        assert(resource_views(r.native_resources@) =~= Seq::empty());
        assert(hosted_views(r.hosted@) =~= Seq::empty());
        assert(deployment_views(r.deployments@) =~= Seq::empty());
        r
    }
}

fn add_resources(out: &mut Vec<RunnerResource>, more: &Vec<RunnerResource>)
    ensures
        final(out)@ == old(out)@ + more@,
{
    let ghost start = out@;
    let mut i: usize = 0;
    assert(out@ =~= start + more@.take(0));
    while i < more.len()
        invariant
            i <= more@.len(),
            out@ == start + more@.take(i as int),
        decreases more@.len() - i,
    {
        out.push(more[i].clone());
        assert(start + more@.take(i + 1) =~= (start + more@.take(i as int)).push(more@[i as int]));
        i += 1;
    }
    assert(more@.take(more@.len() as int) =~= more@);
}

impl AppState {
    /// Every runner that is known: those in containers, then the native ones.
    pub fn all_resources(&self) -> (r: Vec<RunnerResource>)
        ensures
            resource_views(r@) == self@.docker_resources + self@.native_resources,
    {
        let mut all: Vec<RunnerResource> = Vec::new();
        add_resources(&mut all, &self.docker_resources);
        add_resources(&mut all, &self.native_resources);
        assert(resource_views(all@) =~= self@.docker_resources + self@.native_resources);
        all
    }

    /// The complaint to show: about the containers, or else about the native runners, or
    /// else about the jobs.
    pub fn banner(&self) -> (r: Option<String>)
        ensures
            opt_text(r) == banner_of(self@),
    {
        if let Some(e) = &self.docker_err {
            return Some(e.clone());
        }
        if let Some(e) = &self.native_err {
            return Some(e.clone());
        }
        match &self.jobs_err {
            Some(e) => Some(e.clone()),
            None => None,
        }
    }

    /// The rows of the runner table.
    pub fn rows(&self, warn_pct: u64, crit_pct: u64) -> (r: Vec<RunnerRow>)
        ensures
            row_views(r@) == sorted_with(
                keyed_rows(
                    self@.docker_resources + self@.native_resources,
                    self@.jobs,
                    self@.history,
                    warn_pct,
                    crit_pct,
                ),
                row_order(),
            ),
    {
        let all = self.all_resources();
        join_keyed(all.as_slice(), &self.jobs, &self.history, warn_pct, crit_pct)
    }
}

/// The complaint to show: about the containers, or else about the native runners, or else
/// about the jobs.
pub open spec fn banner_of(s: AppView) -> Option<Seq<char>> {
    if s.docker_err is Some {
        s.docker_err
    } else if s.native_err is Some {
        s.native_err
    } else {
        s.jobs_err
    }
}

/// The state with the runners of one source sampled into the history, which keeps the
/// series of every runner that is known.
pub open spec fn sampled(s: AppView, sample: Seq<ResourceView>) -> AppView {
    AppView {
        history: pruned(
            with_samples(s.history, sample),
            s.docker_resources + s.native_resources,
        ),
        ..s
    }
}

/// The state after a poll of the containers. A failed poll changes the complaint alone; any
/// other replaces the containers' runners and samples them.
pub open spec fn after_docker(
    s: AppView,
    resources: Seq<ResourceView>,
    matched_seen: usize,
    unmatched_seen: usize,
    error: Option<Seq<char>>,
) -> AppView {
    if error is Some {
        AppView { docker_err: error, ..s }
    } else {
        sampled(
            AppView {
                docker_err: None,
                docker_resources: resources,
                matched_seen,
                unmatched_seen,
                ..s
            },
            resources,
        )
    }
}

/// The state after a sweep over the native runners. Whatever the complaint, the sweep's
/// runners replace the earlier ones and are sampled.
pub open spec fn after_native(
    s: AppView,
    resources: Seq<ResourceView>,
    error: Option<Seq<char>>,
) -> AppView {
    sampled(AppView { native_err: error, native_resources: resources, ..s }, resources)
}

/// The state after a report of a source of runners.
pub open spec fn after_resources(s: AppView, update: ResourceUpdate) -> AppView {
    let resources = resource_views(update.resources@);
    match update.source {
        SourceKind::Docker => after_docker(
            s,
            resources,
            update.matched_seen,
            update.unmatched_seen,
            opt_text(update.error),
        ),
        SourceKind::Native => after_native(s, resources, opt_text(update.error)),
    }
}

/// Takes in a report of a source of runners.
pub fn apply_resource_update(state: &mut AppState, update: ResourceUpdate)
    ensures
        final(state)@ == after_resources(old(state)@, update),
{
    let ghost before = state@;
    let sample = match update.source {
        SourceKind::Docker => {
            let failed = update.error.is_some();
            state.docker_err = update.error;
            if failed {
                assert(state@ =~= after_resources(before, update));
                return;
            }
            let mut sample: Vec<RunnerResource> = Vec::new();
            add_resources(&mut sample, &update.resources);
            assert(sample@ =~= update.resources@);
            state.docker_resources = update.resources;
            state.matched_seen = update.matched_seen;
            state.unmatched_seen = update.unmatched_seen;
            sample
        },
        SourceKind::Native => {
            state.native_err = update.error;
            let mut sample: Vec<RunnerResource> = Vec::new();
            add_resources(&mut sample, &update.resources);
            assert(sample@ =~= update.resources@);
            state.native_resources = update.resources;
            sample
        },
    };
    let all = state.all_resources();
    state.history.record_among(sample.as_slice(), all.as_slice());
    assert(state@ =~= after_resources(before, update));
}

/// Takes in a report of the jobs poller, which keeps what it knew itself: the report
/// replaces the jobs and the complaint.
pub fn apply_jobs_update(state: &mut AppState, update: JobsUpdate)
    ensures
        final(state)@ == (AppView {
            jobs: update.jobs@,
            hosted: hosted_views(update.hosted@),
            jobs_err: opt_text(update.error),
            ..old(state)@
        }),
{
    state.jobs_err = update.error;
    state.jobs = update.jobs;
    state.hosted = update.hosted;
}

/// Takes in a report of the deployments.
pub fn apply_vercel_update(state: &mut AppState, update: VercelUpdate)
    ensures
        final(state)@ == (AppView {
            deployments: deployment_views(update.deployments@),
            ..old(state)@
        }),
{
    state.deployments = update.deployments;
}

/// A failed poll of the containers keeps everything that was known; only the complaint is
/// new.
pub proof fn docker_failures_keep_what_was_known(s: AppView, update: ResourceUpdate)
    requires
        update.source is Docker,
        update.error is Some,
    ensures
        ({
            let after = after_resources(s, update);
            &&& after.docker_resources == s.docker_resources
            &&& after.native_resources == s.native_resources
            &&& after.history == s.history
            &&& after.matched_seen == s.matched_seen
            &&& after.unmatched_seen == s.unmatched_seen
            &&& after.jobs == s.jobs
            &&& after.hosted == s.hosted
            &&& after.docker_err == opt_text(update.error)
        }),
{
}

/// A report of one source leaves the other source's runners, complaint and jobs alone.
pub proof fn sources_do_not_touch_one_another(s: AppView, update: ResourceUpdate)
    ensures
        ({
            let after = after_resources(s, update);
            &&& update.source is Docker ==> after.native_resources == s.native_resources
                && after.native_err == s.native_err
            &&& update.source is Native ==> after.docker_resources == s.docker_resources
                && after.docker_err == s.docker_err && after.matched_seen == s.matched_seen
                && after.unmatched_seen == s.unmatched_seen
            &&& after.jobs == s.jobs && after.jobs_err == s.jobs_err && after.hosted == s.hosted
                && after.deployments == s.deployments
        }),
{
}

/// A report of one source keeps the series of every runner of the other, and adds no
/// sample to them.
pub proof fn sources_keep_one_anothers_series(s: AppView, update: ResourceUpdate, name: Seq<char>)
    requires
        s.history.dom().contains(name),
        update.source is Docker ==> names_runner(s.native_resources, name),
        update.source is Native ==> names_runner(s.docker_resources, name),
        !names_runner(resource_views(update.resources@), name),
    ensures
        after_resources(s, update).history.dom().contains(name),
        after_resources(s, update).history[name] == s.history[name],
{
    let sample = resource_views(update.resources@);
    match update.source {
        SourceKind::Docker => {
            if update.error is None {
                let known = sample + s.native_resources;
                let i = choose|i: int|
                    0 <= i < s.native_resources.len() && (#[trigger] s.native_resources[i]).name
                        == name;
                assert(known[sample.len() + i].name == name);
                other_runners_keep_their_series(s.history, sample, known, name);
            }
        },
        SourceKind::Native => {
            let known = s.docker_resources + sample;
            let i = choose|i: int|
                0 <= i < s.docker_resources.len() && (#[trigger] s.docker_resources[i]).name
                    == name;
            assert(known[i].name == name);
            other_runners_keep_their_series(s.history, sample, known, name);
        },
    }
}

/// A sweep that read some of the native runners is shown, though it complains about
/// others.
pub proof fn native_complaints_do_not_hide_readings(s: AppView, update: ResourceUpdate)
    requires
        update.source is Native,
    ensures
        after_resources(s, update).native_resources == resource_views(update.resources@),
        after_resources(s, update).native_err == opt_text(update.error),
{
}

/// A key of the keyboard, as far as it matters.
#[derive(Clone, Copy, Debug, PartialEq, Eq, Structural)]
pub enum KeyCode {
    Char(char),
    Esc,
    Other,
}

/// A key event.
#[derive(Clone, Copy, Debug, PartialEq, Eq, Structural)]
pub struct KeyEvent {
    pub code: KeyCode,
    pub control: bool,
    /// Whether the key went down, and not up or on.
    pub press: bool,
}

/// Whether a key event ends the program: `q`, Esc, or Ctrl-C going down.
pub open spec fn quits(key: KeyEvent) -> bool {
    key.press && (key.code == KeyCode::Char('q') || key.code == KeyCode::Esc || (key.control
        && key.code == KeyCode::Char('c')))
}

/// Whether a key event ends the program.
pub fn is_quit(key: &KeyEvent) -> (r: bool)
    ensures
        r == quits(*key),
{
    if !key.press {
        return false;
    }
    match key.code {
        KeyCode::Char(c) => c == 'q' || (key.control && c == 'c'),
        KeyCode::Esc => true,
        KeyCode::Other => false,
    }
}

/// Something that happens while the program runs.
pub enum Event {
    Key(KeyEvent),
    /// Any other input, or an input that could not be read.
    OtherInput,
    InputClosed,
    Resources(ResourceUpdate),
    ResourcesClosed,
    Jobs(JobsUpdate),
    JobsClosed,
    Deployments(VercelUpdate),
    DeploymentsClosed,
    Tick,
}

/// What follows from an event.
#[derive(Clone, Copy, Debug, PartialEq, Eq, Structural)]
pub enum Step {
    Quit,
    Redraw,
}

/// The program's loop: its state, and which reporters are still there.
pub struct AppLoop {
    pub state: AppState,
    pub res_alive: bool,
    pub jobs_alive: bool,
    pub deployments_alive: bool,
}

/// Whether an event ends the program.
pub open spec fn ends(event: Event) -> bool {
    match event {
        Event::Key(key) => quits(key),
        Event::InputClosed => true,
        _ => false,
    }
}

/// The state after an event.
pub open spec fn after_event(s: AppView, event: Event) -> AppView {
    match event {
        Event::Resources(update) => after_resources(s, update),
        Event::Jobs(update) => AppView {
            jobs: update.jobs@,
            hosted: hosted_views(update.hosted@),
            jobs_err: opt_text(update.error),
            ..s
        },
        Event::Deployments(update) => AppView {
            deployments: deployment_views(update.deployments@),
            ..s
        },
        _ => s,
    }
}

impl AppLoop {
    /// A loop in which nothing has happened.
    pub fn new() -> (r: AppLoop)
        ensures
            r.res_alive && r.jobs_alive && r.deployments_alive,
            r.state@ == nothing_known(),
    {
        AppLoop {
            state: AppState::default(),
            res_alive: true,
            jobs_alive: true,
            deployments_alive: true,
        }
    }

    /// Takes in an event. Only a key that quits and the end of the input end the program; a
    /// reporter that is gone is not listened to any more.
    pub fn handle(&mut self, event: Event) -> (r: Step)
        ensures
            r is Quit <==> ends(event),
            final(self).state@ == after_event(old(self).state@, event),
            final(self).res_alive == (old(self).res_alive && !(event is ResourcesClosed)),
            final(self).jobs_alive == (old(self).jobs_alive && !(event is JobsClosed)),
            final(self).deployments_alive == (old(self).deployments_alive && !(
            event is DeploymentsClosed)),
    {
        match event {
            Event::Key(key) => {
                if is_quit(&key) {
                    return Step::Quit;
                }
            },
            Event::OtherInput => {},
            Event::InputClosed => {
                return Step::Quit;
            },
            Event::Resources(update) => {
                apply_resource_update(&mut self.state, update);
            },
            Event::ResourcesClosed => {
                self.res_alive = false;
            },
            Event::Jobs(update) => {
                apply_jobs_update(&mut self.state, update);
            },
            Event::JobsClosed => {
                self.jobs_alive = false;
            },
            Event::Deployments(update) => {
                apply_vercel_update(&mut self.state, update);
            },
            Event::DeploymentsClosed => {
                self.deployments_alive = false;
            },
            Event::Tick => {},
        }
        Step::Redraw
    }
}

/// The prefixes of rules.
pub open spec fn prefixes_of(rules: Seq<RuleView>) -> Seq<Seq<char>> {
    rules.map_values(|r: RuleView| r.prefix)
}

/// The prefixes of the rules, with commas between them.
pub fn prefix_label(rules: &[PrefixRule]) -> (r: String)
    ensures
        r@ == joined(prefixes_of(rule_views(rules@)), ", "@),
{
    let mut parts: Vec<String> = Vec::new();
    let mut i: usize = 0;
    while i < rules.len()
        invariant
            i <= rules@.len(),
            parts@.len() == i,
            forall|k: int| 0 <= k < i ==> (#[trigger] parts@[k])@ == rules@[k].prefix@,
        decreases rules@.len() - i,
    {
        parts.push(rules[i].prefix.clone());
        i += 1;
    }
    assert(texts(parts@) =~= prefixes_of(rule_views(rules@)));
    join_texts(&parts, ", ")
}

/// Fills in the scopes to poll: the configured repositories, those that rules name and
/// those that native runners are registered for, and the native runners' organisations.
/// Returns whether more than one repository is polled.
pub fn fill_scopes(cfg: &mut Config, natives: &[NativeRunner]) -> (multi_repo: bool)
    ensures
        texts(final(cfg).repos@) == first_of_each(
            first_of_each(
                old(cfg)@.configured_repos + mapped_repos(old(cfg)@.prefixes),
            ) + repo_scopes(native_views(natives@)),
        ),
        texts(final(cfg).orgs@) == first_of_each(org_scopes(native_views(natives@))),
        final(cfg)@ == (ConfigView { repos: final(cfg)@.repos, orgs: final(cfg)@.orgs, ..old(cfg)@
        }),
        multi_repo == (final(cfg).repos@.len() > 1),
{
    let seed = prefix_poll_seed(cfg.configured_repos.as_slice(), cfg.prefixes.as_slice());
    let (repos, orgs) = derive_scopes_from(seed.as_slice(), natives);
    let multi_repo = repos.len() > 1;
    cfg.repos = repos;
    cfg.orgs = orgs;
    multi_repo
}

/// The content of the state is that of its fields.
pub proof fn state_contents_are_those_of_the_fields(s: AppState)
    ensures
        s@.docker_resources == resource_views(s.docker_resources@),
        s@.native_resources == resource_views(s.native_resources@),
        s@.docker_err == opt_text(s.docker_err),
        s@.native_err == opt_text(s.native_err),
        s@.jobs == s.jobs@,
        s@.jobs_err == opt_text(s.jobs_err),
        s@.hosted == hosted_views(s.hosted@),
        s@.deployments == deployment_views(s.deployments@),
        s@.history == s.history@,
        s@.matched_seen == s.matched_seen,
        s@.unmatched_seen == s.unmatched_seen,
{
}

/// A poll of the containers that succeeded replaces their runners and their counts, clears
/// its complaint, and makes each reading the newest sample of its runner. A sweep over the
/// native runners replaces theirs.
pub proof fn reports_replace_their_sources_runners(
    s: AppView,
    update: ResourceUpdate,
    rest: Seq<ResourceView>,
    last: ResourceView,
)
    requires
        resource_views(update.resources@) == rest.push(last),
    ensures
        ({
            let after = after_resources(s, update);
            let sampled = after.history;
            let docker = update.source is Docker && update.error is None;
            &&& docker ==> after.docker_resources == resource_views(update.resources@)
                && after.matched_seen == update.matched_seen && after.unmatched_seen
                == update.unmatched_seen && after.docker_err is None
            &&& update.source is Native ==> after.native_resources == resource_views(
                update.resources@,
            )
            &&& update.source is Native ==> after.native_err == opt_text(update.error)
            &&& docker || update.source is Native ==> sampled.dom().contains(last.name)
                && sampled[last.name].cpu.last() == last.cpu_pct && (last.mem_limit > 0
                ==> sampled[last.name].mem_frac.last() == (MemShare {
                used: last.mem_bytes,
                limit: last.mem_limit,
            }))
        }),
{
    let other = last.name.push('x');
    assert(other.len() != last.name.len());
    a_reading_becomes_the_newest_sample(s.history, rest, last, other);
    let readings = rest.push(last);
    assert(readings[rest.len() as int] == last);
    let docker = readings + s.native_resources;
    assert(docker[rest.len() as int].name == last.name);
    let native = s.docker_resources + readings;
    assert(native[s.docker_resources.len() as int + rest.len()].name == last.name);
}

/// After any report that is taken in, the history holds exactly runners that are known.
pub proof fn history_is_of_known_runners(s: AppView, update: ResourceUpdate, name: Seq<char>)
    requires
        update.source is Native || update.error is None,
        after_resources(s, update).history.dom().contains(name),
    ensures
        names_runner(after_resources(s, update).docker_resources, name) || names_runner(
            after_resources(s, update).native_resources,
            name,
        ),
{
    let after = after_resources(s, update);
    let known = after.docker_resources + after.native_resources;
    let i = choose|i: int| 0 <= i < known.len() && (#[trigger] known[i]).name == name;
    if i < after.docker_resources.len() {
        assert(after.docker_resources[i].name == name);
    } else {
        assert(after.native_resources[i - after.docker_resources.len()].name == name);
    }
}

/// A report of the jobs replaces jobs, hosted jobs and their complaint, one of the
/// deployments the deployments, and neither anything else; every other event but a report of
/// the runners leaves the state alone.
pub proof fn events_change_what_they_report(
    s: AppView,
    jobs: JobsUpdate,
    deployments: VercelUpdate,
    key: KeyEvent,
)
    ensures
        ({
            let a = after_event(s, Event::Jobs(jobs));
            &&& a.jobs == jobs.jobs@
            &&& a.hosted == hosted_views(jobs.hosted@)
            &&& a.jobs_err == opt_text(jobs.error)
            &&& a.deployments == s.deployments
            &&& a.docker_resources == s.docker_resources
            &&& a.native_resources == s.native_resources
            &&& a.docker_err == s.docker_err && a.native_err == s.native_err
            &&& a.history == s.history
            &&& a.matched_seen == s.matched_seen && a.unmatched_seen == s.unmatched_seen
        }),
        ({
            let b = after_event(s, Event::Deployments(deployments));
            &&& b.deployments == deployment_views(deployments.deployments@)
            &&& b.jobs == s.jobs && b.hosted == s.hosted && b.jobs_err == s.jobs_err
            &&& b.docker_resources == s.docker_resources
            &&& b.native_resources == s.native_resources
            &&& b.docker_err == s.docker_err && b.native_err == s.native_err
            &&& b.history == s.history
            &&& b.matched_seen == s.matched_seen && b.unmatched_seen == s.unmatched_seen
        }),
        after_event(s, Event::Key(key)) == s,
        after_event(s, Event::OtherInput) == s,
        after_event(s, Event::Tick) == s,
        after_event(s, Event::ResourcesClosed) == s,
        after_event(s, Event::JobsClosed) == s,
        after_event(s, Event::DeploymentsClosed) == s,
{
}

/// A report of the runners is taken in as it is.
pub proof fn resource_events_are_taken_in(s: AppView, update: ResourceUpdate)
    ensures
        after_event(s, Event::Resources(update)) == after_resources(s, update),
        !ends(Event::Resources(update)),
{
}

/// The program ends when `q` or Esc goes down, when Ctrl-C does, and when the input ends;
/// nothing else ends it.
pub proof fn the_program_ends_on_request(c: char, control: bool, press: bool)
    ensures
        ends(Event::InputClosed),
        ends(Event::Key(KeyEvent { code: KeyCode::Esc, control, press })) <==> press,
        ends(Event::Key(KeyEvent { code: KeyCode::Char(c), control, press })) <==> press && (c
            == 'q' || (c == 'c' && control)),
        !ends(Event::Key(KeyEvent { code: KeyCode::Other, control, press })),
        !ends(Event::Tick),
        !ends(Event::OtherInput),
        !ends(Event::ResourcesClosed),
        !ends(Event::JobsClosed),
        !ends(Event::DeploymentsClosed),
{
}

/// The banner shows the complaint about the containers, or else the one about the native
/// runners, or else the one about the jobs.
pub proof fn banners_show_the_first_complaint(s: AppView, e: Seq<char>)
    ensures
        s.docker_err == Some(e) ==> banner_of(s) == Some(e),
        s.docker_err is None && s.native_err == Some(e) ==> banner_of(s) == Some(e),
        s.docker_err is None && s.native_err is None && s.jobs_err == Some(e) ==> banner_of(s)
            == Some(e),
        s.docker_err is None && s.native_err is None && s.jobs_err is None ==> banner_of(s) is None,
{
}

/// The label lists the prefixes of the rules, in their order.
pub proof fn labels_list_the_prefixes(rules: Seq<RuleView>, i: int)
    requires
        0 <= i < rules.len(),
    ensures
        prefixes_of(rules).len() == rules.len(),
        prefixes_of(rules)[i] == rules[i].prefix,
{
}

/// A program that has just begun knows nothing, and listens to everyone.
pub proof fn a_new_program_knows_nothing(r: AppLoop)
    requires
        call_ensures(AppLoop::new, (), r),
    ensures
        r.res_alive && r.jobs_alive && r.deployments_alive,
        r.state@.docker_resources.len() == 0 && r.state@.native_resources.len() == 0,
        r.state.docker_err is None && r.state.native_err is None && r.state.jobs_err is None,
        r.state@.jobs.dom() == Set::<KeyView>::empty(),
        r.state@.hosted.len() == 0 && r.state@.deployments.len() == 0,
        r.state@.history.dom() == Set::<Seq<char>>::empty(),
        r.state.matched_seen == 0 && r.state.unmatched_seen == 0,
{
}

/// The known runners are those of the containers and then the native ones.
pub proof fn known_runners_come_source_by_source(s: &AppState, r: Vec<RunnerResource>, i: int)
    requires
        call_ensures(AppState::all_resources, (s,), r),
        0 <= i,
    ensures
        r@.len() == s.docker_resources@.len() + s.native_resources@.len(),
        i < s.docker_resources@.len() ==> r@[i]@ == s.docker_resources@[i]@,
        i < s.native_resources@.len() ==> r@[s.docker_resources@.len() + i]@
            == s.native_resources@[i]@,
{
    let views = resource_views(r@);
    let n = s.docker_resources@.len() as int;
    assert(views == resource_views(s.docker_resources@) + resource_views(s.native_resources@));
    assert(views.len() == r@.len());
    if i < n {
        assert(views[i] == r@[i]@);
    }
    if i < s.native_resources@.len() {
        assert(views[n + i] == r@[n + i]@);
        assert(views[n + i] == resource_views(s.native_resources@)[i]);
    }
}

/// Every known runner, of either source, has a row in the table, and there is no other row.
pub proof fn every_known_runner_has_a_row(
    s: &AppState,
    warn_pct: u64,
    crit_pct: u64,
    r: Vec<RunnerRow>,
    i: int,
)
    requires
        call_ensures(AppState::rows, (s, warn_pct, crit_pct), r),
        0 <= i,
    ensures
        r@.len() == s.docker_resources@.len() + s.native_resources@.len(),
        i < s.docker_resources@.len() ==> row_views(r@).contains(
            keyed_row(s.docker_resources@[i]@, s.jobs@, s.history@, warn_pct, crit_pct),
        ),
        i < s.native_resources@.len() ==> row_views(r@).contains(
            keyed_row(s.native_resources@[i]@, s.jobs@, s.history@, warn_pct, crit_pct),
        ),
        in_order(row_views(r@), row_order()),
{
    let known = s@.docker_resources + s@.native_resources;
    let all = keyed_rows(known, s.jobs@, s.history@, warn_pct, crit_pct);
    lemma_row_order();
    sorting_orders_the_items(all, row_order());
    assert(row_views(r@).len() == r@.len());
    if i < s.docker_resources@.len() {
        assert(known[i] == s.docker_resources@[i]@);
        assert(all.contains(all[i]));
        sorting_finds_every_item(all, row_order(), all[i]);
    }
    if i < s.native_resources@.len() {
        let j = s.docker_resources@.len() + i;
        assert(known[j] == s.native_resources@[i]@);
        assert(all.contains(all[j]));
        sorting_finds_every_item(all, row_order(), all[j]);
    }
}

/// The banner holds the complaint about the containers, or else the one about the native
/// runners, or else the one about the jobs; there is none without a complaint.
pub proof fn the_banner_holds_a_complaint(s: &AppState, r: Option<String>)
    requires
        call_ensures(AppState::banner, (s,), r),
    ensures
        s.docker_err is Some ==> r is Some && r->0@ == s.docker_err->0@,
        s.docker_err is None && s.native_err is Some ==> r is Some && r->0@ == s.native_err->0@,
        s.docker_err is None && s.native_err is None && s.jobs_err is Some ==> r is Some && r->0@
            == s.jobs_err->0@,
        s.docker_err is None && s.native_err is None && s.jobs_err is None ==> r is None,
{
}

/// An event ends the program where a key or the end of the input asks for it, is taken into
/// the state, and silences a reporter exactly where it says that this reporter is gone.
pub proof fn events_are_handled(l: &mut AppLoop, event: Event, r: Step)
    requires
        call_ensures(AppLoop::handle, (l, event), r),
    ensures
        event is InputClosed ==> r is Quit,
        event matches Event::Key(key) ==> (r is Quit <==> key.press && (key.code is Esc || (
        key.code matches KeyCode::Char(c) && (c == 'q' || (c == 'c' && key.control))))),
        !(event is Key) && !(event is InputClosed) ==> r is Redraw,
        event is ResourcesClosed ==> !final(l).res_alive,
        event !is ResourcesClosed ==> final(l).res_alive == old(l).res_alive,
        event is JobsClosed ==> !final(l).jobs_alive,
        event !is JobsClosed ==> final(l).jobs_alive == old(l).jobs_alive,
        event is DeploymentsClosed ==> !final(l).deployments_alive,
        event !is DeploymentsClosed ==> final(l).deployments_alive == old(l).deployments_alive,
        event matches Event::Resources(update) ==> final(l).state@ == after_resources(
            old(l).state@,
            update,
        ),
        event matches Event::Jobs(update) ==> final(l).state@.jobs == update.jobs@
            && final(l).state@.hosted == hosted_views(update.hosted@) && final(l).state@.jobs_err
            == opt_text(update.error) && final(l).state@.docker_resources
            == old(l).state@.docker_resources && final(l).state@.deployments
            == old(l).state@.deployments,
        event matches Event::Deployments(update) ==> final(l).state@.deployments
            == deployment_views(update.deployments@) && final(l).state@.jobs == old(l).state@.jobs,
        !(event is Resources) && !(event is Jobs) && !(event is Deployments) ==> final(l).state@
            == old(l).state@,
{
}

/// Taking in a report changes the state as the report says.
pub proof fn reports_are_taken_in(
    s: &mut AppState,
    t: &mut AppState,
    u: &mut AppState,
    resources: ResourceUpdate,
    jobs: JobsUpdate,
    deployments: VercelUpdate,
)
    requires
        call_ensures(apply_resource_update, (s, resources), ()),
        call_ensures(apply_jobs_update, (t, jobs), ()),
        call_ensures(apply_vercel_update, (u, deployments), ()),
    ensures
        final(s)@ == after_event(old(s)@, Event::Resources(resources)),
        final(t)@ == after_event(old(t)@, Event::Jobs(jobs)),
        final(u)@ == after_event(old(u)@, Event::Deployments(deployments)),
{
}

/// The scopes to poll hold every configured repository, every repository that a rule names
/// and every scope that a native runner is registered for, each once; nothing else of the
/// settings changes.
pub proof fn scopes_are_filled_in(
    cfg: &mut Config,
    natives: &[NativeRunner],
    multi_repo: bool,
    x: Seq<char>,
)
    requires
        call_ensures(fill_scopes, (cfg, natives), multi_repo),
    ensures
        multi_repo <==> final(cfg).repos@.len() >= 2,
        texts(final(cfg).repos@).no_duplicates(),
        texts(final(cfg).orgs@).no_duplicates(),
        texts(final(cfg).repos@).contains(x) <==> (old(cfg)@.configured_repos.contains(x)
            || mapped_repos(old(cfg)@.prefixes).contains(x) || repo_scopes(
            native_views(natives@),
        ).contains(x)),
        texts(final(cfg).orgs@).contains(x) <==> org_scopes(native_views(natives@)).contains(x),
        final(cfg)@.configured_repos == old(cfg)@.configured_repos,
        final(cfg)@.prefixes == old(cfg)@.prefixes,
        final(cfg)@.warn_pct == old(cfg)@.warn_pct && final(cfg)@.crit_pct == old(cfg)@.crit_pct,
        final(cfg)@.socket_path == old(cfg)@.socket_path,
{
    let given = old(cfg)@.configured_repos + mapped_repos(old(cfg)@.prefixes);
    let native = repo_scopes(native_views(natives@));
    dedup_keeps_each_item_once(given);
    dedup_keeps_each_item_once(first_of_each(given) + native);
    dedup_keeps_each_item_once(org_scopes(native_views(natives@)));
    lemma_in_either(first_of_each(given), native, x);
    lemma_in_either(old(cfg)@.configured_repos, mapped_repos(old(cfg)@.prefixes), x);
}

proof fn lemma_in_either<T>(a: Seq<T>, b: Seq<T>, x: T)
    ensures
        (a + b).contains(x) <==> a.contains(x) || b.contains(x),
{
    if a.contains(x) {
        let i = choose|i: int| 0 <= i < a.len() && a[i] == x;
        assert((a + b)[i] == x);
    }
    if b.contains(x) {
        let i = choose|i: int| 0 <= i < b.len() && b[i] == x;
        assert((a + b)[a.len() + i] == x);
    }
}

/// The label of the rules is made of their prefixes alone, with a comma and a space between.
pub proof fn the_label_joins_the_prefixes(rules: &[PrefixRule], r: String)
    requires
        call_ensures(prefix_label, (rules,), r),
    ensures
        rules@.len() == 1 ==> r@ == rules@[0].prefix@,
        rules@.len() == 2 ==> r@ == rules@[0].prefix@ + ", "@ + rules@[1].prefix@,
        r@ == joined(Seq::new(rules@.len(), |i: int| rules@[i].prefix@), ", "@),
{
    let parts = Seq::new(rules@.len(), |i: int| rules@[i].prefix@);
    assert(prefixes_of(rule_views(rules@)) =~= parts);
    if rules@.len() == 1 {
        reveal_with_fuel(joined, 2);
    }
    if rules@.len() == 2 {
        reveal_with_fuel(joined, 3);
        assert(parts.drop_last() =~= seq![parts[0]]);
    }
}

} // verus!
