//! CI jobs: what the service reports, and how reports of several scopes are kept.

use crate::json::{json_of, parse, Json, JsonTree};
use crate::keyed::{
    keys_of, lemma_next_pair, lemma_spot, map_of, put, putting_inserts, spot, Keyed,
};
use crate::model::{
    clone_job, hosted_key, hosted_views, opt_job, sort_hosted, HostedJob, HostedStatus, HostedView,
    JobInfo, JobView, KeyView, RunnerKey, Timestamp,
};
use crate::ordering::{by_key, sorted_by, sorting_keeps_the_items, sorting_orders_the_keys};
use crate::text::{
    decimal, decimal_reads_back, decimal_text, join_texts, joined, opt_text, same_text, texts,
};
use vstd::prelude::*;

verus! {

/// What `humantime::parse_rfc3339` reads a text as, on a Linux machine whose pointers have
/// so many bits: there the crate has an earlier last year where they have 32.
pub uninterp spec fn rfc3339_of(text: Seq<char>, pointer_bits: int) -> Option<Timestamp>;

/// `humantime::parse_rfc3339`: the point in time, as seconds and nanoseconds since
/// 1970, or none where the text is refused.
#[verifier::external_body]
fn read_rfc3339(s: &str) -> (r: Option<Timestamp>)
    ensures
        r == rfc3339_of(s@, usize::BITS as int),
{
    let time = humantime::parse_rfc3339(s).ok()?;
    let since = time.duration_since(std::time::UNIX_EPOCH).ok()?;
    Some(Timestamp { secs: since.as_secs() as i64, nanos: since.subsec_nanos() })
}

/// The point in time that a text gives, or `now` where it gives none.
pub open spec fn time_of(text: Seq<char>, now: Timestamp) -> Timestamp {
    match rfc3339_of(text, usize::BITS as int) {
        Some(t) => t,
        None => now,
    }
}

/// The point in time that `s` gives, or `now` where it gives none.
pub fn parse_rfc3339(s: &str, now: Timestamp) -> (r: Timestamp)
    ensures
        r == time_of(s@, now),
{
    match read_rfc3339(s) {
        Some(t) => t,
        None => now,
    }
}

/// The time in the field `key`, or `now` where it holds none.
pub open spec fn time_at(t: JsonTree, key: Seq<char>, now: Timestamp) -> Timestamp {
    match t.string_at(key) {
        Some(s) => time_of(s, now),
        None => now,
    }
}

fn time_in(j: &Json, key: &str, now: Timestamp) -> (r: Timestamp)
    ensures
        r == time_at(j@, key@, now),
{
    match j.text_at(key) {
        Some(s) => parse_rfc3339(s.as_str(), now),
        None => now,
    }
}

/// A text, or an empty one.
pub open spec fn or_empty(o: Option<Seq<char>>) -> Seq<char> {
    match o {
        Some(s) => s,
        None => Seq::empty(),
    }
}

fn text_or_empty(j: &Json, key: &str) -> (r: String)
    ensures
        r@ == or_empty(j@.string_at(key@)),
{
    match j.text_at(key) {
        Some(s) => s.clone(),
        None => String::new(),
    }
}

/// A workflow run: its number, its workflow and the branch that it was started for.
pub struct RunView {
    pub id: u64,
    pub name: Seq<char>,
    pub branch: Seq<char>,
}

/// The contents of a row of runs.
pub open spec fn run_views(runs: Seq<(u64, String, String)>) -> Seq<RunView> {
    runs.map_values(|r: (u64, String, String)| RunView { id: r.0, name: r.1@, branch: r.2@ })
}

/// The run that an entry describes: it has to have a number, and a missing name or
/// branch counts as empty.
pub open spec fn run_of(t: JsonTree) -> Option<RunView> {
    match t.field("id"@) {
        Some(JsonTree::Number(Some(id))) => Some(
            RunView {
                id,
                name: or_empty(t.string_at("name"@)),
                branch: or_empty(t.string_at("head_branch"@)),
            },
        ),
        _ => None,
    }
}

/// The runs that a list of entries describes.
pub open spec fn runs_of(items: Seq<JsonTree>) -> Seq<RunView>
    decreases items.len(),
{
    if items.len() == 0 {
        Seq::empty()
    } else {
        let front = runs_of(items.drop_last());
        match run_of(items.last()) {
            Some(run) => front.push(run),
            None => front,
        }
    }
}

/// The list in the field `key` of a document, and its content.
fn list_in<'a>(doc: &'a Json, key: &str) -> (r: Option<&'a Vec<Json>>)
    ensures
        match r {
            Some(v) => {
                &&& doc@.items_at(key@).len() == v@.len()
                &&& forall|i: int| 0 <= i < v@.len() ==> doc@.items_at(key@)[i] == (#[trigger] v@[i])@
            },
            None => doc@.items_at(key@).len() == 0,
        },
{
    match doc.get(key) {
        Some(Json::List(v)) => Some(v),
        _ => None,
    }
}

/// The workflow runs that a document lists.
pub fn runs_in(doc: &Json) -> (r: Vec<(u64, String, String)>)
    ensures
        run_views(r@) == runs_of(doc@.items_at("workflow_runs"@)),
{
    let ghost all = doc@.items_at("workflow_runs"@);
    let mut out: Vec<(u64, String, String)> = Vec::new();
    assert(run_views(out@) =~= runs_of(all.take(0)));
    if let Some(items) = list_in(doc, "workflow_runs") {
        let mut i: usize = 0;
        while i < items.len()
            invariant
                i <= items@.len(),
                all.len() == items@.len(),
                forall|k: int| 0 <= k < items@.len() ==> all[k] == (#[trigger] items@[k])@,
                run_views(out@) == runs_of(all.take(i as int)),
            decreases items@.len() - i,
        {
            let r = &items[i];
            let ghost before = run_views(out@);
            proof {
                assert(all.take(i + 1).drop_last() =~= all.take(i as int));
                assert(all.take(i + 1).last() == r@);
            }
            if let Some(Json::Number(Some(id))) = r.get("id") {
                let run = (*id, text_or_empty(r, "name"), text_or_empty(r, "head_branch"));
                out.push(run);
                assert(run_views(out@) =~= before.push(run_of(r@)->0));
            }
            i += 1;
        }
    }
    assert(all.take(all.len() as int) =~= all);
    out
}

/// The runs of a text: those that its document lists, none where it is no document.
pub open spec fn runs_of_text(text: Seq<char>) -> Seq<RunView> {
    match json_of(text) {
        Some(doc) => runs_of(doc.items_at("workflow_runs"@)),
        None => Seq::empty(),
    }
}

/// The workflow runs that a response lists: number, workflow and branch of each.
pub fn parse_runs(json: &str) -> (r: Vec<(u64, String, String)>)
    ensures
        run_views(r@) == runs_of_text(json@),
{
    match parse(json) {
        Some(doc) => runs_in(&doc),
        None => {
            let none: Vec<(u64, String, String)> = Vec::new();
            assert(run_views(none@) =~= Seq::empty());
            none
        },
    }
}

/// The content of a row of jobs with their runners' names.
pub open spec fn named_job_views(jobs: Seq<(String, JobInfo)>) -> Seq<(Seq<char>, JobView)> {
    jobs.map_values(|j: (String, JobInfo)| (j.0@, j.1@))
}

/// The job that an entry describes, with its runner's name: the job has to be in
/// progress, and both names have to be there.
pub open spec fn job_of(
    t: JsonTree,
    workflow: Seq<char>,
    branch: Seq<char>,
    now: Timestamp,
) -> Option<(Seq<char>, JobView)> {
    match (t.string_at("runner_name"@), t.string_at("name"@)) {
        (Some(runner), Some(job)) => if t.string_at("status"@) == Some("in_progress"@) {
            Some(
                (
                    runner,
                    JobView { workflow, job, branch, started_at: time_at(t, "started_at"@, now) },
                ),
            )
        } else {
            None
        },
        _ => None,
    }
}

/// The jobs that a list of entries describes.
pub open spec fn jobs_of(
    items: Seq<JsonTree>,
    workflow: Seq<char>,
    branch: Seq<char>,
    now: Timestamp,
) -> Seq<(Seq<char>, JobView)>
    decreases items.len(),
{
    if items.len() == 0 {
        Seq::empty()
    } else {
        let front = jobs_of(items.drop_last(), workflow, branch, now);
        match job_of(items.last(), workflow, branch, now) {
            Some(job) => front.push(job),
            None => front,
        }
    }
}

fn text_is(o: Option<&String>, s: &str) -> (r: bool)
    ensures
        r == (o matches Some(t) && t@ == s@),
{
    match o {
        Some(t) => same_text(t.as_str(), s),
        None => false,
    }
}

fn job_in(j: &Json, workflow: &str, branch: &str, now: Timestamp) -> (r: Option<(String, JobInfo)>)
    ensures
        match r {
            Some((name, job)) => job_of(j@, workflow@, branch@, now) == Some((name@, job@)),
            None => job_of(j@, workflow@, branch@, now) is None,
        },
{
    if !text_is(j.text_at("status"), "in_progress") {
        return None;
    }
    match (j.text_at("runner_name"), j.text_at("name")) {
        (Some(runner), Some(job)) => Some(
            (
                runner.clone(),
                JobInfo {
                    workflow: workflow.to_owned(),
                    job: job.clone(),
                    branch: branch.to_owned(),
                    started_at: time_in(j, "started_at", now),
                },
            ),
        ),
        _ => None,
    }
}

/// The jobs in progress that a document lists, with their runners' names.
pub fn jobs_in(doc: &Json, workflow: &str, branch: &str, now: Timestamp) -> (r: Vec<
    (String, JobInfo),
>)
    ensures
        named_job_views(r@) == jobs_of(doc@.items_at("jobs"@), workflow@, branch@, now),
{
    let ghost all = doc@.items_at("jobs"@);
    let mut out: Vec<(String, JobInfo)> = Vec::new();
    assert(named_job_views(out@) =~= jobs_of(all.take(0), workflow@, branch@, now));
    if let Some(items) = list_in(doc, "jobs") {
        let mut i: usize = 0;
        while i < items.len()
            invariant
                i <= items@.len(),
                all.len() == items@.len(),
                forall|k: int| 0 <= k < items@.len() ==> all[k] == (#[trigger] items@[k])@,
                named_job_views(out@) == jobs_of(all.take(i as int), workflow@, branch@, now),
            decreases items@.len() - i,
        {
            let j = &items[i];
            let ghost before = named_job_views(out@);
            proof {
                assert(all.take(i + 1).drop_last() =~= all.take(i as int));
                assert(all.take(i + 1).last() == j@);
            }
            if let Some(found) = job_in(j, workflow, branch, now) {
                let ghost view = (found.0@, found.1@);
                out.push(found);
                assert(named_job_views(out@) =~= before.push(view));
            }
            i += 1;
        }
    }
    assert(all.take(all.len() as int) =~= all);
    out
}

/// The jobs of a text: those that its document lists, none where it is no document.
pub open spec fn jobs_of_text(
    text: Seq<char>,
    workflow: Seq<char>,
    branch: Seq<char>,
    now: Timestamp,
) -> Seq<(Seq<char>, JobView)> {
    match json_of(text) {
        Some(doc) => jobs_of(doc.items_at("jobs"@), workflow, branch, now),
        None => Seq::empty(),
    }
}

/// The jobs in progress that a response lists, with their runners' names.
pub fn parse_jobs(workflow: &str, branch: &str, json: &str, now: Timestamp) -> (r: Vec<
    (String, JobInfo),
>)
    ensures
        named_job_views(r@) == jobs_of_text(json@, workflow@, branch@, now),
{
    match parse(json) {
        Some(doc) => jobs_in(&doc, workflow, branch, now),
        None => {
            let none: Vec<(String, JobInfo)> = Vec::new();
            assert(named_job_views(none@) =~= Seq::empty());
            none
        },
    }
}

/// Whether a job's labels mark it as self-hosted.
pub open spec fn self_hosted(labels: Seq<JsonTree>) -> bool {
    exists|i: int| 0 <= i < labels.len() && #[trigger] labels[i] == JsonTree::Text("self-hosted"@)
}

/// The label that a hosted job asked for first.
pub open spec fn first_label(labels: Seq<JsonTree>) -> Seq<char> {
    if labels.len() > 0 {
        match labels[0].string() {
            Some(s) => s,
            None => "hosted"@,
        }
    } else {
        "hosted"@
    }
}

/// The hosted job that an entry describes: it runs or waits, is not marked as
/// self-hosted, and has a name. Its time is when it started, or, while it waits, when
/// it was created.
pub open spec fn hosted_of(
    t: JsonTree,
    repo: Seq<char>,
    workflow: Seq<char>,
    branch: Seq<char>,
    now: Timestamp,
) -> Option<HostedView> {
    let running = t.string_at("status"@) == Some("in_progress"@);
    let waiting = t.string_at("status"@) == Some("queued"@);
    let labels = t.items_at("labels"@);
    match t.string_at("name"@) {
        Some(job) => if (running || waiting) && !self_hosted(labels) {
            Some(
                HostedView {
                    repo,
                    workflow,
                    job,
                    label: first_label(labels),
                    branch,
                    status: if running {
                        HostedStatus::InProgress
                    } else {
                        HostedStatus::Queued
                    },
                    since: if running {
                        time_at(t, "started_at"@, now)
                    } else {
                        time_at(t, "created_at"@, now)
                    },
                },
            )
        } else {
            None
        },
        None => None,
    }
}

/// The hosted jobs that a list of entries describes.
pub open spec fn hosted_jobs_of(
    items: Seq<JsonTree>,
    repo: Seq<char>,
    workflow: Seq<char>,
    branch: Seq<char>,
    now: Timestamp,
) -> Seq<HostedView>
    decreases items.len(),
{
    if items.len() == 0 {
        Seq::empty()
    } else {
        let front = hosted_jobs_of(items.drop_last(), repo, workflow, branch, now);
        match hosted_of(items.last(), repo, workflow, branch, now) {
            Some(job) => front.push(job),
            None => front,
        }
    }
}

/// Whether a job's labels mark it as self-hosted. Labels that are no list do not.
pub fn is_self_hosted(labels: &Json) -> (r: bool)
    ensures
        r == (labels@ matches JsonTree::List(items) && self_hosted(items)),
{
    match labels {
        Json::List(items) => {
            let ghost all = labels.tree()->List_0;
            let mut i: usize = 0;
            while i < items.len()
                invariant
                    i <= items@.len(),
                    all.len() == items@.len(),
                    forall|k: int| 0 <= k < items@.len() ==> all[k] == (#[trigger] items@[k])@,
                    forall|k: int|
                        0 <= k < i ==> #[trigger] all[k] != JsonTree::Text("self-hosted"@),
                    labels@ == JsonTree::List(all),
                decreases items@.len() - i,
            {
                if let Json::Text(s) = &items[i] {
                    if same_text(s.as_str(), "self-hosted") {
                        assert(all[i as int] == JsonTree::Text("self-hosted"@));
                        return true;
                    }
                }
                assert(all[i as int] == items@[i as int]@);
                i += 1;
            }
            false
        },
        _ => false,
    }
}

fn label_in(labels: Option<&Json>) -> (r: String)
    ensures
        r@ == first_label(
            match labels {
                Some(j) => match j@.items() {
                    Some(items) => items,
                    None => Seq::empty(),
                },
                None => Seq::empty(),
            },
        ),
{
    if let Some(j) = labels {
        if let Json::List(items) = j {
            assert(j.tree()->List_0.len() == items@.len());
            if items.len() > 0 {
                assert(j.tree()->List_0[0] == items@[0].tree());
                if let Json::Text(s) = &items[0] {
                    return s.clone();
                }
            }
        }
    }
    "hosted".to_owned()
}

fn hosted_in(j: &Json, repo: &str, workflow: &str, branch: &str, now: Timestamp) -> (r: Option<
    HostedJob,
>)
    ensures
        match r {
            Some(job) => hosted_of(j@, repo@, workflow@, branch@, now) == Some(job@),
            None => hosted_of(j@, repo@, workflow@, branch@, now) is None,
        },
{
    proof {
        reveal_strlit("in_progress");
        reveal_strlit("queued");
        assert("in_progress"@.len() != "queued"@.len());
    }
    let status = if text_is(j.text_at("status"), "in_progress") {
        HostedStatus::InProgress
    } else if text_is(j.text_at("status"), "queued") {
        HostedStatus::Queued
    } else {
        return None;
    };
    let labels = j.get("labels");
    if let Some(l) = labels {
        if is_self_hosted(l) {
            return None;
        }
    }
    match j.text_at("name") {
        Some(name) => Some(
            HostedJob {
                repo: repo.to_owned(),
                workflow: workflow.to_owned(),
                job: name.clone(),
                label: label_in(labels),
                branch: branch.to_owned(),
                status,
                since: match status {
                    HostedStatus::InProgress => time_in(j, "started_at", now),
                    HostedStatus::Queued => time_in(j, "created_at", now),
                },
            },
        ),
        None => None,
    }
}

/// The hosted jobs that a document lists.
pub fn hosted_jobs_in(
    doc: &Json,
    repo: &str,
    workflow: &str,
    branch: &str,
    now: Timestamp,
) -> (r: Vec<HostedJob>)
    ensures
        hosted_views(r@) == hosted_jobs_of(
            doc@.items_at("jobs"@),
            repo@,
            workflow@,
            branch@,
            now,
        ),
{
    let ghost all = doc@.items_at("jobs"@);
    let mut out: Vec<HostedJob> = Vec::new();
    assert(hosted_views(out@) =~= hosted_jobs_of(all.take(0), repo@, workflow@, branch@, now));
    if let Some(items) = list_in(doc, "jobs") {
        let mut i: usize = 0;
        while i < items.len()
            invariant
                i <= items@.len(),
                all.len() == items@.len(),
                forall|k: int| 0 <= k < items@.len() ==> all[k] == (#[trigger] items@[k])@,
                hosted_views(out@) == hosted_jobs_of(
                    all.take(i as int),
                    repo@,
                    workflow@,
                    branch@,
                    now,
                ),
            decreases items@.len() - i,
        {
            let j = &items[i];
            let ghost before = hosted_views(out@);
            proof {
                assert(all.take(i + 1).drop_last() =~= all.take(i as int));
                assert(all.take(i + 1).last() == j@);
            }
            if let Some(job) = hosted_in(j, repo, workflow, branch, now) {
                let ghost view = job@;
                out.push(job);
                assert(hosted_views(out@) =~= before.push(view));
            }
            i += 1;
        }
    }
    assert(all.take(all.len() as int) =~= all);
    out
}

/// The hosted jobs of a text: those that its document lists, none where it is no
/// document.
pub open spec fn hosted_jobs_of_text(
    text: Seq<char>,
    repo: Seq<char>,
    workflow: Seq<char>,
    branch: Seq<char>,
    now: Timestamp,
) -> Seq<HostedView> {
    match json_of(text) {
        Some(doc) => hosted_jobs_of(doc.items_at("jobs"@), repo, workflow, branch, now),
        None => Seq::empty(),
    }
}

/// The hosted jobs, running and waiting, that a response lists.
pub fn parse_hosted_jobs(
    repo: &str,
    workflow: &str,
    branch: &str,
    json: &str,
    now: Timestamp,
) -> (r: Vec<HostedJob>)
    ensures
        hosted_views(r@) == hosted_jobs_of_text(json@, repo@, workflow@, branch@, now),
{
    match parse(json) {
        Some(doc) => hosted_jobs_in(&doc, repo, workflow, branch, now),
        None => {
            let none: Vec<HostedJob> = Vec::new();
            assert(hosted_views(none@) =~= Seq::empty());
            none
        },
    }
}

/// The name of the runner that an entry describes, where it is busy and has one.
pub open spec fn busy_runner_of(t: JsonTree) -> Option<Seq<char>> {
    if t.field("busy"@) == Some(JsonTree::Bool(true)) {
        t.string_at("name"@)
    } else {
        None
    }
}

/// The names of the busy runners that a list of entries describes.
pub open spec fn busy_runners_of(items: Seq<JsonTree>) -> Seq<Seq<char>>
    decreases items.len(),
{
    if items.len() == 0 {
        Seq::empty()
    } else {
        let front = busy_runners_of(items.drop_last());
        match busy_runner_of(items.last()) {
            Some(name) => front.push(name),
            None => front,
        }
    }
}

/// The names of the busy runners that a document lists.
pub fn org_runners_in(doc: &Json) -> (r: Vec<String>)
    ensures
        texts(r@) == busy_runners_of(doc@.items_at("runners"@)),
{
    let ghost all = doc@.items_at("runners"@);
    let mut out: Vec<String> = Vec::new();
    assert(texts(out@) =~= busy_runners_of(all.take(0)));
    if let Some(items) = list_in(doc, "runners") {
        let mut i: usize = 0;
        while i < items.len()
            invariant
                i <= items@.len(),
                all.len() == items@.len(),
                forall|k: int| 0 <= k < items@.len() ==> all[k] == (#[trigger] items@[k])@,
                texts(out@) == busy_runners_of(all.take(i as int)),
            decreases items@.len() - i,
        {
            let r = &items[i];
            let ghost before = texts(out@);
            proof {
                assert(all.take(i + 1).drop_last() =~= all.take(i as int));
                assert(all.take(i + 1).last() == r@);
            }
            let busy = match r.get("busy") {
                Some(Json::Bool(b)) => *b,
                _ => false,
            };
            if busy {
                if let Some(name) = r.text_at("name") {
                    out.push(name.clone());
                    assert(texts(out@) =~= before.push(name@));
                }
            }
            i += 1;
        }
    }
    assert(all.take(all.len() as int) =~= all);
    out
}

/// The busy runners of a text: those that its document lists, none where it is no
/// document.
pub open spec fn busy_runners_of_text(text: Seq<char>) -> Seq<Seq<char>> {
    match json_of(text) {
        Some(doc) => busy_runners_of(doc.items_at("runners"@)),
        None => Seq::empty(),
    }
}

/// The names of the busy runners that a response lists.
pub fn parse_org_runners(json: &str) -> (r: Vec<String>)
    ensures
        texts(r@) == busy_runners_of_text(json@),
{
    match parse(json) {
        Some(doc) => org_runners_in(&doc),
        None => {
            let none: Vec<String> = Vec::new();
            assert(texts(none@) =~= Seq::empty());
            none
        },
    }
}

/// What a scope's runners are busy with: a runner whose key is there is busy, and the
/// entry holds the job where it is known.
pub type Slice = Keyed<RunnerKey, Option<JobInfo>>;

/// The content of a [`Slice`].
pub open spec fn slice_view(m: Map<KeyView, Option<JobInfo>>) -> Map<KeyView, Option<JobView>> {
    m.map_values(|j: Option<JobInfo>| opt_job(j))
}

/// What a poll of one scope found: busy runners and hosted jobs.
pub struct ScopeState {
    pub slice: Slice,
    pub hosted: Vec<HostedJob>,
}

/// The content of a [`ScopeState`].
#[verifier::ext_equal]
pub struct StateView {
    pub slice: Map<KeyView, Option<JobView>>,
    pub hosted: Seq<HostedView>,
}

impl View for ScopeState {
    type V = StateView;

    open spec fn view(&self) -> StateView {
        StateView { slice: slice_view(self.slice@), hosted: hosted_views(self.hosted@) }
    }
}

/// A scope of which nothing is known.
pub open spec fn empty_state() -> StateView {
    StateView { slice: Map::empty(), hosted: Seq::empty() }
}

impl Default for ScopeState {
    fn default() -> (r: Self)
        ensures
            r@ == empty_state(),
    {
        let r = ScopeState { slice: Keyed::new(), hosted: Vec::new() };
        assert(r@ =~= empty_state());
        r
    }
}

/// What the jobs poller reports: busy runners, hosted jobs, and a complaint.
pub struct JobsUpdate {
    pub jobs: Slice,
    pub hosted: Vec<HostedJob>,
    pub error: Option<String>,
}

/// How a poll of one scope ended.
pub enum ScopeOutcome {
    /// Fresh findings, in place of the earlier ones.
    Fresh(ScopeState),
    /// A repository could not be polled: the earlier findings stand, and the scope is
    /// named in the complaint.
    RepoErr,
    /// An organisation could not be polled: the earlier findings stand, without
    /// complaint.
    OrgSkip,
}

/// The scopes after one more outcome.
pub open spec fn with_outcome(
    known: Seq<(Seq<char>, ScopeState)>,
    result: (String, ScopeOutcome),
) -> Seq<(Seq<char>, ScopeState)> {
    match result.1 {
        ScopeOutcome::Fresh(state) => put(known, result.0@, state),
        _ => known,
    }
}

/// The scopes after a row of outcomes.
pub open spec fn with_outcomes(
    known: Seq<(Seq<char>, ScopeState)>,
    results: Seq<(String, ScopeOutcome)>,
) -> Seq<(Seq<char>, ScopeState)>
    decreases results.len(),
{
    if results.len() == 0 {
        known
    } else {
        with_outcome(with_outcomes(known, results.drop_last()), results.last())
    }
}

/// The repositories that could not be polled.
pub open spec fn failed_repos(results: Seq<(String, ScopeOutcome)>) -> Seq<Seq<char>>
    decreases results.len(),
{
    if results.len() == 0 {
        Seq::empty()
    } else {
        let front = failed_repos(results.drop_last());
        if results.last().1 is RepoErr {
            front.push(results.last().0@)
        } else {
            front
        }
    }
}

/// The complaint about a row of outcomes: it names the repositories that could not be
/// polled, and there is none where there are none.
pub open spec fn complaint(results: Seq<(String, ScopeOutcome)>) -> Option<Seq<char>> {
    let failed = failed_repos(results);
    if failed.len() > 0 {
        Some("gh: "@ + joined(failed, ", "@))
    } else {
        None
    }
}

/// Merges a row of outcomes into the scopes that are known, and complains about the
/// repositories that could not be polled.
pub fn merge_scopes(
    prev: Keyed<String, ScopeState>,
    results: Vec<(String, ScopeOutcome)>,
) -> (r: (Keyed<String, ScopeState>, Option<String>))
    ensures
        r.0.pairs() == with_outcomes(prev.pairs(), results@),
        opt_text(r.1) == complaint(results@),
{
    let ghost start = prev.pairs();
    let ghost all = results@;
    let mut known = prev;
    let mut failed: Vec<String> = Vec::new();
    assert(texts(failed@) =~= failed_repos(all.take(0)));
    for result in it: results
        invariant
            it.seq() == all,
            known.pairs() == with_outcomes(start, all.take(it.index())),
            texts(failed@) == failed_repos(all.take(it.index())),
    {
        let ghost before = texts(failed@);
        proof {
            assert(all.take(it.index() + 1).drop_last() =~= all.take(it.index()));
            assert(all.take(it.index() + 1).last() == result);
        }
        match result.1 {
            ScopeOutcome::Fresh(state) => {
                known.insert(result.0, state);
            },
            ScopeOutcome::RepoErr => {
                failed.push(result.0);
                assert(texts(failed@) =~= before.push(result.0@));
            },
            ScopeOutcome::OrgSkip => {},
        }
    }
    assert(all.take(all.len() as int) =~= all);
    assert(texts(failed@).len() == failed@.len());
    let err = if failed.len() == 0 {
        None
    } else {
        let names = join_texts(&failed, ", ");
        Some("gh: ".to_owned().concat(names.as_str()))
    };
    (known, err)
}

/// Whether a row of outcomes holds fresh findings for a scope.
pub open spec fn has_findings(results: Seq<(String, ScopeOutcome)>, scope: Seq<char>) -> bool {
    exists|i: int|
        0 <= i < results.len() && (#[trigger] results[i]).0@ == scope && results[i].1 is Fresh
}

/// Whether a row of outcomes holds a repository that could not be polled.
pub open spec fn has_failed_repo(results: Seq<(String, ScopeOutcome)>) -> bool {
    exists|i: int| 0 <= i < results.len() && (#[trigger] results[i]).1 is RepoErr
}

/// A scope without fresh findings keeps the ones that it had, whatever its poll ended
/// with.
pub proof fn failures_keep_earlier_findings(
    known: Seq<(Seq<char>, ScopeState)>,
    results: Seq<(String, ScopeOutcome)>,
    scope: Seq<char>,
)
    requires
        !has_findings(results, scope),
    ensures
        map_of(with_outcomes(known, results)).dom().contains(scope) == map_of(
            known,
        ).dom().contains(scope),
        map_of(known).dom().contains(scope) ==> map_of(with_outcomes(known, results))[scope]
            == map_of(known)[scope],
    decreases results.len(),
{
    if results.len() > 0 {
        let front = results.drop_last();
        assert(!has_findings(front, scope)) by {
            if has_findings(front, scope) {
                let i = choose|i: int|
                    0 <= i < front.len() && (#[trigger] front[i]).0@ == scope && front[i].1 is Fresh;
                assert(results[i].1 is Fresh);
            }
        }
        failures_keep_earlier_findings(known, front, scope);
        let last = results.last();
        assert(results[results.len() - 1] == last);
        if let ScopeOutcome::Fresh(state) = last.1 {
            putting_inserts(with_outcomes(known, front), last.0@, state);
        }
    }
}

/// Fresh findings replace the earlier ones: the last ones of a scope are what is known
/// of it.
pub proof fn findings_replace_earlier_ones(
    known: Seq<(Seq<char>, ScopeState)>,
    results: Seq<(String, ScopeOutcome)>,
    at: int,
)
    requires
        0 <= at < results.len(),
        results[at].1 is Fresh,
        !has_findings(results.skip(at + 1), results[at].0@),
    ensures
        map_of(with_outcomes(known, results)).dom().contains(results[at].0@),
        map_of(with_outcomes(known, results))[results[at].0@] == results[at].1->Fresh_0,
    decreases results.len(),
{
    let scope = results[at].0@;
    let front = results.drop_last();
    let last = results.last();
    if at == results.len() - 1 {
        putting_inserts(with_outcomes(known, front), scope, last.1->Fresh_0);
    } else {
        let rest = results.skip(at + 1);
        assert(rest[rest.len() - 1] == last);
        assert(!has_findings(front.skip(at + 1), scope)) by {
            let short = front.skip(at + 1);
            if has_findings(short, scope) {
                let i = choose|i: int|
                    0 <= i < short.len() && (#[trigger] short[i]).0@ == scope && short[i].1 is Fresh;
                assert(rest[i] == short[i]);
            }
        }
        findings_replace_earlier_ones(known, front, at);
        if let ScopeOutcome::Fresh(state) = last.1 {
            putting_inserts(with_outcomes(known, front), last.0@, state);
        }
    }
}

/// There is a complaint exactly when a repository could not be polled: an organisation
/// never causes one.
pub proof fn only_repositories_cause_a_complaint(results: Seq<(String, ScopeOutcome)>)
    ensures
        complaint(results) is Some <==> has_failed_repo(results),
    decreases results.len(),
{
    if results.len() > 0 {
        let front = results.drop_last();
        only_repositories_cause_a_complaint(front);
        if has_failed_repo(front) {
            let i = choose|i: int| 0 <= i < front.len() && (#[trigger] front[i]).1 is RepoErr;
            assert(results[i].1 is RepoErr);
        }
        if has_failed_repo(results) {
            let i = choose|i: int| 0 <= i < results.len() && (#[trigger] results[i]).1 is RepoErr;
            if i < front.len() {
                assert(front[i].1 is RepoErr);
            }
        }
        if results.last().1 is RepoErr {
            assert(results[results.len() - 1].1 is RepoErr);
        }
    }
}

/// The busy runners of all scopes; where two scopes share a key the later one counts.
pub open spec fn all_busy(known: Seq<(Seq<char>, ScopeState)>) -> Map<KeyView, Option<JobView>>
    decreases known.len(),
{
    if known.len() == 0 {
        Map::empty()
    } else {
        all_busy(known.drop_last()).union_prefer_right(slice_view(known.last().1.slice@))
    }
}

/// The hosted jobs of all scopes.
pub open spec fn all_hosted(known: Seq<(Seq<char>, ScopeState)>) -> Seq<HostedView>
    decreases known.len(),
{
    if known.len() == 0 {
        Seq::empty()
    } else {
        all_hosted(known.drop_last()) + hosted_views(known.last().1.hosted@)
    }
}

fn add_slice(out: &mut Slice, more: &Slice)
    ensures
        slice_view(final(out)@) == slice_view(old(out)@).union_prefer_right(slice_view(more@)),
{
    let ghost start = slice_view(out@);
    let ghost pairs = more.pairs();
    let n = more.len();
    let mut i: usize = 0;
    assert(slice_view(map_of(pairs.take(0))) =~= Map::empty());
    assert(slice_view(out@) =~= start.union_prefer_right(slice_view(map_of(pairs.take(0)))));
    while i < n
        invariant
            i <= n,
            n == more.pairs().len(),
            pairs == more.pairs(),
            keys_of(pairs).no_duplicates(),
            slice_view(out@) == start.union_prefer_right(slice_view(map_of(pairs.take(i as int)))),
        decreases n - i,
    {
        let e = more.entry(i);
        let ghost k = e.0@;
        let ghost before = slice_view(out@);
        let ghost part = pairs.take(i as int);
        out.insert(e.0.clone(), clone_job(e.1));
        proof {
            lemma_next_pair(pairs, i as int);
            putting_inserts(part, pairs[i as int].0, pairs[i as int].1);
            assert(slice_view(map_of(pairs.take(i + 1))) =~= slice_view(map_of(part)).insert(
                k,
                opt_job(pairs[i as int].1),
            ));
            assert(slice_view(out@) =~= before.insert(k, opt_job(pairs[i as int].1)));
            assert(slice_view(out@) =~= start.union_prefer_right(
                slice_view(map_of(pairs.take(i + 1))),
            ));
        }
        i += 1;
    }
    assert(pairs.take(n as int) =~= pairs);
}

/// The busy runners and the hosted jobs of all scopes.
pub fn flatten(per_scope: &Keyed<String, ScopeState>) -> (r: (Slice, Vec<HostedJob>))
    ensures
        slice_view(r.0@) == all_busy(per_scope.pairs()),
        hosted_views(r.1@) == all_hosted(per_scope.pairs()),
{
    let ghost pairs = per_scope.pairs();
    let mut slice: Slice = Keyed::new();
    let mut hosted: Vec<HostedJob> = Vec::new();
    let n = per_scope.len();
    let mut i: usize = 0;
    assert(slice_view(slice@) =~= all_busy(pairs.take(0)));
    assert(hosted_views(hosted@) =~= all_hosted(pairs.take(0)));
    while i < n
        invariant
            i <= n,
            n == per_scope.pairs().len(),
            pairs == per_scope.pairs(),
            slice_view(slice@) == all_busy(pairs.take(i as int)),
            hosted_views(hosted@) == all_hosted(pairs.take(i as int)),
        decreases n - i,
    {
        let state = per_scope.entry(i).1;
        proof {
            assert(pairs.take(i + 1).drop_last() =~= pairs.take(i as int));
            assert(pairs.take(i + 1).last() == pairs[i as int]);
        }
        add_slice(&mut slice, &state.slice);
        add_hosted(&mut hosted, &state.hosted);
        i += 1;
    }
    assert(pairs.take(pairs.len() as int) =~= pairs);
    (slice, hosted)
}

fn add_hosted(out: &mut Vec<HostedJob>, more: &Vec<HostedJob>)
    ensures
        hosted_views(final(out)@) == hosted_views(old(out)@) + hosted_views(more@),
{
    let ghost start = hosted_views(out@);
    let ghost added = hosted_views(more@);
    let mut i: usize = 0;
    assert(hosted_views(out@) =~= start + added.take(0));
    while i < more.len()
        invariant
            i <= more@.len(),
            added == hosted_views(more@),
            hosted_views(out@) == start + added.take(i as int),
        decreases more@.len() - i,
    {
        let ghost before = hosted_views(out@);
        out.push(more[i].clone());
        proof {
            assert(hosted_views(out@) =~= before.push(added[i as int]));
            assert(start + added.take(i + 1) =~= before.push(added[i as int]));
        }
        i += 1;
    }
    assert(added.take(added.len() as int) =~= added);
}

/// Whether every key and every hosted job of a state belongs to `scope`.
pub open spec fn within_scope(state: StateView, scope: Seq<char>) -> bool {
    &&& forall|k: KeyView| #[trigger] state.slice.dom().contains(k) ==> k.scope == scope
    &&& forall|i: int| 0 <= i < state.hosted.len() ==> (#[trigger] state.hosted[i]).repo == scope
}

/// Whether every scope's state belongs to it, and no scope occurs twice.
pub open spec fn scopes_apart(known: Seq<(Seq<char>, ScopeState)>) -> bool {
    &&& keys_of(known).no_duplicates()
    &&& forall|i: int|
        0 <= i < known.len() ==> within_scope((#[trigger] known[i]).1@, known[i].0)
}

/// Scopes do not hide one another: whatever one of them knows of a runner is known of
/// it after the scopes are put together.
pub proof fn scopes_do_not_collide(known: Seq<(Seq<char>, ScopeState)>, i: int, k: KeyView)
    requires
        scopes_apart(known),
        0 <= i < known.len(),
        slice_view(known[i].1.slice@).dom().contains(k),
    ensures
        all_busy(known).dom().contains(k),
        all_busy(known)[k] == slice_view(known[i].1.slice@)[k],
    decreases known.len(),
{
    let last = known.last();
    let front = known.drop_last();
    assert(within_scope(known[i].1@, known[i].0));
    assert(known[i].1@.slice.dom().contains(k));
    if i < front.len() {
        assert(scopes_apart(front)) by {
            assert(keys_of(front) =~= keys_of(known).drop_last());
            assert forall|j: int| 0 <= j < front.len() implies within_scope(
                (#[trigger] front[j]).1@,
                front[j].0,
            ) by {
                assert(front[j] == known[j]);
            }
        }
        assert(front[i] == known[i]);
        scopes_do_not_collide(front, i, k);
        assert(known[known.len() - 1] == last);
        assert(within_scope(last.1@, last.0));
        assert(keys_of(known)[i] == known[i].0);
        assert(keys_of(known)[known.len() - 1] == last.0);
        if last.1@.slice.dom().contains(k) {
            assert(false);
        }
    }
}

/// Whether every fresh finding in a row of outcomes belongs to its scope.
pub open spec fn findings_in_scope(results: Seq<(String, ScopeOutcome)>) -> bool {
    forall|i: int|
        0 <= i < results.len() ==> ((#[trigger] results[i]).1 matches ScopeOutcome::Fresh(state)
            ==> within_scope(state@, results[i].0@))
}

/// Merging keeps the scopes apart: findings that belong to their scopes never come under
/// another one, and no scope comes to occur twice.
pub proof fn merging_keeps_scopes_apart(
    known: Seq<(Seq<char>, ScopeState)>,
    results: Seq<(String, ScopeOutcome)>,
)
    requires
        scopes_apart(known),
        findings_in_scope(results),
    ensures
        scopes_apart(with_outcomes(known, results)),
    decreases results.len(),
{
    if results.len() > 0 {
        let front = results.drop_last();
        let last = results.last();
        assert(findings_in_scope(front)) by {
            assert forall|i: int| 0 <= i < front.len() implies ((
            #[trigger] front[i]).1 matches ScopeOutcome::Fresh(state) ==> within_scope(
                state@,
                front[i].0@,
            )) by {
                assert(front[i] == results[i]);
            }
        }
        merging_keeps_scopes_apart(known, front);
        let before = with_outcomes(known, front);
        assert(results[results.len() - 1] == last);
        if let ScopeOutcome::Fresh(state) = last.1 {
            let after = put(before, last.0@, state);
            putting_inserts(before, last.0@, state);
            lemma_spot(keys_of(before), last.0@);
            assert forall|i: int| 0 <= i < after.len() implies within_scope(
                (#[trigger] after[i]).1@,
                after[i].0,
            ) by {
                if i < before.len() && i != spot(keys_of(before), last.0@) {
                    assert(after[i] == before[i]);
                }
            }
        }
    }
}

/// The state that a list of busy runner names gives an organisation.
pub open spec fn org_busy(org: Seq<char>, names: Seq<Seq<char>>) -> Map<KeyView, Option<JobView>>
    decreases names.len(),
{
    if names.len() == 0 {
        Map::empty()
    } else {
        org_busy(org, names.drop_last()).insert(KeyView { scope: org, name: names.last() }, None)
    }
}

/// The path of the service's list of an organisation's runners.
pub fn org_path(org: &str) -> (r: String)
    ensures
        r@ == "orgs/"@ + org@ + "/actions/runners"@,
{
    let mut out = "orgs/".to_owned();
    out.append(org);
    out.append("/actions/runners");
    out
}

/// What a list of an organisation's runners tells: the busy ones, without their jobs.
pub fn org_state(org: &str, json: &str) -> (r: ScopeState)
    ensures
        r@ == (StateView {
            slice: org_busy(org@, busy_runners_of_text(json@)),
            hosted: Seq::empty(),
        }),
        within_scope(r@, org@),
{
    let names = parse_org_runners(json);
    let ghost all = texts(names@);
    let mut slice: Slice = Keyed::new();
    let mut i: usize = 0;
    assert(slice_view(slice@) =~= org_busy(org@, all.take(0)));
    while i < names.len()
        invariant
            i <= names@.len(),
            all == texts(names@),
            slice_view(slice@) == org_busy(org@, all.take(i as int)),
            forall|k: KeyView| #[trigger] slice_view(slice@).dom().contains(k) ==> k.scope == org@,
        decreases names@.len() - i,
    {
        let ghost before = slice_view(slice@);
        let key = RunnerKey { scope: org.to_owned(), name: names[i].clone() };
        let ghost k = key@;
        slice.insert(key, None);
        proof {
            assert(all.take(i + 1).drop_last() =~= all.take(i as int));
            assert(all.take(i + 1).last() == names@[i as int]@);
            assert(slice_view(slice@) =~= before.insert(k, None));
        }
        i += 1;
    }
    assert(all.take(all.len() as int) =~= all);
    let r = ScopeState { slice, hosted: Vec::new() };
    assert(r@.hosted =~= Seq::empty());
    r
}

/// Busy runners after a row of a repository's jobs.
pub open spec fn with_named_jobs(
    m: Map<KeyView, Option<JobView>>,
    repo: Seq<char>,
    jobs: Seq<(Seq<char>, JobView)>,
) -> Map<KeyView, Option<JobView>>
    decreases jobs.len(),
{
    if jobs.len() == 0 {
        m
    } else {
        with_named_jobs(m, repo, jobs.drop_last()).insert(
            KeyView { scope: repo, name: jobs.last().0 },
            Some(jobs.last().1),
        )
    }
}

/// A repository's state after the jobs of one run.
pub open spec fn with_run(
    found: StateView,
    repo: Seq<char>,
    run: RunView,
    body: Seq<char>,
    now: Timestamp,
) -> StateView {
    StateView {
        slice: with_named_jobs(
            found.slice,
            repo,
            jobs_of_text(body, run.name, run.branch, now),
        ),
        hosted: found.hosted + hosted_jobs_of_text(body, repo, run.name, run.branch, now),
    }
}

/// How far the poll of a repository has come.
#[verifier::ext_equal]
pub struct PollView {
    pub repo: Seq<char>,
    /// How many of the two lists of runs have been read.
    pub asked: int,
    /// The runs whose jobs have not been read.
    pub pending: Seq<RunView>,
    /// The numbers of the runs whose jobs have been read.
    pub read: Set<u64>,
    pub found: StateView,
}

/// The path of the service's list of a repository's runs with a status.
pub open spec fn runs_path(repo: Seq<char>, status: Seq<char>) -> Seq<char> {
    "repos/"@ + repo + "/actions/runs?status="@ + status
}

/// The path of the service's list of a run's jobs.
pub open spec fn jobs_path(repo: Seq<char>, id: u64) -> Seq<char> {
    "repos/"@ + repo + "/actions/runs/"@ + decimal(id as nat) + "/jobs"@
}

/// A poll that has not asked for anything yet.
pub open spec fn poll_start(repo: Seq<char>) -> PollView {
    PollView { repo, asked: 0, pending: Seq::empty(), read: Set::empty(), found: empty_state() }
}

/// The numbers of runs.
pub open spec fn ids_of(runs: Seq<RunView>) -> Seq<u64> {
    runs.map_values(|r: RunView| r.id)
}

/// The runs that are still to be read: those whose number is not among `read` and does not
/// stand earlier in the list.
pub open spec fn unread(runs: Seq<RunView>, read: Set<u64>) -> Seq<RunView>
    decreases runs.len(),
{
    if runs.len() == 0 {
        runs
    } else {
        let front = unread(runs.drop_last(), read);
        if read.contains(runs.last().id) || ids_of(front).contains(runs.last().id) {
            front
        } else {
            front.push(runs.last())
        }
    }
}

/// Whether no run is pending twice, and none that has been read is pending.
pub open spec fn runs_apart(p: PollView) -> bool {
    &&& ids_of(p.pending).no_duplicates()
    &&& forall|i: int|
        0 <= i < p.pending.len() ==> !p.read.contains((#[trigger] p.pending[i]).id)
}

/// What a poll asks for next: the jobs of the runs that it knows of, then the next list
/// of runs, and nothing once both lists have been read.
pub open spec fn next_path(p: PollView) -> Option<Seq<char>> {
    if p.pending.len() > 0 {
        Some(jobs_path(p.repo, p.pending[0].id))
    } else if p.asked == 0 {
        Some(runs_path(p.repo, "in_progress"@))
    } else if p.asked == 1 {
        Some(runs_path(p.repo, "queued"@))
    } else {
        None
    }
}

/// The poll after the answer to what it asked for. A run that both lists name, or one of
/// them twice, is read once.
pub open spec fn fed(p: PollView, body: Seq<char>, now: Timestamp) -> PollView {
    if p.pending.len() > 0 {
        PollView {
            pending: p.pending.skip(1),
            read: p.read.insert(p.pending[0].id),
            found: with_run(p.found, p.repo, p.pending[0], body, now),
            ..p
        }
    } else if p.asked < 2 {
        PollView { asked: p.asked + 1, pending: unread(runs_of_text(body), p.read), ..p }
    } else {
        p
    }
}

/// A poll of a repository: it says what to ask the service for, and takes the answers.
pub struct RepoPoll {
    repo: String,
    asked: usize,
    runs: Vec<(u64, String, String)>,
    at: usize,
    read: Vec<u64>,
    found: ScopeState,
}

impl View for RepoPoll {
    type V = PollView;

    closed spec fn view(&self) -> PollView {
        PollView {
            repo: self.repo@,
            asked: self.asked as int,
            pending: run_views(self.runs@).skip(self.at as int),
            read: self.read@.to_set(),
            found: self.found@,
        }
    }
}

fn path_of_runs(repo: &str, status: &str) -> (r: String)
    ensures
        r@ == runs_path(repo@, status@),
{
    let mut out = "repos/".to_owned();
    out.append(repo);
    out.append("/actions/runs?status=");
    out.append(status);
    out
}

fn path_of_jobs(repo: &str, id: u64) -> (r: String)
    ensures
        r@ == jobs_path(repo@, id),
{
    let mut out = "repos/".to_owned();
    out.append(repo);
    out.append("/actions/runs/");
    let digits = decimal_text(id);
    out.append(digits.as_str());
    out.append("/jobs");
    out
}

fn add_jobs(slice: &mut Slice, repo: &str, jobs: Vec<(String, JobInfo)>)
    ensures
        slice_view(final(slice)@) == with_named_jobs(
            slice_view(old(slice)@),
            repo@,
            named_job_views(jobs@),
        ),
{
    let ghost start = slice_view(slice@);
    let ghost all = named_job_views(jobs@);
    assert(all.take(0) =~= Seq::empty());
    for entry in it: jobs
        invariant
            all == named_job_views(it.seq()),
            slice_view(slice@) == with_named_jobs(start, repo@, all.take(it.index())),
    {
        let ghost before = slice_view(slice@);
        let ghost job = entry.1@;
        let key = RunnerKey { scope: repo.to_owned(), name: entry.0 };
        let ghost k = key@;
        proof {
            assert(all[it.index()] == (entry.0@, entry.1@));
            assert(all.take(it.index() + 1).drop_last() =~= all.take(it.index()));
            assert(all.take(it.index() + 1).last() == all[it.index()]);
        }
        slice.insert(key, Some(entry.1));
        assert(slice_view(slice@) =~= before.insert(k, Some(job)));
    }
    assert(all.take(all.len() as int) =~= all);
}

fn holds_id(ids: &Vec<u64>, id: u64) -> (r: bool)
    ensures
        r == ids@.contains(id),
{
    let mut i: usize = 0;
    while i < ids.len()
        invariant
            i <= ids@.len(),
            forall|j: int| 0 <= j < i ==> ids@[j] != id,
        decreases ids@.len() - i,
    {
        if ids[i] == id {
            return true;
        }
        i += 1;
    }
    false
}

fn drop_read_runs(runs: Vec<(u64, String, String)>, read: &Vec<u64>) -> (r: Vec<
    (u64, String, String),
>)
    ensures
        run_views(r@) == unread(run_views(runs@), read@.to_set()),
{
    let ghost all = run_views(runs@);
    let mut out: Vec<(u64, String, String)> = Vec::new();
    let mut ids: Vec<u64> = Vec::new();
    assert(run_views(out@) =~= unread(all.take(0), read@.to_set()));
    for run in it: runs
        invariant
            all == run_views(it.seq()),
            ids@ == ids_of(run_views(out@)),
            run_views(out@) == unread(all.take(it.index()), read@.to_set()),
    {
        let ghost before = run_views(out@);
        let ghost view = RunView { id: run.0, name: run.1@, branch: run.2@ };
        proof {
            assert(all[it.index()] == view);
            assert(all.take(it.index() + 1).drop_last() =~= all.take(it.index()));
            assert(all.take(it.index() + 1).last() == view);
        }
        if !holds_id(read, run.0) && !holds_id(&ids, run.0) {
            ids.push(run.0);
            out.push(run);
            assert(run_views(out@) =~= before.push(view));
            assert(ids@ =~= ids_of(run_views(out@)));
        }
    }
    assert(all.take(all.len() as int) =~= all);
    out
}

proof fn lemma_unread_apart(runs: Seq<RunView>, read: Set<u64>)
    ensures
        ids_of(unread(runs, read)).no_duplicates(),
        forall|i: int|
            0 <= i < unread(runs, read).len() ==> !read.contains(
                (#[trigger] unread(runs, read)[i]).id,
            ),
    decreases runs.len(),
{
    if runs.len() > 0 {
        let front = unread(runs.drop_last(), read);
        lemma_unread_apart(runs.drop_last(), read);
        if !read.contains(runs.last().id) && !ids_of(front).contains(runs.last().id) {
            let id = runs.last().id;
            let ids = ids_of(unread(runs, read));
            assert(ids =~= ids_of(front).push(id));
            assert forall|i: int, j: int|
                0 <= i < ids.len() && 0 <= j < ids.len() && i != j implies ids[i] != ids[j] by {
                if i == front.len() {
                    assert(ids_of(front)[j] != id);
                } else if j == front.len() {
                    assert(ids_of(front)[i] != id);
                }
            }
        }
    }
}

/// A poll never reads a run twice: no run is pending twice or after it has been read, and
/// that stays so whatever the service answers.
pub proof fn a_poll_never_reads_a_run_twice(
    repo: Seq<char>,
    p: PollView,
    body: Seq<char>,
    now: Timestamp,
)
    requires
        runs_apart(p),
    ensures
        runs_apart(poll_start(repo)),
        runs_apart(fed(p, body, now)),
        p.pending.len() > 0 ==> !p.read.contains(p.pending[0].id) && fed(p, body, now).read
            == p.read.insert(p.pending[0].id),
        p.pending.len() == 0 ==> fed(p, body, now).read == p.read,
{
    if p.pending.len() > 0 {
        let rest = p.pending.skip(1);
        assert(ids_of(rest) =~= ids_of(p.pending).skip(1));
        assert forall|i: int| 0 <= i < rest.len() implies !fed(p, body, now).read.contains(
            (#[trigger] rest[i]).id,
        ) by {
            assert(rest[i] == p.pending[i + 1]);
            assert(ids_of(p.pending)[i + 1] != ids_of(p.pending)[0]);
        }
    } else if p.asked < 2 {
        lemma_unread_apart(runs_of_text(body), p.read);
    }
}

impl RepoPoll {
    #[verifier::type_invariant]
    spec fn consistent(&self) -> bool {
        &&& self.asked <= 2
        &&& self.at <= self.runs@.len()
        &&& runs_apart(self@)
        &&& within_scope(self.found@, self.repo@)
    }

    /// A poll of `repo`.
    pub fn new(repo: &str) -> (r: RepoPoll)
        ensures
            r@ == poll_start(repo@),
    {
        let r = RepoPoll {
            repo: repo.to_owned(),
            asked: 0,
            runs: Vec::new(),
            at: 0,
            read: Vec::new(),
            found: ScopeState::default(),
        };
        proof {
            assert(r@.pending =~= Seq::empty());
            assert(r@.read =~= Set::empty());
            assert(r@ =~= poll_start(repo@));
        }
        r
    }

    /// What the poll asks for next; nothing once it is complete. It never asks for the jobs
    /// of a run whose jobs it has read.
    pub fn wanted(&self) -> (r: Option<String>)
        ensures
            opt_text(r) == next_path(self@),
            runs_apart(self@),
    {
        proof {
            use_type_invariant(self);
        }
        if self.at < self.runs.len() {
            assert(self@.pending[0] == run_views(self.runs@)[self.at as int]);
            Some(path_of_jobs(self.repo.as_str(), self.runs[self.at].0))
        } else if self.asked == 0 {
            Some(path_of_runs(self.repo.as_str(), "in_progress"))
        } else if self.asked == 1 {
            Some(path_of_runs(self.repo.as_str(), "queued"))
        } else {
            None
        }
    }

    /// The poll after the answer to what it asked for.
    pub fn feed(self, body: &str, now: Timestamp) -> (r: RepoPoll)
        ensures
            r@ == fed(self@, body@, now),
    {
        proof {
            use_type_invariant(&self);
        }
        let ghost before = self@;
        proof {
            a_poll_never_reads_a_run_twice(before.repo, before, body@, now);
        }
        if self.at < self.runs.len() {
            let run = &self.runs[self.at];
            let id: u64 = run.0;
            let jobs = parse_jobs(run.1.as_str(), run.2.as_str(), body, now);
            let hosted = parse_hosted_jobs(
                self.repo.as_str(),
                run.1.as_str(),
                run.2.as_str(),
                body,
                now,
            );
            proof {
                assert(before.pending[0] == run_views(self.runs@)[self.at as int]);
                lemma_run_stays_in_scope(before.found, before.repo, before.pending[0], body@, now);
            }
            let mut found = self.found;
            add_jobs(&mut found.slice, self.repo.as_str(), jobs);
            add_hosted(&mut found.hosted, &hosted);
            assert(found@ =~= with_run(before.found, before.repo, before.pending[0], body@, now));
            let mut read = self.read;
            read.push(id);
            proof {
                assert(read@.to_set() =~= before.read.insert(id)) by {
                    assert forall|x: u64| read@.contains(x) == (self.read@.contains(x) || x
                        == id) by {
                        assert(read@ == self.read@.push(id));
                        if self.read@.contains(x) {
                            let k = choose|k: int|
                                0 <= k < self.read@.len() && self.read@[k] == x;
                            assert(read@[k] == x);
                        }
                        if x == id {
                            assert(read@[self.read@.len() as int] == x);
                        }
                    }
                }
                assert(run_views(self.runs@).skip(self.at + 1) =~= before.pending.skip(1));
            }
            let r = RepoPoll {
                repo: self.repo,
                asked: self.asked,
                runs: self.runs,
                at: self.at + 1,
                read,
                found,
            };
            assert(r@ =~= fed(before, body@, now));
            r
        } else if self.asked < 2 {
            let listed = parse_runs(body);
            let runs = drop_read_runs(listed, &self.read);
            assert(run_views(runs@).skip(0) =~= run_views(runs@));
            let r = RepoPoll {
                repo: self.repo,
                asked: self.asked + 1,
                runs,
                at: 0,
                read: self.read,
                found: self.found,
            };
            assert(r@ =~= fed(before, body@, now));
            r
        } else {
            self
        }
    }

    /// What the poll has found. All of it belongs to the repository.
    pub fn finish(self) -> (r: ScopeState)
        ensures
            r@ == self@.found,
            within_scope(r@, self@.repo),
    {
        proof {
            use_type_invariant(&self);
        }
        self.found
    }
}

proof fn lemma_named_jobs_in_scope(
    m: Map<KeyView, Option<JobView>>,
    repo: Seq<char>,
    jobs: Seq<(Seq<char>, JobView)>,
)
    requires
        forall|k: KeyView| #[trigger] m.dom().contains(k) ==> k.scope == repo,
    ensures
        forall|k: KeyView| #[trigger]
            with_named_jobs(m, repo, jobs).dom().contains(k) ==> k.scope == repo,
    decreases jobs.len(),
{
    if jobs.len() > 0 {
        lemma_named_jobs_in_scope(m, repo, jobs.drop_last());
        let front = with_named_jobs(m, repo, jobs.drop_last());
        assert forall|k: KeyView| #[trigger]
            with_named_jobs(m, repo, jobs).dom().contains(k) implies k.scope == repo by {
            if k != (KeyView { scope: repo, name: jobs.last().0 }) {
                assert(front.dom().contains(k));
            }
        }
    }
}

proof fn lemma_hosted_in_scope(
    items: Seq<JsonTree>,
    repo: Seq<char>,
    workflow: Seq<char>,
    branch: Seq<char>,
    now: Timestamp,
)
    ensures
        forall|i: int|
            0 <= i < hosted_jobs_of(items, repo, workflow, branch, now).len() ==> (
            #[trigger] hosted_jobs_of(items, repo, workflow, branch, now)[i]).repo == repo,
    decreases items.len(),
{
    if items.len() > 0 {
        lemma_hosted_in_scope(items.drop_last(), repo, workflow, branch, now);
    }
}

proof fn lemma_run_stays_in_scope(
    found: StateView,
    repo: Seq<char>,
    run: RunView,
    body: Seq<char>,
    now: Timestamp,
)
    requires
        within_scope(found, repo),
    ensures
        within_scope(with_run(found, repo, run, body, now), repo),
{
    lemma_named_jobs_in_scope(
        found.slice,
        repo,
        jobs_of_text(body, run.name, run.branch, now),
    );
    if let Some(doc) = json_of(body) {
        lemma_hosted_in_scope(doc.items_at("jobs"@), repo, run.name, run.branch, now);
    }
}

/// The poll after it has been given the answer to everything that it asks for, where
/// `answer` is what the service says to a path and `clock` is the time of the answer.
pub open spec fn driven(
    p: PollView,
    answer: spec_fn(Seq<char>) -> Seq<char>,
    clock: spec_fn(Seq<char>) -> Timestamp,
) -> PollView
    decreases 2 - p.asked, p.pending.len(),
{
    match next_path(p) {
        Some(path) => if p.pending.len() > 0 || 0 <= p.asked < 2 {
            driven(fed(p, answer(path), clock(path)), answer, clock)
        } else {
            p
        },
        None => p,
    }
}

/// Everything that a poll asks for until it is complete, in order.
pub open spec fn paths_asked(
    p: PollView,
    answer: spec_fn(Seq<char>) -> Seq<char>,
    clock: spec_fn(Seq<char>) -> Timestamp,
) -> Seq<Seq<char>>
    decreases 2 - p.asked, p.pending.len(),
{
    match next_path(p) {
        Some(path) => if p.pending.len() > 0 || 0 <= p.asked < 2 {
            seq![path] + paths_asked(fed(p, answer(path), clock(path)), answer, clock)
        } else {
            Seq::empty()
        },
        None => Seq::empty(),
    }
}

/// A repository's state after the jobs of a row of runs.
pub open spec fn with_runs(
    found: StateView,
    repo: Seq<char>,
    runs: Seq<RunView>,
    answer: spec_fn(Seq<char>) -> Seq<char>,
    clock: spec_fn(Seq<char>) -> Timestamp,
) -> StateView
    decreases runs.len(),
{
    if runs.len() == 0 {
        found
    } else {
        let path = jobs_path(repo, runs[0].id);
        with_runs(
            with_run(found, repo, runs[0], answer(path), clock(path)),
            repo,
            runs.skip(1),
            answer,
            clock,
        )
    }
}

/// The hosted jobs of a row of runs: those of each run, one run after the other.
pub open spec fn hosted_of_runs(
    repo: Seq<char>,
    runs: Seq<RunView>,
    answer: spec_fn(Seq<char>) -> Seq<char>,
    clock: spec_fn(Seq<char>) -> Timestamp,
) -> Seq<HostedView>
    decreases runs.len(),
{
    if runs.len() == 0 {
        Seq::empty()
    } else {
        let path = jobs_path(repo, runs[0].id);
        hosted_jobs_of_text(answer(path), repo, runs[0].name, runs[0].branch, clock(path))
            + hosted_of_runs(repo, runs.skip(1), answer, clock)
    }
}

/// The paths of the lists of the runs' jobs.
pub open spec fn jobs_paths(repo: Seq<char>, runs: Seq<RunView>) -> Seq<Seq<char>> {
    runs.map_values(|r: RunView| jobs_path(repo, r.id))
}

/// The numbers that are among `read` once the runs have been read too.
pub open spec fn read_with(read: Set<u64>, runs: Seq<RunView>) -> Set<u64> {
    read.union(ids_of(runs).to_set())
}

proof fn lemma_hosted_of_runs(
    found: StateView,
    repo: Seq<char>,
    runs: Seq<RunView>,
    answer: spec_fn(Seq<char>) -> Seq<char>,
    clock: spec_fn(Seq<char>) -> Timestamp,
)
    ensures
        with_runs(found, repo, runs, answer, clock).hosted == found.hosted + hosted_of_runs(
            repo,
            runs,
            answer,
            clock,
        ),
    decreases runs.len(),
{
    if runs.len() > 0 {
        let path = jobs_path(repo, runs[0].id);
        let next = with_run(found, repo, runs[0], answer(path), clock(path));
        lemma_hosted_of_runs(next, repo, runs.skip(1), answer, clock);
    }
    assert(with_runs(found, repo, runs, answer, clock).hosted =~= found.hosted + hosted_of_runs(
        repo,
        runs,
        answer,
        clock,
    ));
}

proof fn lemma_runs_concat(
    found: StateView,
    repo: Seq<char>,
    a: Seq<RunView>,
    b: Seq<RunView>,
    answer: spec_fn(Seq<char>) -> Seq<char>,
    clock: spec_fn(Seq<char>) -> Timestamp,
)
    ensures
        with_runs(found, repo, a + b, answer, clock) == with_runs(
            with_runs(found, repo, a, answer, clock),
            repo,
            b,
            answer,
            clock,
        ),
    decreases a.len(),
{
    if a.len() == 0 {
        assert(a + b =~= b);
    } else {
        let path = jobs_path(repo, a[0].id);
        let next = with_run(found, repo, a[0], answer(path), clock(path));
        assert((a + b).skip(1) =~= a.skip(1) + b);
        lemma_runs_concat(next, repo, a.skip(1), b, answer, clock);
    }
}

proof fn lemma_unread_concat(a: Seq<RunView>, b: Seq<RunView>, read: Set<u64>)
    ensures
        unread(a + b, read) == unread(a, read) + unread(b, read_with(read, unread(a, read))),
    decreases b.len(),
{
    let first = unread(a, read);
    let known = read_with(read, first);
    if b.len() == 0 {
        assert(a + b =~= a);
        assert(first + unread(b, known) =~= first);
    } else {
        let id = b.last().id;
        lemma_unread_concat(a, b.drop_last(), read);
        assert((a + b).drop_last() =~= a + b.drop_last());
        let front = unread(b.drop_last(), known);
        assert(ids_of(first + front) =~= ids_of(first) + ids_of(front));
        assert(ids_of(first + front).contains(id) == (ids_of(first).contains(id) || ids_of(
            front,
        ).contains(id))) by {
            let both = ids_of(first) + ids_of(front);
            if ids_of(first).contains(id) {
                let k = choose|k: int| 0 <= k < ids_of(first).len() && ids_of(first)[k] == id;
                assert(both[k] == id);
            }
            if ids_of(front).contains(id) {
                let k = choose|k: int| 0 <= k < ids_of(front).len() && ids_of(front)[k] == id;
                assert(both[first.len() + k] == id);
            }
            if both.contains(id) {
                let k = choose|k: int| 0 <= k < both.len() && both[k] == id;
                if k < first.len() {
                    assert(ids_of(first)[k] == id);
                } else {
                    assert(ids_of(front)[k - first.len()] == id);
                }
            }
        }
        assert(unread(a + b, read) =~= first + unread(b, known));
    }
}

proof fn lemma_pending_runs_are_read(
    p: PollView,
    answer: spec_fn(Seq<char>) -> Seq<char>,
    clock: spec_fn(Seq<char>) -> Timestamp,
)
    requires
        0 <= p.asked <= 2,
    ensures
        ({
            let q = PollView {
                pending: Seq::empty(),
                read: read_with(p.read, p.pending),
                found: with_runs(p.found, p.repo, p.pending, answer, clock),
                ..p
            };
            &&& driven(p, answer, clock) == driven(q, answer, clock)
            &&& paths_asked(p, answer, clock) == jobs_paths(p.repo, p.pending) + paths_asked(
                q,
                answer,
                clock,
            )
        }),
    decreases p.pending.len(),
{
    let q = PollView {
        pending: Seq::empty(),
        read: read_with(p.read, p.pending),
        found: with_runs(p.found, p.repo, p.pending, answer, clock),
        ..p
    };
    if p.pending.len() > 0 {
        let path = jobs_path(p.repo, p.pending[0].id);
        let next = fed(p, answer(path), clock(path));
        lemma_pending_runs_are_read(next, answer, clock);
        assert(read_with(next.read, next.pending) =~= q.read) by {
            let ids = ids_of(p.pending);
            assert(ids =~= seq![ids[0]] + ids_of(next.pending));
            assert forall|x: u64| #[trigger] ids.contains(x) == (x == ids[0] || ids_of(
                next.pending,
            ).contains(x)) by {
                if ids.contains(x) {
                    let k = choose|k: int| 0 <= k < ids.len() && ids[k] == x;
                    if k > 0 {
                        assert(ids_of(next.pending)[k - 1] == x);
                    }
                }
                if x == ids[0] {
                    assert(ids[0] == x);
                }
                if ids_of(next.pending).contains(x) {
                    let rest = ids_of(next.pending);
                    let k = choose|k: int| 0 <= k < rest.len() && rest[k] == x;
                    assert(ids[k + 1] == x);
                }
            }
        }
        let rest = paths_asked(q, answer, clock);
        assert(seq![path] + (jobs_paths(p.repo, next.pending) + rest) =~= jobs_paths(
            p.repo,
            p.pending,
        ) + rest);
    } else {
        assert(p.pending =~= Seq::empty());
        assert(read_with(p.read, p.pending) =~= p.read);
        assert(jobs_paths(p.repo, p.pending) + paths_asked(p, answer, clock) =~= paths_asked(
            p,
            answer,
            clock,
        ));
    }
}

/// The runs in progress and then the queued ones, each once: a run that both lists name
/// stands where the first names it.
pub open spec fn united_runs(repo: Seq<char>, answer: spec_fn(Seq<char>) -> Seq<char>) -> Seq<
    RunView,
> {
    unread(
        runs_of_text(answer(runs_path(repo, "in_progress"@))) + runs_of_text(
            answer(runs_path(repo, "queued"@)),
        ),
        Set::empty(),
    )
}

proof fn lemma_course_of_a_poll(
    repo: Seq<char>,
    answer: spec_fn(Seq<char>) -> Seq<char>,
    clock: spec_fn(Seq<char>) -> Timestamp,
) -> (parts: (Seq<RunView>, Seq<RunView>))
    ensures
        united_runs(repo, answer) == parts.0 + parts.1,
        next_path(driven(poll_start(repo), answer, clock)) is None,
        driven(poll_start(repo), answer, clock).found == with_runs(
            empty_state(),
            repo,
            united_runs(repo, answer),
            answer,
            clock,
        ),
        paths_asked(poll_start(repo), answer, clock) == seq![runs_path(repo, "in_progress"@)]
            + jobs_paths(repo, parts.0) + seq![runs_path(repo, "queued"@)] + jobs_paths(
            repo,
            parts.1,
        ),
{
    let first = runs_path(repo, "in_progress"@);
    let second = runs_path(repo, "queued"@);
    let p0 = poll_start(repo);
    let p1 = fed(p0, answer(first), clock(first));
    lemma_pending_runs_are_read(p1, answer, clock);
    let p2 = PollView {
        pending: Seq::empty(),
        read: read_with(p1.read, p1.pending),
        found: with_runs(p1.found, repo, p1.pending, answer, clock),
        ..p1
    };
    let p3 = fed(p2, answer(second), clock(second));
    lemma_pending_runs_are_read(p3, answer, clock);
    let p4 = PollView {
        pending: Seq::empty(),
        read: read_with(p3.read, p3.pending),
        found: with_runs(p3.found, repo, p3.pending, answer, clock),
        ..p3
    };
    lemma_unread_concat(
        runs_of_text(answer(first)),
        runs_of_text(answer(second)),
        Set::empty(),
    );
    lemma_runs_concat(empty_state(), repo, p1.pending, p3.pending, answer, clock);
    assert(paths_asked(p4, answer, clock) =~= Seq::empty());
    assert(paths_asked(p0, answer, clock) =~= seq![first] + jobs_paths(repo, p1.pending) + seq![
        second,
    ] + jobs_paths(repo, p3.pending));
    (p1.pending, p3.pending)
}

/// A poll that gets every answer reads the jobs of all runs in progress and all queued
/// runs, those of each run once, and nothing else. So its hosted jobs are those of each
/// run, once.
pub proof fn a_complete_poll_reads_all_runs(
    repo: Seq<char>,
    answer: spec_fn(Seq<char>) -> Seq<char>,
    clock: spec_fn(Seq<char>) -> Timestamp,
)
    ensures
        ({
            let runs = united_runs(repo, answer);
            let end = driven(poll_start(repo), answer, clock);
            &&& next_path(end) is None
            &&& ids_of(runs).no_duplicates()
            &&& end.found == with_runs(empty_state(), repo, runs, answer, clock)
            &&& end.found.hosted == hosted_of_runs(repo, runs, answer, clock)
        }),
{
    let runs = united_runs(repo, answer);
    lemma_course_of_a_poll(repo, answer, clock);
    lemma_unread_apart(
        runs_of_text(answer(runs_path(repo, "in_progress"@))) + runs_of_text(
            answer(runs_path(repo, "queued"@)),
        ),
        Set::empty(),
    );
    lemma_hosted_of_runs(empty_state(), repo, runs, answer, clock);
    assert(empty_state().hosted + hosted_of_runs(repo, runs, answer, clock) =~= hosted_of_runs(
        repo,
        runs,
        answer,
        clock,
    ));
}

/// The united list names every run that one of the two lists names, and no other.
pub proof fn every_listed_run_is_read(
    repo: Seq<char>,
    answer: spec_fn(Seq<char>) -> Seq<char>,
    id: u64,
)
    ensures
        ids_of(united_runs(repo, answer)).contains(id) <==> (ids_of(
            runs_of_text(answer(runs_path(repo, "in_progress"@))),
        ).contains(id) || ids_of(runs_of_text(answer(runs_path(repo, "queued"@)))).contains(id)),
{
    let a = runs_of_text(answer(runs_path(repo, "in_progress"@)));
    let b = runs_of_text(answer(runs_path(repo, "queued"@)));
    lemma_unread_covers(a + b, Set::empty(), id);
    assert(ids_of(a + b) =~= ids_of(a) + ids_of(b));
    let both = ids_of(a) + ids_of(b);
    if ids_of(a).contains(id) {
        let k = choose|k: int| 0 <= k < ids_of(a).len() && ids_of(a)[k] == id;
        assert(both[k] == id);
    }
    if ids_of(b).contains(id) {
        let k = choose|k: int| 0 <= k < ids_of(b).len() && ids_of(b)[k] == id;
        assert(both[a.len() + k] == id);
    }
    if both.contains(id) {
        let k = choose|k: int| 0 <= k < both.len() && both[k] == id;
        if k < a.len() {
            assert(ids_of(a)[k] == id);
        } else {
            assert(ids_of(b)[k - a.len()] == id);
        }
    }
}

proof fn lemma_unread_covers(runs: Seq<RunView>, read: Set<u64>, id: u64)
    ensures
        ids_of(unread(runs, read)).contains(id) <==> (ids_of(runs).contains(id) && !read.contains(
            id,
        )),
    decreases runs.len(),
{
    if runs.len() > 0 {
        let front = runs.drop_last();
        let last = runs.last().id;
        lemma_unread_covers(front, read, id);
        lemma_ids_of_push(front, runs.last(), id);
        assert(runs =~= front.push(runs.last()));
        if !read.contains(last) && !ids_of(unread(front, read)).contains(last) {
            lemma_ids_of_push(unread(front, read), runs.last(), id);
        }
    }
}

proof fn lemma_ids_of_push(runs: Seq<RunView>, run: RunView, id: u64)
    ensures
        ids_of(runs.push(run)).contains(id) <==> (ids_of(runs).contains(id) || run.id == id),
{
    let more = ids_of(runs.push(run));
    assert(more =~= ids_of(runs).push(run.id));
    if ids_of(runs).contains(id) {
        let k = choose|k: int| 0 <= k < runs.len() && ids_of(runs)[k] == id;
        assert(more[k] == id);
    }
    if run.id == id {
        assert(more[runs.len() as int] == id);
    }
    if more.contains(id) && run.id != id {
        let k = choose|k: int| 0 <= k < more.len() && more[k] == id;
        assert(ids_of(runs)[k] == id);
    }
}

proof fn lemma_paths_differ(repo: Seq<char>, status: Seq<char>, a: u64, b: u64)
    ensures
        runs_path(repo, status) != jobs_path(repo, a),
        a != b ==> jobs_path(repo, a) != jobs_path(repo, b),
{
    reveal_strlit("repos/");
    reveal_strlit("/actions/runs?status=");
    reveal_strlit("/actions/runs/");
    reveal_strlit("/jobs");
    let front = "repos/"@ + repo;
    let at = front.len() + 13;
    assert(runs_path(repo, status)[at as int] == '?');
    assert(jobs_path(repo, a)[at as int] == '/');
    if jobs_path(repo, a) == jobs_path(repo, b) {
        let from = (front.len() + 14) as int;
        let x = decimal(a as nat);
        let y = decimal(b as nat);
        assert(jobs_path(repo, a).len() == from + x.len() + 5);
        assert(jobs_path(repo, b).len() == from + y.len() + 5);
        assert(x =~= jobs_path(repo, a).subrange(from, from + x.len()));
        assert(y =~= jobs_path(repo, b).subrange(from, from + y.len()));
        decimal_reads_back(a as nat, u64::MAX as nat);
        decimal_reads_back(b as nat, u64::MAX as nat);
    }
}

/// A poll asks for nothing twice: neither for a list of runs nor for a run's jobs.
pub proof fn nothing_is_asked_for_twice(
    repo: Seq<char>,
    answer: spec_fn(Seq<char>) -> Seq<char>,
    clock: spec_fn(Seq<char>) -> Timestamp,
)
    ensures
        paths_asked(poll_start(repo), answer, clock).no_duplicates(),
{
    let (a, b) = lemma_course_of_a_poll(repo, answer, clock);
    let runs = a + b;
    lemma_unread_apart(
        runs_of_text(answer(runs_path(repo, "in_progress"@))) + runs_of_text(
            answer(runs_path(repo, "queued"@)),
        ),
        Set::empty(),
    );
    let paths = paths_asked(poll_start(repo), answer, clock);
    let first = runs_path(repo, "in_progress"@);
    let second = runs_path(repo, "queued"@);
    reveal_strlit("in_progress");
    reveal_strlit("queued");
    assert(first.len() != second.len());
    assert forall|i: int, j: int| 0 <= i < j < paths.len() implies paths[i] != paths[j] by {
        let m = a.len() as int + 1;
        let x = if i < m {
            i - 1
        } else {
            i - 2
        };
        let y = if j < m {
            j - 1
        } else {
            j - 2
        };
        if i == 0 && j == m {
            assert(paths[i] == first && paths[j] == second);
        } else if i == 0 {
            assert(paths[i] == first && paths[j] == jobs_path(repo, runs[y].id));
            lemma_paths_differ(repo, "in_progress"@, runs[y].id, 0);
        } else if i == m {
            assert(paths[i] == second && paths[j] == jobs_path(repo, runs[y].id));
            lemma_paths_differ(repo, "queued"@, runs[y].id, 0);
        } else if j == m {
            assert(paths[i] == jobs_path(repo, runs[x].id) && paths[j] == second);
            lemma_paths_differ(repo, "queued"@, runs[x].id, 0);
        } else {
            assert(paths[i] == jobs_path(repo, runs[x].id));
            assert(paths[j] == jobs_path(repo, runs[y].id));
            assert(ids_of(runs)[x] != ids_of(runs)[y]);
            lemma_paths_differ(repo, "queued"@, runs[x].id, runs[y].id);
        }
    }
}

/// Whether a scope is polled for jobs or for busy runners.
#[derive(Clone, Copy, Debug, PartialEq, Eq, Structural)]
pub enum ScopeKind {
    Repo,
    Org,
}

/// How the poll of a scope ended: a repository's failure is reported, an
/// organisation's is passed over.
pub fn scope_outcome(kind: ScopeKind, found: Option<ScopeState>) -> (r: ScopeOutcome)
    ensures
        match (found, kind) {
            (Some(state), _) => r == ScopeOutcome::Fresh(state),
            (None, ScopeKind::Repo) => r is RepoErr,
            (None, ScopeKind::Org) => r is OrgSkip,
        },
{
    match found {
        Some(state) => ScopeOutcome::Fresh(state),
        None => match kind {
            ScopeKind::Repo => ScopeOutcome::RepoErr,
            ScopeKind::Org => ScopeOutcome::OrgSkip,
        },
    }
}

/// Whether there is no scope to poll.
pub fn nothing_to_poll(repos: &[String], orgs: &[String]) -> (r: bool)
    ensures
        r == (repos@.len() == 0 && orgs@.len() == 0),
{
    repos.len() == 0 && orgs.len() == 0
}

/// The report where there is no scope to poll: it says what to set.
pub fn unset_update() -> (r: JobsUpdate)
    ensures
        r.jobs@ == Map::<KeyView, Option<JobInfo>>::empty(),
        r.hosted@.len() == 0,
        opt_text(r.error) == Some(
            "PITWALL_REPO unset \u{2014} set it to your runners' repo (e.g. myorg/myrepo)"@,
        ),
{
    JobsUpdate {
        jobs: Keyed::new(),
        hosted: Vec::new(),
        error: Some(
            "PITWALL_REPO unset \u{2014} set it to your runners' repo (e.g. myorg/myrepo)".to_owned(),
        ),
    }
}

/// Merges a round of outcomes, and reports the busy runners and the hosted jobs of all
/// scopes, the hosted jobs in order.
pub fn next_update(
    prev: Keyed<String, ScopeState>,
    results: Vec<(String, ScopeOutcome)>,
    now: Timestamp,
) -> (r: (Keyed<String, ScopeState>, JobsUpdate))
    ensures
        r.0.pairs() == with_outcomes(prev.pairs(), results@),
        slice_view(r.1.jobs@) == all_busy(r.0.pairs()),
        hosted_views(r.1.hosted@) == sorted_by(
            all_hosted(r.0.pairs()),
            |j: HostedView| hosted_key(j, now),
        ),
        opt_text(r.1.error) == complaint(results@),
{
    let (next, error) = merge_scopes(prev, results);
    let (jobs, mut hosted) = flatten(&next);
    sort_hosted(&mut hosted, now);
    (next, JobsUpdate { jobs, hosted, error })
}

/// The content of a poll's finding is that of its parts.
pub proof fn findings_hold_their_parts(state: ScopeState, k: KeyView, run: (u64, String, String))
    ensures
        state@.hosted == hosted_views(state.hosted@),
        state@.slice.dom().contains(k) <==> state.slice@.dom().contains(k),
        state.slice@.dom().contains(k) ==> (state.slice@[k] matches Some(j) ==> state@.slice[k]
            == Some(j@)),
        state.slice@.dom().contains(k) && state.slice@[k] is None ==> state@.slice[k] is None,
        run_views(seq![run])[0].id == run.0,
        run_views(seq![run])[0].name == run.1@,
        run_views(seq![run])[0].branch == run.2@,
{
}

/// A time is what the text reads as, and `now` where it reads as none.
pub proof fn times_are_read_or_now(t: JsonTree, key: Seq<char>, text: Seq<char>, now: Timestamp)
    ensures
        t.field(key) == Some(JsonTree::Text(text)) && rfc3339_of(text, usize::BITS as int) is Some
            ==> time_at(t, key, now) == rfc3339_of(text, usize::BITS as int)->0,
        t.field(key) == Some(JsonTree::Text(text)) && rfc3339_of(text, usize::BITS as int) is None
            ==> time_at(t, key, now) == now,
        !(t.field(key) matches Some(JsonTree::Text(_))) ==> time_at(t, key, now) == now,
{
}

/// A run has the number, the workflow and the branch that its entry gives; an entry without
/// a number is no run.
pub proof fn runs_show_their_entries(t: JsonTree, s: Seq<char>)
    ensures
        run_of(t) matches Some(r) ==> {
            &&& t.field("id"@) == Some(JsonTree::Number(Some(r.id)))
            &&& t.field("name"@) == Some(JsonTree::Text(s)) ==> r.name == s
            &&& t.field("head_branch"@) == Some(JsonTree::Text(s)) ==> r.branch == s
            &&& !(t.field("name"@) matches Some(JsonTree::Text(_))) ==> r.name.len() == 0
            &&& !(t.field("head_branch"@) matches Some(JsonTree::Text(_))) ==> r.branch.len() == 0
        },
        t.field("id"@) matches Some(JsonTree::Number(Some(_))) ==> run_of(t) is Some,
{
}

/// Whether an entry is a job in progress with these two names.
pub open spec fn is_job_in_progress(t: JsonTree, runner: Seq<char>, job: Seq<char>) -> bool {
    &&& t.field("status"@) == Some(JsonTree::Text("in_progress"@))
    &&& t.field("runner_name"@) == Some(JsonTree::Text(runner))
    &&& t.field("name"@) == Some(JsonTree::Text(job))
}

/// A job in progress has the workflow and the branch of its run, the names that its entry
/// gives, and the start that it gives. No other entry is one.
pub proof fn jobs_show_their_entries(
    t: JsonTree,
    runner: Seq<char>,
    job: Seq<char>,
    workflow: Seq<char>,
    branch: Seq<char>,
    now: Timestamp,
)
    ensures
        is_job_in_progress(t, runner, job) ==> job_of(t, workflow, branch, now) == Some(
            (
                runner,
                JobView { workflow, job, branch, started_at: time_at(t, "started_at"@, now) },
            ),
        ),
        job_of(t, workflow, branch, now) matches Some((r, j)) ==> is_job_in_progress(t, r, j.job),
{
}

/// A hosted job has the repository, the workflow and the branch of its run, and its entry's
/// name, first label, status and time: the start while it runs, the creation while it waits.
pub proof fn hosted_jobs_show_their_entries(
    t: JsonTree,
    s: Seq<char>,
    repo: Seq<char>,
    workflow: Seq<char>,
    branch: Seq<char>,
    now: Timestamp,
)
    ensures
        hosted_of(t, repo, workflow, branch, now) matches Some(h) ==> {
            &&& h.repo == repo
            &&& h.workflow == workflow
            &&& h.branch == branch
            &&& t.field("name"@) == Some(JsonTree::Text(h.job))
            &&& h.status is InProgress ==> t.field("status"@) == Some(
                JsonTree::Text("in_progress"@),
            ) && h.since == time_at(t, "started_at"@, now)
            &&& h.status is Queued ==> t.field("status"@) == Some(JsonTree::Text("queued"@))
                && h.since == time_at(t, "created_at"@, now)
            &&& !self_hosted(t.items_at("labels"@))
            &&& t.items_at("labels"@).len() > 0 && t.items_at("labels"@)[0] == JsonTree::Text(s)
                ==> h.label == s
            &&& t.items_at("labels"@).len() == 0 ==> h.label == "hosted"@
        },
{
}

/// An entry that runs or waits, has a name and no label `self-hosted` is a hosted job; one
/// with that label, without a name or with another status is none.
pub proof fn hosted_jobs_are_those_without_the_label(
    t: JsonTree,
    name: Seq<char>,
    i: int,
    repo: Seq<char>,
    workflow: Seq<char>,
    branch: Seq<char>,
    now: Timestamp,
)
    ensures
        ({
            let labels = t.items_at("labels"@);
            let h = hosted_of(t, repo, workflow, branch, now);
            let running = t.field("status"@) == Some(JsonTree::Text("in_progress"@));
            let waiting = t.field("status"@) == Some(JsonTree::Text("queued"@));
            &&& (running || waiting) && t.field("name"@) == Some(JsonTree::Text(name)) && (forall|
                k: int,
            |
                0 <= k < labels.len() ==> #[trigger] labels[k] != JsonTree::Text("self-hosted"@))
                ==> h is Some && (running ==> h->0.status is InProgress) && (!running
                ==> h->0.status is Queued)
            &&& 0 <= i < labels.len() && labels[i] == JsonTree::Text("self-hosted"@) ==> h is None
            &&& !running && !waiting ==> h is None
        }),
{
}

/// A busy runner is one whose entry says so, under the name that the entry gives.
pub proof fn busy_runners_show_their_entries(t: JsonTree, name: Seq<char>)
    ensures
        t.field("busy"@) == Some(JsonTree::Bool(true)) && t.field("name"@) == Some(
            JsonTree::Text(name),
        ) ==> busy_runner_of(t) == Some(name),
        t.field("busy"@) != Some(JsonTree::Bool(true)) ==> busy_runner_of(t) is None,
        busy_runner_of(t) matches Some(s) ==> t.field("name"@) == Some(JsonTree::Text(s)),
{
}

/// Runs are read entry by entry, in order.
pub proof fn runs_are_read_entry_by_entry(
    a: Seq<JsonTree>,
    b: Seq<JsonTree>,
    t: JsonTree,
)
    ensures
        runs_of(a + b) == runs_of(a) + runs_of(b),
        run_of(t) matches Some(r) ==> runs_of(seq![t]) == seq![r],
        run_of(t) is None ==> runs_of(seq![t]).len() == 0,
    decreases b.len(),
{
    if b.len() == 0 {
        assert(a + b =~= a);
    } else {
        runs_are_read_entry_by_entry(a, b.drop_last(), t);
        assert((a + b).drop_last() =~= a + b.drop_last());
    }
    assert(runs_of(a + b) =~= runs_of(a) + runs_of(b));
    reveal_with_fuel(runs_of, 2);
    assert(seq![t].drop_last() =~= Seq::empty());
    if let Some(r) = run_of(t) {
        assert(runs_of(seq![t]) =~= seq![r]);
    }
}

/// Jobs are read entry by entry, in order.
pub proof fn jobs_are_read_entry_by_entry(
    a: Seq<JsonTree>,
    b: Seq<JsonTree>,
    t: JsonTree,
    workflow: Seq<char>,
    branch: Seq<char>,
    now: Timestamp,
)
    ensures
        jobs_of(a + b, workflow, branch, now) == jobs_of(a, workflow, branch, now) + jobs_of(
            b,
            workflow,
            branch,
            now,
        ),
        job_of(t, workflow, branch, now) matches Some(j) ==> jobs_of(
            seq![t],
            workflow,
            branch,
            now,
        ) == seq![j],
        job_of(t, workflow, branch, now) is None ==> jobs_of(seq![t], workflow, branch, now).len()
            == 0,
    decreases b.len(),
{
    if b.len() == 0 {
        assert(a + b =~= a);
    } else {
        jobs_are_read_entry_by_entry(a, b.drop_last(), t, workflow, branch, now);
        assert((a + b).drop_last() =~= a + b.drop_last());
    }
    assert(jobs_of(a + b, workflow, branch, now) =~= jobs_of(a, workflow, branch, now) + jobs_of(
        b,
        workflow,
        branch,
        now,
    ));
    reveal_with_fuel(jobs_of, 2);
    assert(seq![t].drop_last() =~= Seq::empty());
    if let Some(j) = job_of(t, workflow, branch, now) {
        assert(jobs_of(seq![t], workflow, branch, now) =~= seq![j]);
    }
}

/// Hosted jobs are read entry by entry, in order.
pub proof fn hosted_jobs_are_read_entry_by_entry(
    a: Seq<JsonTree>,
    b: Seq<JsonTree>,
    t: JsonTree,
    repo: Seq<char>,
    workflow: Seq<char>,
    branch: Seq<char>,
    now: Timestamp,
)
    ensures
        hosted_jobs_of(a + b, repo, workflow, branch, now) == hosted_jobs_of(
            a,
            repo,
            workflow,
            branch,
            now,
        ) + hosted_jobs_of(
            b,
            repo,
            workflow,
            branch,
            now,
        ),
        hosted_of(t, repo, workflow, branch, now) matches Some(h) ==> hosted_jobs_of(
            seq![t],
            repo,
            workflow,
            branch,
            now,
        ) == seq![h],
        hosted_of(t, repo, workflow, branch, now) is None ==> hosted_jobs_of(
            seq![t],
            repo,
            workflow,
            branch,
            now,
        ).len() == 0,
    decreases b.len(),
{
    if b.len() == 0 {
        assert(a + b =~= a);
    } else {
        hosted_jobs_are_read_entry_by_entry(a, b.drop_last(), t, repo, workflow, branch, now);
        assert((a + b).drop_last() =~= a + b.drop_last());
    }
    assert(hosted_jobs_of(a + b, repo, workflow, branch, now) =~= hosted_jobs_of(
        a,
        repo,
        workflow,
        branch,
        now,
    ) + hosted_jobs_of(
        b,
        repo,
        workflow,
        branch,
        now,
    ));
    reveal_with_fuel(hosted_jobs_of, 2);
    assert(seq![t].drop_last() =~= Seq::empty());
    if let Some(h) = hosted_of(t, repo, workflow, branch, now) {
        assert(hosted_jobs_of(seq![t], repo, workflow, branch, now) =~= seq![h]);
    }
}

/// Busy runners are read entry by entry, in order.
pub proof fn busy_runners_are_read_entry_by_entry(
    a: Seq<JsonTree>,
    b: Seq<JsonTree>,
    t: JsonTree,
)
    ensures
        busy_runners_of(a + b) == busy_runners_of(a) + busy_runners_of(b),
        busy_runner_of(t) matches Some(s) ==> busy_runners_of(seq![t]) == seq![s],
        busy_runner_of(t) is None ==> busy_runners_of(seq![t]).len() == 0,
    decreases b.len(),
{
    if b.len() == 0 {
        assert(a + b =~= a);
    } else {
        busy_runners_are_read_entry_by_entry(a, b.drop_last(), t);
        assert((a + b).drop_last() =~= a + b.drop_last());
    }
    assert(busy_runners_of(a + b) =~= busy_runners_of(a) + busy_runners_of(b));
    reveal_with_fuel(busy_runners_of, 2);
    assert(seq![t].drop_last() =~= Seq::empty());
    if let Some(s) = busy_runner_of(t) {
        assert(busy_runners_of(seq![t]) =~= seq![s]);
    }
}

/// A response is read from the list that its document holds under the name of what was
/// asked for; a text that is no document, or holds no such list, gives nothing.
pub proof fn responses_are_read_from_their_lists(
    text: Seq<char>,
    doc: JsonTree,
    items: Seq<JsonTree>,
    repo: Seq<char>,
    workflow: Seq<char>,
    branch: Seq<char>,
    now: Timestamp,
)
    requires
        json_of(text) is None || json_of(text) == Some(doc),
    ensures
        json_of(text) is Some && doc.field("workflow_runs"@) == Some(JsonTree::List(items))
            ==> runs_of_text(text) == runs_of(items),
        json_of(text) is Some && doc.field("jobs"@) == Some(JsonTree::List(items)) ==> jobs_of_text(
            text,
            workflow,
            branch,
            now,
        ) == jobs_of(items, workflow, branch, now) && hosted_jobs_of_text(
            text,
            repo,
            workflow,
            branch,
            now,
        ) == hosted_jobs_of(items, repo, workflow, branch, now),
        json_of(text) is Some && doc.field("runners"@) == Some(JsonTree::List(items))
            ==> busy_runners_of_text(text) == busy_runners_of(items),
        json_of(text) is None || doc.field("workflow_runs"@) is None ==> runs_of_text(text).len()
            == 0,
        json_of(text) is None || doc.field("jobs"@) is None ==> jobs_of_text(
            text,
            workflow,
            branch,
            now,
        ).len() == 0 && hosted_jobs_of_text(text, repo, workflow, branch, now).len() == 0,
        json_of(text) is None || doc.field("runners"@) is None ==> busy_runners_of_text(text).len()
            == 0,
{
}

proof fn lemma_named_jobs_before(
    m: Map<KeyView, Option<JobView>>,
    repo: Seq<char>,
    jobs: Seq<(Seq<char>, JobView)>,
    name: Seq<char>,
)
    requires
        forall|j: int| 0 <= j < jobs.len() ==> (#[trigger] jobs[j]).0 != name,
    ensures
        ({
            let key = KeyView { scope: repo, name };
            let after = with_named_jobs(m, repo, jobs);
            &&& after.dom().contains(key) == m.dom().contains(key)
            &&& m.dom().contains(key) ==> after[key] == m[key]
        }),
    decreases jobs.len(),
{
    if jobs.len() > 0 {
        let front = jobs.drop_last();
        assert(jobs[jobs.len() - 1].0 != name);
        assert forall|j: int| 0 <= j < front.len() implies (#[trigger] front[j]).0 != name by {
            assert(front[j] == jobs[j]);
        }
        lemma_named_jobs_before(m, repo, front, name);
    }
}

proof fn lemma_named_jobs_concat(
    m: Map<KeyView, Option<JobView>>,
    repo: Seq<char>,
    a: Seq<(Seq<char>, JobView)>,
    b: Seq<(Seq<char>, JobView)>,
)
    ensures
        with_named_jobs(m, repo, a + b) == with_named_jobs(with_named_jobs(m, repo, a), repo, b),
    decreases b.len(),
{
    if b.len() == 0 {
        assert(a + b =~= a);
    } else {
        lemma_named_jobs_concat(m, repo, a, b.drop_last());
        assert((a + b).drop_last() =~= a + b.drop_last());
    }
}

proof fn lemma_jobs_lack(
    items: Seq<JsonTree>,
    workflow: Seq<char>,
    branch: Seq<char>,
    now: Timestamp,
    name: Seq<char>,
)
    requires
        forall|k: int|
            0 <= k < items.len() ==> !((#[trigger] items[k]).field("status"@) == Some(
                JsonTree::Text("in_progress"@),
            ) && items[k].field("runner_name"@) == Some(JsonTree::Text(name))),
    ensures
        forall|j: int|
            0 <= j < jobs_of(items, workflow, branch, now).len() ==> (#[trigger] jobs_of(
                items,
                workflow,
                branch,
                now,
            )[j]).0 != name,
    decreases items.len(),
{
    if items.len() > 0 {
        let front = items.drop_last();
        assert forall|k: int| 0 <= k < front.len() implies !((#[trigger] front[k]).field("status"@)
            == Some(JsonTree::Text("in_progress"@)) && front[k].field("runner_name"@) == Some(
            JsonTree::Text(name),
        )) by {
            assert(front[k] == items[k]);
        }
        lemma_jobs_lack(front, workflow, branch, now, name);
        let last = items[items.len() - 1];
        assert(!(last.field("status"@) == Some(JsonTree::Text("in_progress"@)) && last.field(
            "runner_name"@,
        ) == Some(JsonTree::Text(name))));
        if let Some((runner, j)) = job_of(last, workflow, branch, now) {
            jobs_show_their_entries(last, runner, j.job, workflow, branch, now);
            assert(runner != name);
        }
        let all = jobs_of(items, workflow, branch, now);
        let earlier = jobs_of(front, workflow, branch, now);
        assert forall|j: int| 0 <= j < all.len() implies (#[trigger] all[j]).0 != name by {
            if j < earlier.len() {
                assert(all[j] == earlier[j]);
            }
        }
    }
}

/// Once a run's jobs are read, a runner that they name works on the last job in progress
/// that names it: with that job's name, the run's workflow and the run's branch.
pub proof fn busy_runners_show_their_runs_job(
    p: PollView,
    body: Seq<char>,
    doc: JsonTree,
    items: Seq<JsonTree>,
    i: int,
    runner: Seq<char>,
    job: Seq<char>,
    now: Timestamp,
)
    requires
        p.pending.len() > 0,
        json_of(body) == Some(doc),
        doc.field("jobs"@) == Some(JsonTree::List(items)),
        0 <= i < items.len(),
        is_job_in_progress(items[i], runner, job),
        forall|k: int|
            i < k < items.len() ==> !((#[trigger] items[k]).field("status"@) == Some(
                JsonTree::Text("in_progress"@),
            ) && items[k].field("runner_name"@) == Some(JsonTree::Text(runner))),
    ensures
        ({
            let found = fed(p, body, now).found.slice;
            let key = KeyView { scope: p.repo, name: runner };
            &&& found.dom().contains(key)
            &&& found[key] is Some
            &&& found[key]->0.workflow == p.pending[0].name
            &&& found[key]->0.branch == p.pending[0].branch
            &&& found[key]->0.job == job
            &&& found[key]->0.started_at == time_at(items[i], "started_at"@, now)
        }),
{
    let run = p.pending[0];
    let a = items.take(i);
    let b = items.skip(i + 1);
    let t = items[i];
    assert(items =~= (a + seq![t]) + b);
    jobs_are_read_entry_by_entry(a + seq![t], b, t, run.name, run.branch, now);
    jobs_are_read_entry_by_entry(a, seq![t], t, run.name, run.branch, now);
    jobs_show_their_entries(t, runner, job, run.name, run.branch, now);
    assert forall|k: int| 0 <= k < b.len() implies !((#[trigger] b[k]).field("status"@) == Some(
        JsonTree::Text("in_progress"@),
    ) && b[k].field("runner_name"@) == Some(JsonTree::Text(runner))) by {
        assert(b[k] == items[i + 1 + k]);
    }
    lemma_jobs_lack(b, run.name, run.branch, now, runner);
    let front = jobs_of(a + seq![t], run.name, run.branch, now);
    let back = jobs_of(b, run.name, run.branch, now);
    lemma_named_jobs_concat(p.found.slice, p.repo, front, back);
    lemma_named_jobs_before(
        with_named_jobs(p.found.slice, p.repo, front),
        p.repo,
        back,
        runner,
    );
    assert(front.last().0 == runner);
}

/// Reading a run's jobs leaves what is known of every runner that they do not name, and adds
/// the run's hosted jobs behind those that were found before.
pub proof fn reading_a_run_leaves_other_runners(
    p: PollView,
    body: Seq<char>,
    doc: JsonTree,
    items: Seq<JsonTree>,
    runner: Seq<char>,
    now: Timestamp,
)
    requires
        p.pending.len() > 0,
        json_of(body) == Some(doc),
        doc.field("jobs"@) == Some(JsonTree::List(items)),
        forall|k: int|
            0 <= k < items.len() ==> !((#[trigger] items[k]).field("status"@) == Some(
                JsonTree::Text("in_progress"@),
            ) && items[k].field("runner_name"@) == Some(JsonTree::Text(runner))),
    ensures
        ({
            let key = KeyView { scope: p.repo, name: runner };
            let before = p.found;
            let after = fed(p, body, now).found;
            let run = p.pending[0];
            &&& after.slice.dom().contains(key) == before.slice.dom().contains(key)
            &&& before.slice.dom().contains(key) ==> after.slice[key] == before.slice[key]
            &&& after.hosted == before.hosted + hosted_jobs_of(
                items,
                p.repo,
                run.name,
                run.branch,
                now,
            )
            &&& fed(p, body, now).repo == p.repo
            &&& fed(p, body, now).pending == p.pending.skip(1)
        }),
{
    let run = p.pending[0];
    lemma_jobs_lack(items, run.name, run.branch, now, runner);
    lemma_named_jobs_before(
        p.found.slice,
        p.repo,
        jobs_of(items, run.name, run.branch, now),
        runner,
    );
}

/// Reading a list of runs finds nothing yet: it makes the runs that are new pending, with
/// their own workflows and branches.
pub proof fn lists_of_runs_make_runs_pending(p: PollView, body: Seq<char>, now: Timestamp, i: int)
    requires
        p.pending.len() == 0,
        0 <= p.asked < 2,
        0 <= i < fed(p, body, now).pending.len(),
    ensures
        fed(p, body, now).found == p.found,
        fed(p, body, now).repo == p.repo,
        runs_of_text(body).contains(fed(p, body, now).pending[i]),
{
    lemma_unread_among(runs_of_text(body), p.read, i);
}

proof fn lemma_unread_among(runs: Seq<RunView>, read: Set<u64>, i: int)
    requires
        0 <= i < unread(runs, read).len(),
    ensures
        runs.contains(unread(runs, read)[i]),
    decreases runs.len(),
{
    if runs.len() > 0 {
        let front = runs.drop_last();
        if i < unread(front, read).len() {
            lemma_unread_among(front, read, i);
            let k = choose|k: int| 0 <= k < front.len() && front[k] == unread(front, read)[i];
            assert(runs[k] == unread(runs, read)[i]);
        } else {
            assert(runs[runs.len() - 1] == unread(runs, read)[i]);
        }
    }
}

/// A poll asks for the runs in progress first, for each run's jobs under the run's number,
/// and for the queued runs once no run is pending.
pub proof fn polls_ask_for_runs_and_their_jobs(p: PollView, repo: Seq<char>)
    ensures
        next_path(poll_start(repo)) == Some(
            "repos/"@ + repo + "/actions/runs?status=in_progress"@,
        ),
        p.pending.len() > 0 ==> next_path(p) == Some(
            "repos/"@ + p.repo + "/actions/runs/"@ + decimal(p.pending[0].id as nat) + "/jobs"@,
        ),
        p.pending.len() == 0 && p.asked == 1 ==> next_path(p) == Some(
            "repos/"@ + p.repo + "/actions/runs?status=queued"@,
        ),
        p.pending.len() == 0 && p.asked == 2 ==> next_path(p) is None,
{
    reveal_strlit("/actions/runs?status=in_progress");
    reveal_strlit("/actions/runs?status=queued");
    reveal_strlit("/actions/runs?status=");
    reveal_strlit("in_progress");
    reveal_strlit("queued");
    assert("/actions/runs?status=in_progress"@ =~= "/actions/runs?status="@ + "in_progress"@);
    assert("/actions/runs?status=queued"@ =~= "/actions/runs?status="@ + "queued"@);
    assert(runs_path(repo, "in_progress"@) =~= "repos/"@ + repo
        + "/actions/runs?status=in_progress"@);
    assert(runs_path(p.repo, "queued"@) =~= "repos/"@ + p.repo + "/actions/runs?status=queued"@);
}

/// An organisation's busy runners are those that are named, without their jobs.
pub proof fn organisations_show_who_is_busy(org: Seq<char>, names: Seq<Seq<char>>, k: KeyView)
    ensures
        org_busy(org, names).dom().contains(k) <==> k.scope == org && names.contains(k.name),
        org_busy(org, names).dom().contains(k) ==> org_busy(org, names)[k] is None,
    decreases names.len(),
{
    if names.len() > 0 {
        let front = names.drop_last();
        organisations_show_who_is_busy(org, front, k);
        if names.contains(k.name) && k.name != names.last() {
            let i = choose|i: int| 0 <= i < names.len() && names[i] == k.name;
            assert(front[i] == k.name);
        }
        if front.contains(k.name) {
            let i = choose|i: int| 0 <= i < front.len() && front[i] == k.name;
            assert(names[i] == k.name);
        }
        if k.name == names.last() {
            assert(names[names.len() - 1] == k.name);
        }
    }
}

/// The complaint lists the repositories that could not be polled, in the order in which
/// their polls ended, and no others.
pub proof fn complaints_name_the_failed_repositories(
    results: Seq<(String, ScopeOutcome)>,
    last: (String, ScopeOutcome),
)
    ensures
        failed_repos(Seq::empty()).len() == 0,
        last.1 is RepoErr ==> failed_repos(results.push(last)) == failed_repos(results).push(
            last.0@,
        ),
        !(last.1 is RepoErr) ==> failed_repos(results.push(last)) == failed_repos(results),
        complaint(results) is Some ==> complaint(results)->0 == "gh: "@ + joined(
            failed_repos(results),
            ", "@,
        ),
        complaint(results) is Some <==> failed_repos(results).len() > 0,
{
    assert(results.push(last).drop_last() =~= results);
}

/// What is known of a runner after all scopes are put together is known in one of them, and
/// the hosted jobs are those of the scopes, one scope after the other.
pub proof fn reports_come_from_the_scopes(
    known: Seq<(Seq<char>, ScopeState)>,
    last: (Seq<char>, ScopeState),
    k: KeyView,
)
    ensures
        !all_busy(Seq::empty()).dom().contains(k),
        last.1@.slice.dom().contains(k) ==> all_busy(known.push(last)).dom().contains(k)
            && all_busy(known.push(last))[k] == last.1@.slice[k],
        !last.1@.slice.dom().contains(k) ==> all_busy(known.push(last)).dom().contains(k)
            == all_busy(known).dom().contains(k) && (all_busy(known).dom().contains(k) ==> all_busy(
            known.push(last),
        )[k] == all_busy(known)[k]),
        all_hosted(Seq::empty()).len() == 0,
        all_hosted(known.push(last)) == all_hosted(known) + last.1@.hosted,
{
    assert(known.push(last).drop_last() =~= known);
}

/// A poll that was given the jobs of a run has found, under its own repository, the job of
/// every runner that they name, with the run's workflow and branch.
pub proof fn polls_find_the_jobs_of_their_runs(
    p: RepoPoll,
    body: &str,
    now: Timestamp,
    q: RepoPoll,
    found: ScopeState,
    doc: JsonTree,
    items: Seq<JsonTree>,
    i: int,
    runner: Seq<char>,
    job: Seq<char>,
)
    requires
        call_ensures(RepoPoll::feed, (p, body, now), q),
        call_ensures(RepoPoll::finish, (q,), found),
        p@.pending.len() > 0,
        json_of(body@) == Some(doc),
        doc.field("jobs"@) == Some(JsonTree::List(items)),
        0 <= i < items.len(),
        is_job_in_progress(items[i], runner, job),
        forall|k: int|
            i < k < items.len() ==> !((#[trigger] items[k]).field("status"@) == Some(
                JsonTree::Text("in_progress"@),
            ) && items[k].field("runner_name"@) == Some(JsonTree::Text(runner))),
    ensures
        ({
            let key = KeyView { scope: p@.repo, name: runner };
            &&& found@.slice.dom().contains(key)
            &&& found@.slice[key] is Some
            &&& found@.slice[key]->0.workflow == p@.pending[0].name
            &&& found@.slice[key]->0.branch == p@.pending[0].branch
            &&& found@.slice[key]->0.job == job
            &&& q@.pending == p@.pending.skip(1)
        }),
{
    busy_runners_show_their_runs_job(p@, body@, doc, items, i, runner, job, now);
}

/// A new poll asks for the runs in progress of its repository, and any poll with a run to
/// read asks for that run's jobs.
pub proof fn polls_want_their_runs(
    repo: &str,
    p: RepoPoll,
    a: Option<String>,
    q: RepoPoll,
    b: Option<String>,
)
    requires
        call_ensures(RepoPoll::new, (repo,), p),
        call_ensures(RepoPoll::wanted, (&p,), a),
        call_ensures(RepoPoll::wanted, (&q,), b),
    ensures
        a is Some && a->0@ == "repos/"@ + repo@ + "/actions/runs?status=in_progress"@,
        p@.repo == repo@ && p@.pending.len() == 0,
        p@.found.slice.dom() == Set::<KeyView>::empty() && p@.found.hosted.len() == 0,
        q@.pending.len() > 0 ==> b is Some && b->0@ == "repos/"@ + q@.repo + "/actions/runs/"@
            + decimal(q@.pending[0].id as nat) + "/jobs"@,
        q@.pending.len() == 0 && q@.asked == 2 ==> b is None,
{
    polls_ask_for_runs_and_their_jobs(p@, repo@);
    polls_ask_for_runs_and_their_jobs(q@, repo@);
}

/// The list of an organisation's runners is asked for under the organisation's name, and
/// tells who is busy there, but not with what.
pub proof fn organisations_are_polled_for_runners(
    org: &str,
    path: String,
    json: &str,
    r: ScopeState,
    k: KeyView,
)
    requires
        call_ensures(org_path, (org,), path),
        call_ensures(org_state, (org, json), r),
    ensures
        path@ == "orgs/"@ + org@ + "/actions/runners"@,
        r@.slice.dom().contains(k) <==> k.scope == org@ && busy_runners_of_text(json@).contains(
            k.name,
        ),
        r@.slice.dom().contains(k) ==> r@.slice[k] is None,
        r.hosted@.len() == 0,
{
    organisations_show_who_is_busy(org@, busy_runners_of_text(json@), k);
    assert(hosted_views(r.hosted@).len() == r.hosted@.len());
}

/// Findings are fresh; a repository without any failed, and an organisation without any is
/// passed over. Without a scope there is nothing to poll, and the report says what to set.
pub proof fn polls_end_as_their_scope_asks(
    kind: ScopeKind,
    found: Option<ScopeState>,
    outcome: ScopeOutcome,
    repos: &[String],
    orgs: &[String],
    nothing: bool,
    unset: JobsUpdate,
)
    requires
        call_ensures(scope_outcome, (kind, found), outcome),
        call_ensures(nothing_to_poll, (repos, orgs), nothing),
        call_ensures(unset_update, (), unset),
    ensures
        found is Some ==> outcome == ScopeOutcome::Fresh(found->0),
        found is None ==> (outcome is RepoErr <==> kind is Repo),
        found is None ==> (outcome is OrgSkip <==> kind is Org),
        nothing <==> repos@.len() == 0 && orgs@.len() == 0,
        unset.jobs@.dom() == Set::<KeyView>::empty() && unset.hosted@.len() == 0,
        unset.error is Some && unset.error->0@
            == "PITWALL_REPO unset \u{2014} set it to your runners' repo (e.g. myorg/myrepo)"@,
{
}

/// Labels mark a job as self-hosted exactly where one of them is the text `self-hosted`.
pub proof fn one_label_marks_a_job(labels: &Json, r: bool, items: Seq<JsonTree>)
    requires
        call_ensures(is_self_hosted, (labels,), r),
    ensures
        labels@ == JsonTree::List(items) ==> (r <==> exists|i: int|
            0 <= i < items.len() && #[trigger] items[i] == JsonTree::Text("self-hosted"@)),
        labels@ !is List ==> !r,
{
    if labels@ == JsonTree::List(items) {
        if items.contains(JsonTree::Text("self-hosted"@)) {
            let i = choose|i: int|
                0 <= i < items.len() && items[i] == JsonTree::Text("self-hosted"@);
            assert(items[i] == JsonTree::Text("self-hosted"@));
        }
    }
}

/// A round of polls keeps what is known of every scope without fresh findings, replaces it
/// where there are some, complains exactly where a repository failed, and reports the hosted
/// jobs of all scopes, what runs in front of what is queued.
pub proof fn rounds_are_merged_and_reported(
    prev: Keyed<String, ScopeState>,
    results: Vec<(String, ScopeOutcome)>,
    now: Timestamp,
    r: (Keyed<String, ScopeState>, JobsUpdate),
    m: (Keyed<String, ScopeState>, Option<String>),
    scope: Seq<char>,
    at: int,
)
    requires
        call_ensures(next_update, (prev, results, now), r),
        call_ensures(merge_scopes, (prev, results), m),
        0 <= at < results@.len(),
    ensures
        m.0.pairs() == r.0.pairs(),
        opt_text(m.1) == opt_text(r.1.error),
        !has_findings(results@, scope) ==> r.0@.dom().contains(scope) == prev@.dom().contains(
            scope,
        ),
        !has_findings(results@, scope) && prev@.dom().contains(scope) ==> r.0@[scope]
            == prev@[scope],
        results@[at].1 is Fresh && !has_findings(results@.skip(at + 1), results@[at].0@)
            ==> r.0@.dom().contains(results@[at].0@) && r.0@[results@[at].0@]
            == results@[at].1->Fresh_0,
        r.1.error is Some <==> exists|i: int|
            0 <= i < results@.len() && (#[trigger] results@[i]).1 is RepoErr,
        hosted_views(r.1.hosted@).to_multiset() == all_hosted(r.0.pairs()).to_multiset(),
        forall|i: int, j: int|
            0 <= i < j < r.1.hosted@.len() && (#[trigger] r.1.hosted@[i]).status is Queued ==> (
            #[trigger] r.1.hosted@[j]).status is Queued,
        slice_view(r.1.jobs@) == all_busy(r.0.pairs()),
{
    let key = |j: HostedView| hosted_key(j, now);
    let hosted = all_hosted(r.0.pairs());
    sorting_keeps_the_items(hosted, by_key(key));
    sorting_orders_the_keys(hosted, key);
    let views = hosted_views(r.1.hosted@);
    assert forall|i: int, j: int|
        0 <= i < j < r.1.hosted@.len() && (#[trigger] r.1.hosted@[i]).status is Queued implies (
    #[trigger] r.1.hosted@[j]).status is Queued by {
        assert(by_key(key)(views[i], views[j]));
        assert(views[i] == r.1.hosted@[i]@ && views[j] == r.1.hosted@[j]@);
    }
    if !has_findings(results@, scope) {
        failures_keep_earlier_findings(prev.pairs(), results@, scope);
    }
    if results@[at].1 is Fresh && !has_findings(results@.skip(at + 1), results@[at].0@) {
        findings_replace_earlier_ones(prev.pairs(), results@, at);
    }
    only_repositories_cause_a_complaint(results@);
}

/// What a scope knows of a runner is what all scopes know together, where no scope reports
/// of another's runners.
pub proof fn scopes_are_put_together(
    per_scope: &Keyed<String, ScopeState>,
    r: (Slice, Vec<HostedJob>),
    i: int,
    k: KeyView,
)
    requires
        call_ensures(flatten, (per_scope,), r),
        scopes_apart(per_scope.pairs()),
        0 <= i < per_scope.pairs().len(),
        per_scope.pairs()[i].1@.slice.dom().contains(k),
    ensures
        slice_view(r.0@).dom().contains(k),
        slice_view(r.0@)[k] == per_scope.pairs()[i].1@.slice[k],
        hosted_views(r.1@) == all_hosted(per_scope.pairs()),
{
    scopes_do_not_collide(per_scope.pairs(), i, k);
}

/// The contents of named jobs are those of the names and the jobs, in order.
pub proof fn named_jobs_keep_their_places(jobs: Seq<(String, JobInfo)>, i: int)
    ensures
        named_job_views(jobs).len() == jobs.len(),
        0 <= i < jobs.len() ==> named_job_views(jobs)[i] == (jobs[i].0@, jobs[i].1@),
{
}

/// All that a poll finds belongs to its repository: the runners and the hosted jobs.
pub proof fn findings_belong_to_their_repository(q: RepoPoll, r: ScopeState, k: KeyView, i: int)
    requires
        call_ensures(RepoPoll::finish, (q,), r),
    ensures
        r@.slice.dom().contains(k) ==> k.scope == q@.repo,
        0 <= i < r.hosted@.len() ==> r.hosted@[i].repo@ == q@.repo,
{
    if 0 <= i < r.hosted@.len() {
        assert(r@.hosted[i] == r.hosted@[i]@);
    }
}

} // verus!
