//! Deployments in flight.

use crate::model::{
    deployment_key, deployment_views, sort_deployments, DeployStatus, Deployment, DeploymentView,
    Timestamp,
};
use crate::ordering::{by_key, sorted_by, sorting_keeps_the_items, sorting_orders_the_keys};
use crate::text::{
    lacks, lines, lines_end_at_line_feeds, lines_of, lowered, same_text, same_text_ignoring_case,
    texts,
};
use vstd::prelude::*;

verus! {

/// What a poll of the deployments found. A poll that fails finds none.
pub struct VercelUpdate {
    pub deployments: Vec<Deployment>,
}

/// The document that lists deployments.
#[derive(Debug)]
pub struct RawList {
    pub deployments: Vec<RawDeployment>,
}

/// An entry of the list. Times are milliseconds since 1970.
#[derive(Debug)]
pub struct RawDeployment {
    pub name: String,
    pub state: String,
    pub target: Option<String>,
    pub created_at: u64,
    pub building_at: Option<u64>,
    pub meta: Option<RawMeta>,
}

/// The commit that an entry was made for.
#[derive(Debug)]
pub struct RawMeta {
    pub github_commit_message: Option<String>,
    pub github_commit_ref: Option<String>,
    pub github_org: Option<String>,
    pub github_repo: Option<String>,
}

/// The point in time `n` milliseconds after 1970.
pub open spec fn epoch_ms(n: u64) -> Timestamp {
    Timestamp { secs: (n / 1000) as i64, nanos: ((n % 1000) * 1_000_000) as u32 }
}

/// The point in time `n` milliseconds after 1970.
pub fn from_epoch_ms(n: u64) -> (r: Timestamp)
    ensures
        r == epoch_ms(n),
        r.instant() == n * 1_000_000,
        r.nanos < 1_000_000_000,
{
    Timestamp { secs: (n / 1000) as i64, nanos: ((n % 1000) * 1_000_000) as u32 }
}

/// Whether a repository is among those that are configured; the case of ASCII letters
/// does not matter.
pub open spec fn is_configured(repo: Seq<char>, configured: Seq<Seq<char>>) -> bool {
    exists|i: int| 0 <= i < configured.len() && lowered(#[trigger] configured[i]) == lowered(repo)
}

/// The first line of a text; empty where it has none.
pub open spec fn first_line(s: Seq<char>) -> Seq<char> {
    if lines_of(s).len() > 0 {
        lines_of(s)[0]
    } else {
        Seq::empty()
    }
}

/// A text, or `default` where there is none.
pub open spec fn text_or(o: Option<String>, default: Seq<char>) -> Seq<char> {
    match o {
        Some(s) => s@,
        None => default,
    }
}

/// The repository of an entry, where it is known.
pub open spec fn repo_of(d: RawDeployment) -> Option<Seq<char>> {
    match d.meta {
        Some(meta) => match (meta.github_org, meta.github_repo) {
            (Some(org), Some(repo)) => Some(org@ + "/"@ + repo@),
            _ => None,
        },
        None => None,
    }
}

/// The deployment that an entry describes: it is being built or waits, and its
/// repository is configured. It counts from when its building began, or else from when it
/// was created.
pub open spec fn deployment_of(
    d: RawDeployment,
    configured: Seq<Seq<char>>,
) -> Option<DeploymentView> {
    let building = d.state@ == "BUILDING"@;
    let waiting = d.state@ == "QUEUED"@;
    match repo_of(d) {
        Some(repo) => if (building || waiting) && is_configured(repo, configured) {
            Some(
                DeploymentView {
                    repo,
                    project: d.name@,
                    target: text_or(d.target, "preview"@),
                    branch: text_or(d.meta->0.github_commit_ref, Seq::empty()),
                    commit_summary: first_line(
                        text_or(d.meta->0.github_commit_message, Seq::empty()),
                    ),
                    status: if building {
                        DeployStatus::Building
                    } else {
                        DeployStatus::Queued
                    },
                    started_at: epoch_ms(
                        match (building, d.building_at) {
                            (true, Some(at)) => at,
                            _ => d.created_at,
                        },
                    ),
                },
            )
        } else {
            None
        },
        None => None,
    }
}

/// The deployments that a list describes.
pub open spec fn deployments_of(
    ds: Seq<RawDeployment>,
    configured: Seq<Seq<char>>,
) -> Seq<DeploymentView>
    decreases ds.len(),
{
    if ds.len() == 0 {
        Seq::empty()
    } else {
        let front = deployments_of(ds.drop_last(), configured);
        match deployment_of(ds.last(), configured) {
            Some(d) => front.push(d),
            None => front,
        }
    }
}

fn clone_or(o: &Option<String>, default: &str) -> (r: String)
    ensures
        r@ == text_or(*o, default@),
{
    match o {
        Some(s) => s.clone(),
        None => default.to_owned(),
    }
}

fn configured_repo(repo: &str, configured_repos: &[String]) -> (r: bool)
    ensures
        r == is_configured(repo@, texts(configured_repos@)),
{
    let ghost all = texts(configured_repos@);
    let mut i: usize = 0;
    while i < configured_repos.len()
        invariant
            i <= configured_repos@.len(),
            all == texts(configured_repos@),
            forall|j: int| 0 <= j < i ==> lowered(#[trigger] all[j]) != lowered(repo@),
        decreases configured_repos@.len() - i,
    {
        if same_text_ignoring_case(configured_repos[i].as_str(), repo) {
            assert(lowered(all[i as int]) == lowered(repo@));
            return true;
        }
        i += 1;
    }
    false
}

fn summary_of(message: &str) -> (r: String)
    ensures
        r@ == first_line(message@),
{
    let ls = lines(message);
    assert(texts(ls@).len() == ls@.len());
    if ls.len() > 0 {
        assert(texts(ls@)[0] == ls@[0]@);
        ls[0].clone()
    } else {
        String::new()
    }
}

fn deployment_in(d: &RawDeployment, configured_repos: &[String]) -> (r: Option<Deployment>)
    ensures
        match r {
            Some(dep) => deployment_of(*d, texts(configured_repos@)) == Some(dep@),
            None => deployment_of(*d, texts(configured_repos@)) is None,
        },
{
    proof {
        reveal_strlit("BUILDING");
        reveal_strlit("QUEUED");
        reveal_strlit("");
        assert("BUILDING"@.len() != "QUEUED"@.len());
        assert(""@ =~= Seq::<char>::empty());
    }
    let status = if same_text(d.state.as_str(), "BUILDING") {
        DeployStatus::Building
    } else if same_text(d.state.as_str(), "QUEUED") {
        DeployStatus::Queued
    } else {
        return None;
    };
    let meta = match &d.meta {
        Some(m) => m,
        None => return None,
    };
    let repo = match (&meta.github_org, &meta.github_repo) {
        (Some(org), Some(name)) => {
            let mut full = org.clone();
            full.append("/");
            full.append(name.as_str());
            full
        },
        _ => return None,
    };
    if !configured_repo(repo.as_str(), configured_repos) {
        return None;
    }
    let started_at = match (status, d.building_at) {
        (DeployStatus::Building, Some(at)) => from_epoch_ms(at),
        _ => from_epoch_ms(d.created_at),
    };
    let message = clone_or(&meta.github_commit_message, "");
    Some(
        Deployment {
            repo,
            project: d.name.clone(),
            target: clone_or(&d.target, "preview"),
            branch: clone_or(&meta.github_commit_ref, ""),
            commit_summary: summary_of(message.as_str()),
            status,
            started_at,
        },
    )
}

/// The deployments in flight that a list describes and whose repositories are configured;
/// none where there is no list.
pub fn parse_deployments(raw: &Option<RawList>, configured_repos: &[String]) -> (r: Vec<
    Deployment,
>)
    ensures
        deployment_views(r@) == (match raw {
            Some(list) => deployments_of(list.deployments@, texts(configured_repos@)),
            None => Seq::empty(),
        }),
{
    let mut out: Vec<Deployment> = Vec::new();
    assert(deployment_views(out@) =~= Seq::empty());
    if let Some(list) = raw {
        let ds = &list.deployments;
        let ghost repos = texts(configured_repos@);
        let mut i: usize = 0;
        assert(deployment_views(out@) =~= deployments_of(ds@.take(0), repos));
        while i < ds.len()
            invariant
                i <= ds@.len(),
                repos == texts(configured_repos@),
                deployment_views(out@) == deployments_of(ds@.take(i as int), repos),
            decreases ds@.len() - i,
        {
            let ghost before = deployment_views(out@);
            proof {
                assert(ds@.take(i + 1).drop_last() =~= ds@.take(i as int));
                assert(ds@.take(i + 1).last() == ds@[i as int]);
            }
            if let Some(d) = deployment_in(&ds[i], configured_repos) {
                let ghost view = d@;
                out.push(d);
                assert(deployment_views(out@) =~= before.push(view));
            }
            i += 1;
        }
        assert(ds@.take(ds@.len() as int) =~= ds@);
    }
    out
}

/// The report of a poll: the deployments in flight, in order. There are none where no
/// repository is configured, and none where `raw` is missing because the poll failed.
pub fn next_deployments(
    raw: &Option<RawList>,
    configured_repos: &[String],
    now: Timestamp,
) -> (r: VercelUpdate)
    ensures
        deployment_views(r.deployments@) == (match raw {
            Some(list) => sorted_by(
                deployments_of(list.deployments@, texts(configured_repos@)),
                |d: DeploymentView| deployment_key(d, now),
            ),
            None => Seq::empty(),
        }),
        configured_repos@.len() == 0 ==> r.deployments@.len() == 0,
{
    let mut deployments = parse_deployments(raw, configured_repos);
    sort_deployments(&mut deployments, now);
    proof {
        let key = |d: DeploymentView| deployment_key(d, now);
        if let Some(list) = raw {
            if configured_repos@.len() == 0 {
                lemma_nothing_without_config(list.deployments@, texts(configured_repos@));
            }
        }
        assert(deployment_views(deployments@).len() == deployments@.len());
        assert(sorted_by(Seq::<DeploymentView>::empty(), key) =~= Seq::empty());
    }
    VercelUpdate { deployments }
}

proof fn lemma_nothing_without_config(ds: Seq<RawDeployment>, configured: Seq<Seq<char>>)
    requires
        configured.len() == 0,
    ensures
        deployments_of(ds, configured) == Seq::<DeploymentView>::empty(),
    decreases ds.len(),
{
    if ds.len() > 0 {
        lemma_nothing_without_config(ds.drop_last(), configured);
    }
}

/// Every deployment that is reported belongs to a configured repository.
pub proof fn deployments_are_of_configured_repos(
    ds: Seq<RawDeployment>,
    configured: Seq<Seq<char>>,
    i: int,
)
    requires
        0 <= i < deployments_of(ds, configured).len(),
    ensures
        is_configured(deployments_of(ds, configured)[i].repo, configured),
    decreases ds.len(),
{
    if ds.len() > 0 {
        if i < deployments_of(ds.drop_last(), configured).len() {
            deployments_are_of_configured_repos(ds.drop_last(), configured, i);
        }
    }
}

/// The entry that a reported deployment stands for gives all its parts: project, repository,
/// target, branch, the first line of the commit's message, state and start.
pub proof fn deployments_show_their_entries(d: RawDeployment, configured: Seq<Seq<char>>)
    ensures
        deployment_of(d, configured) matches Some(v) ==> {
            &&& v.project == d.name@
            &&& d.target matches Some(t) ==> v.target == t@
            &&& d.target is None ==> v.target == "preview"@
            &&& d.meta is Some && d.meta->0.github_org is Some && d.meta->0.github_repo is Some
            &&& v.repo == d.meta->0.github_org->0@ + "/"@ + d.meta->0.github_repo->0@
            &&& d.meta->0.github_commit_ref matches Some(branch) ==> v.branch == branch@
            &&& d.meta->0.github_commit_ref is None ==> v.branch.len() == 0
            &&& d.meta->0.github_commit_message matches Some(m) ==> v.commit_summary == first_line(
                m@,
            )
            &&& d.meta->0.github_commit_message is None ==> v.commit_summary.len() == 0
            &&& v.status is Building ==> d.state@ == "BUILDING"@
            &&& v.status is Queued ==> d.state@ == "QUEUED"@
            &&& v.status is Building && d.building_at is Some ==> v.started_at.instant()
                == d.building_at->0 * 1_000_000
            &&& v.status is Queued || d.building_at is None ==> v.started_at.instant()
                == d.created_at * 1_000_000
        },
{
}

/// An entry is reported exactly when it is being built or waits and its repository is one of
/// the configured ones, where the case of ASCII letters does not matter.
pub proof fn deployments_in_flight_are_reported(
    d: RawDeployment,
    configured: Seq<Seq<char>>,
    k: int,
)
    requires
        d.meta is Some,
        d.meta->0.github_org is Some,
        d.meta->0.github_repo is Some,
        0 <= k < configured.len(),
    ensures
        ({
            let repo = d.meta->0.github_org->0@ + "/"@ + d.meta->0.github_repo->0@;
            let in_flight = d.state@ == "BUILDING"@ || d.state@ == "QUEUED"@;
            &&& in_flight && lowered(configured[k]) == lowered(repo) ==> deployment_of(
                d,
                configured,
            ) is Some
            &&& in_flight && configured[k] == repo ==> deployment_of(d, configured) is Some
            &&& !in_flight ==> deployment_of(d, configured) is None
            &&& (forall|i: int|
                0 <= i < configured.len() ==> lowered(#[trigger] configured[i]) != lowered(repo))
                ==> deployment_of(d, configured) is None
        }),
{
    let repo = d.meta->0.github_org->0@ + "/"@ + d.meta->0.github_repo->0@;
    assert(repo_of(d) == Some(repo));
}

/// An entry of an unknown commit is not reported.
pub proof fn entries_without_a_repository_are_dropped(d: RawDeployment, configured: Seq<Seq<char>>)
    requires
        d.meta is None || d.meta->0.github_org is None || d.meta->0.github_repo is None,
    ensures
        deployment_of(d, configured) is None,
{
}

/// The deployments of two lists are those of the first and then those of the second, and a
/// single entry gives its own.
pub proof fn deployments_are_reported_entry_by_entry(
    a: Seq<RawDeployment>,
    b: Seq<RawDeployment>,
    d: RawDeployment,
    configured: Seq<Seq<char>>,
)
    ensures
        deployments_of(a + b, configured) == deployments_of(a, configured) + deployments_of(
            b,
            configured,
        ),
        deployment_of(d, configured) matches Some(v) ==> deployments_of(seq![d], configured)
            == seq![v],
        deployment_of(d, configured) is None ==> deployments_of(seq![d], configured).len() == 0,
    decreases b.len(),
{
    if b.len() == 0 {
        assert(a + b =~= a);
    } else {
        deployments_are_reported_entry_by_entry(a, b.drop_last(), d, configured);
        assert((a + b).drop_last() =~= a + b.drop_last());
    }
    assert(deployments_of(a + b, configured) =~= deployments_of(a, configured) + deployments_of(
        b,
        configured,
    ));
    reveal_with_fuel(deployments_of, 2);
    assert(seq![d].drop_last() =~= Seq::empty());
    if let Some(v) = deployment_of(d, configured) {
        assert(deployments_of(seq![d], configured) =~= seq![v]);
    }
}

/// A message's first line is what stands before its first line feed.
pub proof fn summaries_are_first_lines(line: Seq<char>, rest: Seq<char>)
    requires
        lacks(line, '\n'),
        line.len() > 0,
        line.last() != '\r',
    ensures
        first_line(line) == line,
        first_line(line + seq!['\n'] + rest) == line,
{
    lines_end_at_line_feeds(line, rest);
    assert((seq![line] + lines_of(rest))[0] == line);
}

proof fn lemma_reported_entry(ds: Seq<RawDeployment>, configured: Seq<Seq<char>>, i: int) -> (k:
    int)
    requires
        0 <= i < deployments_of(ds, configured).len(),
    ensures
        0 <= k < ds.len(),
        deployment_of(ds[k], configured) == Some(deployments_of(ds, configured)[i]),
    decreases ds.len(),
{
    let front = deployments_of(ds.drop_last(), configured);
    if i < front.len() {
        lemma_reported_entry(ds.drop_last(), configured, i)
    } else {
        ds.len() - 1
    }
}

proof fn lemma_entry_reported(ds: Seq<RawDeployment>, configured: Seq<Seq<char>>, k: int)
    requires
        0 <= k < ds.len(),
        deployment_of(ds[k], configured) is Some,
    ensures
        deployments_of(ds, configured).contains(deployment_of(ds[k], configured)->0),
    decreases ds.len(),
{
    let all = deployments_of(ds, configured);
    let front = deployments_of(ds.drop_last(), configured);
    let v = deployment_of(ds[k], configured)->0;
    if k < ds.len() - 1 {
        lemma_entry_reported(ds.drop_last(), configured, k);
        let i = choose|i: int| 0 <= i < front.len() && front[i] == v;
        assert(all[i] == v);
    } else {
        assert(all[front.len() as int] == v);
    }
}

/// Every deployment that is reported shows one of the entries: its project, target, branch
/// and repository.
pub proof fn reported_deployments_show_an_entry(
    list: RawList,
    configured_repos: &[String],
    r: Vec<Deployment>,
    i: int,
)
    requires
        call_ensures(parse_deployments, (&Some(list), configured_repos), r),
        0 <= i < r@.len(),
    ensures
        exists|k: int|
            {
                let d = #[trigger] list.deployments@[k];
                &&& 0 <= k < list.deployments@.len()
                &&& r@[i].project@ == d.name@
                &&& d.target is Some ==> r@[i].target@ == d.target->0@
                &&& d.target is None ==> r@[i].target@ == "preview"@
                &&& d.meta is Some && d.meta->0.github_org is Some && d.meta->0.github_repo is Some
                &&& r@[i].repo@ == d.meta->0.github_org->0@ + "/"@ + d.meta->0.github_repo->0@
                &&& d.meta->0.github_commit_ref is Some ==> r@[i].branch@
                    == d.meta->0.github_commit_ref->0@
                &&& r@[i].status is Queued <==> d.state@ == "QUEUED"@
            },
{
    let configured = texts(configured_repos@);
    let ds = list.deployments@;
    let views = deployment_views(r@);
    assert(views == deployments_of(ds, configured));
    assert(views[i] == r@[i]@);
    let k = lemma_reported_entry(ds, configured, i);
    deployments_show_their_entries(ds[k], configured);
    reveal_strlit("QUEUED");
    reveal_strlit("BUILDING");
    assert("QUEUED"@.len() != "BUILDING"@.len());
    assert(r@[i].project@ == list.deployments@[k].name@);
}

/// Every entry that is being built or waits, and whose repository is configured, is reported
/// with its project and target; without a list there is nothing to report.
pub proof fn entries_in_flight_are_reported(
    list: RawList,
    configured_repos: &[String],
    r: Vec<Deployment>,
    k: int,
    c: int,
    none: Vec<Deployment>,
)
    requires
        call_ensures(parse_deployments, (&Some(list), configured_repos), r),
        call_ensures(parse_deployments, (&None::<RawList>, configured_repos), none),
        0 <= k < list.deployments@.len(),
        0 <= c < configured_repos@.len(),
        list.deployments@[k].state@ == "BUILDING"@ || list.deployments@[k].state@ == "QUEUED"@,
        list.deployments@[k].meta is Some,
        list.deployments@[k].meta->0.github_org is Some,
        list.deployments@[k].meta->0.github_repo is Some,
        configured_repos@[c]@ == list.deployments@[k].meta->0.github_org->0@ + "/"@
            + list.deployments@[k].meta->0.github_repo->0@,
    ensures
        none@.len() == 0,
        exists|i: int|
            0 <= i < r@.len() && (#[trigger] r@[i]).project@ == list.deployments@[k].name@
                && r@[i].repo@ == configured_repos@[c]@ && (list.deployments@[k].target is Some
                ==> r@[i].target@ == list.deployments@[k].target->0@),
{
    let configured = texts(configured_repos@);
    let ds = list.deployments@;
    assert(configured[c] == configured_repos@[c]@);
    deployments_in_flight_are_reported(ds[k], configured, c);
    lemma_entry_reported(ds, configured, k);
    deployments_show_their_entries(ds[k], configured);
    let v = deployment_of(ds[k], configured)->0;
    let views = deployment_views(r@);
    let i = choose|i: int| 0 <= i < views.len() && views[i] == v;
    assert(views[i] == r@[i]@);
    assert(r@[i].project@ == ds[k].name@);
    assert(deployment_views(none@).len() == none@.len());
}

/// A poll's report loses none of the deployments and puts what is being built in front of
/// what waits; without configured repositories, or without an answer, it reports none.
pub proof fn polls_report_deployments_in_order(
    raw: &Option<RawList>,
    configured_repos: &[String],
    now: Timestamp,
    a: Vec<Deployment>,
    r: VercelUpdate,
)
    requires
        call_ensures(parse_deployments, (raw, configured_repos), a),
        call_ensures(next_deployments, (raw, configured_repos, now), r),
    ensures
        deployment_views(r.deployments@).to_multiset() == deployment_views(a@).to_multiset(),
        forall|i: int, j: int|
            0 <= i < j < r.deployments@.len() && (#[trigger] r.deployments@[i]).status is Queued
                ==> (#[trigger] r.deployments@[j]).status is Queued,
        configured_repos@.len() == 0 || raw is None ==> r.deployments@.len() == 0,
{
    let key = |d: DeploymentView| deployment_key(d, now);
    let given = deployment_views(a@);
    let views = deployment_views(r.deployments@);
    sorting_keeps_the_items(given, by_key(key));
    sorting_orders_the_keys(given, key);
    assert(views.len() == r.deployments@.len());
    if raw is Some {
        assert(views == sorted_by(given, key));
        assert forall|i: int, j: int|
            0 <= i < j < r.deployments@.len() && (#[trigger] r.deployments@[i]).status is Queued
            implies (#[trigger] r.deployments@[j]).status is Queued by {
            assert(by_key(key)(views[i], views[j]));
            assert(views[i] == r.deployments@[i]@ && views[j] == r.deployments@[j]@);
        }
    }
}

} // verus!
