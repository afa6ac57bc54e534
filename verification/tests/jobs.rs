//! What the CI service reports, and how it is kept.

use pitwall::jobs::{
    flatten, is_self_hosted, merge_scopes, next_update, nothing_to_poll, org_path, org_state,
    parse_hosted_jobs, parse_jobs, parse_org_runners, parse_rfc3339, parse_runs, runs_in,
    scope_outcome, unset_update, RepoPoll, ScopeKind, ScopeOutcome, ScopeState, Slice,
};
use pitwall::json::{parse, Json};
use pitwall::keyed::Keyed;
use pitwall::model::{HostedJob, HostedStatus, JobInfo, RunnerKey, Timestamp};

const RUNS: &str =
    r#"{"total_count":1,"workflow_runs":[{"id":123,"name":"Test","head_branch":"main"}]}"#;

const JOBS: &str = r#"{"total_count":4,"jobs":[
  {"name":"E2E Tests","status":"in_progress","runner_name":"runner-4","started_at":"2026-07-04T12:25:18Z"},
  {"name":"Build","status":"in_progress","runner_name":"GitHub Actions 1000013810","started_at":"2026-07-04T12:22:56Z"},
  {"name":"Migration Execution Test","status":"completed","runner_name":"GitHub Actions 1000013811","started_at":"2026-07-04T12:22:56Z"},
  {"name":"Coverage Gate","status":"completed","runner_name":"runner-3","started_at":"2026-07-04T12:24:48Z"}
]}"#;

const NATIVE_JOBS: &str = r#"{"total_count":2,"jobs":[
  {"name":"Build","status":"in_progress","runner_name":"backontop-vanscout","started_at":"2026-07-04T12:25:18Z"},
  {"name":"Lint","status":"queued","runner_name":null,"started_at":null}
]}"#;

const ORG_RUNNERS: &str = r#"{"total_count":2,"runners":[
  {"id":1,"name":"backontop","status":"online","busy":true},
  {"id":2,"name":"idle-one","status":"online","busy":false}
]}"#;

const HOSTED_JOBS: &str = r#"{"total_count":4,"jobs":[
  {"name":"E2E Tests","status":"in_progress","runner_name":"runner-4","labels":["self-hosted","linux","x64"],"created_at":"2026-07-04T12:24:00Z","started_at":"2026-07-04T12:25:18Z"},
  {"name":"Build","status":"in_progress","runner_name":"GitHub Actions 12","labels":["ubuntu-latest"],"created_at":"2026-07-04T12:25:00Z","started_at":"2026-07-04T12:26:00Z"},
  {"name":"Lint","status":"queued","runner_name":null,"labels":["ubuntu-24.04"],"created_at":"2026-07-04T12:26:30Z","started_at":null},
  {"name":"Old Job","status":"completed","runner_name":"GitHub Actions 9","labels":["ubuntu-latest"],"created_at":"2026-07-04T12:20:00Z","started_at":"2026-07-04T12:21:00Z"}
]}"#;

fn now() -> Timestamp {
    Timestamp {
        secs: 1_800_000_000,
        nanos: 5,
    }
}

fn key(scope: &str, name: &str) -> RunnerKey {
    RunnerKey {
        scope: scope.into(),
        name: name.into(),
    }
}

fn state_with(scope: &str, name: &str) -> ScopeState {
    let mut s = Slice::new();
    s.insert(
        key(scope, name),
        Some(JobInfo {
            workflow: "w".into(),
            job: "j".into(),
            branch: "main".into(),
            started_at: now(),
        }),
    );
    ScopeState {
        slice: s,
        hosted: Vec::new(),
    }
}

fn busy_org() -> ScopeState {
    let mut slice = Slice::new();
    slice.insert(key("ltdovr", "backontop"), None);
    ScopeState {
        slice,
        hosted: vec![],
    }
}

fn scope<'a>(m: &'a Keyed<String, ScopeState>, name: &str) -> &'a ScopeState {
    m.get(&name.to_string()).unwrap()
}

#[test]
fn parse_runs_extracts_id_name_and_branch() {
    let runs = parse_runs(RUNS);
    assert_eq!(runs, vec![(123u64, "Test".to_string(), "main".to_string())]);
}

#[test]
fn runs_need_a_number_and_nothing_else() {
    let runs = parse_runs(
        r#"{"workflow_runs":[{"id":-1,"name":"a"},{"id":1.5},{"id":"2"},{"id":3},7,{"name":"x"},{"id":4,"name":5,"head_branch":null}]}"#,
    );
    assert_eq!(
        runs,
        vec![
            (3u64, String::new(), String::new()),
            (4u64, String::new(), String::new())
        ]
    );
    assert!(parse_runs("not json").is_empty());
    assert!(parse_runs("[]").is_empty());
    assert!(parse_runs(r#"{"workflow_runs":{}}"#).is_empty());
}

#[test]
fn runs_are_read_from_a_document() {
    let doc = Json::Record(vec![(
        "workflow_runs".into(),
        Json::List(vec![Json::Record(vec![
            ("id".into(), Json::Number(Some(9))),
            ("head_branch".into(), Json::Text("dev".into())),
        ])]),
    )]);
    assert_eq!(
        runs_in(&doc),
        vec![(9u64, String::new(), "dev".to_string())]
    );
}

#[test]
fn parse_jobs_keeps_in_progress_drops_completed() {
    let out = parse_jobs("Test", "main", JOBS, now());
    assert_eq!(out.len(), 2);
    let runner4 = out.iter().find(|(rn, _)| rn == "runner-4").unwrap();
    assert_eq!(runner4.1.job, "E2E Tests");
    assert_eq!(runner4.1.branch, "main");
    assert!(out.iter().all(|(_, ji)| ji.job != "Coverage Gate"));
    assert_eq!(
        runner4.1.started_at,
        Timestamp {
            secs: 1_783_167_918,
            nanos: 0
        }
    );
}

#[test]
fn parse_jobs_passes_through_native_agent_name() {
    let out = parse_jobs("Deploy", "dev", NATIVE_JOBS, now());
    assert_eq!(out.len(), 1);
    assert_eq!(out[0].0, "backontop-vanscout");
    assert_eq!(out[0].1.job, "Build");
    assert_eq!(out[0].1.branch, "dev");
}

#[test]
fn jobs_without_a_start_count_from_now() {
    let out = parse_jobs(
        "w",
        "b",
        r#"{"jobs":[{"status":"in_progress","runner_name":"r","name":"j"},
            {"status":"in_progress","runner_name":"r","name":"k","started_at":"yesterday"}]}"#,
        now(),
    );
    assert_eq!(out.len(), 2);
    assert!(out.iter().all(|(_, j)| j.started_at == now()));
    assert!(parse_jobs("w", "b", "{", now()).is_empty());
}

#[test]
fn times_are_read_with_their_fractions() {
    assert_eq!(
        parse_rfc3339("2026-07-04T12:26:00.25Z", now()),
        Timestamp {
            secs: 1_783_167_960,
            nanos: 250_000_000
        }
    );
    assert_eq!(parse_rfc3339("2026-07-04 12:26:00Z", now()), now());
    assert_eq!(parse_rfc3339("", now()), now());
}

#[test]
fn parse_org_runners_returns_busy_names_only() {
    let names = parse_org_runners(ORG_RUNNERS);
    assert_eq!(names, vec!["backontop"]);
}

#[test]
fn busy_runners_without_a_name_are_passed_over() {
    assert_eq!(
        parse_org_runners(
            r#"{"runners":[{"busy":true},{"busy":"true","name":"a"},{"name":"b"},{"busy":true,"name":"c"}]}"#
        ),
        vec!["c"]
    );
    assert!(parse_org_runners("null").is_empty());
}

#[test]
fn merge_repo_failure_preserves_prior_and_names_scope() {
    let mut prev = Keyed::new();
    prev.insert(
        "scoop/vanscout".to_string(),
        state_with("scoop/vanscout", "backontop-vanscout"),
    );
    prev.insert(
        "scoop/kanban-api".to_string(),
        state_with("scoop/kanban-api", "backontop-kanban-api"),
    );

    let results = vec![
        ("scoop/vanscout".to_string(), ScopeOutcome::RepoErr),
        (
            "scoop/kanban-api".to_string(),
            ScopeOutcome::Fresh(ScopeState::default()),
        ),
    ];
    let (next, err) = merge_scopes(prev, results);

    assert!(scope(&next, "scoop/vanscout")
        .slice
        .contains_key(&key("scoop/vanscout", "backontop-vanscout")));
    assert!(scope(&next, "scoop/kanban-api").slice.is_empty());
    assert_eq!(err.as_deref(), Some("gh: scoop/vanscout"));
}

#[test]
fn merge_org_failure_is_silent_and_preserves() {
    let mut prev = Keyed::new();
    prev.insert("ltdovr".to_string(), busy_org());

    let (next, err) = merge_scopes(prev, vec![("ltdovr".to_string(), ScopeOutcome::OrgSkip)]);

    assert!(err.is_none());
    assert!(scope(&next, "ltdovr")
        .slice
        .contains_key(&key("ltdovr", "backontop")));
}

#[test]
fn merge_flatten_unions_all_scopes() {
    let mut prev = Keyed::new();
    prev.insert(
        "scoop/vanscout".to_string(),
        state_with("scoop/vanscout", "backontop-vanscout"),
    );
    prev.insert("ltdovr".to_string(), busy_org());
    let (flat, _hosted) = flatten(&prev);
    assert_eq!(flat.len(), 2);
}

fn hosted_job(job: &str, ago: i64) -> HostedJob {
    HostedJob {
        repo: "o/r".into(),
        workflow: "w".into(),
        job: job.into(),
        label: "ubuntu-latest".into(),
        branch: "main".into(),
        status: HostedStatus::InProgress,
        since: Timestamp {
            secs: now().secs - ago,
            nanos: 0,
        },
    }
}

#[test]
fn merge_repo_error_preserves_prior_hosted() {
    let mut prev = Keyed::new();
    prev.insert(
        "o/r".to_string(),
        ScopeState {
            slice: Slice::new(),
            hosted: vec![hosted_job("Build", 0)],
        },
    );

    let (next, err) = merge_scopes(prev, vec![("o/r".to_string(), ScopeOutcome::RepoErr)]);

    assert_eq!(scope(&next, "o/r").hosted.len(), 1);
    assert_eq!(scope(&next, "o/r").hosted[0].job, "Build");
    assert_eq!(err.as_deref(), Some("gh: o/r"));
}

#[test]
fn several_failures_are_listed_in_order() {
    let (next, err) = merge_scopes(
        Keyed::new(),
        vec![
            ("b/b".to_string(), ScopeOutcome::RepoErr),
            ("org".to_string(), ScopeOutcome::OrgSkip),
            ("a/a".to_string(), ScopeOutcome::RepoErr),
        ],
    );
    assert!(next.is_empty());
    assert_eq!(err.as_deref(), Some("gh: b/b, a/a"));
}

#[test]
fn parse_hosted_jobs_keeps_hosted_running_and_queued_only() {
    let out = parse_hosted_jobs("o/r", "CI", "main", HOSTED_JOBS, now());
    assert_eq!(out.len(), 2);

    let build = out.iter().find(|h| h.job == "Build").unwrap();
    assert_eq!(build.workflow, "CI");
    assert_eq!(build.branch, "main");
    assert_eq!(build.repo, "o/r");
    assert_eq!(build.label, "ubuntu-latest");
    assert_eq!(build.status, HostedStatus::InProgress);
    assert_eq!(build.since, parse_rfc3339("2026-07-04T12:26:00Z", now()));
    assert_ne!(build.since, now());

    let lint = out.iter().find(|h| h.job == "Lint").unwrap();
    assert_eq!(lint.label, "ubuntu-24.04");
    assert_eq!(lint.status, HostedStatus::Queued);
    assert_eq!(lint.since, parse_rfc3339("2026-07-04T12:26:30Z", now()));
}

#[test]
fn labels_decide_what_is_self_hosted() {
    let labels = |s: &str| is_self_hosted(&parse(s).unwrap());
    assert!(labels(r#"["linux","self-hosted"]"#));
    assert!(!labels(r#"["linux"]"#));
    assert!(!labels(r#"[]"#));
    assert!(!labels(r#""self-hosted""#));
    assert!(!labels("null"));
    let out = parse_hosted_jobs(
        "o/r",
        "CI",
        "",
        r#"{"jobs":[{"status":"queued","name":"a"},{"status":"queued","name":"b","labels":[1,"x"]},{"status":"queued","labels":["x"]}]}"#,
        now(),
    );
    let shown: Vec<(&str, &str)> = out
        .iter()
        .map(|h| (h.job.as_str(), h.label.as_str()))
        .collect();
    assert_eq!(shown, vec![("a", "hosted"), ("b", "hosted")]);
    assert_eq!(out[0].since, now());
}

#[test]
fn a_poll_asks_for_runs_and_then_for_their_jobs() {
    let mut poll = RepoPoll::new("o/r");
    assert_eq!(
        poll.wanted().as_deref(),
        Some("repos/o/r/actions/runs?status=in_progress")
    );
    poll = poll.feed(RUNS, now());
    assert_eq!(
        poll.wanted().as_deref(),
        Some("repos/o/r/actions/runs/123/jobs")
    );
    poll = poll.feed(JOBS, now());
    assert_eq!(
        poll.wanted().as_deref(),
        Some("repos/o/r/actions/runs?status=queued")
    );
    poll = poll.feed(
        r#"{"workflow_runs":[{"id":5,"name":"CI","head_branch":"dev"}]}"#,
        now(),
    );
    assert_eq!(
        poll.wanted().as_deref(),
        Some("repos/o/r/actions/runs/5/jobs")
    );
    poll = poll.feed(HOSTED_JOBS, now());
    assert_eq!(poll.wanted(), None);
    poll = poll.feed("ignored", now());
    assert_eq!(poll.wanted(), None);
    let state = poll.finish();
    // runner-4 is reported twice, and the later report counts.
    let runner4 = state.slice.get(&key("o/r", "runner-4")).unwrap();
    assert_eq!(runner4.as_ref().unwrap().workflow, "CI");
    assert_eq!(state.slice.len(), 3);
    let hosted: Vec<(&str, &str)> = state
        .hosted
        .iter()
        .map(|h| (h.workflow.as_str(), h.job.as_str()))
        .collect();
    assert_eq!(
        hosted,
        vec![
            ("Test", "E2E Tests"),
            ("Test", "Build"),
            ("CI", "Build"),
            ("CI", "Lint")
        ]
    );
    assert!(state.hosted.iter().all(|h| h.repo == "o/r"));
}

#[test]
fn an_organisation_tells_who_is_busy() {
    assert_eq!(org_path("ltdovr"), "orgs/ltdovr/actions/runners");
    let state = org_state("ltdovr", ORG_RUNNERS);
    assert_eq!(state.slice.len(), 1);
    assert!(state
        .slice
        .get(&key("ltdovr", "backontop"))
        .unwrap()
        .is_none());
    assert!(state.hosted.is_empty());
}

#[test]
fn failures_of_repositories_and_organisations_differ() {
    assert!(matches!(
        scope_outcome(ScopeKind::Repo, None),
        ScopeOutcome::RepoErr
    ));
    assert!(matches!(
        scope_outcome(ScopeKind::Org, None),
        ScopeOutcome::OrgSkip
    ));
    match scope_outcome(ScopeKind::Org, Some(busy_org())) {
        ScopeOutcome::Fresh(s) => assert_eq!(s.slice.len(), 1),
        _ => panic!("expected fresh findings"),
    }
}

#[test]
fn without_scopes_the_report_says_what_to_set() {
    assert!(nothing_to_poll(&[], &[]));
    assert!(!nothing_to_poll(&["a/b".to_string()], &[]));
    assert!(!nothing_to_poll(&[], &["org".to_string()]));
    let u = unset_update();
    assert!(u.jobs.is_empty() && u.hosted.is_empty());
    assert_eq!(
        u.error.as_deref(),
        Some("PITWALL_REPO unset \u{2014} set it to your runners' repo (e.g. myorg/myrepo)")
    );
}

#[test]
fn a_round_reports_all_scopes_with_hosted_jobs_in_order() {
    let mut prev = Keyed::new();
    prev.insert(
        "a/a".to_string(),
        ScopeState {
            slice: state_with("a/a", "runner-1").slice,
            hosted: vec![hosted_job("young", 5)],
        },
    );
    let fresh = ScopeState {
        slice: state_with("b/b", "runner-1").slice,
        hosted: vec![hosted_job("old", 50)],
    };
    let (next, update) = next_update(
        prev,
        vec![
            ("a/a".to_string(), ScopeOutcome::RepoErr),
            ("b/b".to_string(), ScopeOutcome::Fresh(fresh)),
        ],
        now(),
    );
    assert_eq!(next.len(), 2);
    assert_eq!(update.jobs.len(), 2);
    let order: Vec<&str> = update.hosted.iter().map(|h| h.job.as_str()).collect();
    assert_eq!(order, vec!["old", "young"]);
    assert_eq!(update.error.as_deref(), Some("gh: a/a"));
}

#[test]
fn scopes_with_runners_of_the_same_name_stay_apart() {
    let round = vec![
        (
            "a/x".to_string(),
            ScopeOutcome::Fresh(state_with("a/x", "runner-1")),
        ),
        (
            "b/y".to_string(),
            ScopeOutcome::Fresh(state_with("b/y", "runner-1")),
        ),
    ];
    let (known, update) = next_update(Keyed::new(), round, now());
    assert_eq!(update.jobs.len(), 2);
    assert!(update.jobs.contains_key(&key("a/x", "runner-1")));
    assert!(update.jobs.contains_key(&key("b/y", "runner-1")));

    // Fresh findings of one scope leave the other's alone.
    let round = vec![(
        "a/x".to_string(),
        ScopeOutcome::Fresh(ScopeState::default()),
    )];
    let (known, update) = next_update(known, round, now());
    assert_eq!(known.len(), 2);
    assert_eq!(update.jobs.len(), 1);
    assert!(update.jobs.contains_key(&key("b/y", "runner-1")));
}

#[test]
fn a_run_that_both_lists_name_is_read_once() {
    let mut poll = RepoPoll::new("o/r");
    // Run 7 stands twice in the first list and again in the second.
    let bodies = [
        (
            "repos/o/r/actions/runs?status=in_progress",
            r#"{"workflow_runs":[{"id":7,"name":"CI","head_branch":"main"},{"id":7,"name":"Again"}]}"#,
        ),
        ("repos/o/r/actions/runs/7/jobs", HOSTED_JOBS),
        (
            "repos/o/r/actions/runs?status=queued",
            r#"{"workflow_runs":[{"id":7,"name":"CI","head_branch":"main"},{"id":8,"name":"Docs"},{"id":8,"name":"Docs"}]}"#,
        ),
        ("repos/o/r/actions/runs/8/jobs", r#"{"jobs":[]}"#),
    ];
    for (path, body) in bodies {
        assert_eq!(poll.wanted().as_deref(), Some(path));
        poll = poll.feed(body, now());
    }
    assert_eq!(poll.wanted(), None);
    let state = poll.finish();
    let hosted: Vec<(&str, &str)> = state
        .hosted
        .iter()
        .map(|h| (h.workflow.as_str(), h.job.as_str()))
        .collect();
    assert_eq!(hosted, vec![("CI", "Build"), ("CI", "Lint")]);
}
