//! The state behind the screen.

use pitwall::app::{
    apply_jobs_update, apply_resource_update, fill_scopes, is_quit, prefix_label, AppLoop,
    AppState, Event, KeyCode, KeyEvent, Step,
};
use pitwall::config::{resolve, Env, FileConfig};
use pitwall::jobs::{JobsUpdate, Slice};
use pitwall::model::{
    HostedJob, HostedStatus, JobInfo, RunnerKey, RunnerResource, SourceKind, Timestamp,
};
use pitwall::resource::ResourceUpdate;
use pitwall::resource_native::{NativeRunner, Scope};
use pitwall::stats_math::CpuShare;
use pitwall::vercel::VercelUpdate;

fn now() -> Timestamp {
    Timestamp {
        secs: 1_800_000_000,
        nanos: 0,
    }
}

fn resource(name: &str, kind: SourceKind) -> RunnerResource {
    RunnerResource {
        name: name.into(),
        cpu_pct: CpuShare {
            busy: 1,
            span: 100,
            cores: 1,
        },
        mem_bytes: 100,
        mem_limit: 8 * 1024 * 1024 * 1024,
        key: None,
        kind,
    }
}

fn docker_update(resources: Vec<RunnerResource>, error: Option<String>) -> ResourceUpdate {
    let (m, u) = if error.is_none() {
        (resources.len(), 0)
    } else {
        (0, 0)
    };
    ResourceUpdate {
        source: SourceKind::Docker,
        resources,
        matched_seen: m,
        unmatched_seen: u,
        error,
    }
}

fn native_update(resources: Vec<RunnerResource>, error: Option<String>) -> ResourceUpdate {
    ResourceUpdate {
        source: SourceKind::Native,
        resources,
        matched_seen: 0,
        unmatched_seen: 0,
        error,
    }
}

fn job() -> JobInfo {
    JobInfo {
        workflow: "ci".into(),
        job: "test".into(),
        branch: "main".into(),
        started_at: now(),
    }
}

fn key(name: &str) -> RunnerKey {
    RunnerKey {
        scope: "erwins-enkel/pulse".into(),
        name: name.into(),
    }
}

#[test]
fn docker_error_preserves_last_known_and_leaves_native_untouched() {
    let mut state = AppState {
        docker_resources: vec![
            resource("pulse-ci-runner-1", SourceKind::Docker),
            resource("pulse-ci-runner-2", SourceKind::Docker),
        ],
        native_resources: vec![resource("ltdovr", SourceKind::Native)],
        ..Default::default()
    };

    apply_resource_update(
        &mut state,
        docker_update(vec![], Some("docker: x".to_string())),
    );

    assert_eq!(state.docker_resources.len(), 2);
    assert_eq!(state.docker_err, Some("docker: x".to_string()));
    assert_eq!(state.native_resources.len(), 1);
}

#[test]
fn resource_success_replaces_its_own_slice() {
    let mut state = AppState {
        native_resources: vec![
            resource("ltdovr", SourceKind::Native),
            resource("scoop-vanscout", SourceKind::Native),
        ],
        native_err: Some("stale error".to_string()),
        ..Default::default()
    };

    apply_resource_update(
        &mut state,
        native_update(vec![resource("ltdovr", SourceKind::Native)], None),
    );

    assert_eq!(state.native_resources.len(), 1);
    assert!(state.native_err.is_none());
}

#[test]
fn native_partial_error_applies_healthy_and_still_banners() {
    let mut state = AppState {
        native_resources: vec![resource("stale-runner", SourceKind::Native)],
        ..Default::default()
    };

    apply_resource_update(
        &mut state,
        native_update(
            vec![resource("ltdovr", SourceKind::Native)],
            Some("native: scoop-vanscout: denied".to_string()),
        ),
    );

    assert_eq!(state.native_resources.len(), 1);
    assert_eq!(state.native_resources[0].name, "ltdovr");
    assert_eq!(
        state.native_err.as_deref(),
        Some("native: scoop-vanscout: denied")
    );
    assert!(!state.history.cpu("ltdovr").is_empty());
}

#[test]
fn success_poll_records_history_for_both_sources() {
    let mut state = AppState::default();
    apply_resource_update(
        &mut state,
        docker_update(
            vec![resource("pulse-ci-runner-1", SourceKind::Docker)],
            None,
        ),
    );
    apply_resource_update(
        &mut state,
        native_update(vec![resource("ltdovr", SourceKind::Native)], None),
    );
    assert!(!state.history.cpu("pulse-ci-runner-1").is_empty());
    assert!(!state.history.cpu("ltdovr").is_empty());
}

#[test]
fn each_poll_samples_its_own_source_only() {
    let mut state = AppState::default();
    apply_resource_update(
        &mut state,
        docker_update(vec![resource("r-1", SourceKind::Docker)], None),
    );
    for _ in 0..3 {
        apply_resource_update(
            &mut state,
            native_update(vec![resource("ltdovr", SourceKind::Native)], None),
        );
    }
    assert_eq!(state.history.cpu("r-1").len(), 1);
    assert_eq!(state.history.cpu("ltdovr").len(), 3);
    apply_resource_update(&mut state, docker_update(vec![], None));
    assert!(state.history.cpu("r-1").is_empty());
    assert_eq!(state.history.cpu("ltdovr").len(), 3);
}

#[test]
fn error_poll_does_not_touch_history() {
    let mut state = AppState::default();
    apply_resource_update(
        &mut state,
        docker_update(
            vec![resource("pulse-ci-runner-1", SourceKind::Docker)],
            None,
        ),
    );
    let before = state.history.cpu("pulse-ci-runner-1").len();
    apply_resource_update(
        &mut state,
        docker_update(vec![], Some("docker: x".to_string())),
    );
    assert_eq!(state.history.cpu("pulse-ci-runner-1").len(), before);
    assert_eq!(state.matched_seen, 1);
}

#[test]
fn jobs_update_always_replaces() {
    let mut stale = Slice::new();
    stale.insert(key("runner-1"), Some(job()));
    let mut state = AppState {
        jobs: stale,
        jobs_err: Some("stale error".to_string()),
        ..Default::default()
    };

    let mut fresh = Slice::new();
    fresh.insert(key("runner-2"), Some(job()));
    apply_jobs_update(
        &mut state,
        JobsUpdate {
            jobs: fresh,
            hosted: Vec::new(),
            error: None,
        },
    );

    assert_eq!(state.jobs.len(), 1);
    assert!(state.jobs.contains_key(&key("runner-2")));
    assert!(state.jobs_err.is_none());
}

#[test]
fn jobs_update_sets_hosted() {
    let mut state = AppState::default();
    let hosted = vec![HostedJob {
        repo: "o/r".into(),
        workflow: "CI".into(),
        job: "Build".into(),
        label: "ubuntu-latest".into(),
        branch: "main".into(),
        status: HostedStatus::InProgress,
        since: now(),
    }];
    apply_jobs_update(
        &mut state,
        JobsUpdate {
            jobs: Slice::new(),
            hosted,
            error: None,
        },
    );
    assert_eq!(state.hosted.len(), 1);
    assert_eq!(state.hosted[0].job, "Build");
}

#[test]
fn the_first_complaint_is_shown() {
    let mut state = AppState::default();
    assert_eq!(state.banner(), None);
    state.jobs_err = Some("jobs".into());
    assert_eq!(state.banner().as_deref(), Some("jobs"));
    state.native_err = Some("native".into());
    assert_eq!(state.banner().as_deref(), Some("native"));
    state.docker_err = Some("docker".into());
    assert_eq!(state.banner().as_deref(), Some("docker"));
}

#[test]
fn rows_join_both_sources_with_the_jobs() {
    let mut docker = resource("ci-runner-2", SourceKind::Docker);
    docker.key = Some(key("runner-2"));
    let native = resource("box-1", SourceKind::Native);
    let mut state = AppState {
        docker_resources: vec![docker],
        native_resources: vec![native],
        ..Default::default()
    };
    state.jobs.insert(key("runner-2"), Some(job()));
    let rows = state.rows(85, 90);
    let names: Vec<&str> = rows.iter().map(|r| r.name.as_str()).collect();
    // Containers come before native runners, whatever their numbers.
    assert_eq!(names, vec!["ci-runner-2", "box-1"]);
    assert_eq!(rows[0].job.as_ref().unwrap().job, "test");
    assert!(rows[1].job.is_none());
}

fn press(code: KeyCode, control: bool) -> KeyEvent {
    KeyEvent {
        code,
        control,
        press: true,
    }
}

#[test]
fn q_esc_and_ctrl_c_quit() {
    assert!(is_quit(&press(KeyCode::Char('q'), false)));
    assert!(is_quit(&press(KeyCode::Char('q'), true)));
    assert!(is_quit(&press(KeyCode::Esc, false)));
    assert!(is_quit(&press(KeyCode::Char('c'), true)));
    assert!(!is_quit(&press(KeyCode::Char('c'), false)));
    assert!(!is_quit(&press(KeyCode::Char('Q'), false)));
    assert!(!is_quit(&press(KeyCode::Other, true)));
    assert!(!is_quit(&KeyEvent {
        code: KeyCode::Esc,
        control: false,
        press: false
    }));
}

#[test]
fn the_loop_quits_on_keys_and_on_the_end_of_the_input() {
    let mut l = AppLoop::new();
    assert_eq!(l.handle(Event::Tick), Step::Redraw);
    assert_eq!(l.handle(Event::OtherInput), Step::Redraw);
    assert_eq!(
        l.handle(Event::Key(press(KeyCode::Other, false))),
        Step::Redraw
    );
    assert_eq!(
        l.handle(Event::Key(press(KeyCode::Esc, false))),
        Step::Quit
    );
    assert_eq!(l.handle(Event::InputClosed), Step::Quit);
}

#[test]
fn the_loop_stops_listening_to_reporters_that_are_gone() {
    let mut l = AppLoop::new();
    assert!(l.res_alive && l.jobs_alive && l.deployments_alive);
    assert_eq!(l.handle(Event::ResourcesClosed), Step::Redraw);
    assert_eq!(l.handle(Event::JobsClosed), Step::Redraw);
    assert_eq!(l.handle(Event::DeploymentsClosed), Step::Redraw);
    assert!(!l.res_alive && !l.jobs_alive && !l.deployments_alive);
    let mut l = AppLoop::new();
    l.handle(Event::Resources(docker_update(
        vec![resource("r-1", SourceKind::Docker)],
        None,
    )));
    l.handle(Event::Jobs(JobsUpdate {
        jobs: Slice::new(),
        hosted: Vec::new(),
        error: Some("gh: o/r".into()),
    }));
    l.handle(Event::Deployments(VercelUpdate {
        deployments: Vec::new(),
    }));
    assert_eq!(l.state.docker_resources.len(), 1);
    assert_eq!(l.state.banner().as_deref(), Some("gh: o/r"));
}

#[test]
fn scopes_come_from_the_settings_the_rules_and_the_runners() {
    let env = Env {
        vars: vec![
            ("PITWALL_REPO".into(), "a/b".into()),
            ("PITWALL_PREFIX".into(), "x-,y-=c/d".into()),
        ],
    };
    let mut cfg = resolve(FileConfig::default(), &env, 1);
    let native = |scope: Option<Scope>| NativeRunner {
        display: "d".into(),
        cgroup_path: "/cg".into(),
        scope,
        key: None,
    };
    let natives = vec![
        native(Some(Scope::Repo("c/d".into()))),
        native(Some(Scope::Repo("e/f".into()))),
        native(Some(Scope::Org("org".into()))),
        native(None),
    ];
    let multi = fill_scopes(&mut cfg, &natives);
    assert!(multi);
    assert_eq!(cfg.repos, vec!["a/b", "c/d", "e/f"]);
    assert_eq!(cfg.orgs, vec!["org"]);
    assert_eq!(cfg.configured_repos, vec!["a/b"]);
    assert_eq!(prefix_label(&cfg.prefixes), "x-, y-");
    let mut single = resolve(FileConfig::default(), &Env { vars: vec![] }, 1);
    assert!(!fill_scopes(&mut single, &[]));
    assert!(single.repos.is_empty());
}
