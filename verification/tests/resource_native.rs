//! Runners that the service manager runs.

use pitwall::app::{apply_resource_update, AppState};
use pitwall::keyed::Keyed;
use pitwall::model::{RunnerKey, RunnerResource, SourceKind};
use pitwall::resource_native::{
    build_runner, collect_one, derive_scopes, derive_scopes_from, discover_inner, finalize,
    parse_dot_runner, parse_inactive_file, parse_mem_max, parse_scope, parse_show,
    parse_units_output, parse_usage_usec, sweep, unit_display, CgroupFiles, NativeRunner,
    ReadOutcome, Scope,
};
use pitwall::stats_math::CpuShare;

fn runner(path: &str) -> NativeRunner {
    NativeRunner {
        display: "scoop-vanscout".into(),
        cgroup_path: path.into(),
        scope: None,
        key: None,
    }
}

fn text(s: &str) -> Result<Option<String>, String> {
    Ok(Some(s.into()))
}

fn files(usage: u64, read_at: u64) -> CgroupFiles {
    CgroupFiles {
        cpu_stat: Ok(Some(format!("usage_usec {usage}\nuser_usec 1\n"))),
        memory_current: text("119373824\n"),
        memory_stat: text("anon 1\ninactive_file 15044608\n"),
        memory_max: text("max\n"),
        read_at,
    }
}

fn absent() -> CgroupFiles {
    CgroupFiles {
        cpu_stat: Ok(None),
        memory_current: Ok(None),
        memory_stat: Ok(None),
        memory_max: Ok(None),
        read_at: 0,
    }
}

fn percent(s: CpuShare) -> f64 {
    s.busy as f64 / s.span as f64 * s.cores as f64 * 100.0
}

#[test]
fn collect_one_reads_working_set_and_deltas_cpu() {
    let r = runner("/cg");
    let mut prev = Keyed::new();
    match collect_one(&r, &files(1_000_000, 0), &mut prev) {
        ReadOutcome::Reading(res) => {
            assert_eq!(percent(res.cpu_pct), 0.0);
            assert_eq!(res.mem_bytes, 119373824 - 15044608);
            assert_eq!(res.mem_limit, 0);
        }
        _ => panic!("expected a reading"),
    }
    match collect_one(&r, &files(3_000_000, 1_000_000_999), &mut prev) {
        ReadOutcome::Reading(res) => assert_eq!(percent(res.cpu_pct), 200.0),
        _ => panic!("expected a reading"),
    }
    match collect_one(&r, &files(4_000_000, 1_000_001_500), &mut prev) {
        ReadOutcome::Reading(res) => assert_eq!(percent(res.cpu_pct), 0.0),
        _ => panic!("expected a reading"),
    }
}

#[test]
fn collect_one_absent_cgroup_is_gone_not_error() {
    let r = runner("/nonexistent/pitwall/cgroup");
    let mut prev = Keyed::new();
    assert!(matches!(
        collect_one(&r, &absent(), &mut prev),
        ReadOutcome::Gone
    ));
}

#[test]
fn collect_one_unreadable_file_is_error() {
    let mut f = files(1, 0);
    f.cpu_stat = Err("Is a directory".into());
    let mut prev = Keyed::new();
    match collect_one(&runner("/cg"), &f, &mut prev) {
        ReadOutcome::Failed(e) => assert_eq!(e, "scoop-vanscout: Is a directory"),
        _ => panic!("expected a failure"),
    }
}

#[test]
fn files_without_figures_are_errors_and_optional_files_may_be_missing() {
    let mut prev = Keyed::new();
    let fails = |f: CgroupFiles| match collect_one(&runner("/cg"), &f, &mut Keyed::new()) {
        ReadOutcome::Failed(e) => e,
        _ => panic!("expected a failure"),
    };
    let mut no_usage = files(1, 0);
    no_usage.cpu_stat = text("user_usec 1\n");
    assert_eq!(
        fails(no_usage),
        "scoop-vanscout: cpu.stat has no usage_usec"
    );
    let mut bad_memory = files(1, 0);
    bad_memory.memory_current = text("lots");
    assert_eq!(fails(bad_memory), "scoop-vanscout: bad memory.current");
    let mut denied = files(1, 0);
    denied.memory_current = Err("denied".into());
    assert_eq!(fails(denied), "scoop-vanscout: denied");
    let mut gone = files(1, 0);
    gone.memory_current = Ok(None);
    assert!(matches!(
        collect_one(&runner("/cg"), &gone, &mut prev),
        ReadOutcome::Gone
    ));
    let mut bare = files(1, 0);
    bare.memory_stat = Err("denied".into());
    bare.memory_max = Ok(None);
    match collect_one(&runner("/cg"), &bare, &mut prev) {
        ReadOutcome::Reading(res) => {
            assert_eq!((res.mem_bytes, res.mem_limit), (119373824, 0));
        }
        _ => panic!("expected a reading"),
    }
}

fn reading() -> RunnerResource {
    RunnerResource {
        name: "ltdovr".into(),
        cpu_pct: CpuShare {
            busy: 0,
            span: 1,
            cores: 1,
        },
        mem_bytes: 1,
        mem_limit: 0,
        key: None,
        kind: SourceKind::Native,
    }
}

#[test]
fn finalize_reports_and_preserves_on_error() {
    let res = vec![reading()];
    let (out, err) = finalize(res.clone(), vec![]);
    assert_eq!(out.len(), 1);
    assert!(err.is_none());
    let (out, err) = finalize(res, vec!["scoop-vanscout: denied".into()]);
    assert!(out.is_empty());
    assert_eq!(err.as_deref(), Some("native: scoop-vanscout: denied"));
}

#[test]
fn a_sweep_lists_all_complaints_and_forgets_runners_that_are_gone() {
    let runners = vec![runner("/a"), runner("/b"), runner("/c")];
    let mut prev = Keyed::new();
    let update = sweep(
        &runners,
        &[files(1, 0), files(1, 0), files(1, 0)],
        &mut prev,
    );
    assert_eq!(update.resources.len(), 3);
    assert_eq!(update.source, SourceKind::Native);
    assert_eq!(prev.len(), 3);
    let mut denied = files(2, 10);
    denied.cpu_stat = Err("denied".into());
    let mut odd = files(2, 10);
    odd.memory_current = text("");
    let update = sweep(&runners, &[absent(), denied, odd], &mut prev);
    assert!(update.resources.is_empty());
    assert_eq!(
        update.error.as_deref(),
        Some("native: scoop-vanscout: denied; scoop-vanscout: bad memory.current")
    );
    assert_eq!(prev.len(), 2);
    assert!(!prev.contains_key(&"/a".to_string()));
}

#[test]
fn parse_units_keeps_only_actions_runner_services() {
    let out = "actions.runner.ltdovr.backontop.service loaded active running GitHub Actions Runner\n\
               actions.runner.scoop-vanscout.backontop.service loaded active running x\n\
               some-other.service loaded active running y\n";
    assert_eq!(
        parse_units_output(out),
        vec![
            "actions.runner.ltdovr.backontop.service",
            "actions.runner.scoop-vanscout.backontop.service"
        ]
    );
}

#[test]
fn parse_show_extracts_controlgroup_and_workdir() {
    let s = "ControlGroup=/system.slice/actions.runner.ltdovr.backontop.service\n\
             WorkingDirectory=/home/patrick/Work/flowagent-runner\n";
    let (cg, wd) = parse_show(s);
    assert_eq!(
        cg.as_deref(),
        Some("/system.slice/actions.runner.ltdovr.backontop.service")
    );
    assert_eq!(wd.as_deref(), Some("/home/patrick/Work/flowagent-runner"));
}

#[test]
fn the_last_of_two_equal_properties_counts() {
    let (cg, wd) = parse_show("ControlGroup=/a\r\nControlGroup= /b \nOther=1");
    assert_eq!(cg.as_deref(), Some("/b"));
    assert_eq!(wd, None);
}

#[test]
fn unit_display_takes_registration_segment() {
    assert_eq!(
        unit_display("actions.runner.scoop-kanban-api.backontop-kanban-api.service").as_deref(),
        Some("scoop-kanban-api")
    );
    assert_eq!(
        unit_display("actions.runner.ltdovr.backontop.service").as_deref(),
        Some("ltdovr")
    );
}

#[test]
fn units_with_other_names_have_no_registration() {
    assert_eq!(unit_display("some-other.service"), None);
    assert_eq!(unit_display("actions.runner.x"), None);
    assert_eq!(unit_display("actions.runner.x.service").as_deref(), Some("x"));
    assert_eq!(
        unit_display("actions.runner.a.b.c.service").as_deref(),
        Some("a.b")
    );
}

#[test]
fn parse_scope_distinguishes_org_from_repo() {
    assert_eq!(
        parse_scope("https://github.com/ltdovr"),
        Some(Scope::Org("ltdovr".into()))
    );
    assert_eq!(
        parse_scope("https://github.com/scoop/kanban-api"),
        Some(Scope::Repo("scoop/kanban-api".into()))
    );
    assert_eq!(
        parse_scope("https://github.com/scoop/mensamax-ui/"),
        Some(Scope::Repo("scoop/mensamax-ui".into()))
    );
}

#[test]
fn other_addresses_have_no_scope() {
    assert_eq!(
        parse_scope(" http://github.com//a//b/c// "),
        Some(Scope::Repo("a/b".into()))
    );
    assert_eq!(parse_scope("https://github.com/"), None);
    assert_eq!(parse_scope("https://github.com//"), None);
    assert_eq!(parse_scope("https://example.com/a"), None);
    assert_eq!(parse_scope(""), None);
}

#[test]
fn parse_dot_runner_tolerates_bom() {
    let json = "\u{feff}{\"agentName\":\"backontop-kanban-api\",\"gitHubUrl\":\"https://github.com/scoop/kanban-api\"}";
    let (agent, scope) = parse_dot_runner(json).unwrap();
    assert_eq!(agent, "backontop-kanban-api");
    assert_eq!(scope, Scope::Repo("scoop/kanban-api".into()));
}

#[test]
fn registrations_need_a_name_and_an_address() {
    assert!(parse_dot_runner("{\"agentName\":\"a\"}").is_none());
    assert!(parse_dot_runner("{\"gitHubUrl\":\"https://github.com/a\"}").is_none());
    assert!(parse_dot_runner("{\"agentName\":1,\"gitHubUrl\":\"https://github.com/a\"}").is_none());
    assert!(parse_dot_runner("nonsense").is_none());
}

#[test]
fn cgroup_stat_parsers() {
    let cpu = "usage_usec 760229237\nuser_usec 354270695\nsystem_usec 405958541\n";
    assert_eq!(parse_usage_usec(cpu), Some(760229237));
    let mem = "anon 100\ninactive_file 15044608\nfile 200\n";
    assert_eq!(parse_inactive_file(mem), 15044608);
    assert_eq!(parse_inactive_file("anon 100\n"), 0);
    assert_eq!(parse_mem_max("max\n"), 0);
    assert_eq!(parse_mem_max("8589934592\n"), 8589934592);
}

#[test]
fn the_first_line_with_a_figure_counts() {
    assert_eq!(
        parse_usage_usec("usage_usec x\nusage_usec 5\n"),
        None
    );
    assert_eq!(parse_usage_usec("a\nusage_usec 5"), Some(5));
    assert_eq!(parse_inactive_file("inactive_file ?\n"), 0);
    assert_eq!(parse_mem_max("?"), 0);
}

#[test]
fn build_runner_with_dot_runner_has_matchable_key() {
    let dot = "{\"agentName\":\"backontop-vanscout\",\"gitHubUrl\":\"https://github.com/scoop/vanscout\"}";
    let r = build_runner(
        "actions.runner.scoop-vanscout.backontop.service",
        "/sys/fs/cgroup/system.slice/x".into(),
        Some(dot),
    )
    .unwrap();
    assert_eq!(r.display, "scoop-vanscout");
    assert_eq!(
        r.key,
        Some(RunnerKey {
            scope: "scoop/vanscout".into(),
            name: "backontop-vanscout".into()
        })
    );
    assert_eq!(r.scope, Some(Scope::Repo("scoop/vanscout".into())));
    assert_eq!(r.scope.as_ref().unwrap().as_key(), "scoop/vanscout");
}

#[test]
fn build_runner_without_readable_dot_runner_is_resource_only() {
    let r = build_runner(
        "actions.runner.ltdovr.backontop.service",
        "/sys/fs/cgroup/system.slice/x".into(),
        None,
    )
    .unwrap();
    assert_eq!(r.display, "ltdovr");
    assert!(r.key.is_none());
    assert!(r.scope.is_none());
}

fn registered(unit: &str, dot: Option<&str>) -> NativeRunner {
    build_runner(unit, "/cg".into(), dot).unwrap()
}

fn four_runners() -> Vec<NativeRunner> {
    vec![
        registered(
            "actions.runner.scoop-vanscout.backontop.service",
            Some("{\"agentName\":\"backontop-vanscout\",\"gitHubUrl\":\"https://github.com/scoop/vanscout\"}"),
        ),
        registered(
            "actions.runner.ltdovr.backontop.service",
            Some("{\"agentName\":\"backontop\",\"gitHubUrl\":\"https://github.com/ltdovr\"}"),
        ),
        registered(
            "actions.runner.dup.host.service",
            Some("{\"agentName\":\"dup\",\"gitHubUrl\":\"https://github.com/erwins-enkel/pulse\"}"),
        ),
        registered("actions.runner.blind.host.service", None),
    ]
}

#[test]
fn derive_scopes_dedups_repos_and_collects_orgs() {
    let runners = four_runners();
    let (repos, orgs) = derive_scopes("erwins-enkel/pulse", &runners);
    assert_eq!(repos, vec!["erwins-enkel/pulse", "scoop/vanscout"]);
    assert_eq!(orgs, vec!["ltdovr"]);
}

#[test]
fn scopes_may_start_from_several_repositories_or_none() {
    let runners = four_runners();
    let (repos, _) = derive_scopes_from(&[], &runners);
    assert_eq!(repos, vec!["scoop/vanscout", "erwins-enkel/pulse"]);
    let seed = vec!["a/b".to_string(), "scoop/vanscout".to_string()];
    let (repos, orgs) = derive_scopes_from(&seed, &runners);
    assert_eq!(repos, vec!["a/b", "scoop/vanscout", "erwins-enkel/pulse"]);
    assert_eq!(orgs, vec!["ltdovr"]);
}

#[test]
fn discover_empty_when_systemctl_absent() {
    let runners = discover_inner(|_: &[&str]| None, |_: &str| None);
    assert!(runners.is_empty());
}

#[test]
fn discover_empty_when_no_units_listed() {
    let runners = discover_inner(|_: &[&str]| Some(String::new()), |_: &str| None);
    assert!(runners.is_empty());
}

#[test]
fn discover_assembles_runners_from_fakes() {
    let systemctl = |args: &[&str]| -> Option<String> {
        if args.first() == Some(&"list-units") {
            Some(
                "actions.runner.scoop-vanscout.backontop.service loaded active running x\n".into(),
            )
        } else {
            Some(
                "ControlGroup=/system.slice/actions.runner.scoop-vanscout.backontop.service\n\
                 WorkingDirectory=/work/vanscout-runner\n"
                    .into(),
            )
        }
    };
    let read_file = |p: &str| -> Option<String> {
        assert_eq!(p, "/work/vanscout-runner/.runner");
        Some("{\"agentName\":\"backontop-vanscout\",\"gitHubUrl\":\"https://github.com/scoop/vanscout\"}".into())
    };
    let runners = discover_inner(systemctl, read_file);
    assert_eq!(runners.len(), 1);
    assert_eq!(runners[0].display, "scoop-vanscout");
    assert_eq!(
        runners[0].cgroup_path,
        "/sys/fs/cgroup/system.slice/actions.runner.scoop-vanscout.backontop.service"
    );
    assert_eq!(runners[0].key.as_ref().unwrap().scope, "scoop/vanscout");
}

#[test]
fn units_without_properties_or_a_control_group_are_passed_over() {
    let systemctl = |args: &[&str]| -> Option<String> {
        match args[0] {
            "list-units" => {
                assert_eq!(args[5], "actions.runner.*.service");
                Some(
                    "actions.runner.a.h.service x\nactions.runner.b.h.service x\nactions.runner.c.h.service x\n"
                        .into(),
                )
            }
            _ => match args[1] {
                "actions.runner.a.h.service" => None,
                "actions.runner.b.h.service" => Some("ControlGroup=\nWorkingDirectory=/w\n".into()),
                _ => Some("ControlGroup=/c\n".into()),
            },
        }
    };
    let runners = discover_inner(systemctl, |_: &str| -> Option<String> {
        panic!("nothing to read")
    });
    assert_eq!(runners.len(), 1);
    assert_eq!(runners[0].display, "c");
    assert!(runners[0].key.is_none());
}

#[test]
fn an_unreadable_runner_does_not_hide_the_others() {
    let mut healthy = runner("/a");
    healthy.display = "ltdovr".into();
    let runners = vec![healthy, runner("/b")];
    let mut denied = files(2, 10);
    denied.cpu_stat = Err("denied".into());
    let update = sweep(&runners, &[files(1, 0), denied], &mut Keyed::new());
    assert_eq!(update.error.as_deref(), Some("native: scoop-vanscout: denied"));
    let names: Vec<&str> = update.resources.iter().map(|r| r.name.as_str()).collect();
    assert_eq!(names, vec!["ltdovr"]);

    // The report reaches the screen with the healthy row, its history and the complaint.
    let mut state = AppState::default();
    apply_resource_update(&mut state, update);
    assert_eq!(state.rows(85, 90).len(), 1);
    assert_eq!(state.history.cpu("ltdovr").len(), 1);
    assert_eq!(
        state.banner().as_deref(),
        Some("native: scoop-vanscout: denied")
    );
}
