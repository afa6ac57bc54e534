//! Runners in containers.

use pitwall::config::PrefixRule;
use pitwall::history::History;
use pitwall::jobs::Slice;
use pitwall::keyed::Keyed;
use pitwall::model::{join_keyed, runner_index, Load, RunnerKey, SourceKind};
use pitwall::resource_docker::{
    collect, cpu_from_samples, docker_runner_name, docker_update, err_update, matching_rule,
    select_containers, to_resource, Container, ContainerStats, CpuCounters, CpuSample, MemCounters,
};
use pitwall::stats_math::CpuShare;

fn rule(prefix: &str, repo: Option<&str>) -> PrefixRule {
    PrefixRule {
        prefix: prefix.into(),
        repo: repo.map(String::from),
    }
}

fn percent(s: CpuShare) -> f64 {
    s.busy as f64 / s.span as f64 * s.cores as f64 * 100.0
}

fn stats(total: u64, system: u64, usage: u64) -> ContainerStats {
    ContainerStats {
        cpu: Some(CpuCounters {
            online_cpus: Some(4),
            percpu_count: Some(2),
            total_usage: Some(total),
            system_cpu_usage: Some(system),
        }),
        memory: Some(MemCounters {
            usage: Some(usage),
            limit: Some(1000),
            inactive_file: Some(40),
        }),
    }
}

fn container(name: Option<&str>, id: Option<&str>) -> Container {
    Container {
        name: name.map(String::from),
        id: id.map(String::from),
    }
}

#[test]
fn matching_rule_trims_leading_slash_and_first_match_wins() {
    let rules = vec![
        rule("pulse-ci-runner-", Some("erwins-enkel/pulse")),
        rule("pulse-", Some("other/repo")),
    ];
    assert_eq!(
        matching_rule("/pulse-ci-runner-4", &rules).map(|r| r.prefix.as_str()),
        Some("pulse-ci-runner-")
    );
    assert!(matching_rule("other-thing", &rules).is_none());
}

#[test]
fn an_empty_prefix_matches_everything() {
    let rules = vec![rule("", None)];
    assert!(matching_rule("", &rules).is_some());
    assert!(matching_rule("//x", &rules).is_some());
    assert!(matching_rule("x", &[]).is_none());
}

#[test]
fn scope_selection_mapped_fleets_get_distinct_keys() {
    let rules = vec![
        rule("pulse-ci-runner-", Some("erwins-enkel/pulse")),
        rule("flowagent-ci-runner-", Some("ltdovr/flowagent")),
    ];
    let pulse = matching_rule("pulse-ci-runner-1", &rules).unwrap();
    let flow = matching_rule("flowagent-ci-runner-1", &rules).unwrap();
    assert_eq!(pulse.repo.as_deref(), Some("erwins-enkel/pulse"));
    assert_eq!(flow.repo.as_deref(), Some("ltdovr/flowagent"));
}

#[test]
fn scope_selection_unmapped_second_fleet_yields_no_key() {
    let rules = vec![
        rule("pulse-ci-runner-", Some("erwins-enkel/pulse")),
        rule("flowagent-ci-runner-", None),
    ];
    let flow = matching_rule("flowagent-ci-runner-1", &rules).unwrap();
    assert_eq!(flow.repo, None);
}

#[test]
fn first_poll_zero_then_delta_from_retained_sample() {
    let s0 = CpuSample {
        total: 1_000_000_000,
        system: 4_000_000_000,
    };
    assert_eq!(percent(cpu_from_samples(None, s0, 4)), 0.0);
    let s1 = CpuSample {
        total: 2_000_000_000,
        system: 8_000_000_000,
    };
    let pct = percent(cpu_from_samples(Some(s0), s1, 4));
    assert!((pct - 100.0).abs() < 0.001, "got {pct}");
}

#[test]
fn docker_runner_name_maps_container_to_github_runner() {
    assert_eq!(docker_runner_name("pulse-ci-runner-4"), "runner-4");
    assert_eq!(docker_runner_name("weird-name"), "weird-name");
}

#[test]
fn registered_names_keep_the_number() {
    for name in ["x-0", "x-007", "x-4294967295", "x-y-12"] {
        assert_eq!(
            runner_index(&docker_runner_name(name)),
            runner_index(name),
            "{name}"
        );
    }
    assert_eq!(docker_runner_name("x-007"), "runner-7");
}

#[test]
fn readings_need_both_groups_of_counters() {
    let mut prev = Keyed::new();
    let full = stats(10, 100, 500);
    let no_cpu = ContainerStats { cpu: None, ..full };
    let no_mem = ContainerStats {
        memory: None,
        ..full
    };
    assert!(to_resource("id", "/r-1", None, &no_cpu, &mut prev).is_none());
    assert!(to_resource("id", "/r-1", None, &no_mem, &mut prev).is_none());
    assert!(prev.is_empty());
    let r = to_resource("id", "/r-1", Some("o/r"), &full, &mut prev).unwrap();
    assert_eq!(r.name, "r-1");
    assert_eq!(
        r.key,
        Some(RunnerKey {
            scope: "o/r".into(),
            name: "runner-1".into()
        })
    );
    assert_eq!(r.mem_bytes, 460);
    assert_eq!(r.mem_limit, 1000);
    assert_eq!(percent(r.cpu_pct), 0.0);
    assert_eq!(r.kind, SourceKind::Docker);
    let again = to_resource("id", "/r-1", None, &stats(20, 120, 10), &mut prev).unwrap();
    assert_eq!(percent(again.cpu_pct), 200.0);
    assert_eq!(again.mem_bytes, 0);
    assert!(again.key.is_none());
}

#[test]
fn missing_counters_have_their_defaults() {
    let mut prev = Keyed::new();
    let bare = ContainerStats {
        cpu: Some(CpuCounters {
            online_cpus: None,
            percpu_count: None,
            total_usage: None,
            system_cpu_usage: None,
        }),
        memory: Some(MemCounters {
            usage: None,
            limit: None,
            inactive_file: None,
        }),
    };
    let r = to_resource("id", "n", None, &bare, &mut prev).unwrap();
    assert_eq!((r.mem_bytes, r.mem_limit), (0, 0));
    let later = ContainerStats {
        cpu: Some(CpuCounters {
            online_cpus: None,
            percpu_count: Some(3),
            total_usage: Some(1),
            system_cpu_usage: Some(2),
        }),
        ..bare
    };
    let r = to_resource("id", "n", None, &later, &mut prev).unwrap();
    assert_eq!(
        r.cpu_pct,
        CpuShare {
            busy: 1,
            span: 2,
            cores: 3
        }
    );
}

#[test]
fn selection_counts_what_matches_and_reads_what_has_an_identifier() {
    let rules = vec![rule("ci-", Some("o/r")), rule("x-", None)];
    let list = vec![
        container(Some("/ci-1"), Some("a")),
        container(Some("/ci-2"), None),
        container(None, Some("b")),
        container(Some("/other"), Some("c")),
        container(Some("/x-1"), Some("d")),
    ];
    let s = select_containers(&list, &rules);
    assert_eq!((s.matched_seen, s.unmatched_seen), (3, 2));
    let targets: Vec<(&str, &str, Option<&str>)> = s
        .targets
        .iter()
        .map(|t| (t.id.as_str(), t.name.as_str(), t.repo.as_deref()))
        .collect();
    assert_eq!(
        targets,
        vec![("a", "/ci-1", Some("o/r")), ("d", "/x-1", None)]
    );
}

#[test]
fn samples_of_containers_that_are_gone_are_dropped() {
    let rules = vec![rule("ci-", Some("o/r"))];
    let both = select_containers(
        &[
            container(Some("ci-1"), Some("a")),
            container(Some("ci-2"), Some("b")),
        ],
        &rules,
    );
    let mut prev = Keyed::new();
    let first = collect(
        &both.targets,
        &[Some(stats(1, 10, 100)), Some(stats(1, 10, 100))],
        &mut prev,
    );
    assert_eq!(first.len(), 2);
    assert_eq!(prev.len(), 2);
    let one = select_containers(&[container(Some("ci-2"), Some("b"))], &rules);
    let second = collect(&one.targets, &[None], &mut prev);
    assert!(second.is_empty());
    assert_eq!(prev.len(), 1);
    let third = collect(&one.targets, &[Some(stats(3, 14, 100))], &mut prev);
    assert_eq!(
        third[0].cpu_pct,
        CpuShare {
            busy: 2,
            span: 4,
            cores: 4
        }
    );
}

#[test]
fn reports_carry_readings_or_the_reason() {
    let ok = docker_update(Vec::new(), 2, 3);
    assert_eq!((ok.matched_seen, ok.unmatched_seen), (2, 3));
    assert!(ok.error.is_none());
    let failed = err_update("refused");
    assert_eq!(failed.error.as_deref(), Some("docker: refused"));
    assert!(failed.resources.is_empty());
    assert_eq!(failed.source, SourceKind::Docker);
}

#[test]
fn numbered_containers_show_their_own_fleets_job() {
    let rules = vec![
        rule("pulse-ci-runner-", Some("o/pulse")),
        rule("flow-ci-runner-", Some("o/flow")),
    ];
    let list = vec![
        container(Some("/pulse-ci-runner-1"), Some("a")),
        container(Some("/flow-ci-runner-1"), Some("b")),
    ];
    let picked = select_containers(&list, &rules);
    let read = vec![Some(stats(1, 1, 1)), Some(stats(1, 1, 1))];
    let resources = collect(&picked.targets, &read, &mut Keyed::new());

    let mut jobs: Slice = Keyed::new();
    jobs.insert(
        RunnerKey {
            scope: "o/flow".into(),
            name: "runner-1".into(),
        },
        None,
    );
    let rows = join_keyed(&resources, &jobs, &History::default(), 85, 90);
    let load = |name: &str| rows.iter().find(|r| r.name == name).unwrap().load;
    assert_eq!(load("flow-ci-runner-1"), Load::Busy);
    assert_eq!(load("pulse-ci-runner-1"), Load::Idle);
}
