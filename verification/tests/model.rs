//! Runners, jobs and deployments.

use pitwall::history::History;
use pitwall::keyed::Keyed;
use pitwall::model::{
    elapsed_secs, join, join_keyed, mem_level, runner_index, slice_total, slice_total_bytes,
    sort_deployments, sort_hosted, DeployStatus, Deployment, HostedJob, HostedStatus, JobInfo, Load,
    MemLevel, RunnerKey, RunnerResource, SourceKind, Timestamp,
};
use pitwall::stats_math::CpuShare;
use std::collections::HashMap;

const NOW: i64 = 1_800_000_000;

fn at(secs: i64) -> Timestamp {
    Timestamp { secs, nanos: 0 }
}

fn now() -> Timestamp {
    at(NOW)
}

fn pct(n: u64) -> CpuShare {
    CpuShare {
        busy: n,
        span: 100,
        cores: 1,
    }
}

fn res(name: &str, mem: u64) -> RunnerResource {
    RunnerResource {
        name: name.into(),
        cpu_pct: pct(1),
        mem_bytes: mem,
        mem_limit: 8 * 1024 * 1024 * 1024,
        key: None,
        kind: SourceKind::Docker,
    }
}

fn key(scope: &str, name: &str) -> RunnerKey {
    RunnerKey {
        scope: scope.into(),
        name: name.into(),
    }
}

fn job(name: &str, started_at: Timestamp) -> JobInfo {
    JobInfo {
        workflow: "ci".into(),
        job: name.into(),
        branch: "main".into(),
        started_at,
    }
}

#[test]
fn parses_runner_index() {
    assert_eq!(runner_index("pulse-ci-runner-4"), Some(4));
    assert_eq!(runner_index("runner-2"), Some(2));
    assert_eq!(runner_index("nope"), None);
}

#[test]
fn runner_numbers_follow_the_rules_for_unsigned_numbers() {
    assert_eq!(runner_index("7"), Some(7));
    assert_eq!(runner_index("runner-+4"), Some(4));
    assert_eq!(runner_index("runner-007"), Some(7));
    assert_eq!(runner_index("runner-"), None);
    assert_eq!(runner_index("runner-4294967295"), Some(u32::MAX));
    assert_eq!(runner_index("runner-4294967296"), None);
    assert_eq!(runner_index(""), None);
}

#[test]
fn no_job_is_idle() {
    let rows = join(vec![res("pulse-ci-runner-1", 100)], &HashMap::new(), now());
    assert!(matches!(rows[0].load, Load::Idle));
    assert!(rows[0].job.is_none());
}

#[test]
fn job_present_is_busy() {
    let mut jobs = HashMap::new();
    jobs.insert(1u32, job("test", at(NOW - 30)));
    let rows = join(vec![res("pulse-ci-runner-1", 100)], &jobs, now());
    assert!(matches!(rows[0].load, Load::Busy));
    assert_eq!(
        elapsed_secs(rows[0].job.as_ref().unwrap().started_at, now()),
        30
    );
}

#[test]
fn high_mem_is_near_cap() {
    let cap = 8u64 * 1024 * 1024 * 1024;
    let rows = join(
        vec![res("pulse-ci-runner-1", (cap as f64 * 0.95) as u64)],
        &HashMap::new(),
        now(),
    );
    assert!(matches!(rows[0].load, Load::NearCap));
}

#[test]
fn rows_sorted_by_index_and_slice_summed() {
    let rows = join(
        vec![res("pulse-ci-runner-3", 300), res("pulse-ci-runner-1", 100)],
        &HashMap::new(),
        now(),
    );
    assert_eq!(rows[0].name, "pulse-ci-runner-1");
    assert_eq!(slice_total_bytes(&rows), 400);
}

#[test]
fn rows_without_a_number_come_last_and_equal_ones_keep_their_order() {
    let rows = join(
        vec![
            res("zeta", 1),
            res("b-2", 2),
            res("alpha", 3),
            res("a-2", 4),
            res("c-1", 5),
        ],
        &HashMap::new(),
        now(),
    );
    let names: Vec<&str> = rows.iter().map(|r| r.name.as_str()).collect();
    assert_eq!(names, vec!["c-1", "b-2", "a-2", "zeta", "alpha"]);
}

#[test]
fn a_total_that_does_not_fit_is_none() {
    let rows = join(
        vec![res("r-1", u64::MAX), res("r-2", 1)],
        &HashMap::new(),
        now(),
    );
    assert_eq!(slice_total(&rows), None);
    let rows = join(
        vec![res("r-1", u64::MAX - 1), res("r-2", 1)],
        &HashMap::new(),
        now(),
    );
    assert_eq!(slice_total(&rows), Some(u64::MAX));
}

#[test]
fn levels_change_at_the_thresholds() {
    assert_eq!(mem_level(849, 1000, 85, 90), MemLevel::Normal);
    assert_eq!(mem_level(850, 1000, 85, 90), MemLevel::Warn);
    assert_eq!(mem_level(899, 1000, 85, 90), MemLevel::Warn);
    assert_eq!(mem_level(900, 1000, 85, 90), MemLevel::Critical);
    assert_eq!(mem_level(u64::MAX, 0, 85, 90), MemLevel::Normal);
    assert_eq!(mem_level(0, 1, 0, 0), MemLevel::Critical);
    assert_eq!(mem_level(u64::MAX, u64::MAX, 85, 100), MemLevel::Critical);
}

#[test]
fn levels_agree_with_ratios_of_ordinary_sizes() {
    let limit: u64 = 8 * 1024 * 1024 * 1024;
    for step in 0..=1000u64 {
        let used = limit / 1000 * step + step;
        let ratio = used as f64 / limit as f64;
        let expected = if ratio >= 0.90 {
            MemLevel::Critical
        } else if ratio >= 0.85 {
            MemLevel::Warn
        } else {
            MemLevel::Normal
        };
        assert_eq!(mem_level(used, limit, 85, 90), expected);
    }
}

#[test]
fn keyed_rows_show_jobs_busy_runners_and_idle_ones() {
    let mut jobs: Keyed<RunnerKey, Option<JobInfo>> = Keyed::new();
    jobs.insert(key("o/r", "runner-1"), Some(job("test", at(NOW - 5))));
    jobs.insert(key("org", "runner-2"), None);
    let mut with_job = res("x-1", 100);
    with_job.key = Some(key("o/r", "runner-1"));
    let mut busy_only = res("x-2", 100);
    busy_only.key = Some(key("org", "runner-2"));
    let mut other_scope = res("x-3", 100);
    other_scope.key = Some(key("org", "runner-1"));
    let no_key = res("x-4", 100);
    let mut h = History::default();
    h.record(&[with_job.clone()]);
    let rows = join_keyed(
        &[no_key, other_scope, busy_only, with_job],
        &jobs,
        &h,
        85,
        90,
    );
    let loads: Vec<Load> = rows.iter().map(|r| r.load).collect();
    assert_eq!(loads, vec![Load::Busy, Load::Busy, Load::Idle, Load::Idle]);
    assert_eq!(rows[0].job.as_ref().unwrap().job, "test");
    assert!(rows[1].job.is_none());
    assert_eq!(rows[0].cpu_hist, vec![pct(1)]);
    assert!(rows[1].cpu_hist.is_empty());
}

#[test]
fn a_busy_runner_in_the_warning_band_stays_busy() {
    let cap = 8u64 * 1024 * 1024 * 1024;
    let mut jobs: Keyed<RunnerKey, Option<JobInfo>> = Keyed::new();
    jobs.insert(key("o/r", "runner-1"), Some(job("test", now())));
    let mut r = res("x-1", cap / 100 * 87);
    r.key = Some(key("o/r", "runner-1"));
    let rows = join_keyed(&[r], &jobs, &History::default(), 85, 90);
    assert_eq!(rows[0].load, Load::Busy);
    assert_eq!(rows[0].mem_level, MemLevel::Warn);
}

#[test]
fn time_that_runs_back_counts_as_none() {
    assert_eq!(elapsed_secs(at(10), at(9)), 0);
    assert_eq!(
        elapsed_secs(
            Timestamp {
                secs: 10,
                nanos: 999_999_999
            },
            at(12)
        ),
        1
    );
    assert_eq!(elapsed_secs(at(-5), at(5)), 10);
    assert_eq!(elapsed_secs(at(i64::MIN), at(i64::MAX)), u64::MAX);
}

fn hosted(job: &str, status: HostedStatus, ago: i64) -> HostedJob {
    HostedJob {
        repo: "o/r".into(),
        workflow: "w".into(),
        job: job.into(),
        label: "ubuntu-latest".into(),
        branch: "main".into(),
        status,
        since: at(NOW - ago),
    }
}

#[test]
fn sort_hosted_running_first_then_longest_first() {
    let mut v = vec![
        hosted("q-new", HostedStatus::Queued, 5),
        hosted("run-new", HostedStatus::InProgress, 10),
        hosted("q-old", HostedStatus::Queued, 90),
        hosted("run-old", HostedStatus::InProgress, 120),
    ];
    sort_hosted(&mut v, now());
    let order: Vec<&str> = v.iter().map(|h| h.job.as_str()).collect();
    assert_eq!(order, vec!["run-old", "run-new", "q-old", "q-new"]);
}

#[test]
fn hosted_jobs_of_one_age_keep_their_order() {
    let mut v = vec![
        hosted("b", HostedStatus::InProgress, 10),
        hosted("a", HostedStatus::InProgress, 10),
        hosted("future", HostedStatus::InProgress, -10),
        hosted("now", HostedStatus::InProgress, 0),
    ];
    sort_hosted(&mut v, now());
    let order: Vec<&str> = v.iter().map(|h| h.job.as_str()).collect();
    assert_eq!(order, vec!["b", "a", "future", "now"]);
}

#[test]
fn deployments_that_are_built_come_first() {
    let d = |project: &str, status: DeployStatus, ago: i64| Deployment {
        repo: "o/r".into(),
        project: project.into(),
        target: "preview".into(),
        branch: "main".into(),
        commit_summary: "x".into(),
        status,
        started_at: at(NOW - ago),
    };
    let mut v = vec![
        d("q-new", DeployStatus::Queued, 1),
        d("b-new", DeployStatus::Building, 2),
        d("q-old", DeployStatus::Queued, 30),
        d("b-old", DeployStatus::Building, 40),
    ];
    sort_deployments(&mut v, now());
    let order: Vec<&str> = v.iter().map(|d| d.project.as_str()).collect();
    assert_eq!(order, vec!["b-old", "b-new", "q-old", "q-new"]);
}

#[test]
fn fleets_stand_together_in_the_order_of_their_numbers() {
    let named = |names: &[&str]| -> Vec<String> {
        let mut readings: Vec<RunnerResource> = names.iter().map(|n| res(n, 1)).collect();
        for r in readings.iter_mut() {
            if r.name.starts_with("native") {
                r.kind = SourceKind::Native;
            }
        }
        join_keyed(&readings, &Keyed::new(), &History::default(), 85, 90)
            .into_iter()
            .map(|r| r.name)
            .collect()
    };
    assert_eq!(named(&["b-2", "a-3", "a-1"]), vec!["a-1", "a-3", "b-2"]);
    // Numbers count, not their digits; a name without one is the last of its fleet.
    assert_eq!(
        named(&["a-x", "b-1", "a-10", "a-9", "ab-1"]),
        vec!["a-9", "a-10", "a-x", "ab-1", "b-1"]
    );
    // Names without a dash form a fleet of their own, in front of the others.
    assert_eq!(named(&["a-1", "10", "9"]), vec!["9", "10", "a-1"]);
    // Native runners come last, by number, and then in the order in which they came.
    assert_eq!(
        named(&["native-z", "native-2", "b-7", "native-a", "native-1"]),
        vec!["b-7", "native-1", "native-2", "native-z", "native-a"]
    );
}

#[test]
fn the_total_counts_containers_only() {
    let mut native = res("box-1", 5);
    native.kind = SourceKind::Native;
    let rows = join_keyed(
        &[res("a-1", 7), native],
        &Keyed::new(),
        &History::default(),
        85,
        90,
    );
    assert_eq!(slice_total(&rows), Some(7));
    assert_eq!(slice_total_bytes(&rows), 7);
}
