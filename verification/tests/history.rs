//! The history of runners.

use pitwall::history::{History, WINDOW};
use pitwall::model::{RunnerResource, SourceKind};
use pitwall::stats_math::{CpuShare, MemShare};

fn pct(n: u64) -> CpuShare {
    CpuShare {
        busy: n,
        span: 100,
        cores: 1,
    }
}

fn percents(v: Vec<CpuShare>) -> Vec<f64> {
    v.iter()
        .map(|s| s.busy as f64 / s.span as f64 * s.cores as f64 * 100.0)
        .map(|p| (p * 1e6).round() / 1e6)
        .collect()
}

fn fractions(v: Vec<MemShare>) -> Vec<f64> {
    v.iter().map(|s| s.used as f64 / s.limit as f64).collect()
}

fn res(name: &str, cpu: u64, mem: u64, limit: u64) -> RunnerResource {
    RunnerResource {
        name: name.into(),
        cpu_pct: pct(cpu),
        mem_bytes: mem,
        mem_limit: limit,
        key: None,
        kind: SourceKind::Docker,
    }
}

#[test]
fn records_one_point_per_runner_per_snapshot() {
    let mut h = History::default();
    h.record(&[res("r-1", 10, 100, 1000), res("r-2", 20, 200, 1000)]);
    h.record(&[res("r-1", 12, 150, 1000), res("r-2", 22, 250, 1000)]);
    assert_eq!(percents(h.cpu("r-1")), &[10.0, 12.0]);
    assert_eq!(percents(h.cpu("r-2")), &[20.0, 22.0]);
    assert_eq!(fractions(h.mem_frac("r-1")), &[0.1, 0.15]);
}

#[test]
fn bounded_to_window_with_fifo_eviction() {
    let mut h = History::default();
    for i in 0..(WINDOW as u64 + 5) {
        h.record(&[res("r-1", i, 0, 1000)]);
    }
    let cpu = percents(h.cpu("r-1"));
    assert_eq!(cpu.len(), WINDOW);
    assert_eq!(cpu.first(), Some(&5.0));
    assert_eq!(cpu.last(), Some(&((WINDOW as f64) + 4.0)));
}

#[test]
fn prunes_absent_runners() {
    let mut h = History::default();
    h.record(&[res("r-1", 1, 0, 1000), res("r-2", 2, 0, 1000)]);
    h.record(&[res("r-1", 3, 0, 1000)]);
    assert_eq!(percents(h.cpu("r-1")), &[1.0, 3.0]);
    assert!(h.cpu("r-2").is_empty());
}

#[test]
fn zero_mem_limit_yields_zero_fraction() {
    let mut h = History::default();
    h.record(&[res("r-1", 0, 500, 0)]);
    assert_eq!(fractions(h.mem_frac("r-1")), &[0.0]);
}

#[test]
fn unknown_runner_returns_empty() {
    let h = History::default();
    assert!(h.cpu("nope").is_empty());
    assert!(h.mem_frac("nope").is_empty());
}

#[test]
fn a_runner_that_is_known_but_not_sampled_keeps_its_series() {
    let mut h = History::default();
    h.record(&[res("r-1", 1, 0, 1000), res("r-2", 2, 0, 1000)]);
    let sample = [res("r-1", 3, 0, 1000)];
    let known = [res("r-1", 3, 0, 1000), res("r-2", 2, 0, 1000)];
    h.record_among(&sample, &known);
    assert_eq!(percents(h.cpu("r-1")), &[1.0, 3.0]);
    assert_eq!(percents(h.cpu("r-2")), &[2.0]);
}
