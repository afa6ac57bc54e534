//! Usage figures.

use pitwall::stats_math::{cgroup_cpu_pct, cpu_pct, mem_share, mem_used, CpuShare, MemShare};

fn percent(s: CpuShare) -> f64 {
    s.busy as f64 / s.span as f64 * s.cores as f64 * 100.0
}

#[test]
fn cpu_percentage_matches_docker_formula() {
    let pct = percent(cpu_pct(
        2_000_000_000,
        1_000_000_000,
        8_000_000_000,
        4_000_000_000,
        4,
    ));
    assert!((pct - 100.0).abs() < 0.001, "got {pct}");
}

#[test]
fn cpu_zero_system_delta_is_zero() {
    assert_eq!(percent(cpu_pct(10, 5, 100, 100, 4)), 0.0);
}

#[test]
fn cpu_without_cores_or_with_a_counter_that_went_back_is_zero() {
    assert_eq!(percent(cpu_pct(10, 5, 200, 100, 0)), 0.0);
    assert_eq!(percent(cpu_pct(5, 10, 200, 100, 4)), 0.0);
    assert_eq!(percent(cpu_pct(10, 5, 100, 200, 4)), 0.0);
}

#[test]
fn mem_subtracts_inactive_file() {
    assert_eq!(mem_used(1000, 400), 600);
    assert_eq!(mem_used(300, 400), 0);
}

#[test]
fn cgroup_cpu_one_core_over_interval_is_100pct() {
    assert!((percent(cgroup_cpu_pct(1_000_000, 1_000_000)) - 100.0).abs() < 0.001);
    assert!((percent(cgroup_cpu_pct(2_000_000, 1_000_000)) - 200.0).abs() < 0.001);
}

#[test]
fn cgroup_cpu_zero_wall_delta_is_zero() {
    assert_eq!(percent(cgroup_cpu_pct(500, 0)), 0.0);
}

#[test]
fn memory_shares_without_a_limit_are_none() {
    assert_eq!(
        mem_share(500, 1000),
        MemShare {
            used: 500,
            limit: 1000
        }
    );
    assert_eq!(mem_share(500, 0), MemShare { used: 0, limit: 1 });
}
