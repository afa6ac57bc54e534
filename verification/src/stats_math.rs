//! Usage figures, kept as exact ratios of counters.

use vstd::prelude::*;

verus! {

/// A share of CPU time: `busy` out of `span`, both in one unit, times `cores`.
/// As a percentage it is `100 * busy * cores / span`, so that 100 stands for one
/// full core.
#[derive(Clone, Copy, Debug, PartialEq, Eq, Structural)]
pub struct CpuShare {
    pub busy: u64,
    pub span: u64,
    pub cores: u64,
}

/// A share of memory: `used` out of `limit` bytes.
#[derive(Clone, Copy, Debug, PartialEq, Eq, Structural)]
pub struct MemShare {
    pub used: u64,
    pub limit: u64,
}

impl CpuShare {
    /// The share of which nothing is known, and which counts as none.
    pub open spec fn none() -> CpuShare {
        CpuShare { busy: 0, span: 1, cores: 1 }
    }

    /// The percentage's numerator; its denominator is `span`.
    pub open spec fn percent_times_span(self) -> int {
        100 * self.busy * self.cores
    }
}

impl MemShare {
    /// The share of `used` in `limit`; none where there is no limit.
    pub open spec fn of(used: u64, limit: u64) -> MemShare {
        if limit > 0 {
            MemShare { used, limit }
        } else {
            MemShare { used: 0, limit: 1 }
        }
    }
}

/// `a - b`, or zero where `b` is the larger.
pub open spec fn less(a: u64, b: u64) -> u64 {
    if a >= b {
        (a - b) as u64
    } else {
        0
    }
}

/// The share of none.
pub fn no_cpu() -> (r: CpuShare)
    ensures
        r == CpuShare::none(),
        r.percent_times_span() == 0,
{
    CpuShare { busy: 0, span: 1, cores: 1 }
}

/// The share of `used` in `limit`; none where there is no limit.
pub fn mem_share(used: u64, limit: u64) -> (r: MemShare)
    ensures
        r == MemShare::of(used, limit),
        r.limit > 0,
{
    if limit > 0 {
        MemShare { used, limit }
    } else {
        MemShare { used: 0, limit: 1 }
    }
}

/// CPU use between two readings of a container's counters and the machine's, on
/// `online` cores. It is none while the machine's counter has not moved.
pub fn cpu_pct(
    cpu_total: u64,
    precpu_total: u64,
    system: u64,
    presystem: u64,
    online: u64,
) -> (r: CpuShare)
    ensures
        system <= presystem || online == 0 ==> r == CpuShare::none(),
        system > presystem && online > 0 ==> r == (CpuShare {
            busy: less(cpu_total, precpu_total),
            span: (system - presystem) as u64,
            cores: online,
        }),
        r.span > 0,
{
    let cpu_delta = cpu_total.saturating_sub(precpu_total);
    let system_delta = system.saturating_sub(presystem);
    if system_delta == 0 || online == 0 {
        return no_cpu();
    }
    CpuShare { busy: cpu_delta, span: system_delta, cores: online }
}

/// The working set: memory in use less the file pages that can be given back.
pub fn mem_used(usage: u64, inactive_file: u64) -> (r: u64)
    ensures
        r == less(usage, inactive_file),
{
    usage.saturating_sub(inactive_file)
}

/// CPU use of a control group: CPU time over wall-clock time. One full core is
/// 100 percent.
pub fn cgroup_cpu_pct(delta_usage_usec: u64, delta_wall_usec: u64) -> (r: CpuShare)
    ensures
        delta_wall_usec == 0 ==> r == CpuShare::none(),
        delta_wall_usec > 0 ==> r == (CpuShare {
            busy: delta_usage_usec,
            span: delta_wall_usec,
            cores: 1,
        }),
        r.span > 0,
{
    if delta_wall_usec == 0 {
        return no_cpu();
    }
    CpuShare { busy: delta_usage_usec, span: delta_wall_usec, cores: 1 }
}

/// A difference and what was taken away add up to the whole; nothing is left where more was
/// taken than there was.
pub proof fn differences_add_up(a: u64, b: u64)
    ensures
        b <= a ==> less(a, b) + b == a,
        a <= b ==> less(a, b) == 0,
{
}

/// A memory share is the use out of the limit; without a limit it is none, and it can
/// always be divided out.
pub proof fn memory_shares_are_use_out_of_limit(used: u64, limit: u64)
    ensures
        limit > 0 ==> MemShare::of(used, limit).used == used && MemShare::of(used, limit).limit
            == limit,
        limit == 0 ==> MemShare::of(used, limit).used == 0,
        MemShare::of(used, limit).limit > 0,
        CpuShare::none().percent_times_span() == 0,
        CpuShare::none().span > 0,
{
}

/// A share's percentage is a hundred times the busy time on all cores, over the time that
/// passed: one core that is always busy counts as 100.
pub proof fn one_busy_core_is_a_hundred_percent(span: u64, cores: u64)
    ensures
        (CpuShare { busy: span, span, cores: 1 }).percent_times_span() == 100 * span,
        (CpuShare { busy: span, span, cores }).percent_times_span() == 100 * (span * cores),
{
    assert(100 * span * cores == 100 * (span * cores)) by (nonlinear_arith);
}

} // verus!
