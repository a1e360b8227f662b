//! Container resource figures from Docker's stats readings.

use vstd::prelude::*;

verus! {

/// A CPU reading as Docker reports it (current or previous).
#[derive(Clone, Debug, PartialEq, Eq)]
pub struct CpuReading {
    /// Total CPU time the container used.
    pub total_usage: Option<u64>,
    /// Total CPU time of the host.
    pub system_usage: Option<u64>,
    pub online_cpus: Option<u32>,
}

/// A memory reading as Docker reports it.
#[derive(Clone, Debug, PartialEq, Eq)]
pub struct MemoryReading {
    pub usage: Option<u64>,
    /// The `inactive_file` entry of the detailed statistics.
    pub inactive_file: Option<u64>,
    /// The `cache` entry of the detailed statistics.
    pub cache: Option<u64>,
    pub limit: Option<u64>,
}

/// One stats reading: current CPU, previous CPU and memory.
#[derive(Clone, Debug, PartialEq, Eq)]
pub struct StatsReading {
    pub cpu: Option<CpuReading>,
    pub precpu: Option<CpuReading>,
    pub memory: Option<MemoryReading>,
}

/// The container's share of host CPU time since the previous reading: the CPU
/// percentage is `cpu_delta / system_delta * cores * 100`.
#[derive(Clone, Copy, Debug, PartialEq, Eq, Structural)]
pub struct CpuShare {
    pub cpu_delta: u64,
    pub system_delta: u64,
    pub cores: u32,
}

/// The integer figures of one sample; the CPU share is absent when it is zero.
#[derive(Clone, Debug, PartialEq, Eq)]
pub struct StatsFigures {
    pub cpu: Option<CpuShare>,
    pub mem_used: u64,
    pub mem_limit: u64,
}

/// `a - b`, or 0 when `b` is larger.
pub open spec fn sat_sub(a: u64, b: u64) -> u64 {
    if a >= b {
        (a - b) as u64
    } else {
        0
    }
}

/// Docker's CPU formula before scaling: the deltas since the previous reading and
/// the core count (at least one); nothing when either delta is zero.
pub open spec fn cpu_share_spec(
    cpu_total: u64,
    precpu_total: u64,
    system: u64,
    presystem: u64,
    online: u32,
) -> Option<CpuShare> {
    let cpu_delta = sat_sub(cpu_total, precpu_total);
    let system_delta = sat_sub(system, presystem);
    if cpu_delta > 0 && system_delta > 0 {
        Some(
            CpuShare {
                cpu_delta,
                system_delta,
                cores: if online == 0 {
                    1
                } else {
                    online
                },
            },
        )
    } else {
        None
    }
}

/// See `cpu_share_spec`.
pub fn cpu_share(cpu_total: u64, precpu_total: u64, system: u64, presystem: u64, online: u32) -> (r:
    Option<CpuShare>)
    ensures
        r == cpu_share_spec(cpu_total, precpu_total, system, presystem, online),
{
    let cpu_delta = cpu_total.saturating_sub(precpu_total);
    let system_delta = system.saturating_sub(presystem);
    if system_delta > 0 && cpu_delta > 0 {
        let cores = if online > 1 {
            online
        } else {
            1
        };
        Some(CpuShare { cpu_delta, system_delta, cores })
    } else {
        None
    }
}

/// Memory in use as `docker stats` shows it: usage less the reclaimable page
/// cache (`inactive_file`, else `cache`, else nothing), never below zero.
pub open spec fn memory_used_spec(m: MemoryReading) -> u64 {
    let usage = match m.usage {
        Some(u) => u,
        None => 0,
    };
    let cache = match m.inactive_file {
        Some(c) => c,
        None => match m.cache {
            Some(c) => c,
            None => 0,
        },
    };
    sat_sub(usage, cache)
}

/// See `memory_used_spec`.
pub fn memory_used(m: &MemoryReading) -> (used: u64)
    ensures
        used == memory_used_spec(*m),
{
    let usage = match m.usage {
        Some(u) => u,
        None => 0,
    };
    let cache = match m.inactive_file {
        Some(c) => c,
        None => match m.cache {
            Some(c) => c,
            None => 0,
        },
    };
    usage.saturating_sub(cache)
}

/// The value of an optional reading, or a default.
pub open spec fn or_default<T>(o: Option<T>, d: T) -> T {
    match o {
        Some(v) => v,
        None => d,
    }
}

/// The figures of one reading; nothing when the CPU, previous CPU or memory
/// part is missing. Absent counters count as zero, absent core counts as one.
pub fn stats_figures(r: &StatsReading) -> (f: Option<StatsFigures>)
    ensures
        match (r.cpu, r.precpu, r.memory) {
            (Some(cpu), Some(pre), Some(mem)) => f matches Some(x) && x.cpu == cpu_share_spec(
                or_default(cpu.total_usage, 0),
                or_default(pre.total_usage, 0),
                or_default(cpu.system_usage, 0),
                or_default(pre.system_usage, 0),
                or_default(cpu.online_cpus, 1),
            ) && x.mem_used == memory_used_spec(mem) && x.mem_limit == or_default(mem.limit, 0),
            _ => f is None,
        },
{
    let cpu = match &r.cpu {
        Some(c) => c,
        None => {
            return None;
        },
    };
    let pre = match &r.precpu {
        Some(c) => c,
        None => {
            return None;
        },
    };
    let mem = match &r.memory {
        Some(m) => m,
        None => {
            return None;
        },
    };
    let share = cpu_share(
        match cpu.total_usage {
            Some(v) => v,
            None => 0,
        },
        match pre.total_usage {
            Some(v) => v,
            None => 0,
        },
        match cpu.system_usage {
            Some(v) => v,
            None => 0,
        },
        match pre.system_usage {
            Some(v) => v,
            None => 0,
        },
        match cpu.online_cpus {
            Some(v) => v,
            None => 1,
        },
    );
    let mem_limit = match mem.limit {
        Some(l) => l,
        None => 0,
    };
    Some(StatsFigures { cpu: share, mem_used: memory_used(mem), mem_limit })
}

/// Docker's CPU share, stated on its inputs: where both the container's and
/// the host's counters grew, the share holds those two growths and the online
/// core count (taken as one when zero); where either did not grow, there is no
/// share.
pub proof fn lemma_cpu_share_law(
    cpu_total: u64,
    precpu_total: u64,
    system: u64,
    presystem: u64,
    online: u32,
)
    ensures
        match cpu_share_spec(cpu_total, precpu_total, system, presystem, online) {
            Some(s) => {
                &&& cpu_total > precpu_total && system > presystem
                &&& s.cpu_delta + precpu_total == cpu_total
                &&& s.system_delta + presystem == system
                &&& s.cores >= 1 && s.cores >= online
                &&& online > 0 ==> s.cores == online
                &&& online == 0 ==> s.cores == 1
            },
            None => cpu_total <= precpu_total || system <= presystem,
        },
{
}

/// Memory in use never exceeds the reported usage, and is the usage less the
/// page cache (`inactive_file` first, else `cache`) when the cache is smaller.
pub proof fn lemma_memory_used_law(m: MemoryReading)
    ensures
        memory_used_spec(m) <= or_default(m.usage, 0),
        match (m.usage, m.inactive_file, m.cache) {
            (Some(u), Some(c), _) => if c <= u {
                memory_used_spec(m) + c == u
            } else {
                memory_used_spec(m) == 0
            },
            (Some(u), None, Some(c)) => if c <= u {
                memory_used_spec(m) + c == u
            } else {
                memory_used_spec(m) == 0
            },
            (Some(u), None, None) => memory_used_spec(m) == u,
            (None, _, _) => memory_used_spec(m) == 0,
        },
{
}

} // verus!
