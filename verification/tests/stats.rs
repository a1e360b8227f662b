use peekr::stats::{cpu_share, memory_used, stats_figures, CpuReading, CpuShare, MemoryReading, StatsReading};

#[test]
fn cpu_share_scales_by_cores() {
    assert_eq!(
        cpu_share(200, 100, 2000, 1000, 4),
        Some(CpuShare { cpu_delta: 100, system_delta: 1000, cores: 4 })
    );
}

#[test]
fn cpu_share_none_when_no_delta() {
    assert_eq!(cpu_share(100, 100, 2000, 1000, 4), None);
    assert_eq!(cpu_share(200, 100, 1000, 1000, 4), None);
    // counters going backwards saturate to zero
    assert_eq!(cpu_share(50, 100, 2000, 1000, 4), None);
}

#[test]
fn cpu_share_treats_zero_cores_as_one() {
    assert_eq!(
        cpu_share(200, 100, 2000, 1000, 0),
        Some(CpuShare { cpu_delta: 100, system_delta: 1000, cores: 1 })
    );
}

fn mem(usage: Option<u64>, inactive_file: Option<u64>, cache: Option<u64>) -> MemoryReading {
    MemoryReading { usage, inactive_file, cache, limit: Some(4096) }
}

#[test]
fn memory_used_subtracts_page_cache() {
    assert_eq!(memory_used(&mem(Some(1000), Some(200), Some(300))), 800);
    assert_eq!(memory_used(&mem(Some(1000), None, Some(300))), 700);
    assert_eq!(memory_used(&mem(Some(1000), None, None)), 1000);
    assert_eq!(memory_used(&mem(Some(100), None, Some(300))), 0);
    assert_eq!(memory_used(&mem(None, None, None)), 0);
}

fn cpu(total: u64, system: u64, online: Option<u32>) -> CpuReading {
    CpuReading { total_usage: Some(total), system_usage: Some(system), online_cpus: online }
}

#[test]
fn stats_figures_of_a_full_reading() {
    let r = StatsReading {
        cpu: Some(cpu(200, 2000, None)),
        precpu: Some(cpu(100, 1000, Some(8))),
        memory: Some(mem(Some(1000), Some(200), None)),
    };
    let f = stats_figures(&r).unwrap();
    assert_eq!(f.cpu, Some(CpuShare { cpu_delta: 100, system_delta: 1000, cores: 1 }));
    assert_eq!(f.mem_used, 800);
    assert_eq!(f.mem_limit, 4096);
}

#[test]
fn stats_figures_need_all_parts() {
    let full = StatsReading {
        cpu: Some(cpu(200, 2000, Some(2))),
        precpu: Some(cpu(100, 1000, Some(2))),
        memory: Some(mem(Some(1), None, None)),
    };
    assert!(stats_figures(&full).is_some());
    assert!(stats_figures(&StatsReading { cpu: None, ..full.clone() }).is_none());
    assert!(stats_figures(&StatsReading { precpu: None, ..full.clone() }).is_none());
    assert!(stats_figures(&StatsReading { memory: None, ..full }).is_none());
}

#[test]
fn stats_figures_count_absent_counters_as_zero() {
    let r = StatsReading {
        cpu: Some(CpuReading { total_usage: None, system_usage: None, online_cpus: None }),
        precpu: Some(CpuReading { total_usage: None, system_usage: None, online_cpus: None }),
        memory: Some(MemoryReading { usage: None, inactive_file: None, cache: None, limit: None }),
    };
    let f = stats_figures(&r).unwrap();
    assert_eq!(f.cpu, None);
    assert_eq!(f.mem_used, 0);
    assert_eq!(f.mem_limit, 0);
}
