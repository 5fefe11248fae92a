use task_nexus::topology::{get_cpu_topology, get_logical_cores, CacheRecord, CoreRecord};
use task_nexus::types::CoreType;

fn perf_cores(n: u32, class: u8) -> Vec<CoreRecord> {
    (0..n).map(|i| CoreRecord { mask: 1u64 << i, efficiency_class: class }).collect()
}

#[test]
fn eight_performance_cores() {
    let caches: Vec<CacheRecord> = Vec::new();
    let procs = perf_cores(8, 1);
    let topo = get_cpu_topology("test-cpu".to_string(), &caches, &procs);
    assert_eq!(topo.model, "test-cpu");
    assert_eq!(topo.logical_cores, 8);
    assert_eq!(topo.physical_cores, 8);
    assert!(!topo.is_hybrid);
    assert!(!topo.has_vcache);
    assert_eq!(topo.cores.len(), 8);
    for (i, c) in topo.cores.iter().enumerate() {
        assert_eq!(c.id, i);
        assert_eq!(c.core_type, CoreType::Performance);
    }
}

#[test]
fn vcache_split_cache() {
    // one 96 MiB L3 over cores {0,1}, one 32 MiB L3 over cores {2..7}
    let caches = vec![
        CacheRecord { level: 3, mask: 0b0000_0011, size: 96 * 1024 * 1024 },
        CacheRecord { level: 3, mask: 0b1111_1100, size: 32 * 1024 * 1024 },
    ];
    let procs = perf_cores(8, 0);
    let topo = get_cpu_topology("x".to_string(), &caches, &procs);
    assert!(topo.has_vcache);
    assert!(!topo.is_hybrid);
    for c in &topo.cores {
        if c.id < 2 {
            assert_eq!(c.core_type, CoreType::VCache);
            assert_eq!(c.group_id, 0b0000_0011);
        } else {
            assert_eq!(c.core_type, CoreType::Performance);
            assert_eq!(c.group_id, 0b1111_1100);
        }
    }
}

#[test]
fn hybrid_chip_efficiency_roles() {
    let caches: Vec<CacheRecord> = Vec::new();
    let mut procs = perf_cores(4, 1);
    procs.push(CoreRecord { mask: 0b11 << 4, efficiency_class: 0 });
    let cores = get_logical_cores(&caches, &procs);
    assert_eq!(cores.len(), 6);
    for c in &cores {
        if c.id < 4 {
            assert_eq!(c.core_type, CoreType::Performance);
        } else {
            assert_eq!(c.core_type, CoreType::Efficiency);
        }
    }
    let topo = get_cpu_topology("h".to_string(), &caches, &procs);
    assert!(topo.is_hybrid);
    assert_eq!(topo.physical_cores, 5);
    assert_eq!(topo.logical_cores, 6);
}

#[test]
fn vcache_wins_over_hybrid_detection() {
    // a chip that is both large-cache and hybrid must not report
    // Efficiency roles where the V-Cache role wins
    let caches = vec![CacheRecord { level: 3, mask: 0b1111, size: 96 * 1024 * 1024 }];
    let mut procs = perf_cores(2, 1);
    procs.push(CoreRecord { mask: 0b1100, efficiency_class: 0 });
    let topo = get_cpu_topology("hv".to_string(), &caches, &procs);
    assert!(topo.has_vcache);
    assert!(!topo.is_hybrid);
    for c in &topo.cores {
        assert_eq!(c.core_type, CoreType::VCache);
    }
}

#[test]
fn ids_unique_and_sorted() {
    let caches: Vec<CacheRecord> = Vec::new();
    let procs = vec![
        CoreRecord { mask: 0b1100, efficiency_class: 1 },
        CoreRecord { mask: 0b0011, efficiency_class: 1 },
    ];
    let cores = get_logical_cores(&caches, &procs);
    assert_eq!(cores.len(), 4);
    for (i, c) in cores.iter().enumerate() {
        assert_eq!(c.id, i);
        assert!((c.id as u32) < 4);
    }
    let topo = get_cpu_topology("s".to_string(), &caches, &procs);
    assert!(topo.physical_cores <= topo.logical_cores);
}

#[test]
fn empty_report_degrades_to_unknown() {
    let caches: Vec<CacheRecord> = Vec::new();
    let procs: Vec<CoreRecord> = Vec::new();
    let topo = get_cpu_topology("none".to_string(), &caches, &procs);
    assert_eq!(topo.logical_cores, 0);
    assert_eq!(topo.physical_cores, 0);
    assert!(!topo.is_hybrid);
    assert!(!topo.has_vcache);
    assert!(topo.cores.is_empty());
}

#[test]
fn last_cache_record_wins() {
    // two L3 records with the same mask: the later size is the one used
    let caches = vec![
        CacheRecord { level: 3, mask: 0b1, size: 96 * 1024 * 1024 },
        CacheRecord { level: 3, mask: 0b1, size: 32 * 1024 * 1024 },
    ];
    let procs = perf_cores(1, 0);
    let cores = get_logical_cores(&caches, &procs);
    assert_eq!(cores[0].core_type, CoreType::Performance);

    // non-level-3 records are ignored
    let caches2 = vec![CacheRecord { level: 2, mask: 0b1, size: 96 * 1024 * 1024 }];
    let cores2 = get_logical_cores(&caches2, &procs);
    assert_eq!(cores2[0].core_type, CoreType::Performance);
    assert_eq!(cores2[0].group_id, 0);
}
