use task_nexus::cascade::{cascade_full_mask, plan_cascade_binds, rank_threads, ThreadBind};
use task_nexus::types::{AppError, ThreadSample};

#[test]
fn empty_core_list_is_invalid_input() {
    let err = cascade_full_mask(&vec![]).unwrap_err();
    assert_eq!(err, AppError::InvalidAffinityMask("核心列表不能为空".to_string()));
}

#[test]
fn out_of_range_core_is_invalid_mask() {
    let err = cascade_full_mask(&vec![64]).unwrap_err();
    assert_eq!(err, AppError::InvalidAffinityMask("无效的核心掩码".to_string()));
    let err = cascade_full_mask(&vec![200]).unwrap_err();
    assert_eq!(err, AppError::InvalidAffinityMask("无效的核心掩码".to_string()));
}

#[test]
fn full_mask_is_union_of_bits() {
    assert_eq!(cascade_full_mask(&vec![3, 7]).unwrap(), (1u64 << 3) | (1u64 << 7));
    assert_eq!(cascade_full_mask(&vec![0]).unwrap(), 1);
    assert_eq!(cascade_full_mask(&vec![1, 1, 1]).unwrap(), 2);
    // an in-range core keeps the mask valid even beside an out-of-range one
    assert_eq!(cascade_full_mask(&vec![70, 2]).unwrap(), 4);
}

#[test]
fn busiest_two_threads_get_the_priority_cores() {
    let first = vec![
        ThreadSample { tid: 10, cpu_time_ns: 1_000 },
        ThreadSample { tid: 11, cpu_time_ns: 2_000 },
        ThreadSample { tid: 12, cpu_time_ns: 3_000 },
    ];
    let second = vec![
        ThreadSample { tid: 10, cpu_time_ns: 1_100 }, // delta 100: A
        ThreadSample { tid: 11, cpu_time_ns: 2_050 }, // delta 50: B
        ThreadSample { tid: 12, cpu_time_ns: 3_010 }, // delta 10
    ];
    let ranked = rank_threads(&first, &second);
    assert_eq!(ranked.len(), 3);
    assert_eq!(ranked[0].tid, 10);
    assert_eq!(ranked[0].delta, 100);
    assert_eq!(ranked[1].tid, 11);
    assert_eq!(ranked[1].delta, 50);

    let binds = plan_cascade_binds(&ranked, &vec![3, 7]);
    assert_eq!(binds.len(), 2);
    assert_eq!(binds[0], ThreadBind { tid: 10, mask: 1u64 << 3 });
    assert_eq!(binds[1], ThreadBind { tid: 11, mask: 1u64 << 7 });

    // the process-wide outer mask is the union of both cores
    assert_eq!(cascade_full_mask(&vec![3, 7]).unwrap(), (1u64 << 3) | (1u64 << 7));
}

#[test]
fn threads_missing_from_either_snapshot_are_discarded() {
    let first = vec![
        ThreadSample { tid: 1, cpu_time_ns: 500 },
        ThreadSample { tid: 2, cpu_time_ns: 500 },
    ];
    let second = vec![
        ThreadSample { tid: 2, cpu_time_ns: 700 },
        ThreadSample { tid: 3, cpu_time_ns: 900 }, // spawned: not rankable
    ];
    let ranked = rank_threads(&first, &second);
    assert_eq!(ranked.len(), 1);
    assert_eq!(ranked[0].tid, 2);
    assert_eq!(ranked[0].delta, 200);
}

#[test]
fn decreasing_cpu_time_is_discarded() {
    let first = vec![ThreadSample { tid: 5, cpu_time_ns: 1_000 }];
    let second = vec![ThreadSample { tid: 5, cpu_time_ns: 900 }];
    assert!(rank_threads(&first, &second).is_empty());
}

#[test]
fn single_core_binds_only_the_busiest() {
    let first = vec![
        ThreadSample { tid: 1, cpu_time_ns: 0 },
        ThreadSample { tid: 2, cpu_time_ns: 0 },
    ];
    let second = vec![
        ThreadSample { tid: 1, cpu_time_ns: 10 },
        ThreadSample { tid: 2, cpu_time_ns: 90 },
    ];
    let ranked = rank_threads(&first, &second);
    let binds = plan_cascade_binds(&ranked, &vec![5]);
    assert_eq!(binds.len(), 1);
    assert_eq!(binds[0], ThreadBind { tid: 2, mask: 1u64 << 5 });
}

#[test]
fn no_rankable_threads_no_binds() {
    let ranked = rank_threads(&vec![], &vec![]);
    let binds = plan_cascade_binds(&ranked, &vec![0, 1]);
    assert!(binds.is_empty());
}
