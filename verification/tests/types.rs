use task_nexus::types::{AppError, PendingProfile, PriorityLevel};

#[test]
fn priority_names_round_trip() {
    let levels = [
        PriorityLevel::Idle,
        PriorityLevel::BelowNormal,
        PriorityLevel::Normal,
        PriorityLevel::AboveNormal,
        PriorityLevel::High,
        PriorityLevel::RealTime,
    ];
    for level in levels {
        assert_eq!(PriorityLevel::from_str(level.as_str()), Some(level));
    }
    assert_eq!(PriorityLevel::from_str("HIGH"), Some(PriorityLevel::High));
    assert_eq!(PriorityLevel::from_str("belownormal"), Some(PriorityLevel::BelowNormal));
    assert_eq!(PriorityLevel::from_str("bogus"), None);
    assert_eq!(PriorityLevel::from_str(""), None);
}

#[test]
fn priority_display_forms() {
    assert_eq!(PriorityLevel::Normal.as_str(), "Normal");
    assert_eq!(PriorityLevel::RealTime.as_str(), "RealTime");
    assert_eq!(PriorityLevel::Normal.as_str_cn(), "正常");
    assert_eq!(PriorityLevel::Idle.as_str_cn(), "空闲");
    assert_eq!(PriorityLevel::RealTime.color(), (255, 50, 50));
    assert_eq!(PriorityLevel::Normal.color(), (150, 150, 150));
}

#[test]
fn pending_profile_emptiness() {
    let p = PendingProfile::new();
    assert!(p.is_empty());
    let q = PendingProfile {
        affinity_mask: None,
        priority: Some(PriorityLevel::High),
        thread_bind_core: None,
    };
    assert!(!q.is_empty());
}

#[test]
fn summary_of_empty_bundle() {
    assert_eq!(PendingProfile::new().summary(), "默认");
}

#[test]
fn summary_lists_up_to_four_cores() {
    let p = PendingProfile {
        affinity_mask: Some(0b1111),
        priority: None,
        thread_bind_core: None,
    };
    assert_eq!(p.summary(), "核心:0,1,2,3");
}

#[test]
fn summary_shows_contiguous_runs_as_ranges() {
    let p = PendingProfile {
        affinity_mask: Some(0b1_1111),
        priority: None,
        thread_bind_core: None,
    };
    assert_eq!(p.summary(), "核心:0-4");
}

#[test]
fn summary_counts_scattered_cores() {
    let p = PendingProfile {
        affinity_mask: Some(0b1010_1011),
        priority: None,
        thread_bind_core: None,
    };
    assert_eq!(p.summary(), "5核");
}

#[test]
fn summary_joins_parts() {
    let p = PendingProfile {
        affinity_mask: Some(0b11),
        priority: Some(PriorityLevel::High),
        thread_bind_core: Some(3),
    };
    assert_eq!(p.summary(), "核心:0,1 | 高 | 绑定:3");
    let q = PendingProfile {
        affinity_mask: None,
        priority: Some(PriorityLevel::BelowNormal),
        thread_bind_core: None,
    };
    assert_eq!(q.summary(), "低");
}

#[test]
fn error_messages() {
    assert_eq!(AppError::ProcessNotFound(42).message(), "进程不存在: 42");
    assert_eq!(AppError::InvalidPid(0).message(), "无效的进程 ID: 0");
    assert_eq!(
        AppError::InvalidAffinityMask("zz".to_string()).message(),
        "无效的核心掩码: zz"
    );
    assert_eq!(AppError::SystemError("boom".to_string()).message(), "系统错误: boom");
    assert_eq!(AppError::IoError("denied".to_string()).message(), "IO 错误: denied");
}
