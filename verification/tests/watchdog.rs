use task_nexus::types::{PriorityLevel, ProcessInfo};
use task_nexus::watchdog::{
    apply_default_rules, check_and_restrain, check_and_trim_memory, enforce_profiles,
    record_restrained, restore_all, restrain_processes, DefaultRulesConfig, GovernorState,
    ProBalanceConfig, ProBalanceDecision, Profile, SmartTrimConfig, WatchdogAction,
};

fn proc(pid: u32, name: &str, cpu_centi: u64, priority: &str, affinity: &str) -> ProcessInfo {
    ProcessInfo {
        pid,
        parent_pid: None,
        name: name.to_string(),
        cpu_usage: cpu_centi,
        memory_usage: 0,
        priority: priority.to_string(),
        cpu_affinity: affinity.to_string(),
        thread_count: 1,
        user: String::new(),
        path: String::new(),
    }
}

#[test]
fn governor_state_starts_ready_to_trim() {
    let st = GovernorState::new(10_000);
    assert!(st.restrained.is_empty());
    assert_eq!(st.last_trim, 10_000 - 3600);
    let st0 = GovernorState::new(100);
    assert_eq!(st0.last_trim, 0);
}

#[test]
fn smart_trim_debounces_within_interval() {
    let cfg = SmartTrimConfig { enabled: true, interval_secs: 30, threshold: 8_000 };
    let mut st = GovernorState::new(3600);
    // memory high, interval long since elapsed: fires
    assert!(check_and_trim_memory(&cfg, 9_000, 3600, &mut st));
    assert_eq!(st.last_trim, 3600);
    // called again every tick inside the interval: never fires again
    for t in 3601..3630 {
        assert!(!check_and_trim_memory(&cfg, 9_999, t, &mut st));
    }
    // after the interval it may fire again
    assert!(check_and_trim_memory(&cfg, 9_000, 3630, &mut st));
}

#[test]
fn smart_trim_respects_enable_and_threshold() {
    let off = SmartTrimConfig { enabled: false, interval_secs: 30, threshold: 0 };
    let mut st = GovernorState::new(50_000);
    assert!(!check_and_trim_memory(&off, 10_000, 50_000, &mut st));
    let cfg = SmartTrimConfig { enabled: true, interval_secs: 30, threshold: 8_000 };
    // below threshold: no trim, and the timestamp is kept
    let before = st.last_trim;
    assert!(!check_and_trim_memory(&cfg, 7_999, 50_000, &mut st));
    assert_eq!(st.last_trim, before);
}

#[test]
fn restore_all_on_empty_set_is_a_fixed_point() {
    let mut st = GovernorState::new(0);
    let restored = restore_all(&mut st);
    assert!(restored.is_empty());
    assert!(st.restrained.is_empty());
}

#[test]
fn restore_all_returns_every_restrained_pid() {
    let mut st = GovernorState::new(0);
    record_restrained(&mut st, &vec![4, 8, 15]);
    let restored = restore_all(&mut st);
    assert_eq!(restored, vec![4, 8, 15]);
    assert!(st.restrained.is_empty());
}

#[test]
fn restrain_pass_is_idempotent() {
    let procs = vec![
        proc(100, "game.exe", 5_000, "High", "All"),
        proc(200, "updater.exe", 900, "Normal", "All"),
        proc(300, "indexer.exe", 150, "AboveNormal", "All"),
        proc(400, "idle.exe", 50, "Normal", "All"), // under 1 % CPU
        proc(500, "helper.exe", 400, "BelowNormal", "All"), // already lowered
    ];
    let excludes = vec!["protected".to_string()];
    let games = vec!["game".to_string()];
    let mut st = GovernorState::new(0);
    let plan1 = restrain_processes(&procs, &excludes, &games, 999, &st);
    let mut sorted = plan1.clone();
    sorted.sort();
    assert_eq!(sorted, vec![200, 300]);
    record_restrained(&mut st, &plan1);
    // unchanged inputs: the second pass restrains nothing more
    let plan2 = restrain_processes(&procs, &excludes, &games, 999, &st);
    assert!(plan2.is_empty());
}

#[test]
fn restrain_skips_foreground_games_and_excluded() {
    let procs = vec![
        proc(1, "game.exe", 9_000, "Normal", "All"),
        proc(2, "fore.exe", 9_000, "Normal", "All"),
        proc(3, "protected-svc.exe", 9_000, "Normal", "All"),
        proc(4, "busy.exe", 9_000, "Normal", "All"),
    ];
    let games = vec!["game".to_string()];
    let st = GovernorState::new(0);
    let plan = restrain_processes(&procs, &vec!["protected".to_string()], &games, 2, &st);
    assert_eq!(plan, vec![4]);
}

#[test]
fn check_and_restrain_restores_when_disabled_or_calm() {
    let procs = vec![proc(1, "game.exe", 20_000, "Normal", "All")];
    let mut st = GovernorState::new(0);
    record_restrained(&mut st, &vec![77]);
    let cfg_off = ProBalanceConfig {
        enabled: false,
        cpu_threshold: 5_000,
        excluded_processes: vec![],
    };
    match check_and_restrain(&procs, &cfg_off, &vec!["game".to_string()], 0, 8, &mut st) {
        ProBalanceDecision::Restore(pids) => assert_eq!(pids, vec![77]),
        _ => panic!("expected restore"),
    }
    assert!(st.restrained.is_empty());

    // enabled, but no game running: restore as well
    record_restrained(&mut st, &vec![78]);
    let cfg_on = ProBalanceConfig {
        enabled: true,
        cpu_threshold: 5_000,
        excluded_processes: vec![],
    };
    let quiet = vec![proc(1, "editor.exe", 20_000, "Normal", "All")];
    match check_and_restrain(&quiet, &cfg_on, &vec!["game".to_string()], 0, 8, &mut st) {
        ProBalanceDecision::Restore(pids) => assert_eq!(pids, vec![78]),
        _ => panic!("expected restore"),
    }
}

#[test]
fn check_and_restrain_plans_under_high_load() {
    // total 48 000 centi-percent over 8 cores = 60 % > 50 %
    let procs = vec![
        proc(1, "game.exe", 40_000, "High", "All"),
        proc(2, "background.exe", 8_000, "Normal", "All"),
    ];
    let cfg = ProBalanceConfig {
        enabled: true,
        cpu_threshold: 5_000,
        excluded_processes: vec![],
    };
    let mut st = GovernorState::new(0);
    match check_and_restrain(&procs, &cfg, &vec!["game".to_string()], 0, 8, &mut st) {
        ProBalanceDecision::Restrain(plan) => assert_eq!(plan, vec![2]),
        _ => panic!("expected restrain"),
    }
    // at or under the threshold: restore instead
    let calm = vec![
        proc(1, "game.exe", 30_000, "High", "All"),
        proc(2, "background.exe", 10_000, "Normal", "All"),
    ];
    match check_and_restrain(&calm, &cfg, &vec!["game".to_string()], 0, 8, &mut st) {
        ProBalanceDecision::Restore(pids) => assert!(pids.is_empty()),
        _ => panic!("expected restore"),
    }
}

#[test]
fn profiles_reconcile_priority_and_hard_affinity() {
    let procs = vec![proc(10, "Render.exe", 0, "Normal", "0xf0")];
    let profiles = vec![Profile {
        name: "render.exe".to_string(),
        enabled: true,
        priority: "High".to_string(),
        affinity: "ff".to_string(),
        mode: "hard".to_string(),
    }];
    let acts = enforce_profiles(&procs, &profiles);
    assert_eq!(acts.len(), 2);
    assert_eq!(
        acts[0],
        WatchdogAction::SetPriority { pid: 10, level: PriorityLevel::High }
    );
    assert_eq!(
        acts[1],
        WatchdogAction::SetAffinity { pid: 10, mask: "ff".to_string() }
    );
}

#[test]
fn profiles_satisfied_labels_cause_no_actions() {
    // canonical 0x form of the stored mask counts as satisfied
    let procs = vec![
        proc(10, "render.exe", 0, "High", "0xff"),
        proc(11, "render.exe", 0, "High", "All"),
    ];
    let profiles = vec![Profile {
        name: "render.exe".to_string(),
        enabled: true,
        priority: "High".to_string(),
        affinity: "FF".to_string(),
        mode: "hard".to_string(),
    }];
    assert!(enforce_profiles(&procs, &profiles).is_empty());
}

#[test]
fn soft_profiles_reapply_through_cpu_sets() {
    let procs = vec![proc(20, "sim.exe", 0, "Normal", "0x3")];
    let profiles = vec![Profile {
        name: "sim.exe".to_string(),
        enabled: true,
        priority: "Normal".to_string(),
        affinity: "c".to_string(),
        mode: "soft".to_string(),
    }];
    let acts = enforce_profiles(&procs, &profiles);
    assert_eq!(acts.len(), 1);
    assert_eq!(acts[0], WatchdogAction::SetCpuSets { pid: 20, cores: vec![2, 3] });

    // a label already in CPU-sets form satisfies a soft profile
    let ok = vec![proc(20, "sim.exe", 0, "Normal", "Sets: 2,3")];
    assert!(enforce_profiles(&ok, &profiles).is_empty());
}

#[test]
fn disabled_profiles_do_not_match() {
    let procs = vec![proc(30, "tool.exe", 0, "Normal", "All")];
    let profiles = vec![Profile {
        name: "tool.exe".to_string(),
        enabled: false,
        priority: "High".to_string(),
        affinity: "f".to_string(),
        mode: "hard".to_string(),
    }];
    assert!(enforce_profiles(&procs, &profiles).is_empty());
}

#[test]
fn default_rules_classify_games_and_background() {
    let rules = DefaultRulesConfig {
        enabled: true,
        game_mask: Some("f0".to_string()),
        game_priority: "High".to_string(),
        system_mask: Some("0f".to_string()),
        system_priority: "Normal".to_string(),
    };
    let procs = vec![
        proc(1, "MyGame.exe", 2_000, "Normal", "All"),
        proc(2, "worker.exe", 2_000, "Normal", "All"),
        proc(3, "explorer.exe", 2_000, "BelowNormal", "All"),
        proc(4, "lazy.exe", 5, "Normal", "All"),
    ];
    let acts = apply_default_rules(&procs, &rules, &vec![], &vec!["mygame".to_string()]);
    assert_eq!(
        acts,
        vec![
            // the game gets the game mask and priority
            WatchdogAction::SetAffinity { pid: 1, mask: "f0".to_string() },
            WatchdogAction::SetPriority { pid: 1, level: PriorityLevel::High },
            // the busy background process gets the system mask; its
            // priority already matches
            WatchdogAction::SetAffinity { pid: 2, mask: "0f".to_string() },
            // explorer.exe is allowlisted; the idle process shows no
            // load and a default priority, so its mask is left alone
        ]
    );
}

#[test]
fn default_rules_leave_idle_background_priority_alone() {
    // an idle process at default priority is never touched, even when
    // its priority differs from the configured system priority
    let rules = DefaultRulesConfig {
        enabled: true,
        game_mask: None,
        game_priority: "High".to_string(),
        system_mask: None,
        system_priority: "High".to_string(),
    };
    let idle = vec![proc(7, "sleepy.exe", 0, "Normal", "All")];
    assert!(apply_default_rules(&idle, &rules, &vec![], &vec![]).is_empty());

    // a busy process, or one already off the default priority, does get
    // the system priority
    let busy = vec![proc(8, "churner.exe", 2_000, "Normal", "All")];
    assert_eq!(
        apply_default_rules(&busy, &rules, &vec![], &vec![]),
        vec![WatchdogAction::SetPriority { pid: 8, level: PriorityLevel::High }]
    );
    let lowered = vec![proc(9, "lowered.exe", 0, "BelowNormal", "All")];
    assert_eq!(
        apply_default_rules(&lowered, &rules, &vec![], &vec![]),
        vec![WatchdogAction::SetPriority { pid: 9, level: PriorityLevel::High }]
    );
}

#[test]
fn default_rules_disabled_do_nothing() {
    let rules = DefaultRulesConfig {
        enabled: false,
        game_mask: Some("f0".to_string()),
        game_priority: "High".to_string(),
        system_mask: Some("0f".to_string()),
        system_priority: "Normal".to_string(),
    };
    let procs = vec![proc(1, "mygame.exe", 2_000, "Normal", "All")];
    assert!(apply_default_rules(&procs, &rules, &vec![], &vec!["mygame".to_string()]).is_empty());
}

#[test]
fn default_rules_skip_profiled_processes() {
    let rules = DefaultRulesConfig {
        enabled: true,
        game_mask: Some("f0".to_string()),
        game_priority: "High".to_string(),
        system_mask: None,
        system_priority: "Normal".to_string(),
    };
    let profiles = vec![Profile {
        name: "mygame.exe".to_string(),
        enabled: true,
        priority: "High".to_string(),
        affinity: "ff".to_string(),
        mode: "hard".to_string(),
    }];
    let procs = vec![proc(1, "MyGame.exe", 2_000, "Normal", "All")];
    assert!(apply_default_rules(&procs, &rules, &profiles, &vec!["mygame".to_string()]).is_empty());
}
