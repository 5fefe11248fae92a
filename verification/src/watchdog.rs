//! The watchdog reconciliation policies.
//!
//! Once per external refresh tick, four independent passes run in a
//! fixed order against the live process snapshot and the current
//! configuration: default rules, profile enforcement, ProBalance
//! throttling, and smart memory trim.  Each pass here is a pure
//! decision: it takes the snapshot, the configuration and the explicit
//! [`GovernorState`], and returns the operating-system calls to
//! perform; carrying them out (and tolerating their failures) happens
//! outside the library.

use vstd::prelude::*;
use crate::strutil::{
    lower_of, lowercase, lowercase_all, contains_sub, str_eq, starts_with_str, spec_contains,
    spec_parse_hex, parse_hex_u64, spec_hex_0x, hex_0x_str_u64, spec_parse_or_zero,
};
use crate::types::{PriorityLevel, ProcessInfo, spec_priority_from_name};
use crate::topology::bit_set;

verus! {

/// The mutable state the watchdog carries between ticks: the pids
/// ProBalance is currently holding at reduced priority, and the moment
/// smart trim last fired.
pub struct GovernorState {
    /// Pids currently restrained by ProBalance, each recorded once.
    pub restrained: Vec<u32>,
    /// Timestamp (in seconds) of the last memory trim.
    pub last_trim: u64,
}

impl GovernorState {
    /// Each restrained pid is recorded exactly once.
    pub open spec fn wf(&self) -> bool {
        self.restrained@.no_duplicates()
    }

    /// The restrained pids as a set.
    pub open spec fn restrained_set(&self) -> Set<u32> {
        self.restrained@.to_set()
    }

    /// A fresh state: nothing restrained, and the trim timestamp backdated
    /// an hour so the first eligible trim is not debounced away.
    pub fn new(now_secs: u64) -> (r: GovernorState)
        ensures
            r.wf(),
            r.restrained@ == Seq::<u32>::empty(),
            r.last_trim == if now_secs >= 3600 {
                (now_secs - 3600) as u64
            } else {
                0u64
            },
    {
        let last_trim = if now_secs >= 3600 {
            now_secs - 3600
        } else {
            0
        };
        GovernorState { restrained: Vec::new(), last_trim }
    }
}

/// Smart-trim policy configuration.
#[derive(Debug, Clone, Copy, PartialEq, Eq, Structural)]
pub struct SmartTrimConfig {
    pub enabled: bool,
    /// Minimum number of seconds between two trims.
    pub interval_secs: u64,
    /// Memory-usage threshold in hundredths of a percent (100 = 1 %).
    pub threshold: u64,
}

/// ProBalance policy configuration; the game list lives beside it in
/// the wider configuration and is passed separately.
#[derive(Debug, Clone)]
pub struct ProBalanceConfig {
    pub enabled: bool,
    /// Total-CPU threshold in hundredths of a percent (100 = 1 %).
    pub cpu_threshold: u64,
    /// Process names never to restrain, matched case-insensitively as
    /// substrings.
    pub excluded_processes: Vec<String>,
}

/// Default-rules policy configuration.
#[derive(Debug, Clone)]
pub struct DefaultRulesConfig {
    pub enabled: bool,
    /// Affinity mask (hex string) to apply to games, if any.
    pub game_mask: Option<String>,
    /// Priority-class name to apply to games.
    pub game_priority: String,
    /// Affinity mask (hex string) to apply to background processes, if any.
    pub system_mask: Option<String>,
    /// Priority-class name to apply to background processes.
    pub system_priority: String,
}

/// One per-application profile, keyed by case-insensitive process name.
#[derive(Debug, Clone)]
pub struct Profile {
    pub name: String,
    pub enabled: bool,
    /// Priority-class name the profile asks for.
    pub priority: String,
    /// Affinity mask as a hex string.
    pub affinity: String,
    /// `"soft"` applies the mask through CPU sets; anything else applies
    /// it as a hard affinity mask.
    pub mode: String,
}

/// One operating-system call a watchdog pass asks for.
#[derive(Debug, Clone, PartialEq, Eq)]
pub enum WatchdogAction {
    /// Set the process affinity mask, given as the raw hex string of
    /// the configuration.
    SetAffinity { pid: u32, mask: String },
    /// Bind the process to the listed cores through the CPU-sets
    /// primitive.
    SetCpuSets { pid: u32, cores: Vec<u32> },
    /// Set the process priority class.
    SetPriority { pid: u32, level: PriorityLevel },
}

/// The mathematical shadow of a [`WatchdogAction`].
pub enum ActionV {
    SetAffinity { pid: u32, mask: Seq<char> },
    SetCpuSets { pid: u32, cores: Seq<u32> },
    SetPriority { pid: u32, level: PriorityLevel },
}

impl View for WatchdogAction {
    type V = ActionV;

    open spec fn view(&self) -> ActionV {
        match self {
            WatchdogAction::SetAffinity { pid, mask } => ActionV::SetAffinity {
                pid: *pid,
                mask: mask@,
            },
            WatchdogAction::SetCpuSets { pid, cores } => ActionV::SetCpuSets {
                pid: *pid,
                cores: cores@,
            },
            WatchdogAction::SetPriority { pid, level } => ActionV::SetPriority {
                pid: *pid,
                level: *level,
            },
        }
    }
}

/// The views of a sequence of planned actions.
pub open spec fn views_of(s: Seq<WatchdogAction>) -> Seq<ActionV> {
    s.map_values(|a: WatchdogAction| a@)
}

// ---------------------------------------------------------------------------
// Smart Trim
// ---------------------------------------------------------------------------

/// Whether a trim fires: the policy is enabled, the debounce interval
/// has elapsed since the last trim, and memory usage is at or over the
/// threshold.
pub open spec fn spec_trim_decision(
    cfg: SmartTrimConfig,
    last_trim: u64,
    now_secs: u64,
    mem_percent: u64,
) -> bool {
    &&& cfg.enabled
    &&& now_secs - last_trim >= cfg.interval_secs
    &&& mem_percent >= cfg.threshold
}

/// The smart-trim pass: decides whether to fire the system memory
/// clear this tick, and debounces by recording the firing time.
///
/// `mem_percent` is the sampled system memory usage in hundredths of a
/// percent; `now_secs` comes from a monotonic clock, so it never lies
/// before the recorded last trim.
pub fn check_and_trim_memory(
    cfg: &SmartTrimConfig,
    mem_percent: u64,
    now_secs: u64,
    state: &mut GovernorState,
) -> (r: bool)
    requires
        old(state).last_trim <= now_secs,
    ensures
        r == spec_trim_decision(*cfg, old(state).last_trim, now_secs, mem_percent),
        final(state).last_trim == if r {
            now_secs
        } else {
            old(state).last_trim
        },
        final(state).restrained == old(state).restrained,
{
    if !cfg.enabled {
        return false;
    }
    if now_secs - state.last_trim < cfg.interval_secs {
        return false;
    }
    if mem_percent >= cfg.threshold {
        state.last_trim = now_secs;
        return true;
    }
    false
}

/// Smart trim never fires twice within the configured interval: after
/// a trim at `t1`, any tick at `t2` less than one interval later
/// decides not to trim, whatever the memory reading.
pub proof fn lemma_trim_debounced(cfg: SmartTrimConfig, t1: u64, t2: u64, mem: u64)
    requires
        t1 <= t2,
        t2 - t1 < cfg.interval_secs,
    ensures
        !spec_trim_decision(cfg, t1, t2, mem),
{
}

// ---------------------------------------------------------------------------
// ProBalance
// ---------------------------------------------------------------------------

/// `name_low` (already lowercased) contains one of the (already
/// lowercased) patterns as a substring.
pub open spec fn spec_name_matches(name_low: Seq<char>, pats: Seq<Seq<char>>) -> bool {
    exists|j: int| 0 <= j < pats.len() && spec_contains(name_low, #[trigger] pats[j])
}

/// Some process of the snapshot matches the game list.
pub open spec fn spec_any_game_running(ps: Seq<ProcessInfo>, games_low: Seq<Seq<char>>) -> bool {
    exists|i: int| 0 <= i < ps.len() && spec_name_matches(lower_of((#[trigger] ps[i]).name@), games_low)
}

/// Sum of the per-process CPU readings, in hundredths of a percent.
pub open spec fn spec_total_cpu(ps: Seq<ProcessInfo>) -> int
    decreases ps.len(),
{
    if ps.len() == 0 {
        0
    } else {
        spec_total_cpu(ps.drop_last()) + ps.last().cpu_usage
    }
}

/// Total utilization (the CPU sum divided by the core count) exceeds
/// the threshold, compared exactly as rationals.
pub open spec fn spec_high_load(ps: Seq<ProcessInfo>, logical_cores: u64, threshold: u64) -> bool {
    logical_cores > 0 && spec_total_cpu(ps) > threshold * logical_cores
}

/// A process ProBalance may restrain: at Normal priority or above (an
/// already-lowered process is left alone), not the foreground process,
/// matching neither the game list nor the exclusion list, and using at
/// least one percent of CPU.
pub open spec fn spec_eligible(
    p: ProcessInfo,
    excludes_low: Seq<Seq<char>>,
    games_low: Seq<Seq<char>>,
    foreground_pid: u32,
) -> bool {
    &&& (p.priority@ == "Normal"@ || p.priority@ == "AboveNormal"@ || p.priority@ == "High"@)
    &&& p.pid != foreground_pid
    &&& !spec_name_matches(lower_of(p.name@), games_low)
    &&& !spec_name_matches(lower_of(p.name@), excludes_low)
    &&& p.cpu_usage >= 100
}

/// A restrain plan is exactly the eligible, not-yet-restrained pids of
/// the snapshot, each once.
pub open spec fn spec_restrain_plan_ok(
    plan: Seq<u32>,
    ps: Seq<ProcessInfo>,
    excludes_low: Seq<Seq<char>>,
    games_low: Seq<Seq<char>>,
    foreground_pid: u32,
    restrained: Set<u32>,
) -> bool {
    &&& plan.no_duplicates()
    &&& forall|pid: u32|
        plan.contains(pid) <==> (!restrained.contains(pid) && exists|i: int|
            0 <= i < ps.len() && (#[trigger] ps[i]).pid == pid && spec_eligible(
                ps[i],
                excludes_low,
                games_low,
                foreground_pid,
            ))
}

fn name_matches(name_low: &str, pats: &Vec<String>) -> (r: bool)
    ensures
        r == spec_name_matches(name_low@, pats.deep_view()),
{
    let mut j: usize = 0;
    while j < pats.len()
        invariant
            j <= pats@.len(),
            forall|t: int| 0 <= t < j ==> !spec_contains(name_low@, #[trigger] pats.deep_view()[t]),
        decreases pats@.len() - j,
    {
        if contains_sub(name_low, pats[j].as_str()) {
            proof {
                assert(pats.deep_view()[j as int] == pats@[j as int]@);
            }
            return true;
        }
        proof {
            assert(pats.deep_view()[j as int] == pats@[j as int]@);
        }
        j += 1;
    }
    false
}

fn vec_contains_u32(v: &Vec<u32>, x: u32) -> (r: bool)
    ensures
        r == v@.contains(x),
{
    let mut k: usize = 0;
    while k < v.len()
        invariant
            k <= v@.len(),
            forall|i: int| 0 <= i < k ==> v@[i] != x,
        decreases v@.len() - k,
    {
        if v[k] == x {
            return true;
        }
        k += 1;
    }
    false
}

fn eligible(
    p: &ProcessInfo,
    excludes_low: &Vec<String>,
    games_low: &Vec<String>,
    foreground_pid: u32,
) -> (r: bool)
    ensures
        r == spec_eligible(*p, excludes_low.deep_view(), games_low.deep_view(), foreground_pid),
{
    let is_target_pri = str_eq(p.priority.as_str(), "Normal") || str_eq(
        p.priority.as_str(),
        "AboveNormal",
    ) || str_eq(p.priority.as_str(), "High");
    if !is_target_pri {
        return false;
    }
    if p.pid == foreground_pid {
        return false;
    }
    let name_low = lowercase(p.name.as_str());
    if name_matches(name_low.as_str(), games_low) {
        return false;
    }
    if name_matches(name_low.as_str(), excludes_low) {
        return false;
    }
    p.cpu_usage >= 100
}

/// Plans the ProBalance restrain pass: every eligible process whose
/// pid is not already restrained is listed once, to be set to
/// `BelowNormal`.  The state is not changed; record the pids whose
/// priority write succeeded with [`record_restrained`].
pub fn restrain_processes(
    processes: &Vec<ProcessInfo>,
    excludes_low: &Vec<String>,
    games_low: &Vec<String>,
    foreground_pid: u32,
    state: &GovernorState,
) -> (r: Vec<u32>)
    ensures
        spec_restrain_plan_ok(
            r@,
            processes@,
            excludes_low.deep_view(),
            games_low.deep_view(),
            foreground_pid,
            state.restrained_set(),
        ),
{
    let ghost ex = excludes_low.deep_view();
    let ghost gm = games_low.deep_view();
    let mut r: Vec<u32> = Vec::new();
    let mut k: usize = 0;
    while k < processes.len()
        invariant
            k <= processes@.len(),
            ex == excludes_low.deep_view(),
            gm == games_low.deep_view(),
            r@.no_duplicates(),
            forall|pid: u32|
                r@.contains(pid) <==> (!state.restrained_set().contains(pid) && exists|i: int|
                    0 <= i < k && (#[trigger] processes@[i]).pid == pid && spec_eligible(
                        processes@[i],
                        ex,
                        gm,
                        foreground_pid,
                    )),
        decreases processes@.len() - k,
    {
        let p = &processes[k];
        let ghost old_r = r@;
        if eligible(p, excludes_low, games_low, foreground_pid) {
            if !vec_contains_u32(&state.restrained, p.pid) {
                if !vec_contains_u32(&r, p.pid) {
                    r.push(p.pid);
                }
            }
        }
        proof {
            assert forall|pid: u32|
                r@.contains(pid) == (!state.restrained_set().contains(pid) && exists|i: int|
                    0 <= i < k + 1 && (#[trigger] processes@[i]).pid == pid && spec_eligible(
                        processes@[i],
                        ex,
                        gm,
                        foreground_pid,
                    )) by {
                let pk = processes@[k as int];
                if r@.contains(pid) {
                    if old_r.contains(pid) {
                        let i = choose|i: int|
                            0 <= i < k && (#[trigger] processes@[i]).pid == pid && spec_eligible(
                                processes@[i],
                                ex,
                                gm,
                                foreground_pid,
                            );
                        assert(processes@[i].pid == pid);
                    } else {
                        assert(r@ == old_r.push(pk.pid));
                        let i = choose|i: int| 0 <= i < r@.len() && r@[i] == pid;
                        if i < old_r.len() {
                            assert(old_r.contains(pid));
                        } else {
                            assert(pid == pk.pid);
                            assert(processes@[k as int].pid == pid);
                        }
                    }
                } else {
                    if !state.restrained_set().contains(pid) && exists|i: int|
                        0 <= i < k + 1 && (#[trigger] processes@[i]).pid == pid && spec_eligible(
                            processes@[i],
                            ex,
                            gm,
                            foreground_pid,
                        ) {
                        let i = choose|i: int|
                            0 <= i < k + 1 && (#[trigger] processes@[i]).pid == pid
                                && spec_eligible(processes@[i], ex, gm, foreground_pid);
                        if i < k as int {
                            assert(old_r.contains(pid));
                            let j = choose|j: int| 0 <= j < old_r.len() && old_r[j] == pid;
                            if r@ != old_r {
                                assert(r@[j] == pid);
                            }
                            assert(r@.contains(pid));
                        } else {
                            // pid is the current process: it was pushed unless
                            // it was already present somewhere
                            if old_r.contains(pid) {
                                let j = choose|j: int| 0 <= j < old_r.len() && old_r[j] == pid;
                                if r@ != old_r {
                                    assert(r@[j] == pid);
                                }
                                assert(r@.contains(pid));
                            } else {
                                assert(r@ == old_r.push(pid));
                                assert(r@[old_r.len() as int] == pid);
                                assert(r@.contains(pid));
                            }
                        }
                        assert(false);
                    }
                }
            }
            // distinctness: a pushed pid was not in old_r
            assert(r@.no_duplicates()) by {
                if r@ != old_r {
                    let pk = processes@[k as int];
                    assert(r@ == old_r.push(pk.pid));
                    assert(!old_r.contains(pk.pid));
                    assert forall|a: int, b: int| 0 <= a < b < r@.len() implies r@[a] != r@[b] by {
                        if b == old_r.len() as int {
                            assert(old_r.contains(r@[a]));
                        }
                    }
                }
            }
        }
        k += 1;
    }
    r
}

/// Records pids whose restrain write succeeded; each pid joins the
/// restrained set once.
pub fn record_restrained(state: &mut GovernorState, pids: &Vec<u32>)
    requires
        old(state).wf(),
    ensures
        final(state).wf(),
        final(state).restrained_set() == old(state).restrained_set() + pids@.to_set(),
        final(state).last_trim == old(state).last_trim,
{
    let mut k: usize = 0;
    while k < pids.len()
        invariant
            k <= pids@.len(),
            state.wf(),
            state.last_trim == old(state).last_trim,
            state.restrained_set() == old(state).restrained_set() + pids@.take(k as int).to_set(),
        decreases pids@.len() - k,
    {
        let pid = pids[k];
        let ghost old_rs = state.restrained@;
        if !vec_contains_u32(&state.restrained, pid) {
            state.restrained.push(pid);
            proof {
                assert forall|a: int, b: int|
                    0 <= a < b < state.restrained@.len() implies state.restrained@[a]
                    != state.restrained@[b] by {
                    if b == old_rs.len() as int {
                        assert(old_rs.contains(state.restrained@[a]));
                    }
                }
            }
        }
        proof {
            assert(pids@.take(k as int + 1) =~= pids@.take(k as int).push(pids@[k as int]));
            assert forall|q: u32| #[trigger]
                state.restrained@.to_set().contains(q) == (old(
                    state,
                ).restrained_set().contains(q) || pids@.take(k as int + 1).to_set().contains(
                    q,
                )) by {
                if state.restrained@.to_set().contains(q) {
                    assert(state.restrained@.contains(q));
                    let i = choose|i: int|
                        0 <= i < state.restrained@.len() && state.restrained@[i] == q;
                    if i < old_rs.len() {
                        assert(old_rs.contains(q));
                        assert(old_rs.to_set().contains(q));
                    } else {
                        assert(q == pid);
                        assert(pids@.take(k as int + 1).contains(q)) by {
                            assert(pids@.take(k as int + 1)[k as int] == q);
                        }
                    }
                }
                if old(state).restrained_set().contains(q) || pids@.take(
                    k as int + 1,
                ).to_set().contains(q) {
                    if old(state).restrained_set().contains(q) || pids@.take(
                        k as int,
                    ).to_set().contains(q) {
                        assert(old_rs.to_set().contains(q));
                        assert(old_rs.contains(q));
                        if state.restrained@ == old_rs {
                        } else {
                            let i = choose|i: int| 0 <= i < old_rs.len() && old_rs[i] == q;
                            assert(state.restrained@[i] == q);
                        }
                        assert(state.restrained@.contains(q));
                    } else {
                        let t = pids@.take(k as int + 1);
                        assert(t.to_set().contains(q));
                        assert(t.contains(q));
                        let i = choose|i: int| 0 <= i < t.len() && t[i] == q;
                        if i < k as int {
                            assert(pids@.take(k as int)[i] == q);
                            assert(pids@.take(k as int).contains(q));
                        }
                        assert(q == pid);
                        if old_rs.contains(q) {
                            let i2 = choose|i2: int| 0 <= i2 < old_rs.len() && old_rs[i2] == q;
                            if state.restrained@ == old_rs {
                            } else {
                                assert(state.restrained@[i2] == q);
                            }
                            assert(state.restrained@.contains(q));
                        } else {
                            assert(state.restrained@ == old_rs.push(pid));
                            assert(state.restrained@[old_rs.len() as int] == q);
                            assert(state.restrained@.contains(q));
                        }
                    }
                    assert(state.restrained@.to_set().contains(q));
                }
            }
            assert(state.restrained@.to_set() =~= old(state).restrained_set() + pids@.take(
                k as int + 1,
            ).to_set());
        }
        k += 1;
    }
    proof {
        assert(pids@.take(pids@.len() as int) =~= pids@);
    }
}

/// Restores every restrained process: returns the pids to set back to
/// `Normal` and empties the restrained set.  With nothing restrained it
/// asks for no call at all.
pub fn restore_all(state: &mut GovernorState) -> (r: Vec<u32>)
    ensures
        r@ == old(state).restrained@,
        final(state).restrained@ == Seq::<u32>::empty(),
        final(state).last_trim == old(state).last_trim,
        final(state).wf(),
{
    let mut out: Vec<u32> = Vec::new();
    core::mem::swap(&mut state.restrained, &mut out);
    out
}

/// Each pattern of a list, lowercased.
pub open spec fn spec_lowered(pats: Seq<Seq<char>>) -> Seq<Seq<char>> {
    pats.map_values(|p: Seq<char>| lower_of(p))
}

/// What the ProBalance pass decided this tick.
#[derive(Debug, Clone, PartialEq, Eq)]
pub enum ProBalanceDecision {
    /// Set each listed pid back to `Normal`; the restrained set has
    /// been emptied.
    Restore(Vec<u32>),
    /// Set each listed pid to `BelowNormal`; record the successful
    /// ones with [`record_restrained`].
    Restrain(Vec<u32>),
}

/// ProBalance is in its restraining regime: enabled, a game running,
/// and total utilization over the threshold.
pub open spec fn spec_probalance_restrains(
    ps: Seq<ProcessInfo>,
    enabled: bool,
    cpu_threshold: u64,
    games_low: Seq<Seq<char>>,
    logical_cores: u64,
) -> bool {
    &&& enabled
    &&& spec_any_game_running(ps, games_low)
    &&& spec_high_load(ps, logical_cores, cpu_threshold)
}

fn any_game_running(processes: &Vec<ProcessInfo>, games_low: &Vec<String>) -> (r: bool)
    ensures
        r == spec_any_game_running(processes@, games_low.deep_view()),
{
    let mut k: usize = 0;
    while k < processes.len()
        invariant
            k <= processes@.len(),
            forall|i: int|
                0 <= i < k ==> !spec_name_matches(
                    lower_of((#[trigger] processes@[i]).name@),
                    games_low.deep_view(),
                ),
        decreases processes@.len() - k,
    {
        let low = lowercase(processes[k].name.as_str());
        if name_matches(low.as_str(), games_low) {
            return true;
        }
        k += 1;
    }
    false
}

fn total_cpu(processes: &Vec<ProcessInfo>) -> (r: u128)
    ensures
        r == spec_total_cpu(processes@),
{
    let mut sum: u128 = 0;
    let mut k: usize = 0;
    while k < processes.len()
        invariant
            k <= processes@.len(),
            sum == spec_total_cpu(processes@.take(k as int)),
            sum <= k * 0xffff_ffff_ffff_ffffu128,
        decreases processes@.len() - k,
    {
        proof {
            assert(processes@.take(k as int + 1).drop_last() =~= processes@.take(k as int));
            assert(processes@.take(k as int + 1).last() == processes@[k as int]);
            assert((k + 1) * 0xffff_ffff_ffff_ffffu128 == k * 0xffff_ffff_ffff_ffffu128
                + 0xffff_ffff_ffff_ffffu128) by (nonlinear_arith);
            assert(k * 0xffff_ffff_ffff_ffffu128 <= (usize::MAX as int)
                * 0xffff_ffff_ffff_ffffu128) by (nonlinear_arith)
                requires k <= usize::MAX as int;
        }
        sum = sum + processes[k].cpu_usage as u128;
        k += 1;
    }
    proof {
        assert(processes@.take(processes@.len() as int) =~= processes@);
    }
    sum
}

/// The ProBalance pass.  When the policy is off, no game is running,
/// or utilization is at or under the threshold, every restrained pid
/// is released (back to `Normal`) and the set emptied; when the policy
/// bites, the eligible background processes are planned for restraint
/// and the state is left for [`record_restrained`].
pub fn check_and_restrain(
    processes: &Vec<ProcessInfo>,
    cfg: &ProBalanceConfig,
    game_list: &Vec<String>,
    foreground_pid: u32,
    logical_cores: u64,
    state: &mut GovernorState,
) -> (r: ProBalanceDecision)
    ensures
        ({
            let restrains = spec_probalance_restrains(
                processes@,
                cfg.enabled,
                cfg.cpu_threshold,
                spec_lowered(game_list.deep_view()),
                logical_cores,
            );
            &&& !restrains ==> (r matches ProBalanceDecision::Restore(pids) && pids@ == old(
                state,
            ).restrained@ && final(state).restrained@ == Seq::<u32>::empty())
            &&& restrains ==> (r matches ProBalanceDecision::Restrain(plan)
                && spec_restrain_plan_ok(
                plan@,
                processes@,
                spec_lowered(cfg.excluded_processes.deep_view()),
                spec_lowered(game_list.deep_view()),
                foreground_pid,
                old(state).restrained_set(),
            ) && *final(state) == *old(state))
            &&& final(state).last_trim == old(state).last_trim
        }),
{
    if !cfg.enabled {
        return ProBalanceDecision::Restore(restore_all(state));
    }
    let games_low = lowercase_all(game_list);
    proof {
        assert(games_low.deep_view() =~= spec_lowered(game_list.deep_view()));
    }
    if !any_game_running(processes, &games_low) {
        return ProBalanceDecision::Restore(restore_all(state));
    }
    let sum = total_cpu(processes);
    proof {
        assert((cfg.cpu_threshold as int) * (logical_cores as int) < 0x100000000000000000000000000000000int)
            by (nonlinear_arith)
            requires
                cfg.cpu_threshold as int <= 0xffff_ffff_ffff_ffffint,
                logical_cores as int <= 0xffff_ffff_ffff_ffffint,
                cfg.cpu_threshold as int >= 0,
                logical_cores as int >= 0;
    }
    let high = logical_cores > 0 && sum > (cfg.cpu_threshold as u128) * (logical_cores as u128);
    if high {
        let excludes_low = lowercase_all(&cfg.excluded_processes);
        proof {
            assert(excludes_low.deep_view() =~= spec_lowered(cfg.excluded_processes.deep_view()));
        }
        ProBalanceDecision::Restrain(
            restrain_processes(processes, &excludes_low, &games_low, foreground_pid, state),
        )
    } else {
        ProBalanceDecision::Restore(restore_all(state))
    }
}

// ---------------------------------------------------------------------------
// Profile enforcement
// ---------------------------------------------------------------------------

/// The first enabled profile whose lowercased name equals the
/// process's lowercased name.
pub open spec fn spec_profile_match(profiles: Seq<Profile>, name_low: Seq<char>) -> Option<Profile>
    decreases profiles.len(),
{
    if profiles.len() == 0 {
        None
    } else if profiles.first().enabled && lower_of(profiles.first().name@) == name_low {
        Some(profiles.first())
    } else {
        spec_profile_match(profiles.drop_first(), name_low)
    }
}

/// The core indices named by bits `[0, i)` of `mask`, ascending.
pub open spec fn spec_mask_core_ids_upto(mask: u64, i: int) -> Seq<u32>
    decreases i,
{
    if i <= 0 {
        Seq::empty()
    } else {
        spec_mask_core_ids_upto(mask, i - 1) + if bit_set(mask, i - 1) {
            seq![(i - 1) as u32]
        } else {
            Seq::empty()
        }
    }
}

/// The core indices named by the set bits of `mask`, ascending.
pub open spec fn spec_mask_core_ids(mask: u64) -> Seq<u32> {
    spec_mask_core_ids_upto(mask, 64)
}

/// The affinity label reports a CPU-sets binding.
pub open spec fn spec_sets_label(aff: Seq<char>) -> bool {
    aff.len() >= 4 && aff.subrange(0, 4) == "Sets"@
}

/// The reconciliation actions one matched profile asks for on one
/// process: a priority write when the labels differ and the profile's
/// name parses, and an affinity fix in the profile's mode when the
/// reported label does not satisfy it.
pub open spec fn spec_profile_actions(p: ProcessInfo, pr: Profile) -> Seq<ActionV> {
    let pri = if p.priority@ != pr.priority@ {
        match spec_priority_from_name(lower_of(pr.priority@)) {
            Some(level) => seq![ActionV::SetPriority { pid: p.pid, level }],
            None => Seq::empty(),
        }
    } else {
        Seq::empty()
    };
    let is_soft = pr.mode@ == "soft"@;
    let needs_fix = if is_soft {
        !spec_sets_label(p.cpu_affinity@)
    } else {
        p.cpu_affinity@ != spec_hex_0x(spec_parse_or_zero(pr.affinity@) as int)
            && p.cpu_affinity@ != "All"@
    };
    let aff = if needs_fix {
        if is_soft {
            match spec_parse_hex(pr.affinity@) {
                Some(mask) => seq![
                    ActionV::SetCpuSets { pid: p.pid, cores: spec_mask_core_ids(mask) },
                ],
                None => Seq::empty(),
            }
        } else {
            seq![ActionV::SetAffinity { pid: p.pid, mask: pr.affinity@ }]
        }
    } else {
        Seq::empty()
    };
    pri + aff
}

/// The actions profile enforcement asks for on one process.
pub open spec fn spec_enforce_one(p: ProcessInfo, profiles: Seq<Profile>) -> Seq<ActionV> {
    match spec_profile_match(profiles, lower_of(p.name@)) {
        None => Seq::empty(),
        Some(pr) => spec_profile_actions(p, pr),
    }
}

/// The actions of the whole profile-enforcement pass, in snapshot order.
pub open spec fn spec_enforce_profiles(ps: Seq<ProcessInfo>, profiles: Seq<Profile>) -> Seq<
    ActionV,
>
    decreases ps.len(),
{
    if ps.len() == 0 {
        Seq::empty()
    } else {
        spec_enforce_profiles(ps.drop_last(), profiles) + spec_enforce_one(ps.last(), profiles)
    }
}

fn find_profile(profiles: &Vec<Profile>, name_low: &str) -> (r: Option<usize>)
    ensures
        r matches Some(j) ==> j < profiles@.len() && spec_profile_match(profiles@, name_low@)
            == Some(profiles@[j as int]),
        r is None ==> spec_profile_match(profiles@, name_low@) is None,
{
    let ghost full = profiles@;
    proof {
        assert(full.skip(0) =~= full);
    }
    let mut j: usize = 0;
    while j < profiles.len()
        invariant
            j <= full.len(),
            profiles@ == full,
            spec_profile_match(full, name_low@) == spec_profile_match(
                full.skip(j as int),
                name_low@,
            ),
        decreases full.len() - j,
    {
        proof {
            assert(full.skip(j as int).first() == full[j as int]);
            assert(full.skip(j as int).drop_first() =~= full.skip(j as int + 1));
        }
        let pr = &profiles[j];
        if pr.enabled && str_eq(lowercase(pr.name.as_str()).as_str(), name_low) {
            return Some(j);
        }
        j += 1;
    }
    proof {
        assert(full.skip(full.len() as int) =~= Seq::<Profile>::empty());
    }
    None
}

/// The ascending core ids named by the set bits of the first `i` bit
/// positions: at most `i` of them, each below `i`, strictly increasing.
pub proof fn lemma_mask_core_ids_props(mask: u64, i: int)
    requires
        0 <= i <= 64,
    ensures
        spec_mask_core_ids_upto(mask, i).len() <= i,
        forall|p: int|
            0 <= p < spec_mask_core_ids_upto(mask, i).len()
                ==> (#[trigger] spec_mask_core_ids_upto(mask, i)[p]) < i,
        forall|p: int, q: int|
            0 <= p < q < spec_mask_core_ids_upto(mask, i).len()
                ==> (#[trigger] spec_mask_core_ids_upto(mask, i)[p])
                < (#[trigger] spec_mask_core_ids_upto(mask, i)[q]),
    decreases i,
{
    if i > 0 {
        lemma_mask_core_ids_props(mask, i - 1);
    }
}

/// Expands a mask into the ascending list of core indices it names.
pub fn mask_core_ids(mask: u64) -> (r: Vec<u32>)
    ensures
        r@ == spec_mask_core_ids(mask),
{
    let mut r: Vec<u32> = Vec::new();
    let mut i: u32 = 0;
    while i < 64
        invariant
            i <= 64,
            r@ == spec_mask_core_ids_upto(mask, i as int),
        decreases 64 - i,
    {
        if (mask >> i as u64) & 1 == 1 {
            r.push(i);
        }
        proof {
            assert(r@ =~= spec_mask_core_ids_upto(mask, i as int + 1));
        }
        i += 1;
    }
    r
}

proof fn lemma_views_of_push(s: Seq<WatchdogAction>, a: WatchdogAction)
    ensures
        views_of(s.push(a)) == views_of(s).push(a@),
{
    assert(views_of(s.push(a)) =~= views_of(s).push(a@));
}

/// One process's worth of profile enforcement; pushes the planned
/// actions in order.
fn enforce_one(acts: &mut Vec<WatchdogAction>, p: &ProcessInfo, profiles: &Vec<Profile>)
    ensures
        views_of(final(acts)@) == views_of(old(acts)@) + spec_enforce_one(*p, profiles@),
{
    let name_low = lowercase(p.name.as_str());
    let found = find_profile(profiles, name_low.as_str());
    let ghost before = acts@;
    match found {
        None => {
            proof {
                assert(views_of(before) + spec_enforce_one(*p, profiles@) =~= views_of(before));
            }
        },
        Some(j) => {
            let pr = &profiles[j];
            let ghost prg = profiles@[j as int];
            let ghost pri_seq = (if p.priority@ != prg.priority@ {
                match spec_priority_from_name(lower_of(prg.priority@)) {
                    Some(level) => seq![ActionV::SetPriority { pid: p.pid, level }],
                    None => Seq::<ActionV>::empty(),
                }
            } else {
                Seq::<ActionV>::empty()
            });
            if !(p.priority == pr.priority) {
                match PriorityLevel::from_str(pr.priority.as_str()) {
                    Some(level) => {
                        let ghost pre = acts@;
                        acts.push(WatchdogAction::SetPriority { pid: p.pid, level });
                        proof {
                            lemma_views_of_push(
                                pre,
                                WatchdogAction::SetPriority { pid: p.pid, level },
                            );
                        }
                    },
                    None => {},
                }
            }
            proof {
                assert(views_of(acts@) =~= views_of(before) + pri_seq);
            }
            let ghost mid = acts@;
            let is_soft = str_eq(pr.mode.as_str(), "soft");
            let needs_fix = if is_soft {
                proof {
                    reveal_strlit("Sets");
                }
                !starts_with_str(p.cpu_affinity.as_str(), "Sets")
            } else {
                let target = match parse_hex_u64(pr.affinity.as_str()) {
                    Some(v) => v,
                    None => 0,
                };
                let target_hex = hex_0x_str_u64(target);
                !str_eq(p.cpu_affinity.as_str(), target_hex.as_str()) && !str_eq(
                    p.cpu_affinity.as_str(),
                    "All",
                )
            };
            proof {
                reveal_strlit("Sets");
                assert(*pr == prg);
                assert(is_soft == (prg.mode@ == "soft"@));
                if is_soft {
                    assert(needs_fix == !(p.cpu_affinity@.len() >= "Sets"@.len()
                        && p.cpu_affinity@.subrange(0, "Sets"@.len() as int) == "Sets"@));
                    assert("Sets"@.len() == 4);
                    assert(needs_fix == !spec_sets_label(p.cpu_affinity@));
                }
                assert(needs_fix == (if prg.mode@ == "soft"@ {
                    !spec_sets_label(p.cpu_affinity@)
                } else {
                    p.cpu_affinity@ != spec_hex_0x(spec_parse_or_zero(prg.affinity@) as int)
                        && p.cpu_affinity@ != "All"@
                }));
            }
            let ghost aff_seq = (if needs_fix {
                if prg.mode@ == "soft"@ {
                    match spec_parse_hex(prg.affinity@) {
                        Some(mask) => seq![
                            ActionV::SetCpuSets { pid: p.pid, cores: spec_mask_core_ids(mask) },
                        ],
                        None => Seq::<ActionV>::empty(),
                    }
                } else {
                    seq![ActionV::SetAffinity { pid: p.pid, mask: prg.affinity@ }]
                }
            } else {
                Seq::<ActionV>::empty()
            });
            if needs_fix {
                if is_soft {
                    match parse_hex_u64(pr.affinity.as_str()) {
                        Some(mask) => {
                            let cores = mask_core_ids(mask);
                            let ghost pre = acts@;
                            let a = WatchdogAction::SetCpuSets { pid: p.pid, cores };
                            let ghost av = a@;
                            acts.push(a);
                            proof {
                                assert(views_of(acts@) =~= views_of(pre).push(av));
                            }
                        },
                        None => {},
                    }
                } else {
                    let ghost pre = acts@;
                    let a = WatchdogAction::SetAffinity { pid: p.pid, mask: pr.affinity.clone() };
                    let ghost av = a@;
                    acts.push(a);
                    proof {
                        assert(views_of(acts@) =~= views_of(pre).push(av));
                    }
                }
            }
            proof {
                assert(views_of(acts@) =~= views_of(mid) + aff_seq);
                assert(spec_profile_actions(*p, prg) == pri_seq + aff_seq);
                assert(spec_enforce_one(*p, profiles@) == spec_profile_actions(*p, prg));
                assert(views_of(acts@) =~= views_of(before) + spec_enforce_one(*p, profiles@));
            }
        },
    }
}

/// The profile-enforcement pass: for every process whose name matches
/// an enabled profile case-insensitively, reconciles its priority and
/// affinity with what the profile asks for.
pub fn enforce_profiles(processes: &Vec<ProcessInfo>, profiles: &Vec<Profile>) -> (r: Vec<
    WatchdogAction,
>)
    ensures
        views_of(r@) == spec_enforce_profiles(processes@, profiles@),
{
    let mut acts: Vec<WatchdogAction> = Vec::new();
    let mut k: usize = 0;
    while k < processes.len()
        invariant
            k <= processes@.len(),
            views_of(acts@) == spec_enforce_profiles(processes@.take(k as int), profiles@),
        decreases processes@.len() - k,
    {
        let ghost before = acts@;
        enforce_one(&mut acts, &processes[k], profiles);
        proof {
            assert(processes@.take(k as int + 1).drop_last() =~= processes@.take(k as int));
            assert(processes@.take(k as int + 1).last() == processes@[k as int]);
            assert(views_of(acts@) =~= spec_enforce_profiles(
                processes@.take(k as int + 1),
                profiles@,
            ));
        }
        k += 1;
    }
    proof {
        assert(processes@.take(processes@.len() as int) =~= processes@);
    }
    acts
}

// ---------------------------------------------------------------------------
// Default rules
// ---------------------------------------------------------------------------

/// Core processes the default rules never touch.
pub open spec fn spec_allowlisted(name_low: Seq<char>) -> bool {
    name_low == "explorer.exe"@ || name_low == "task-nexus.exe"@ || name_low == "system"@
}

/// A reported affinity label satisfies a stored mask string neither
/// verbatim nor in canonical `0x` form.
pub open spec fn spec_mask_fix_needed(current: Seq<char>, mask_str: Seq<char>) -> bool {
    current != mask_str && current != spec_hex_0x(spec_parse_or_zero(mask_str) as int)
}

/// The default-rules actions for one process: games get the game mask
/// and priority; other processes get the system mask and priority, and
/// only when they show real load or a non-default priority, so idle
/// processes are never touched; processes with an enabled profile or
/// on the allowlist are skipped.
pub open spec fn spec_default_one(
    p: ProcessInfo,
    rules: DefaultRulesConfig,
    profiles: Seq<Profile>,
    games_low: Seq<Seq<char>>,
) -> Seq<ActionV> {
    let name_low = lower_of(p.name@);
    if spec_profile_match(profiles, name_low) is Some {
        Seq::empty()
    } else if spec_name_matches(name_low, games_low) {
        let mask_acts = match rules.game_mask {
            Some(m) => if spec_mask_fix_needed(p.cpu_affinity@, m@) {
                seq![ActionV::SetAffinity { pid: p.pid, mask: m@ }]
            } else {
                Seq::empty()
            },
            None => Seq::empty(),
        };
        let pri_acts = match spec_priority_from_name(lower_of(rules.game_priority@)) {
            Some(level) => if p.priority@ != rules.game_priority@ {
                seq![ActionV::SetPriority { pid: p.pid, level }]
            } else {
                Seq::empty()
            },
            None => Seq::empty(),
        };
        mask_acts + pri_acts
    } else if spec_allowlisted(name_low) {
        Seq::empty()
    } else {
        let mask_acts = match rules.system_mask {
            Some(m) => if spec_mask_fix_needed(p.cpu_affinity@, m@) && (p.cpu_usage > 10
                || p.priority@ != "Normal"@) {
                seq![ActionV::SetAffinity { pid: p.pid, mask: m@ }]
            } else {
                Seq::empty()
            },
            None => Seq::empty(),
        };
        let pri_acts = match spec_priority_from_name(lower_of(rules.system_priority@)) {
            Some(level) => if p.priority@ != rules.system_priority@ && (p.cpu_usage > 10
                || p.priority@ != "Normal"@) {
                seq![ActionV::SetPriority { pid: p.pid, level }]
            } else {
                Seq::empty()
            },
            None => Seq::empty(),
        };
        mask_acts + pri_acts
    }
}

/// The actions of the whole default-rules pass, in snapshot order;
/// empty when the policy is disabled.
pub open spec fn spec_default_rules(
    ps: Seq<ProcessInfo>,
    rules: DefaultRulesConfig,
    profiles: Seq<Profile>,
    games_low: Seq<Seq<char>>,
) -> Seq<ActionV>
    decreases ps.len(),
{
    if !rules.enabled {
        Seq::empty()
    } else if ps.len() == 0 {
        Seq::empty()
    } else {
        spec_default_rules(ps.drop_last(), rules, profiles, games_low) + spec_default_one(
            ps.last(),
            rules,
            profiles,
            games_low,
        )
    }
}

fn mask_fix_needed(current: &String, mask_str: &String) -> (r: bool)
    ensures
        r == spec_mask_fix_needed(current@, mask_str@),
{
    let target = match parse_hex_u64(mask_str.as_str()) {
        Some(v) => v,
        None => 0,
    };
    let target_hex = hex_0x_str_u64(target);
    !str_eq(current.as_str(), mask_str.as_str()) && !str_eq(
        current.as_str(),
        target_hex.as_str(),
    )
}

/// One process's worth of default rules; pushes the planned actions in
/// order.
fn default_one(
    acts: &mut Vec<WatchdogAction>,
    p: &ProcessInfo,
    rules: &DefaultRulesConfig,
    profiles: &Vec<Profile>,
    games_low: &Vec<String>,
)
    ensures
        views_of(final(acts)@) == views_of(old(acts)@) + spec_default_one(
            *p,
            *rules,
            profiles@,
            games_low.deep_view(),
        ),
{
    let ghost before = acts@;
    let ghost expected = spec_default_one(*p, *rules, profiles@, games_low.deep_view());
    let name_low = lowercase(p.name.as_str());
    if find_profile(profiles, name_low.as_str()).is_some() {
        proof {
            assert(views_of(before) + expected =~= views_of(before));
        }
        return ;
    }
    let is_game = name_matches(name_low.as_str(), games_low);
    if is_game {
        let ghost mask_acts = (match &rules.game_mask {
            Some(m) => if spec_mask_fix_needed(p.cpu_affinity@, m@) {
                seq![ActionV::SetAffinity { pid: p.pid, mask: m@ }]
            } else {
                Seq::<ActionV>::empty()
            },
            None => Seq::<ActionV>::empty(),
        });
        match &rules.game_mask {
            Some(m) => {
                if mask_fix_needed(&p.cpu_affinity, m) {
                    let ghost pre = acts@;
                    let a = WatchdogAction::SetAffinity { pid: p.pid, mask: m.clone() };
                    let ghost av = a@;
                    acts.push(a);
                    proof {
                        assert(views_of(acts@) =~= views_of(pre).push(av));
                    }
                }
            },
            None => {},
        }
        proof {
            assert(views_of(acts@) =~= views_of(before) + mask_acts);
        }
        let ghost mid = acts@;
        let ghost pri_acts = (match spec_priority_from_name(lower_of(rules.game_priority@)) {
            Some(level) => if p.priority@ != rules.game_priority@ {
                seq![ActionV::SetPriority { pid: p.pid, level }]
            } else {
                Seq::<ActionV>::empty()
            },
            None => Seq::<ActionV>::empty(),
        });
        match PriorityLevel::from_str(rules.game_priority.as_str()) {
            Some(level) => {
                if !str_eq(p.priority.as_str(), rules.game_priority.as_str()) {
                    let ghost pre = acts@;
                    acts.push(WatchdogAction::SetPriority { pid: p.pid, level });
                    proof {
                        lemma_views_of_push(
                            pre,
                            WatchdogAction::SetPriority { pid: p.pid, level },
                        );
                    }
                }
            },
            None => {},
        }
        proof {
            assert(views_of(acts@) =~= views_of(mid) + pri_acts);
            assert(expected == mask_acts + pri_acts);
            assert(views_of(acts@) =~= views_of(before) + expected);
        }
    } else {
        if str_eq(name_low.as_str(), "explorer.exe") || str_eq(
            name_low.as_str(),
            "task-nexus.exe",
        ) || str_eq(name_low.as_str(), "system") {
            proof {
                assert(views_of(before) + expected =~= views_of(before));
            }
            return ;
        }
        let ghost mask_acts = (match &rules.system_mask {
            Some(m) => if spec_mask_fix_needed(p.cpu_affinity@, m@) && (p.cpu_usage > 10
                || p.priority@ != "Normal"@) {
                seq![ActionV::SetAffinity { pid: p.pid, mask: m@ }]
            } else {
                Seq::<ActionV>::empty()
            },
            None => Seq::<ActionV>::empty(),
        });
        match &rules.system_mask {
            Some(m) => {
                if mask_fix_needed(&p.cpu_affinity, m) {
                    if p.cpu_usage > 10 || !str_eq(p.priority.as_str(), "Normal") {
                        let ghost pre = acts@;
                        let a = WatchdogAction::SetAffinity { pid: p.pid, mask: m.clone() };
                        let ghost av = a@;
                        acts.push(a);
                        proof {
                            assert(views_of(acts@) =~= views_of(pre).push(av));
                        }
                    }
                }
            },
            None => {},
        }
        proof {
            assert(views_of(acts@) =~= views_of(before) + mask_acts);
        }
        let ghost mid = acts@;
        let ghost pri_acts = (match spec_priority_from_name(lower_of(rules.system_priority@)) {
            Some(level) => if p.priority@ != rules.system_priority@ && (p.cpu_usage > 10
                || p.priority@ != "Normal"@) {
                seq![ActionV::SetPriority { pid: p.pid, level }]
            } else {
                Seq::<ActionV>::empty()
            },
            None => Seq::<ActionV>::empty(),
        });
        match PriorityLevel::from_str(rules.system_priority.as_str()) {
            Some(level) => {
                if !str_eq(p.priority.as_str(), rules.system_priority.as_str()) && (p.cpu_usage
                    > 10 || !str_eq(p.priority.as_str(), "Normal")) {
                    let ghost pre = acts@;
                    acts.push(WatchdogAction::SetPriority { pid: p.pid, level });
                    proof {
                        lemma_views_of_push(
                            pre,
                            WatchdogAction::SetPriority { pid: p.pid, level },
                        );
                    }
                }
            },
            None => {},
        }
        proof {
            assert(views_of(acts@) =~= views_of(mid) + pri_acts);
            assert(expected == mask_acts + pri_acts);
            assert(views_of(acts@) =~= views_of(before) + expected);
        }
    }
}

/// The default-rules pass: classifies each unprofiled process as game
/// or background by the game list and reconciles its mask and priority
/// with the configured defaults.
pub fn apply_default_rules(
    processes: &Vec<ProcessInfo>,
    rules: &DefaultRulesConfig,
    profiles: &Vec<Profile>,
    game_list: &Vec<String>,
) -> (r: Vec<WatchdogAction>)
    ensures
        views_of(r@) == spec_default_rules(
            processes@,
            *rules,
            profiles@,
            spec_lowered(game_list.deep_view()),
        ),
{
    let mut acts: Vec<WatchdogAction> = Vec::new();
    if !rules.enabled {
        return acts;
    }
    let games_low = lowercase_all(game_list);
    proof {
        assert(games_low.deep_view() =~= spec_lowered(game_list.deep_view()));
    }
    let mut k: usize = 0;
    while k < processes.len()
        invariant
            k <= processes@.len(),
            rules.enabled,
            games_low.deep_view() == spec_lowered(game_list.deep_view()),
            views_of(acts@) == spec_default_rules(
                processes@.take(k as int),
                *rules,
                profiles@,
                games_low.deep_view(),
            ),
        decreases processes@.len() - k,
    {
        default_one(&mut acts, &processes[k], rules, profiles, &games_low);
        proof {
            assert(processes@.take(k as int + 1).drop_last() =~= processes@.take(k as int));
            assert(processes@.take(k as int + 1).last() == processes@[k as int]);
        }
        k += 1;
    }
    proof {
        assert(processes@.take(processes@.len() as int) =~= processes@);
    }
    acts
}

/// Restraining twice in a row with unchanged inputs restrains the same
/// set exactly once: after the first plan's pids are recorded, a second
/// plan over the same snapshot is empty.
pub proof fn lemma_restrain_idempotent(
    ps: Seq<ProcessInfo>,
    excludes_low: Seq<Seq<char>>,
    games_low: Seq<Seq<char>>,
    foreground_pid: u32,
    s0: Set<u32>,
    plan1: Seq<u32>,
    s1: Set<u32>,
    plan2: Seq<u32>,
)
    requires
        spec_restrain_plan_ok(plan1, ps, excludes_low, games_low, foreground_pid, s0),
        s1 == s0 + plan1.to_set(),
        spec_restrain_plan_ok(plan2, ps, excludes_low, games_low, foreground_pid, s1),
    ensures
        plan2 == Seq::<u32>::empty(),
{
    if plan2.len() > 0 {
        let pid = plan2[0];
        assert(plan2.contains(pid));
        assert(!s1.contains(pid));
        assert(!s0.contains(pid));
        assert(plan1.contains(pid));
        assert(plan1.to_set().contains(pid));
        assert(s1.contains(pid));
    }
    assert(plan2 =~= Seq::<u32>::empty());
}

} // verus!
