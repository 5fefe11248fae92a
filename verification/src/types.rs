//! Shared base types of the governor core.

use vstd::prelude::*;
use crate::strutil::{lower_of, lowercase, str_eq, spec_dec, dec_str_u64};

verus! {

/// Scheduling priority class of a process, ordered from least to most urgent.
#[derive(Debug, Clone, Copy, PartialEq, Eq, Structural)]
pub enum PriorityLevel {
    Idle,
    BelowNormal,
    Normal,
    AboveNormal,
    High,
    RealTime,
}

/// The canonical name of a priority level.
pub open spec fn spec_priority_name(level: PriorityLevel) -> Seq<char> {
    match level {
        PriorityLevel::Idle => "Idle"@,
        PriorityLevel::BelowNormal => "BelowNormal"@,
        PriorityLevel::Normal => "Normal"@,
        PriorityLevel::AboveNormal => "AboveNormal"@,
        PriorityLevel::High => "High"@,
        PriorityLevel::RealTime => "RealTime"@,
    }
}

/// The Chinese display name of a priority level.
pub open spec fn spec_priority_name_cn(level: PriorityLevel) -> Seq<char> {
    match level {
        PriorityLevel::Idle => "空闲"@,
        PriorityLevel::BelowNormal => "低"@,
        PriorityLevel::Normal => "正常"@,
        PriorityLevel::AboveNormal => "较高"@,
        PriorityLevel::High => "高"@,
        PriorityLevel::RealTime => "实时"@,
    }
}

/// The display colour of a priority level, as an RGB triple.
pub open spec fn spec_priority_color(level: PriorityLevel) -> (u8, u8, u8) {
    match level {
        PriorityLevel::RealTime => (255u8, 50u8, 50u8),
        PriorityLevel::High => (255u8, 150u8, 50u8),
        PriorityLevel::AboveNormal => (255u8, 220u8, 50u8),
        PriorityLevel::Normal => (150u8, 150u8, 150u8),
        PriorityLevel::BelowNormal => (100u8, 180u8, 255u8),
        PriorityLevel::Idle => (100u8, 100u8, 100u8),
    }
}

/// The level a lowercased name denotes, if any.
pub open spec fn spec_priority_from_name(low: Seq<char>) -> Option<PriorityLevel> {
    if low == "idle"@ {
        Some(PriorityLevel::Idle)
    } else if low == "belownormal"@ {
        Some(PriorityLevel::BelowNormal)
    } else if low == "normal"@ {
        Some(PriorityLevel::Normal)
    } else if low == "abovenormal"@ {
        Some(PriorityLevel::AboveNormal)
    } else if low == "high"@ {
        Some(PriorityLevel::High)
    } else if low == "realtime"@ {
        Some(PriorityLevel::RealTime)
    } else {
        None
    }
}

impl PriorityLevel {
    /// The canonical textual form used across the OS boundary.
    pub fn as_str(&self) -> (r: &'static str)
        ensures
            r@ == spec_priority_name(*self),
    {
        match self {
            PriorityLevel::Idle => "Idle",
            PriorityLevel::BelowNormal => "BelowNormal",
            PriorityLevel::Normal => "Normal",
            PriorityLevel::AboveNormal => "AboveNormal",
            PriorityLevel::High => "High",
            PriorityLevel::RealTime => "RealTime",
        }
    }

    /// The Chinese display form.
    pub fn as_str_cn(&self) -> (r: &'static str)
        ensures
            r@ == spec_priority_name_cn(*self),
    {
        match self {
            PriorityLevel::Idle => "空闲",
            PriorityLevel::BelowNormal => "低",
            PriorityLevel::Normal => "正常",
            PriorityLevel::AboveNormal => "较高",
            PriorityLevel::High => "高",
            PriorityLevel::RealTime => "实时",
        }
    }

    /// Parses a level name case-insensitively, as the configuration
    /// and the OS boundary write it.
    pub fn from_str(s: &str) -> (r: Option<PriorityLevel>)
        ensures
            r == spec_priority_from_name(lower_of(s@)),
    {
        let low = lowercase(s);
        if str_eq(low.as_str(), "idle") {
            Some(PriorityLevel::Idle)
        } else if str_eq(low.as_str(), "belownormal") {
            Some(PriorityLevel::BelowNormal)
        } else if str_eq(low.as_str(), "normal") {
            Some(PriorityLevel::Normal)
        } else if str_eq(low.as_str(), "abovenormal") {
            Some(PriorityLevel::AboveNormal)
        } else if str_eq(low.as_str(), "high") {
            Some(PriorityLevel::High)
        } else if str_eq(low.as_str(), "realtime") {
            Some(PriorityLevel::RealTime)
        } else {
            None
        }
    }

    /// The display colour of this level.
    pub fn color(&self) -> (r: (u8, u8, u8))
        ensures
            r == spec_priority_color(*self),
    {
        match self {
            PriorityLevel::RealTime => (255, 50, 50),
            PriorityLevel::High => (255, 150, 50),
            PriorityLevel::AboveNormal => (255, 220, 50),
            PriorityLevel::Normal => (150, 150, 150),
            PriorityLevel::BelowNormal => (100, 180, 255),
            PriorityLevel::Idle => (100, 100, 100),
        }
    }
}

/// Micro-architecture role of a logical core.
#[derive(Debug, Clone, Copy, PartialEq, Eq, Structural)]
pub enum CoreType {
    Performance,
    Efficiency,
    VCache,
    Unknown,
}

/// One logical core of the detected topology.
#[derive(Debug, Clone, Copy, PartialEq, Eq, Structural)]
pub struct LogicalCore {
    /// Zero-based logical processor index, stable across a boot.
    pub id: usize,
    /// Role the classifier assigned to this core.
    pub core_type: CoreType,
    /// Index of the owning physical core.
    pub physical_id: usize,
    /// Low bits of the level-3 cache group mask this core belongs to.
    pub group_id: u32,
}

/// The classified processor topology.
#[derive(Debug, Clone)]
pub struct CpuTopology {
    /// Processor model name.
    pub model: String,
    /// Number of distinct physical cores observed.
    pub physical_cores: u32,
    /// Number of classified logical cores.
    pub logical_cores: u32,
    /// The classified cores, ordered by id.
    pub cores: Vec<LogicalCore>,
    /// True iff at least one classified core has the `Efficiency` role.
    pub is_hybrid: bool,
    /// True iff at least one classified core has the `VCache` role.
    pub has_vcache: bool,
}

/// Error taxonomy of the governor core.
#[derive(Debug, Clone, PartialEq, Eq)]
pub enum AppError {
    ProcessNotFound(u32),
    InvalidPid(u32),
    InvalidAffinityMask(String),
    SystemError(String),
    /// An operating-system collaborator failure, carried as its message.
    IoError(String),
}

/// The display message of an error.
pub open spec fn spec_error_message(e: AppError) -> Seq<char> {
    match e {
        AppError::ProcessNotFound(pid) => "进程不存在: "@ + spec_dec(pid as int),
        AppError::InvalidPid(pid) => "无效的进程 ID: "@ + spec_dec(pid as int),
        AppError::InvalidAffinityMask(m) => "无效的核心掩码: "@ + m@,
        AppError::SystemError(s) => "系统错误: "@ + s@,
        AppError::IoError(s) => "IO 错误: "@ + s@,
    }
}

impl AppError {
    /// The error rendered for display.
    pub fn message(&self) -> (r: String)
        ensures
            r@ == spec_error_message(*self),
    {
        match self {
            AppError::ProcessNotFound(pid) => {
                let mut s = String::from_str("进程不存在: ");
                s.append(dec_str_u64(*pid as u64).as_str());
                s
            },
            AppError::InvalidPid(pid) => {
                let mut s = String::from_str("无效的进程 ID: ");
                s.append(dec_str_u64(*pid as u64).as_str());
                s
            },
            AppError::InvalidAffinityMask(m) => {
                let mut s = String::from_str("无效的核心掩码: ");
                s.append(m.as_str());
                s
            },
            AppError::SystemError(m) => {
                let mut s = String::from_str("系统错误: ");
                s.append(m.as_str());
                s
            },
            AppError::IoError(m) => {
                let mut s = String::from_str("IO 错误: ");
                s.append(m.as_str());
                s
            },
        }
    }
}

/// Result type of the governor core.
pub type AppResult<T> = Result<T, AppError>;

/// Per-thread CPU time sample at one point in time.
#[derive(Debug, Clone, Copy, PartialEq, Eq, Structural)]
pub struct ThreadSample {
    /// Thread id.
    pub tid: u32,
    /// Cumulative CPU time of the thread, in nanoseconds.
    pub cpu_time_ns: u64,
}

/// One process of the live snapshot a watchdog tick works on.
///
/// CPU usage crosses the boundary as an integer count of hundredths of a
/// percent, so that the policy thresholds compare exactly.
#[derive(Debug, Clone)]
pub struct ProcessInfo {
    pub pid: u32,
    pub parent_pid: Option<u32>,
    pub name: String,
    /// CPU usage in hundredths of a percent (100 = 1 %).
    pub cpu_usage: u64,
    pub memory_usage: u64,
    /// Priority class label as the OS reports it.
    pub priority: String,
    /// Affinity label as the OS reports it.
    pub cpu_affinity: String,
    pub thread_count: u32,
    pub user: String,
    pub path: String,
}

/// A not-yet-applied bundle of per-process scheduling intent.
#[derive(Debug, Clone)]
pub struct PendingProfile {
    /// Core mask to apply, if any.
    pub affinity_mask: Option<u64>,
    /// Priority to apply, if any.
    pub priority: Option<PriorityLevel>,
    /// Core to bind the busiest thread to, if any.
    pub thread_bind_core: Option<u32>,
}

/// Decimal renderings joined with commas.
pub open spec fn spec_join_dec(ids: Seq<u32>) -> Seq<char>
    decreases ids.len(),
{
    if ids.len() == 0 {
        Seq::empty()
    } else if ids.len() == 1 {
        spec_dec(ids[0] as int)
    } else {
        spec_join_dec(ids.drop_last()) + ","@ + spec_dec(ids.last() as int)
    }
}

/// Parts joined with `" | "`.
pub open spec fn spec_join_parts(parts: Seq<Seq<char>>) -> Seq<char>
    decreases parts.len(),
{
    if parts.len() == 0 {
        Seq::empty()
    } else if parts.len() == 1 {
        parts[0]
    } else {
        spec_join_parts(parts.drop_last()) + " | "@ + parts.last()
    }
}

/// The affinity part of a summary: up to four cores are listed, a
/// contiguous longer run is shown as a range, and anything else as a
/// count.
pub open spec fn spec_affinity_summary(mask: u64) -> Seq<char> {
    let ids = crate::watchdog::spec_mask_core_ids(mask);
    if ids.len() <= 4 {
        "核心:"@ + spec_join_dec(ids)
    } else if ids.last() - ids.first() + 1 == ids.len() {
        "核心:"@ + spec_dec(ids.first() as int) + "-"@ + spec_dec(ids.last() as int)
    } else {
        spec_dec(ids.len() as int) + "核"@
    }
}

/// The status summary of a pending bundle: `"默认"` when empty, else
/// its set parts joined with `" | "`.
pub open spec fn spec_summary(p: PendingProfile) -> Seq<char> {
    if p.affinity_mask is None && p.priority is None && p.thread_bind_core is None {
        "默认"@
    } else {
        let parts = (match p.affinity_mask {
            Some(mask) => seq![spec_affinity_summary(mask)],
            None => Seq::<Seq<char>>::empty(),
        }) + (match p.priority {
            Some(level) => seq![spec_priority_name_cn(level)],
            None => Seq::<Seq<char>>::empty(),
        }) + (match p.thread_bind_core {
            Some(core) => seq!["绑定:"@ + spec_dec(core as int)],
            None => Seq::<Seq<char>>::empty(),
        });
        spec_join_parts(parts)
    }
}

fn join_dec(ids: &Vec<u32>) -> (r: String)
    ensures
        r@ == spec_join_dec(ids@),
{
    let mut s = String::new();
    let mut i: usize = 0;
    while i < ids.len()
        invariant
            i <= ids@.len(),
            s@ == spec_join_dec(ids@.take(i as int)),
        decreases ids@.len() - i,
    {
        if i > 0 {
            s.append(",");
        }
        s.append(dec_str_u64(ids[i] as u64).as_str());
        proof {
            assert(ids@.take(i as int + 1).drop_last() =~= ids@.take(i as int));
            assert(ids@.take(i as int + 1).last() == ids@[i as int]);
            if i == 0 {
                assert(s@ =~= spec_join_dec(ids@.take(1)));
            } else {
                assert(s@ =~= spec_join_dec(ids@.take(i as int + 1)));
            }
        }
        i += 1;
    }
    proof {
        assert(ids@.take(ids@.len() as int) =~= ids@);
    }
    s
}

fn join_parts(parts: &Vec<String>) -> (r: String)
    ensures
        r@ == spec_join_parts(parts.deep_view()),
{
    let ghost pv = parts.deep_view();
    let mut s = String::new();
    let mut i: usize = 0;
    while i < parts.len()
        invariant
            i <= parts@.len(),
            pv == parts.deep_view(),
            pv.len() == parts@.len(),
            s@ == spec_join_parts(pv.take(i as int)),
        decreases parts@.len() - i,
    {
        if i > 0 {
            s.append(" | ");
        }
        s.append(parts[i].as_str());
        proof {
            assert(pv.take(i as int + 1).drop_last() =~= pv.take(i as int));
            assert(pv.take(i as int + 1).last() == pv[i as int]);
            assert(pv[i as int] == parts@[i as int]@);
            if i == 0 {
                assert(s@ =~= spec_join_parts(pv.take(1)));
            } else {
                assert(s@ =~= spec_join_parts(pv.take(i as int + 1)));
            }
        }
        i += 1;
    }
    proof {
        assert(pv.take(pv.len() as int) =~= pv);
    }
    s
}

impl PendingProfile {
    /// A bundle with nothing set.
    pub fn new() -> (r: PendingProfile)
        ensures
            r.affinity_mask is None,
            r.priority is None,
            r.thread_bind_core is None,
    {
        PendingProfile { affinity_mask: None, priority: None, thread_bind_core: None }
    }

    /// True iff none of the three fields is set.
    pub fn is_empty(&self) -> (r: bool)
        ensures
            r == (self.affinity_mask is None && self.priority is None
                && self.thread_bind_core is None),
    {
        self.affinity_mask.is_none() && self.priority.is_none() && self.thread_bind_core.is_none()
    }

    /// Renders the bundle for display: `"默认"` when nothing is set,
    /// else the set parts joined with `" | "`.
    pub fn summary(&self) -> (r: String)
        ensures
            r@ == spec_summary(*self),
    {
        if self.is_empty() {
            return String::from_str("默认");
        }
        let ghost expected_parts = (match self.affinity_mask {
            Some(mask) => seq![spec_affinity_summary(mask)],
            None => Seq::<Seq<char>>::empty(),
        }) + (match self.priority {
            Some(level) => seq![spec_priority_name_cn(level)],
            None => Seq::<Seq<char>>::empty(),
        }) + (match self.thread_bind_core {
            Some(core) => seq!["绑定:"@ + spec_dec(core as int)],
            None => Seq::<Seq<char>>::empty(),
        });
        let mut parts: Vec<String> = Vec::new();
        if let Some(mask) = self.affinity_mask {
            let ids = crate::watchdog::mask_core_ids(mask);
            proof {
                crate::watchdog::lemma_mask_core_ids_props(mask, 64);
            }
            if ids.len() <= 4 {
                let mut s = String::from_str("核心:");
                s.append(join_dec(&ids).as_str());
                parts.push(s);
            } else {
                let min = ids[0];
                let max = ids[ids.len() - 1];
                proof {
                    assert(min == crate::watchdog::spec_mask_core_ids(mask).first());
                    assert(max == crate::watchdog::spec_mask_core_ids(mask).last());
                }
                if max - min + 1 == ids.len() as u32 {
                    let mut s = String::from_str("核心:");
                    s.append(dec_str_u64(min as u64).as_str());
                    s.append("-");
                    s.append(dec_str_u64(max as u64).as_str());
                    parts.push(s);
                } else {
                    let mut s = dec_str_u64(ids.len() as u64);
                    s.append("核");
                    parts.push(s);
                }
            }
        }
        if let Some(level) = self.priority {
            parts.push(String::from_str(level.as_str_cn()));
        }
        if let Some(core) = self.thread_bind_core {
            let mut s = String::from_str("绑定:");
            s.append(dec_str_u64(core as u64).as_str());
            parts.push(s);
        }
        proof {
            assert(parts.deep_view() =~= expected_parts);
        }
        join_parts(&parts)
    }
}

} // verus!
