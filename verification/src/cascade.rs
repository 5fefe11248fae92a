//! Load-weighted cascading thread-to-core mapping.
//!
//! Given an ordered list of priority cores, the engine first confines
//! the whole process to the union of those cores (the hard outer
//! boundary), then ranks the process's threads by the growth of their
//! cumulative CPU time between two snapshots and binds the busiest
//! thread to the first priority core and the second-busiest to the
//! second, leaving every other thread free within the outer mask.
//!
//! This module holds the decision logic: mask validation, delta
//! ranking, and the bind plan.  Performing the affinity writes, taking
//! the snapshots and waiting out the sampling delay happen outside.

use vstd::prelude::*;
use crate::seq_util::lemma_seq_insert_to_multiset;
use crate::types::{AppError, ThreadSample};

verus! {

/// A thread with the CPU time it consumed over the sampling window.
#[derive(Debug, Clone, Copy, PartialEq, Eq, Structural)]
pub struct ThreadLoad {
    pub tid: u32,
    /// CPU-time growth over the window, in nanoseconds.
    pub delta: u64,
}

/// One planned thread-affinity write.
#[derive(Debug, Clone, Copy, PartialEq, Eq, Structural)]
pub struct ThreadBind {
    pub tid: u32,
    /// Singleton affinity mask for the thread.
    pub mask: u64,
}

/// Union of the bits named by the first `n` entries of `cores`;
/// entries of 64 or more contribute nothing.
pub open spec fn spec_full_mask_upto(cores: Seq<u32>, n: int) -> u64
    decreases n,
{
    if n <= 0 {
        0u64
    } else {
        let prev = spec_full_mask_upto(cores, n - 1);
        if cores[n - 1] < 64 {
            prev | (1u64 << (cores[n - 1] as u64))
        } else {
            prev
        }
    }
}

/// Union of the bits named by `cores`.
pub open spec fn spec_full_mask(cores: Seq<u32>) -> u64 {
    spec_full_mask_upto(cores, cores.len() as int)
}

/// Computes the process-wide affinity mask of a cascading-mapping
/// request: the union of all named core bits.
///
/// An empty list is rejected as invalid input; a list whose named bits
/// are all 64 or more unions to zero and is rejected as an invalid
/// mask.  Any other list succeeds with the exact union.
pub fn cascade_full_mask(priority_cores: &Vec<u32>) -> (r: Result<u64, AppError>)
    ensures
        priority_cores@.len() == 0 ==> (r matches Err(AppError::InvalidAffinityMask(m))
            && m@ == "核心列表不能为空"@),
        priority_cores@.len() > 0 && spec_full_mask(priority_cores@) == 0 ==> (r matches Err(
            AppError::InvalidAffinityMask(m),
        ) && m@ == "无效的核心掩码"@),
        r is Ok <==> priority_cores@.len() > 0 && spec_full_mask(priority_cores@) != 0,
        r matches Ok(m) ==> m == spec_full_mask(priority_cores@),
{
    if priority_cores.len() == 0 {
        return Err(AppError::InvalidAffinityMask(String::from_str("核心列表不能为空")));
    }
    let mut mask: u64 = 0;
    let mut k: usize = 0;
    while k < priority_cores.len()
        invariant
            k <= priority_cores@.len(),
            mask == spec_full_mask_upto(priority_cores@, k as int),
        decreases priority_cores@.len() - k,
    {
        let c = priority_cores[k];
        if c < 64 {
            mask = mask | (1u64 << c as u64);
        }
        k += 1;
    }
    if mask == 0 {
        return Err(AppError::InvalidAffinityMask(String::from_str("无效的核心掩码")));
    }
    Ok(mask)
}

/// Bit `b` of the full mask is set iff some entry of `cores` names it.
pub proof fn lemma_full_mask_bits(cores: Seq<u32>, b: int)
    requires
        0 <= b < 64,
    ensures
        crate::topology::bit_set(spec_full_mask(cores), b) <==> cores.contains(b as u32),
{
    lemma_full_mask_bits_upto(cores, cores.len() as int, b);
    assert forall|i: int| 0 <= i < cores.len() && cores[i] == b as u32 implies exists|j: int|
        0 <= j < cores.len() && cores[j] == b as u32 by {
    }
}

proof fn lemma_full_mask_bits_upto(cores: Seq<u32>, n: int, b: int)
    requires
        0 <= b < 64,
        0 <= n <= cores.len(),
    ensures
        crate::topology::bit_set(spec_full_mask_upto(cores, n), b) <==> exists|i: int|
            0 <= i < n && cores[i] == b as u32,
    decreases n,
{
    let bu = b as u64;
    if n == 0 {
        assert((0u64 >> bu) & 1u64 == 0u64) by (bit_vector);
    } else {
        lemma_full_mask_bits_upto(cores, n - 1, b);
        let prev = spec_full_mask_upto(cores, n - 1);
        let c = cores[n - 1];
        if c < 64 {
            let cu = c as u64;
            assert(bu < 64 && cu < 64 ==> ((((prev | (1u64 << cu)) >> bu) & 1u64 == 1u64) <==> ((
            prev >> bu) & 1u64 == 1u64 || cu == bu))) by (bit_vector);
        }
    }
}

/// The first-snapshot CPU time recorded for `tid`; when a thread id
/// occurs more than once, the last sample wins.
pub open spec fn spec_sample_time(first: Seq<ThreadSample>, tid: u32) -> Option<u64>
    decreases first.len(),
{
    if first.len() == 0 {
        None
    } else if first.last().tid == tid {
        Some(first.last().cpu_time_ns)
    } else {
        spec_sample_time(first.drop_last(), tid)
    }
}

/// The rankable loads of a sampling window, in second-snapshot order:
/// one entry per second-snapshot thread that also appears in the first
/// snapshot with a cumulative time no greater than its second reading.
pub open spec fn spec_deltas(first: Seq<ThreadSample>, second: Seq<ThreadSample>) -> Seq<
    ThreadLoad,
>
    decreases second.len(),
{
    if second.len() == 0 {
        Seq::empty()
    } else {
        let t2 = second.last();
        spec_deltas(first, second.drop_last()) + match spec_sample_time(first, t2.tid) {
            Some(t1) => if t2.cpu_time_ns >= t1 {
                seq![ThreadLoad { tid: t2.tid, delta: (t2.cpu_time_ns - t1) as u64 }]
            } else {
                Seq::empty()
            },
            None => Seq::empty(),
        }
    }
}

/// Non-increasing deltas.
pub open spec fn sorted_by_delta_desc(s: Seq<ThreadLoad>) -> bool {
    forall|i: int, j: int| 0 <= i < j < s.len() ==> s[i].delta >= s[j].delta
}

fn find_sample_time(first: &Vec<ThreadSample>, tid: u32) -> (r: Option<u64>)
    ensures
        r == spec_sample_time(first@, tid),
{
    let ghost full = first@;
    proof {
        assert(full.take(first@.len() as int) =~= full);
    }
    let mut j: usize = first.len();
    while j > 0
        invariant
            j <= first.len(),
            first@ == full,
            spec_sample_time(full, tid) == spec_sample_time(full.take(j as int), tid),
        decreases j,
    {
        let s = first[j - 1];
        proof {
            assert(full.take(j as int).last() == s);
            assert(full.take(j as int).drop_last() =~= full.take(j as int - 1));
        }
        if s.tid == tid {
            return Some(s.cpu_time_ns);
        }
        j -= 1;
    }
    proof {
        assert(full.take(0) =~= Seq::<ThreadSample>::empty());
    }
    None
}

/// Insertion sort by descending delta; keeps exactly the same loads.
fn sort_loads_desc(v: Vec<ThreadLoad>) -> (r: Vec<ThreadLoad>)
    ensures
        r@.to_multiset() == v@.to_multiset(),
        sorted_by_delta_desc(r@),
        r@.len() == v@.len(),
{
    broadcast use vstd::seq_lib::group_to_multiset_ensures;

    let mut out: Vec<ThreadLoad> = Vec::new();
    let mut k: usize = 0;
    while k < v.len()
        invariant
            k <= v.len(),
            sorted_by_delta_desc(out@),
            out@.to_multiset() == v@.take(k as int).to_multiset(),
            out@.len() == k,
        decreases v.len() - k,
    {
        let c = v[k];
        let mut pos: usize = 0;
        while pos < out.len() && out[pos].delta >= c.delta
            invariant
                pos <= out.len(),
                forall|j: int| 0 <= j < pos ==> (#[trigger] out@[j]).delta >= c.delta,
            decreases out.len() - pos,
        {
            pos += 1;
        }
        let ghost old_out = out@;
        out.insert(pos, c);
        proof {
            lemma_seq_insert_to_multiset(old_out, pos as int, c);
            assert(out@ == old_out.insert(pos as int, c));
            assert(out@.to_multiset() == old_out.to_multiset().insert(c));
            assert(v@.take(k as int + 1) =~= v@.take(k as int).push(v@[k as int]));
            vstd::seq_lib::to_multiset_build(v@.take(k as int), v@[k as int]);
            assert(out@.to_multiset() == v@.take(k as int + 1).to_multiset());
            assert(forall|j: int| 0 <= j < pos ==> out@[j] == old_out[j]);
            assert(forall|j: int| pos < j < out@.len() ==> out@[j] == old_out[j - 1]);
            assert(out@[pos as int] == c);
        }
        k += 1;
    }
    proof {
        assert(v@.take(v@.len() as int) =~= v@);
    }
    out
}

/// Ranks the threads of a process by the CPU time they consumed
/// between two snapshots.
///
/// A thread is rankable when it appears in both snapshots and its
/// cumulative time did not decrease; threads that exited or spawned
/// during the window are discarded.  The result holds exactly the
/// rankable loads, ordered by descending delta.
pub fn rank_threads(first: &Vec<ThreadSample>, second: &Vec<ThreadSample>) -> (r: Vec<ThreadLoad>)
    ensures
        r@.to_multiset() == spec_deltas(first@, second@).to_multiset(),
        r@.len() == spec_deltas(first@, second@).len(),
        sorted_by_delta_desc(r@),
{
    let mut loads: Vec<ThreadLoad> = Vec::new();
    let mut k: usize = 0;
    while k < second.len()
        invariant
            k <= second@.len(),
            loads@ == spec_deltas(first@, second@.take(k as int)),
        decreases second@.len() - k,
    {
        let t2 = second[k];
        proof {
            assert(second@.take(k as int + 1).last() == t2);
            assert(second@.take(k as int + 1).drop_last() =~= second@.take(k as int));
        }
        if let Some(t1) = find_sample_time(first, t2.tid) {
            if t2.cpu_time_ns >= t1 {
                loads.push(ThreadLoad { tid: t2.tid, delta: t2.cpu_time_ns - t1 });
            }
        }
        proof {
            assert(loads@ =~= spec_deltas(first@, second@.take(k as int + 1)));
        }
        k += 1;
    }
    proof {
        assert(second@.take(second@.len() as int) =~= second@);
    }
    sort_loads_desc(loads)
}

/// Plans the cascading binds: the busiest thread goes to the first
/// priority core, and, when a second priority core and a second-busiest
/// thread both exist, that thread goes to the second core.  Every other
/// thread is left to the process-wide mask.
pub fn plan_cascade_binds(ranked: &Vec<ThreadLoad>, priority_cores: &Vec<u32>) -> (r: Vec<
    ThreadBind,
>)
    requires
        priority_cores@.len() >= 1,
        forall|i: int| 0 <= i < priority_cores@.len() ==> (#[trigger] priority_cores@[i]) < 64,
    ensures
        r@.len() == if ranked@.len() == 0 {
            0int
        } else if ranked@.len() >= 2 && priority_cores@.len() >= 2 {
            2int
        } else {
            1int
        },
        ranked@.len() >= 1 ==> r@[0] == (ThreadBind {
            tid: ranked@[0].tid,
            mask: 1u64 << (priority_cores@[0] as u64),
        }),
        ranked@.len() >= 2 && priority_cores@.len() >= 2 ==> r@[1] == (ThreadBind {
            tid: ranked@[1].tid,
            mask: 1u64 << (priority_cores@[1] as u64),
        }),
{
    let mut binds: Vec<ThreadBind> = Vec::new();
    if ranked.len() >= 1 {
        binds.push(ThreadBind { tid: ranked[0].tid, mask: 1u64 << (priority_cores[0] as u64) });
        if priority_cores.len() >= 2 && ranked.len() >= 2 {
            binds.push(
                ThreadBind { tid: ranked[1].tid, mask: 1u64 << (priority_cores[1] as u64) },
            );
        }
    }
    binds
}

/// With one thread strictly busier than a second, which in turn is
/// strictly busier than every other rankable thread, any ranking of
/// those loads puts the busiest first and the second-busiest second.
pub proof fn lemma_rank_top_two(
    ranked: Seq<ThreadLoad>,
    loads: Seq<ThreadLoad>,
    a: ThreadLoad,
    b: ThreadLoad,
)
    requires
        ranked.to_multiset() == loads.to_multiset(),
        sorted_by_delta_desc(ranked),
        loads.contains(a),
        loads.contains(b),
        loads.to_multiset().count(a) == 1,
        a.delta > b.delta,
        forall|i: int|
            0 <= i < loads.len() && loads[i] != a && loads[i] != b ==> (#[trigger] loads[i]).delta
                < b.delta,
    ensures
        ranked.len() == loads.len(),
        ranked.len() >= 2,
        ranked[0] == a,
        ranked[1] == b,
{
    broadcast use vstd::seq_lib::group_to_multiset_ensures;

    assert(ranked.to_multiset().len() == ranked.len());
    assert(loads.to_multiset().len() == loads.len());
    assert(ranked.len() == loads.len());
    assert(a != b);
    assert(loads.to_multiset().count(a) > 0);
    assert(ranked.to_multiset().count(a) > 0);
    assert(ranked.contains(a));
    assert(loads.to_multiset().count(b) > 0);
    assert(ranked.to_multiset().count(b) > 0);
    assert(ranked.contains(b));
    let pa = choose|p: int| 0 <= p < ranked.len() && ranked[p] == a;
    let pb = choose|p: int| 0 <= p < ranked.len() && ranked[p] == b;
    assert(pa != pb);
    assert(ranked.len() >= 2);
    assert(loads.contains(ranked[0])) by {
        assert(ranked.to_multiset().count(ranked[0]) > 0);
    }
    if ranked[0] != a {
        assert(ranked[0].delta >= a.delta);
        if ranked[0] == b {
        } else {
            let i = choose|i: int| 0 <= i < loads.len() && loads[i] == ranked[0];
            assert(loads[i].delta < b.delta);
        }
        assert(false);
    }
    assert(loads.contains(ranked[1])) by {
        assert(ranked.to_multiset().count(ranked[1]) > 0);
    }
    if ranked[1] != b {
        if ranked[1] == a {
            // a would then occur at positions 0 and 1, but it occurs once
            assert(ranked.remove(0).to_multiset() =~= ranked.to_multiset().remove(ranked[0]));
            assert(ranked.remove(0)[0] == a);
            assert(ranked.remove(0).contains(a));
            assert(ranked.remove(0).to_multiset().count(a) > 0);
            assert(ranked.to_multiset().count(a) >= 2);
        } else {
            let i = choose|i: int| 0 <= i < loads.len() && loads[i] == ranked[1];
            assert(loads[i].delta < b.delta);
            assert(0 < pb < ranked.len());
            assert(ranked[1].delta >= ranked[pb].delta);
        }
        assert(false);
    }
}

} // verus!
