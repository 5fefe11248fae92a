//! Heterogeneous-core classification from raw topology facts.
//!
//! The operating system reports two kinds of raw facts: cache records
//! (one per cache, with its level, size and the mask of logical cores
//! sharing it) and processor-core records (one per physical core, with
//! the mask of its logical cores and an efficiency class).  From those
//! this module derives a semantic topology: every logical core gets a
//! role (`Performance`, `Efficiency` or `VCache`), and the whole chip
//! gets `is_hybrid` / `has_vcache` flags derived from the roles finally
//! assigned.

use vstd::prelude::*;
use crate::seq_util::lemma_seq_insert_to_multiset;
use crate::types::{CoreType, CpuTopology, LogicalCore};

verus! {

/// An L3 cache island larger than this many bytes marks its cores as
/// stacked-cache (`VCache`) cores.
pub const VCACHE_THRESHOLD: u64 = 64 * 1024 * 1024;

/// One raw cache record as the OS reports it.
#[derive(Debug, Clone, Copy, PartialEq, Eq, Structural)]
pub struct CacheRecord {
    /// Cache level (only level 3 matters to classification).
    pub level: u8,
    /// Bitmask of the logical cores sharing this cache.
    pub mask: u64,
    /// Cache size in bytes.
    pub size: u64,
}

/// One raw processor-core record as the OS reports it.
#[derive(Debug, Clone, Copy, PartialEq, Eq, Structural)]
pub struct CoreRecord {
    /// Bitmask of the logical cores belonging to this physical core.
    pub mask: u64,
    /// OS-reported efficiency class of the physical core.
    pub efficiency_class: u8,
}

/// True iff bit `i` of `mask` is set.
pub open spec fn bit_set(mask: u64, i: int) -> bool {
    0 <= i < 64 && (mask >> (i as u64)) & 1u64 == 1u64
}

/// The L3 mask covering logical core `id`: of all level-3 records whose
/// mask contains bit `id`, the last one reported wins.
pub open spec fn spec_group_mask(caches: Seq<CacheRecord>, id: int) -> Option<u64>
    decreases caches.len(),
{
    if caches.len() == 0 {
        None
    } else if caches.last().level == 3 && bit_set(caches.last().mask, id) {
        Some(caches.last().mask)
    } else {
        spec_group_mask(caches.drop_last(), id)
    }
}

/// The size recorded for the L3 island with mask `m`: of all level-3
/// records with exactly that mask, the last one reported wins.
pub open spec fn spec_l3_size(caches: Seq<CacheRecord>, m: u64) -> Option<u64>
    decreases caches.len(),
{
    if caches.len() == 0 {
        None
    } else if caches.last().level == 3 && caches.last().mask == m {
        Some(caches.last().size)
    } else {
        spec_l3_size(caches.drop_last(), m)
    }
}

/// Record `i` is a level-3 record whose island's winning size exceeds
/// the V-Cache threshold.
pub open spec fn spec_large_l3_at(caches: Seq<CacheRecord>, i: int) -> bool {
    &&& caches[i].level == 3
    &&& spec_l3_size(caches, caches[i].mask) matches Some(s) && s > VCACHE_THRESHOLD
}

/// True iff some L3 island's (winning) size exceeds the V-Cache threshold.
pub open spec fn spec_has_large_l3(caches: Seq<CacheRecord>) -> bool {
    exists|i: int| 0 <= i < caches.len() && #[trigger] spec_large_l3_at(caches, i)
}

/// Maximum efficiency class over the reported core records (0 if none).
pub open spec fn spec_max_class(procs: Seq<CoreRecord>) -> u8
    decreases procs.len(),
{
    if procs.len() == 0 {
        0u8
    } else if procs.len() == 1 {
        procs.last().efficiency_class
    } else if procs.last().efficiency_class >= spec_max_class(procs.drop_last()) {
        procs.last().efficiency_class
    } else {
        spec_max_class(procs.drop_last())
    }
}

/// Minimum efficiency class over the reported core records (0 if none).
pub open spec fn spec_min_class(procs: Seq<CoreRecord>) -> u8
    decreases procs.len(),
{
    if procs.len() == 0 {
        0u8
    } else if procs.len() == 1 {
        procs.last().efficiency_class
    } else if procs.last().efficiency_class <= spec_min_class(procs.drop_last()) {
        procs.last().efficiency_class
    } else {
        spec_min_class(procs.drop_last())
    }
}

/// Role resolution for one logical core, in priority order: a core
/// sharing a large L3 is `VCache`; with a large L3 present anywhere, a
/// core sharing only a small (or no) L3 is `Performance`; otherwise a
/// core of the maximum observed efficiency class is `Performance`, a
/// core of a lower class on a hybrid chip is `Efficiency`, and anything
/// else is `Performance`.
pub open spec fn spec_role(
    caches: Seq<CacheRecord>,
    procs: Seq<CoreRecord>,
    id: int,
    class: u8,
) -> CoreType {
    if spec_has_large_l3(caches) {
        match spec_group_mask(caches, id) {
            Some(m) => match spec_l3_size(caches, m) {
                Some(s) => if s > VCACHE_THRESHOLD {
                    CoreType::VCache
                } else {
                    CoreType::Performance
                },
                None => CoreType::Performance,
            },
            None => CoreType::Performance,
        }
    } else if class == spec_max_class(procs) {
        CoreType::Performance
    } else if spec_min_class(procs) != spec_max_class(procs) {
        CoreType::Efficiency
    } else {
        CoreType::Performance
    }
}

/// The topology-group tag of a logical core: the low 32 bits of its L3
/// mask, or 0 when it shares no L3.
pub open spec fn spec_group_id(caches: Seq<CacheRecord>, id: int) -> u32 {
    match spec_group_mask(caches, id) {
        Some(m) => m as u32,
        None => 0u32,
    }
}

/// The classified core with logical index `id`, owned by physical core `k`.
pub open spec fn spec_core_at(
    caches: Seq<CacheRecord>,
    procs: Seq<CoreRecord>,
    k: int,
    id: int,
) -> LogicalCore {
    LogicalCore {
        id: id as usize,
        core_type: spec_role(caches, procs, id, procs[k].efficiency_class),
        physical_id: k as usize,
        group_id: spec_group_id(caches, id),
    }
}

/// The classified cores contributed by bits `[0, i)` of record `k`'s mask.
pub open spec fn spec_record_cores_upto(
    caches: Seq<CacheRecord>,
    procs: Seq<CoreRecord>,
    k: int,
    i: int,
) -> Seq<LogicalCore>
    decreases i,
{
    if i <= 0 {
        Seq::empty()
    } else {
        spec_record_cores_upto(caches, procs, k, i - 1) + if bit_set(procs[k].mask, i - 1) {
            seq![spec_core_at(caches, procs, k, i - 1)]
        } else {
            Seq::empty()
        }
    }
}

/// The classified cores contributed by the first `n` core records,
/// in report order (unsorted).
pub open spec fn spec_cores_upto(
    caches: Seq<CacheRecord>,
    procs: Seq<CoreRecord>,
    n: int,
) -> Seq<LogicalCore>
    decreases n,
{
    if n <= 0 {
        Seq::empty()
    } else {
        spec_cores_upto(caches, procs, n - 1) + spec_record_cores_upto(caches, procs, n - 1, 64)
    }
}

/// All classified cores of the raw report, in report order (unsorted).
pub open spec fn spec_classified(caches: Seq<CacheRecord>, procs: Seq<CoreRecord>) -> Seq<
    LogicalCore,
> {
    spec_cores_upto(caches, procs, procs.len() as int)
}

/// Non-decreasing logical ids.
pub open spec fn sorted_by_id(s: Seq<LogicalCore>) -> bool {
    forall|i: int, j: int| 0 <= i < j < s.len() ==> s[i].id <= s[j].id
}

fn group_mask_lookup(caches: &Vec<CacheRecord>, id: u32) -> (r: Option<u64>)
    requires
        id < 64,
    ensures
        r == spec_group_mask(caches@, id as int),
{
    let ghost full = caches@;
    proof {
        assert(full.take(caches@.len() as int) =~= full);
    }
    let mut j: usize = caches.len();
    while j > 0
        invariant
            id < 64,
            j <= caches.len(),
            caches@ == full,
            spec_group_mask(full, id as int) == spec_group_mask(full.take(j as int), id as int),
        decreases j,
    {
        let c = caches[j - 1];
        proof {
            assert(full.take(j as int).last() == c);
            assert(full.take(j as int).drop_last() =~= full.take(j as int - 1));
        }
        if c.level == 3 && (c.mask >> id as u64) & 1 == 1 {
            return Some(c.mask);
        }
        j -= 1;
    }
    proof {
        assert(full.take(0) =~= Seq::<CacheRecord>::empty());
    }
    None
}

fn l3_size_lookup(caches: &Vec<CacheRecord>, m: u64) -> (r: Option<u64>)
    ensures
        r == spec_l3_size(caches@, m),
{
    let ghost full = caches@;
    proof {
        assert(full.take(caches@.len() as int) =~= full);
    }
    let mut j: usize = caches.len();
    while j > 0
        invariant
            j <= caches.len(),
            caches@ == full,
            spec_l3_size(full, m) == spec_l3_size(full.take(j as int), m),
        decreases j,
    {
        let c = caches[j - 1];
        proof {
            assert(full.take(j as int).last() == c);
            assert(full.take(j as int).drop_last() =~= full.take(j as int - 1));
        }
        if c.level == 3 && c.mask == m {
            return Some(c.size);
        }
        j -= 1;
    }
    proof {
        assert(full.take(0) =~= Seq::<CacheRecord>::empty());
    }
    None
}

fn has_large_l3(caches: &Vec<CacheRecord>) -> (r: bool)
    ensures
        r == spec_has_large_l3(caches@),
{
    let mut k: usize = 0;
    while k < caches.len()
        invariant
            k <= caches.len(),
            forall|i: int| 0 <= i < k ==> !#[trigger] spec_large_l3_at(caches@, i),
        decreases caches.len() - k,
    {
        if caches[k].level == 3 {
            if let Some(s) = l3_size_lookup(caches, caches[k].mask) {
                if s > VCACHE_THRESHOLD {
                    proof {
                        assert(spec_large_l3_at(caches@, k as int));
                    }
                    return true;
                }
            }
        }
        proof {
            assert(!spec_large_l3_at(caches@, k as int));
        }
        k += 1;
    }
    false
}

fn max_class(procs: &Vec<CoreRecord>) -> (r: u8)
    ensures
        r == spec_max_class(procs@),
{
    let mut acc: u8 = 0;
    let mut k: usize = 0;
    while k < procs.len()
        invariant
            k <= procs.len(),
            acc == spec_max_class(procs@.take(k as int)),
        decreases procs.len() - k,
    {
        let c = procs[k].efficiency_class;
        proof {
            assert(procs@.take(k as int + 1).last() == procs@[k as int]);
            assert(procs@.take(k as int + 1).drop_last() =~= procs@.take(k as int));
        }
        if k == 0 || c > acc {
            acc = c;
        }
        k += 1;
    }
    proof {
        assert(procs@.take(procs@.len() as int) =~= procs@);
    }
    acc
}

fn min_class(procs: &Vec<CoreRecord>) -> (r: u8)
    ensures
        r == spec_min_class(procs@),
{
    let mut acc: u8 = 0;
    let mut k: usize = 0;
    while k < procs.len()
        invariant
            k <= procs.len(),
            acc == spec_min_class(procs@.take(k as int)),
        decreases procs.len() - k,
    {
        let c = procs[k].efficiency_class;
        proof {
            assert(procs@.take(k as int + 1).last() == procs@[k as int]);
            assert(procs@.take(k as int + 1).drop_last() =~= procs@.take(k as int));
        }
        if k == 0 || c < acc {
            acc = c;
        }
        k += 1;
    }
    proof {
        assert(procs@.take(procs@.len() as int) =~= procs@);
    }
    acc
}

/// Insertion sort by logical id; keeps exactly the same cores.
fn sort_cores_by_id(v: Vec<LogicalCore>) -> (r: Vec<LogicalCore>)
    ensures
        r@.to_multiset() == v@.to_multiset(),
        sorted_by_id(r@),
        r@.len() == v@.len(),
{
    broadcast use vstd::seq_lib::group_to_multiset_ensures;

    let mut out: Vec<LogicalCore> = Vec::new();
    let mut k: usize = 0;
    while k < v.len()
        invariant
            k <= v.len(),
            sorted_by_id(out@),
            out@.to_multiset() == v@.take(k as int).to_multiset(),
            out@.len() == k,
        decreases v.len() - k,
    {
        let c = v[k];
        let mut pos: usize = 0;
        while pos < out.len() && out[pos].id <= c.id
            invariant
                pos <= out.len(),
                forall|j: int| 0 <= j < pos ==> (#[trigger] out@[j]).id <= c.id,
        decreases out.len() - pos,
        {
            pos += 1;
        }
        let ghost old_out = out@;
        out.insert(pos, c);
        proof {
            lemma_seq_insert_to_multiset(old_out, pos as int, c);
            assert(out@ == old_out.insert(pos as int, c));
            assert(out@.to_multiset() == old_out.to_multiset().insert(c));
            assert(v@.take(k as int + 1) =~= v@.take(k as int).push(v@[k as int]));
            vstd::seq_lib::to_multiset_build(v@.take(k as int), v@[k as int]);
            assert(out@.to_multiset() == v@.take(k as int + 1).to_multiset());
            assert(forall|j: int|
                0 <= j < out@.len() && j < pos ==> out@[j] == old_out[j]);
            assert(forall|j: int|
                pos < j < out@.len() ==> out@[j] == old_out[j - 1]);
            assert(out@[pos as int] == c);
            assert forall|i: int, j: int| 0 <= i < j < out@.len() implies out@[i].id
                <= out@[j].id by {
                if i < pos && j < pos {
                } else if i == pos && j > pos {
                    // old_out[j-1] is at or after pos in old_out
                } else if j == pos && i < pos {
                } else if i > pos || (i < pos && j > pos) {
                }
            }
        }
        k += 1;
    }
    proof {
        assert(v@.take(v@.len() as int) =~= v@);
    }
    out
}

/// Classifies every logical core from the raw cache and core records.
///
/// The result holds exactly the cores derived from the records (one per
/// set bit of each core record's mask, classified by the rules of
/// [`spec_role`]), ordered by logical id.
pub fn get_logical_cores(caches: &Vec<CacheRecord>, procs: &Vec<CoreRecord>) -> (r: Vec<
    LogicalCore,
>)
    ensures
        r@.to_multiset() == spec_classified(caches@, procs@).to_multiset(),
        r@.len() == spec_classified(caches@, procs@).len(),
        sorted_by_id(r@),
{
    broadcast use vstd::seq_lib::group_to_multiset_ensures;

    let large = has_large_l3(caches);
    let maxc = max_class(procs);
    let minc = min_class(procs);
    let mut unsorted: Vec<LogicalCore> = Vec::new();
    let mut k: usize = 0;
    while k < procs.len()
        invariant
            k <= procs.len(),
            large == spec_has_large_l3(caches@),
            maxc == spec_max_class(procs@),
            minc == spec_min_class(procs@),
            unsorted@ == spec_cores_upto(caches@, procs@, k as int),
        decreases procs.len() - k,
    {
        let rec = procs[k];
        let mut i: u32 = 0;
        while i < 64
            invariant
                i <= 64,
                k < procs.len(),
                rec == procs@[k as int],
                large == spec_has_large_l3(caches@),
                maxc == spec_max_class(procs@),
                minc == spec_min_class(procs@),
                unsorted@ == spec_cores_upto(caches@, procs@, k as int)
                    + spec_record_cores_upto(caches@, procs@, k as int, i as int),
            decreases 64 - i,
        {
            if (rec.mask >> i as u64) & 1 == 1 {
                let role = if large {
                    match group_mask_lookup(caches, i) {
                        Some(m) => match l3_size_lookup(caches, m) {
                            Some(s) => if s > VCACHE_THRESHOLD {
                                CoreType::VCache
                            } else {
                                CoreType::Performance
                            },
                            None => CoreType::Performance,
                        },
                        None => CoreType::Performance,
                    }
                } else if rec.efficiency_class == maxc {
                    CoreType::Performance
                } else if minc != maxc {
                    CoreType::Efficiency
                } else {
                    CoreType::Performance
                };
                let group_id = match group_mask_lookup(caches, i) {
                    Some(m) => m as u32,
                    None => 0u32,
                };
                let core = LogicalCore {
                    id: i as usize,
                    core_type: role,
                    physical_id: k,
                    group_id,
                };
                proof {
                    assert(core == spec_core_at(caches@, procs@, k as int, i as int));
                }
                unsorted.push(core);
            }
            proof {
                assert(spec_record_cores_upto(caches@, procs@, k as int, i as int + 1)
                    == spec_record_cores_upto(caches@, procs@, k as int, i as int) + if bit_set(
                    procs@[k as int].mask,
                    i as int,
                ) {
                    seq![spec_core_at(caches@, procs@, k as int, i as int)]
                } else {
                    Seq::<LogicalCore>::empty()
                });
                assert(unsorted@ =~= spec_cores_upto(caches@, procs@, k as int)
                    + spec_record_cores_upto(caches@, procs@, k as int, i as int + 1));
            }
            i += 1;
        }
        proof {
            assert(spec_cores_upto(caches@, procs@, k as int + 1) == spec_cores_upto(
                caches@,
                procs@,
                k as int,
            ) + spec_record_cores_upto(caches@, procs@, k as int, 64));
        }
        k += 1;
    }
    sort_cores_by_id(unsorted)
}

/// Pairwise disjoint logical-core masks: no logical core is claimed by
/// two physical cores.
pub open spec fn spec_masks_disjoint(procs: Seq<CoreRecord>) -> bool {
    forall|a: int, b: int|
        0 <= a < b < procs.len() ==> (#[trigger] procs[a].mask) & (#[trigger] procs[b].mask)
            == 0u64
}

/// Union of the first `n` core-record masks.
pub open spec fn spec_union_mask(procs: Seq<CoreRecord>, n: int) -> u64
    decreases n,
{
    if n <= 0 {
        0u64
    } else {
        spec_union_mask(procs, n - 1) | procs[n - 1].mask
    }
}

/// A mask with no gaps: every bit below a set bit is set too.
pub open spec fn spec_downward_closed(m: u64) -> bool {
    forall|i: int, j: int| 0 <= i < j < 64 && bit_set(m, j) ==> bit_set(m, i)
}

/// A well-formed raw report: the physical cores own pairwise disjoint
/// masks, and together they number the logical cores contiguously from 0.
pub open spec fn spec_valid_raw(procs: Seq<CoreRecord>) -> bool {
    &&& spec_masks_disjoint(procs)
    &&& spec_downward_closed(spec_union_mask(procs, procs.len() as int))
}

/// Number of set bits among bits `[0, i)` of `m`.
pub open spec fn count_bits_upto(m: u64, i: int) -> int
    decreases i,
{
    if i <= 0 {
        0
    } else {
        count_bits_upto(m, i - 1) + if bit_set(m, i - 1) {
            1int
        } else {
            0int
        }
    }
}

/// Number of set bits of `m`.
pub open spec fn count_bits(m: u64) -> int {
    count_bits_upto(m, 64)
}

proof fn lemma_disjoint_bit(a: u64, b: u64, i: int)
    requires
        a & b == 0u64,
        bit_set(a, i),
    ensures
        !bit_set(b, i),
{
    let iu = i as u64;
    assert(!(a & b == 0 && iu < 64 && (a >> iu) & 1u64 == 1u64 && (b >> iu) & 1u64 == 1u64))
        by (bit_vector);
}

proof fn lemma_bit_or(a: u64, b: u64, i: int)
    requires
        0 <= i < 64,
    ensures
        bit_set(a | b, i) == (bit_set(a, i) || bit_set(b, i)),
{
    let iu = i as u64;
    assert(iu < 64 ==> (((a | b) >> iu) & 1u64 == 1u64) == ((a >> iu) & 1u64 == 1u64 || (b >> iu)
        & 1u64 == 1u64)) by (bit_vector);
}

proof fn lemma_count_upto_bound(m: u64, i: int)
    requires
        0 <= i <= 64,
    ensures
        count_bits_upto(m, i) <= i,
    decreases i,
{
    if i > 0 {
        lemma_count_upto_bound(m, i - 1);
    }
}

proof fn lemma_count_upto_le(m: u64, i: int, j: int)
    requires
        0 <= i <= j <= 64,
    ensures
        count_bits_upto(m, i) <= count_bits_upto(m, j),
    decreases j - i,
{
    if i < j {
        lemma_count_upto_le(m, i, j - 1);
    }
}

proof fn lemma_count_upto_full(m: u64, i: int)
    requires
        0 <= i <= 64,
        forall|b: int| 0 <= b < i ==> bit_set(m, b),
    ensures
        count_bits_upto(m, i) == i,
    decreases i,
{
    if i > 0 {
        lemma_count_upto_full(m, i - 1);
    }
}

proof fn lemma_bit_lt_count(m: u64, b: int)
    requires
        spec_downward_closed(m),
        bit_set(m, b),
    ensures
        b < count_bits(m),
{
    assert(forall|x: int| 0 <= x < b + 1 ==> bit_set(m, x));
    lemma_count_upto_full(m, b + 1);
    lemma_count_upto_le(m, b + 1, 64);
}

proof fn lemma_count_or_disjoint_upto(a: u64, b: u64, i: int)
    requires
        a & b == 0u64,
        0 <= i <= 64,
    ensures
        count_bits_upto(a | b, i) == count_bits_upto(a, i) + count_bits_upto(b, i),
    decreases i,
{
    if i > 0 {
        lemma_count_or_disjoint_upto(a, b, i - 1);
        lemma_bit_or(a, b, i - 1);
        if bit_set(a, i - 1) {
            lemma_disjoint_bit(a, b, i - 1);
        }
    }
}

proof fn lemma_count_upto_zero(i: int)
    requires
        0 <= i <= 64,
    ensures
        count_bits_upto(0u64, i) == 0,
    decreases i,
{
    if i > 0 {
        lemma_count_upto_zero(i - 1);
        let iu = (i - 1) as u64;
        assert((0u64 >> iu) & 1u64 == 0u64) by (bit_vector);
    }
}

proof fn lemma_union_disjoint_rec(procs: Seq<CoreRecord>, k: int, n: int)
    requires
        spec_masks_disjoint(procs),
        0 <= k <= n < procs.len(),
    ensures
        spec_union_mask(procs, k) & procs[n].mask == 0u64,
    decreases k,
{
    if k == 0 {
        assert(0u64 & procs[n].mask == 0u64) by (bit_vector);
    } else {
        lemma_union_disjoint_rec(procs, k - 1, n);
        let a = spec_union_mask(procs, k - 1);
        let b = procs[k - 1].mask;
        let c = procs[n].mask;
        assert(b & c == 0u64);
        assert(a & c == 0u64 && b & c == 0u64 ==> (a | b) & c == 0u64) by (bit_vector);
    }
}

proof fn lemma_union_count(procs: Seq<CoreRecord>, n: int)
    requires
        spec_masks_disjoint(procs),
        0 <= n <= procs.len(),
    ensures
        count_bits(spec_union_mask(procs, n)) == spec_sum_counts(procs, n),
    decreases n,
{
    if n > 0 {
        lemma_union_count(procs, n - 1);
        lemma_union_disjoint_rec(procs, n - 1, n - 1);
        lemma_count_or_disjoint_upto(spec_union_mask(procs, n - 1), procs[n - 1].mask, 64);
    } else {
        lemma_count_upto_zero(64);
    }
}

/// Sum of the per-record set-bit counts over the first `n` records.
pub open spec fn spec_sum_counts(procs: Seq<CoreRecord>, n: int) -> int
    decreases n,
{
    if n <= 0 {
        0
    } else {
        spec_sum_counts(procs, n - 1) + count_bits(procs[n - 1].mask)
    }
}

proof fn lemma_union_has_bit(procs: Seq<CoreRecord>, n: int, k: int, i: int)
    requires
        0 <= k < n <= procs.len(),
        0 <= i < 64,
        bit_set(procs[k].mask, i),
    ensures
        bit_set(spec_union_mask(procs, n), i),
    decreases n,
{
    if k == n - 1 {
        lemma_bit_or(spec_union_mask(procs, n - 1), procs[n - 1].mask, i);
    } else {
        lemma_union_has_bit(procs, n - 1, k, i);
        lemma_bit_or(spec_union_mask(procs, n - 1), procs[n - 1].mask, i);
    }
}

proof fn lemma_record_cores_props(caches: Seq<CacheRecord>, procs: Seq<CoreRecord>, k: int, i: int)
    requires
        procs.len() <= usize::MAX,
        0 <= k < procs.len(),
        0 <= i <= 64,
    ensures
        spec_record_cores_upto(caches, procs, k, i).len() == count_bits_upto(procs[k].mask, i),
        forall|p: int|
            0 <= p < spec_record_cores_upto(caches, procs, k, i).len() ==> {
                let c = #[trigger] spec_record_cores_upto(caches, procs, k, i)[p];
                c.physical_id == k && c.id < i && bit_set(procs[k].mask, c.id as int)
            },
        forall|p: int, q: int|
            0 <= p < q < spec_record_cores_upto(caches, procs, k, i).len()
                ==> (#[trigger] spec_record_cores_upto(caches, procs, k, i)[p]).id
                < (#[trigger] spec_record_cores_upto(caches, procs, k, i)[q]).id,
    decreases i,
{
    if i > 0 {
        lemma_record_cores_props(caches, procs, k, i - 1);
    }
}

proof fn lemma_cores_upto_props(caches: Seq<CacheRecord>, procs: Seq<CoreRecord>, n: int)
    requires
        procs.len() <= usize::MAX,
        0 <= n <= procs.len(),
    ensures
        spec_cores_upto(caches, procs, n).len() == spec_sum_counts(procs, n),
        forall|p: int|
            0 <= p < spec_cores_upto(caches, procs, n).len() ==> {
                let c = #[trigger] spec_cores_upto(caches, procs, n)[p];
                (c.physical_id as int) < n && c.id < 64 && bit_set(
                    procs[c.physical_id as int].mask,
                    c.id as int,
                )
            },
    decreases n,
{
    if n > 0 {
        lemma_cores_upto_props(caches, procs, n - 1);
        lemma_record_cores_props(caches, procs, n - 1, 64);
    }
}

/// No two positions of the classified (unsorted) sequence carry the
/// same logical id, provided the raw masks are pairwise disjoint.
proof fn lemma_classified_ids_distinct(caches: Seq<CacheRecord>, procs: Seq<CoreRecord>, n: int)
    requires
        procs.len() <= usize::MAX,
        spec_masks_disjoint(procs),
        0 <= n <= procs.len(),
    ensures
        forall|p: int, q: int|
            0 <= p < q < spec_cores_upto(caches, procs, n).len()
                ==> (#[trigger] spec_cores_upto(caches, procs, n)[p]).id
                != (#[trigger] spec_cores_upto(caches, procs, n)[q]).id,
    decreases n,
{
    if n > 0 {
        lemma_classified_ids_distinct(caches, procs, n - 1);
        lemma_cores_upto_props(caches, procs, n - 1);
        lemma_record_cores_props(caches, procs, n - 1, 64);
        let prev = spec_cores_upto(caches, procs, n - 1);
        let rec = spec_record_cores_upto(caches, procs, n - 1, 64);
        let cur = spec_cores_upto(caches, procs, n);
        assert(cur == prev + rec);
        assert forall|p: int, q: int| 0 <= p < q < cur.len() implies cur[p].id != cur[q].id by {
            if p < prev.len() && q >= prev.len() {
                let cp = prev[p];
                let cq = rec[q - prev.len()];
                assert(cur[p] == cp && cur[q] == cq);
                assert(bit_set(procs[cp.physical_id as int].mask, cp.id as int));
                assert(bit_set(procs[n - 1].mask, cq.id as int));
                if cp.id == cq.id {
                    assert((cp.physical_id as int) < n - 1);
                    assert(procs[cp.physical_id as int].mask & procs[n - 1].mask == 0u64);
                    lemma_disjoint_bit(
                        procs[cp.physical_id as int].mask,
                        procs[n - 1].mask,
                        cp.id as int,
                    );
                }
            } else if p >= prev.len() {
                assert(cur[p] == rec[p - prev.len()] && cur[q] == rec[q - prev.len()]);
            } else {
                assert(cur[p] == prev[p] && cur[q] == prev[q]);
            }
        }
    }
}

/// Soundness of the classification on a well-formed raw report: the
/// classified ids are pairwise distinct and each lies below the number
/// of classified cores, and there are at most as many distinct physical
/// cores as logical ones.  `cores` may be the classified sequence in
/// any order (for example the id-sorted order [`get_logical_cores`]
/// returns).
pub proof fn lemma_classification_sound(
    caches: Seq<CacheRecord>,
    procs: Seq<CoreRecord>,
    cores: Seq<LogicalCore>,
)
    requires
        procs.len() <= usize::MAX,
        spec_valid_raw(procs),
        cores.to_multiset() == spec_classified(caches, procs).to_multiset(),
    ensures
        forall|i: int, j: int|
            0 <= i < j < cores.len() ==> (#[trigger] cores[i]).id != (#[trigger] cores[j]).id,
        forall|i: int| 0 <= i < cores.len() ==> ((#[trigger] cores[i]).id as int) < cores.len(),
        spec_physical_ids(cores).len() <= cores.len(),
        cores.len() <= 64,
{
    broadcast use vstd::seq_lib::group_to_multiset_ensures;

    let n = procs.len() as int;
    let cs = spec_classified(caches, procs);
    lemma_cores_upto_props(caches, procs, n);
    lemma_classified_ids_distinct(caches, procs, n);
    lemma_union_count(procs, n);
    lemma_count_upto_bound(spec_union_mask(procs, n), 64);
    assert(cores.to_multiset().len() == cores.len());
    assert(cs.to_multiset().len() == cs.len());
    assert(cores.len() == cs.len());

    // every classified id lies below the total count
    assert forall|p: int| 0 <= p < cs.len() implies (cs[p].id as int) < cs.len() by {
        let c = cs[p];
        lemma_union_has_bit(procs, n, c.physical_id as int, c.id as int);
        lemma_bit_lt_count(spec_union_mask(procs, n), c.id as int);
    }

    // distinct ids make distinct elements, so multiset equality carries
    // distinctness of ids over to any reordering
    assert(cs.no_duplicates()) by {
        assert forall|p: int, q: int| 0 <= p < q < cs.len() implies cs[p] != cs[q] by {
            assert(cs[p].id != cs[q].id);
        }
    }
    cs.lemma_multiset_has_no_duplicates();
    cores.lemma_multiset_has_no_duplicates_conv();
    assert forall|i: int, j: int| 0 <= i < j < cores.len() implies (#[trigger] cores[i]).id
        != (#[trigger] cores[j]).id by {
        assert(cores[i] != cores[j]);
        assert(cores.contains(cores[i]) && cores.contains(cores[j]));
        assert(cs.to_multiset().count(cores[i]) > 0 && cs.to_multiset().count(cores[j]) > 0);
        assert(cs.contains(cores[i]) && cs.contains(cores[j]));
        let p = choose|p: int| 0 <= p < cs.len() && cs[p] == cores[i];
        let q = choose|q: int| 0 <= q < cs.len() && cs[q] == cores[j];
        assert(p != q);
        if p < q {
            assert(cs[p].id != cs[q].id);
        } else {
            assert(cs[q].id != cs[p].id);
        }
    }
    assert forall|i: int| 0 <= i < cores.len() implies ((#[trigger] cores[i]).id as int)
        < cores.len() by {
        assert(cores.contains(cores[i]));
        assert(cs.to_multiset().count(cores[i]) > 0);
        assert(cs.contains(cores[i]));
        let p = choose|p: int| 0 <= p < cs.len() && cs[p] == cores[i];
        assert((cs[p].id as int) < cs.len());
    }

    // at most as many distinct physical ids as cores
    let pseq = cores.map_values(|c: LogicalCore| c.physical_id);
    assert(spec_physical_ids(cores) =~= pseq.to_set()) by {
        assert forall|p: usize| #[trigger]
            spec_physical_ids(cores).contains(p) == pseq.to_set().contains(p) by {
            if spec_physical_ids(cores).contains(p) {
                let i = choose|i: int|
                    0 <= i < cores.len() && (#[trigger] cores[i]).physical_id == p;
                assert(pseq[i] == p);
                assert(pseq.contains(p));
            }
            if pseq.to_set().contains(p) {
                let i = choose|i: int| 0 <= i < pseq.len() && pseq[i] == p;
                assert(cores[i].physical_id == p);
            }
        }
    }
    pseq.lemma_cardinality_of_set();
}

/// True iff some core of `s` carries role `t`.
pub open spec fn spec_has_role(s: Seq<LogicalCore>, t: CoreType) -> bool {
    exists|i: int| 0 <= i < s.len() && (#[trigger] s[i]).core_type == t
}

/// The set of distinct physical-core ids among classified cores.
pub open spec fn spec_physical_ids(s: Seq<LogicalCore>) -> Set<usize> {
    Set::new(|p: usize| exists|i: int| 0 <= i < s.len() && (#[trigger] s[i]).physical_id == p)
}

fn has_role(cores: &Vec<LogicalCore>, t: CoreType) -> (r: bool)
    ensures
        r == spec_has_role(cores@, t),
{
    let mut k: usize = 0;
    while k < cores.len()
        invariant
            k <= cores.len(),
            forall|i: int| 0 <= i < k ==> (#[trigger] cores@[i]).core_type != t,
        decreases cores.len() - k,
    {
        if cores[k].core_type == t {
            return true;
        }
        k += 1;
    }
    false
}

fn vec_contains_usize(v: &Vec<usize>, x: usize) -> (r: bool)
    ensures
        r == v@.contains(x),
{
    let mut k: usize = 0;
    while k < v.len()
        invariant
            k <= v.len(),
            forall|i: int| 0 <= i < k ==> v@[i] != x,
        decreases v.len() - k,
    {
        if v[k] == x {
            return true;
        }
        k += 1;
    }
    false
}

fn count_physical_ids(cores: &Vec<LogicalCore>) -> (r: usize)
    ensures
        r == spec_physical_ids(cores@).len(),
{
    let mut seen: Vec<usize> = Vec::new();
    let mut k: usize = 0;
    while k < cores.len()
        invariant
            k <= cores.len(),
            seen@.no_duplicates(),
            seen@.to_set() == spec_physical_ids(cores@.take(k as int)),
        decreases cores.len() - k,
    {
        let p = cores[k].physical_id;
        let ghost old_seen = seen@;
        let dup = vec_contains_usize(&seen, p);
        if !dup {
            seen.push(p);
        }
        proof {
            assert forall|q: usize| #[trigger]
                seen@.to_set().contains(q) == spec_physical_ids(
                    cores@.take(k as int + 1),
                ).contains(q) by {
                let next = cores@.take(k as int + 1);
                assert(next[k as int] == cores@[k as int]);
                if spec_physical_ids(next).contains(q) {
                    let i = choose|i: int|
                        0 <= i < next.len() && (#[trigger] next[i]).physical_id == q;
                    if i < k as int {
                        assert(cores@.take(k as int)[i].physical_id == q);
                        assert(spec_physical_ids(cores@.take(k as int)).contains(q));
                        assert(old_seen.to_set().contains(q));
                        assert(old_seen.contains(q));
                        if !dup {
                            assert(seen@ == old_seen.push(p));
                            let wi = choose|wi: int| 0 <= wi < old_seen.len() && old_seen[wi] == q;
                            assert(seen@[wi] == q);
                        }
                        assert(seen@.contains(q));
                    } else {
                        assert(q == p);
                        if dup {
                            assert(old_seen.contains(p));
                        } else {
                            assert(seen@[old_seen.len() as int] == p);
                        }
                        assert(seen@.contains(q));
                    }
                    assert(seen@.to_set().contains(q));
                }
                if seen@.to_set().contains(q) {
                    assert(seen@.contains(q));
                    if dup || q != p {
                        assert(old_seen.contains(q));
                        assert(spec_physical_ids(cores@.take(k as int)).contains(q));
                        let i = choose|i: int|
                            0 <= i < cores@.take(k as int).len() && (#[trigger] cores@.take(
                                k as int,
                            )[i]).physical_id == q;
                        assert(next[i].physical_id == q);
                        assert(spec_physical_ids(next).contains(q));
                    } else {
                        assert(next[k as int].physical_id == p);
                        assert(spec_physical_ids(next).contains(q));
                    }
                }
            }
            assert(seen@.to_set() =~= spec_physical_ids(cores@.take(k as int + 1)));
            assert(seen@.no_duplicates());
        }
        k += 1;
    }
    proof {
        assert(cores@.take(cores@.len() as int) =~= cores@);
        seen@.unique_seq_to_set();
    }
    seen.len()
}

/// Assembles the full classified topology from the raw facts.
///
/// `is_hybrid` and `has_vcache` are derived from the roles finally
/// assigned, not from the raw detection flags; the counts come from the
/// classified cores themselves.
pub fn get_cpu_topology(model: String, caches: &Vec<CacheRecord>, procs: &Vec<CoreRecord>) -> (r:
    CpuTopology)
    ensures
        r.model == model,
        r.cores@.to_multiset() == spec_classified(caches@, procs@).to_multiset(),
        r.cores@.len() == spec_classified(caches@, procs@).len(),
        sorted_by_id(r.cores@),
        r.is_hybrid == spec_has_role(r.cores@, CoreType::Efficiency),
        r.has_vcache == spec_has_role(r.cores@, CoreType::VCache),
        r.logical_cores == r.cores@.len() as u32,
        r.physical_cores == spec_physical_ids(r.cores@).len() as u32,
{
    let cores = get_logical_cores(caches, procs);
    let is_hybrid = has_role(&cores, CoreType::Efficiency);
    let has_vcache = has_role(&cores, CoreType::VCache);
    let physical = count_physical_ids(&cores);
    let logical = cores.len();
    CpuTopology {
        model,
        physical_cores: physical as u32,
        logical_cores: logical as u32,
        cores,
        is_hybrid,
        has_vcache,
    }
}

} // verus!
