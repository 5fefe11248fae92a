//! Small sequence facts shared by the sorting routines.

use vstd::prelude::*;
use vstd::multiset::Multiset;
use vstd::seq_lib::lemma_multiset_commutative;

verus! {

/// Inserting an element anywhere in a sequence adds exactly that
/// element to its multiset of values.
pub proof fn lemma_seq_insert_to_multiset<A>(s: Seq<A>, i: int, v: A)
    requires
        0 <= i <= s.len(),
    ensures
        s.insert(i, v).to_multiset() == s.to_multiset().insert(v),
{
    broadcast use vstd::seq_lib::group_to_multiset_ensures;

    let pre = s.take(i);
    let post = s.skip(i);
    assert(s.insert(i, v) =~= pre + (seq![v] + post));
    assert(s =~= pre + post);
    lemma_multiset_commutative(pre, seq![v] + post);
    lemma_multiset_commutative(seq![v], post);
    lemma_multiset_commutative(pre, post);
    assert(seq![v] =~= Seq::<A>::empty().push(v));
    assert(seq![v].to_multiset() =~= Multiset::<A>::empty().insert(v));
    assert(s.insert(i, v).to_multiset() =~= s.to_multiset().insert(v));
}

} // verus!
