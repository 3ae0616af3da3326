//! Laws relating the heap's operations to one another, stated over the
//! abstract view that the operation contracts use.

use vstd::prelude::*;

verus! {

broadcast use vstd::multiset::group_multiset_axioms;

use crate::heap::ranks_before;
use crate::heap::PairingHeap;

use vstd::multiset::Multiset;

/// Values leave the heap in sorted order: when an extremal value `v1` is
/// removed, every value of the remainder — in particular whichever one the
/// next removal returns — ranks no better than `v1` under the heap's
/// ordering (ascending for a min-heap, descending for a max-heap).
pub proof fn lemma_pops_sorted(h: PairingHeap, v1: i64, v2: i64)
    requires
        h.ms().contains(v1),
        h.is_best(v1),
        h.ms().remove(v1).contains(v2),
    ensures
        ranks_before(h.is_min(), v1, v2),
{
    assert(h.ms().remove(v1).count(v2) > 0);
    assert(h.ms().count(v2) > 0) by {
        assert(h.ms().remove(v1) == h.ms().sub(Multiset::singleton(v1)));
    }
    assert(h.ms().contains(v2));
}

/// A push grows the element count by exactly one: with pops shrinking it by
/// exactly one, `k` pushes and `j` of them popped leave `k - j` elements.
pub proof fn lemma_push_count(h: PairingHeap, g: PairingHeap, v: i64)
    requires
        g.ms() == h.ms().insert(v),
    ensures
        g.ms().len() == h.ms().len() + 1,
{
}

/// Removing one contained value shrinks the element count by exactly one.
pub proof fn lemma_pop_count(h: PairingHeap, v: i64)
    requires
        h.ms().contains(v),
    ensures
        h.ms().remove(v).len() == h.ms().len() - 1,
{
    assert(Multiset::singleton(v).subset_of(h.ms()));
}

/// Two extremal values of the same heap are equal: `top` reports the same
/// value however often it is asked, as long as the heap is unchanged.
pub proof fn lemma_top_unique(h: PairingHeap, v1: i64, v2: i64)
    requires
        h.ms().contains(v1),
        h.is_best(v1),
        h.ms().contains(v2),
        h.is_best(v2),
    ensures
        v1 == v2,
{
}

} // verus!
