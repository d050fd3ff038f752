//! The behavioural laws of the container, proved over the `add_step`
//! transition relation that `add_item` is specified by.

use vstd::prelude::*;
use crate::bloom_filter::{BloomFilterType, sat_add_u64, sat_mul_u64};

verus! {

/// No false negatives, single step: an add never loses a member. Any item
/// the container reports as present keeps being reported as present after
/// any later add, growth events included.
pub proof fn lemma_membership_preserved(
    pre: BloomFilterType,
    x: Seq<u8>,
    post: BloomFilterType,
    r: i64,
    y: Seq<u8>,
)
    requires
        pre.wf(),
        BloomFilterType::add_step(pre, x, post, r),
        pre.exists_in(y),
    ensures
        post.exists_in(y),
{
    reveal(BloomFilterType::add_step);
    let i = choose|i: int| 0 <= i < pre.filters.len() && (#[trigger] pre.filters[i]).contains_item(
        y,
    );
    if pre.exists_in(x) || (!(pre.newest().items < pre.newest().capacity) && pre.expansion == 0) {
        assert(post == pre);
    } else if pre.newest().items < pre.newest().capacity {
        if i < pre.filters.len() - 1 {
            assert(post.filters[i] == pre.filters[i]);
            assert(post.filters[i].contains_item(y));
        } else {
            assert forall|p: u64| p < post.newest().num_hashes implies post.newest().bit(
                #[trigger] post.newest().probe_at(y, p),
            ) by {
                let j = post.newest().probe_at(y, p);
                assert(pre.newest().probe_at(y, p) == j);
                assert(pre.newest().bit(j));
                assert(0 <= j < pre.newest().num_bits);
            }
            assert(post.filters[i] == post.newest());
            assert(post.filters[i].contains_item(y));
        }
    } else {
        assert(post.filters[i] == pre.filters[i]);
        assert(post.filters[i].contains_item(y));
    }
}

/// No false negatives, any number of steps: an item present before a
/// whole sequence of adds — growth events included — is still present
/// after it.
pub proof fn lemma_membership_preserved_chain(
    pre: BloomFilterType,
    items: Seq<Seq<u8>>,
    post: BloomFilterType,
    rs: Seq<i64>,
    y: Seq<u8>,
)
    requires
        pre.wf(),
        BloomFilterType::add_steps(pre, items, post, rs),
        pre.exists_in(y),
    ensures
        post.exists_in(y),
    decreases items.len(),
{
    reveal(BloomFilterType::add_steps);
    if items.len() == 0 {
        assert(post == pre);
    } else {
        let mid = choose|mid: BloomFilterType|
            mid.wf() && #[trigger] BloomFilterType::add_step(pre, items[0], mid, rs[0])
                && BloomFilterType::add_steps(mid, items.drop_first(), post, rs.drop_first());
        lemma_membership_preserved(pre, items[0], mid, rs[0], y);
        lemma_membership_preserved_chain(mid, items.drop_first(), post, rs.drop_first(), y);
    }
}

/// The result of an add says exactly whether the item is present
/// afterwards: `0` or `1` means every probe of the item is now set in some
/// layer, `-1` means the filter was left unchanged and the item absent.
pub proof fn lemma_added_item_found(
    pre: BloomFilterType,
    x: Seq<u8>,
    post: BloomFilterType,
    r: i64,
)
    requires
        pre.wf(),
        BloomFilterType::add_step(pre, x, post, r),
    ensures
        (r == 0 || r == 1) ==> post.exists_in(x),
        r == -1 ==> post == pre && !pre.exists_in(x),
{
    reveal(BloomFilterType::add_step);
    if pre.exists_in(x) {
        assert(post == pre);
    } else if pre.newest().items < pre.newest().capacity {
        let k = post.newest().num_hashes;
        assert forall|p: u64| p < k implies post.newest().bit(
            #[trigger] post.newest().probe_at(x, p),
        ) by {
            let j = post.newest().probe_at(x, p);
            assert(pre.newest().probe_at(x, p) == j);
            assert(pre.newest().is_probe(x, j));
            assert(0 <= j < pre.newest().num_bits);
        }
        let li = post.filters.len() - 1;
        assert(post.filters[li].contains_item(x));
    } else if pre.expansion == 0 {
        assert(post == pre);
    } else {
        let k = post.newest().num_hashes;
        assert forall|p: u64| p < k implies post.newest().bit(
            #[trigger] post.newest().probe_at(x, p),
        ) by {
            let j = post.newest().probe_at(x, p);
            assert(post.newest().is_probe(x, j));
            assert(0 <= j < post.newest().num_bits);
        }
        let li = post.filters.len() - 1;
        assert(post.filters[li].contains_item(x));
    }
}

/// Idempotent add: once an add of `x` reports `1`, a second add of `x`
/// reports `0`, changes nothing, and the item count has risen by exactly
/// one over the two calls.
pub proof fn lemma_idempotent_add(
    s0: BloomFilterType,
    s1: BloomFilterType,
    s2: BloomFilterType,
    x: Seq<u8>,
    r1: i64,
    r2: i64,
)
    requires
        s0.wf(),
        s1.wf(),
        BloomFilterType::add_step(s0, x, s1, r1),
        BloomFilterType::add_step(s1, x, s2, r2),
        r1 == 1,
    ensures
        r2 == 0,
        s2 == s1,
        s1.num_items == sat_add_u64(s0.num_items, 1),
{
    reveal(BloomFilterType::add_step);
    lemma_added_item_found(s0, x, s1, r1);
    assert(s1.exists_in(x));
}

/// An add below capacity never changes the layer count.
pub proof fn lemma_no_growth_below_capacity(
    s: BloomFilterType,
    x: Seq<u8>,
    s1: BloomFilterType,
    r: i64,
)
    requires
        s.wf(),
        BloomFilterType::add_step(s, x, s1, r),
        !s.exists_in(x),
        s.newest().items < s.newest().capacity,
    ensures
        r == 1,
        s1.filters.len() == s.filters.len(),
{
    reveal(BloomFilterType::add_step);
}

/// Capacity-triggered growth: with scaling enabled, the first distinct
/// item past a full newest layer appends exactly one layer whose capacity
/// is the previous capacity times the expansion factor.
pub proof fn lemma_capacity_growth(s: BloomFilterType, x: Seq<u8>, s1: BloomFilterType, r: i64)
    requires
        s.wf(),
        BloomFilterType::add_step(s, x, s1, r),
        !s.exists_in(x),
        s.newest().items == s.newest().capacity,
        s.expansion >= 1,
    ensures
        r == 1,
        s1.filters.len() == s.filters.len() + 1,
        s1.newest().capacity == sat_mul_u64(s.newest().capacity, s.expansion as u64),
        (s.newest().capacity * s.expansion <= u64::MAX) ==> s1.newest().capacity == s.newest()
            .capacity * s.expansion,
        forall|i: int| 0 <= i < s.filters.len() ==> s1.filters[i] == s.filters[i],
{
    reveal(BloomFilterType::add_step);
}

/// Non-scaling exhaustion: with expansion `0` and a full layer, an absent
/// item is rejected with `-1` and nothing changes, while a present item
/// still reports `0` without error.
pub proof fn lemma_nonscaling_exhaustion(
    s: BloomFilterType,
    x: Seq<u8>,
    s1: BloomFilterType,
    r: i64,
)
    requires
        s.wf(),
        BloomFilterType::add_step(s, x, s1, r),
        s.expansion == 0,
        s.newest().items == s.newest().capacity,
    ensures
        !s.exists_in(x) ==> r == -1 && s1 == s,
        s.exists_in(x) ==> r == 0 && s1 == s,
{
    reveal(BloomFilterType::add_step);
}

} // verus!
