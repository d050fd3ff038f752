//! The scalable filter container: an ordered sequence of layers, oldest
//! first, plus the engine-wide configuration. Queries fan out over all
//! layers; adds target the newest layer and append a further layer when it
//! is full and scaling is enabled.

use vstd::prelude::*;
use crate::config::EXPANSION_MAX;
use crate::params::FpRate;
use crate::sizing::{bits_for, bits_for_exec, hashes_for, hashes_for_exec, lambda_at,
    lambda_at_exec, lambda_of, lambda_of_exec, word_count_exec, POW_CAP};
use crate::sub_filter::SubFilter;

verus! {

/// `a + b`, saturating at the largest 64-bit value.
pub open spec fn sat_add_u64(a: u64, b: u64) -> u64 {
    if a + b > u64::MAX {
        u64::MAX
    } else {
        (a + b) as u64
    }
}

/// `a * b`, saturating at the largest 64-bit value.
pub open spec fn sat_mul_u64(a: u64, b: u64) -> u64 {
    if a * b > u64::MAX {
        u64::MAX
    } else {
        (a * b) as u64
    }
}

/// Saturating sum of the per-layer item counts.
pub open spec fn items_total(s: Seq<SubFilter>) -> u64
    decreases s.len(),
{
    if s.len() == 0 {
        0
    } else {
        sat_add_u64(items_total(s.drop_last()), s.last().items)
    }
}

/// Saturating sum of the per-layer configured capacities.
pub open spec fn cap_total(s: Seq<SubFilter>) -> u64
    decreases s.len(),
{
    if s.len() == 0 {
        0
    } else {
        sat_add_u64(cap_total(s.drop_last()), s.last().capacity)
    }
}

/// Bytes a layer accounts for: its bit array plus fixed bookkeeping.
pub open spec fn layer_bytes(f: SubFilter) -> u64
    recommends
        f.words.len() <= 0x4000_0000,
{
    (f.words.len() * 8 + 48) as u64
}

/// Saturating sum of the per-layer byte sizes.
pub open spec fn mem_total(s: Seq<SubFilter>) -> u64
    decreases s.len(),
{
    if s.len() == 0 {
        0
    } else {
        sat_add_u64(mem_total(s.drop_last()), layer_bytes(s.last()))
    }
}

/// A scalable Bloom filter.
#[derive(Clone)]
pub struct BloomFilterType {
    /// Numerator of the base false-positive rate `fp_num / 10^fp_pow`.
    pub fp_num: u64,
    /// Decimal exponent of the base false-positive rate.
    pub fp_pow: u32,
    /// `log2(1/p)` of the base rate, fixed point, 16 fractional bits.
    pub lam: u64,
    /// Capacity multiplier for each appended layer; `0` means non-scaling.
    pub expansion: u32,
    /// Running count of distinct items successfully added (an estimate:
    /// a false positive against an existing layer skips the count).
    pub num_items: u64,
    /// The layers, oldest first; never empty.
    pub filters: Vec<SubFilter>,
}

impl BloomFilterType {
    /// The newest layer.
    pub open spec fn newest(self) -> SubFilter {
        self.filters[self.filters.len() - 1]
    }

    pub open spec fn wf(self) -> bool {
        &&& 1 <= self.fp_num
        &&& self.fp_pow <= POW_CAP
        &&& self.lam == lambda_of(self.fp_num, self.fp_pow)
        &&& self.expansion <= EXPANSION_MAX
        &&& 1 <= self.filters.len()
        &&& (self.expansion == 0 ==> self.filters.len() == 1)
        &&& (forall|i: int| 0 <= i < self.filters.len() ==> (#[trigger] self.filters[i]).wf())
        &&& (forall|i: int|
            1 <= i < self.filters.len() ==> (#[trigger] self.filters[i]).capacity == sat_mul_u64(
                self.filters[i - 1].capacity,
                self.expansion as u64,
            ))
        &&& (forall|i: int|
            0 <= i < self.filters.len() ==> (#[trigger] self.filters[i]).num_bits == bits_for(
                self.filters[i].capacity,
                lambda_at(self.lam, i as u64),
            ) && self.filters[i].num_hashes == hashes_for(lambda_at(self.lam, i as u64)))
        &&& (forall|i: int|
            0 <= i < self.filters.len() - 1 ==> (#[trigger] self.filters[i]).items
                == self.filters[i].capacity)
        &&& self.num_items == items_total(self.filters@)
    }

    /// Whether some layer reports the item as present.
    pub open spec fn exists_in(self, item: Seq<u8>) -> bool {
        exists|i: int| 0 <= i < self.filters.len() && (#[trigger] self.filters[i]).contains_item(
            item,
        )
    }

    /// The engine-wide configuration is unchanged between two states.
    pub open spec fn config_eq(pre: BloomFilterType, post: BloomFilterType) -> bool {
        &&& post.fp_num == pre.fp_num
        &&& post.fp_pow == pre.fp_pow
        &&& post.lam == pre.lam
        &&& post.expansion == pre.expansion
    }

    /// The layer appended by a growth step for `item`: sized from the
    /// previous newest layer's capacity times the expansion factor, with
    /// exactly the probe positions of `item` set and one item counted.
    pub open spec fn grown_layer_ok(pre: BloomFilterType, item: Seq<u8>, nf: SubFilter) -> bool {
        &&& nf.capacity == sat_mul_u64(pre.newest().capacity, pre.expansion as u64)
        &&& nf.items == 1
        &&& nf.num_bits == bits_for(nf.capacity, lambda_at(pre.lam, pre.filters.len() as u64))
        &&& nf.num_hashes == hashes_for(lambda_at(pre.lam, pre.filters.len() as u64))
        &&& forall|j: int| 0 <= j < nf.num_bits ==> nf.bit(j) == nf.is_probe(item, j)
    }

    /// The transition relation of `add_item`: how one add of `item` takes
    /// the container from `pre` to `post` with result `r` (`0` already
    /// present, `1` newly added, `-1` full and non-scaling).
    #[verifier::opaque]
    pub open spec fn add_step(
        pre: BloomFilterType,
        item: Seq<u8>,
        post: BloomFilterType,
        r: i64,
    ) -> bool {
        if pre.exists_in(item) {
            post == pre && r == 0
        } else if pre.newest().items < pre.newest().capacity {
            &&& r == 1
            &&& BloomFilterType::config_eq(pre, post)
            &&& post.filters.len() == pre.filters.len()
            &&& (forall|i: int|
                0 <= i < pre.filters.len() - 1 ==> post.filters[i] == pre.filters[i])
            &&& SubFilter::add_rel(pre.newest(), item, post.newest())
            &&& post.num_items == sat_add_u64(pre.num_items, 1)
        } else if pre.expansion == 0 {
            post == pre && r == -1
        } else {
            &&& r == 1
            &&& BloomFilterType::config_eq(pre, post)
            &&& post.filters.len() == pre.filters.len() + 1
            &&& (forall|i: int| 0 <= i < pre.filters.len() ==> post.filters[i] == pre.filters[i])
            &&& BloomFilterType::grown_layer_ok(pre, item, post.newest())
            &&& post.num_items == sat_add_u64(pre.num_items, 1)
        }
    }

    /// Chain of `add_step` transitions: adding the items of `items` in
    /// order takes `pre` to `post` with the positional results `rs`.
    #[verifier::opaque]
    pub open spec fn add_steps(
        pre: BloomFilterType,
        items: Seq<Seq<u8>>,
        post: BloomFilterType,
        rs: Seq<i64>,
    ) -> bool
        decreases items.len(),
    {
        if items.len() == 0 {
            post == pre && rs.len() == 0
        } else {
            &&& rs.len() == items.len()
            &&& exists|mid: BloomFilterType|
                mid.wf() && #[trigger] BloomFilterType::add_step(pre, items[0], mid, rs[0])
                    && BloomFilterType::add_steps(mid, items.drop_first(), post, rs.drop_first())
        }
    }

    /// A freshly reserved filter with the given parameters: one empty
    /// layer, every bit clear.
    pub open spec fn is_fresh(
        f: BloomFilterType,
        num: u64,
        pow: u32,
        capacity: u64,
        expansion: u32,
    ) -> bool {
        &&& f.fp_num == num
        &&& f.fp_pow == pow
        &&& f.lam == lambda_of(num, pow)
        &&& f.expansion == expansion
        &&& f.num_items == 0
        &&& f.filters.len() == 1
        &&& f.filters[0].capacity == capacity
        &&& f.filters[0].items == 0
        &&& forall|j: int| 0 <= j < f.filters[0].num_bits ==> !f.filters[0].bit(j)
    }

    /// A new filter with exactly one empty layer sized from the validated
    /// parameters.
    pub fn new_reserved(fp: &FpRate, capacity: u32, expansion: u32) -> (f: BloomFilterType)
        requires
            fp.wf(),
            1 <= capacity,
            expansion <= EXPANSION_MAX,
        ensures
            f.wf(),
            BloomFilterType::is_fresh(f, fp.num, fp.pow, capacity as u64, expansion),
    {
        let lam = lambda_of_exec(fp.num, fp.pow);
        let lam0 = lambda_at_exec(lam, 0);
        proof {
            assert(lam0 == lam);
        }
        let layer = SubFilter::create(capacity as u64, lam0);
        let mut filters: Vec<SubFilter> = Vec::new();
        filters.push(layer);
        let f = BloomFilterType {
            fp_num: fp.num,
            fp_pow: fp.pow,
            lam,
            expansion,
            num_items: 0,
            filters,
        };
        proof {
            assert(f.filters@.drop_last() =~= Seq::<SubFilter>::empty());
            assert(items_total(Seq::<SubFilter>::empty()) == 0);
            assert(items_total(f.filters@) == 0);
        }
        f
    }

    /// Whether the item is (probably) in the filter: true as soon as any
    /// layer matches, false when none does. Never false for an item that
    /// was actually added.
    pub fn item_exists(&self, item: &[u8]) -> (r: bool)
        requires
            self.wf(),
        ensures
            r == self.exists_in(item@),
    {
        let mut i: usize = 0;
        while i < self.filters.len()
            invariant
                self.wf(),
                i <= self.filters.len(),
                forall|i2: int|
                    0 <= i2 < i ==> !(#[trigger] self.filters[i2]).contains_item(item@),
            decreases self.filters.len() - i,
        {
            if self.filters[i].contains(item) {
                return true;
            }
            i = i + 1;
        }
        false
    }

    /// Adds one item: `0` if some layer already matches it (idempotent, no
    /// mutation), `1` if it was added to the newest layer or to a freshly
    /// appended layer, `-1` if the filter is non-scaling and its layer is
    /// full.
    pub fn add_item(&mut self, item: &[u8]) -> (r: i64)
        requires
            old(self).wf(),
        ensures
            final(self).wf(),
            BloomFilterType::add_step(*old(self), item@, *final(self), r),
    {
        proof {
            reveal(BloomFilterType::add_step);
        }
        if self.item_exists(item) {
            return 0;
        }
        let last_idx = self.filters.len() - 1;
        let has_room = self.filters[last_idx].items < self.filters[last_idx].capacity;
        if has_room {
            self.add_in_room(item);
            1
        } else if self.expansion == 0 {
            -1
        } else {
            self.add_grown(item);
            1
        }
    }

    /// Adds `item` to the newest layer, which still has room.
    fn add_in_room(&mut self, item: &[u8])
        requires
            old(self).wf(),
            !old(self).exists_in(item@),
            old(self).newest().items < old(self).newest().capacity,
        ensures
            final(self).wf(),
            BloomFilterType::add_step(*old(self), item@, *final(self), 1),
    {
        proof {
            reveal(BloomFilterType::add_step);
        }
        let ghost pre = *self;
        let last_idx = self.filters.len() - 1;
        let layer = &mut self.filters[last_idx];
        layer.add(item);
        proof {
            assert(self.filters@.drop_last() =~= pre.filters@.drop_last());
            assert(items_total(self.filters@) == sat_add_u64(
                sat_add_u64(items_total(pre.filters@.drop_last()), pre.newest().items),
                1,
            ));
            assert(sat_add_u64(
                sat_add_u64(items_total(pre.filters@.drop_last()), pre.newest().items),
                1,
            ) == sat_add_u64(items_total(pre.filters@), 1));
        }
        self.num_items = sat_inc(self.num_items);
        proof {
            assert forall|i: int| 0 <= i < self.filters.len() implies (
            #[trigger] self.filters[i]).wf() by {
                if i < pre.filters.len() - 1 {
                    assert(self.filters[i] == pre.filters[i]);
                }
            }
        }
    }

    /// Appends a freshly sized layer and adds `item` to it; the newest
    /// layer is full and the filter scales.
    #[verifier::rlimit(60)]
    fn add_grown(&mut self, item: &[u8])
        requires
            old(self).wf(),
            !old(self).exists_in(item@),
            old(self).newest().items >= old(self).newest().capacity,
            old(self).expansion >= 1,
        ensures
            final(self).wf(),
            BloomFilterType::add_step(*old(self), item@, *final(self), 1),
    {
        proof {
            reveal(BloomFilterType::add_step);
        }
        let ghost pre = *self;
        let last_idx = self.filters.len() - 1;
        let new_cap = match self.filters[last_idx].capacity.checked_mul(self.expansion as u64) {
            Some(c) => c,
            None => u64::MAX,
        };
        proof {
            assert(new_cap >= 1) by (nonlinear_arith)
                requires
                    new_cap == sat_mul_u64(pre.newest().capacity, pre.expansion as u64),
                    pre.newest().capacity >= 1,
                    pre.expansion >= 1,
            ;
        }
        let lam_i = lambda_at_exec(self.lam, self.filters.len() as u64);
        let mut nf = SubFilter::create(new_cap, lam_i);
        let ghost nfc = nf;
        nf.add(item);
        let ghost nff = nf;
        self.filters.push(nf);
        self.num_items = sat_inc(self.num_items);
        proof {
            assert(self.filters@.drop_last() =~= pre.filters@);
            assert(self.filters@.last() == self.newest());
            assert(self.newest() == nff);
            assert forall|j: int| 0 <= j < nff.num_bits implies nff.bit(j) == nff.is_probe(
                item@,
                j,
            ) by {
                assert(nff.bit(j) == (nfc.bit(j) || nfc.is_probe(item@, j)));
                assert(!nfc.bit(j));
                if nfc.is_probe(item@, j) {
                    let i = choose|i: u64| i < nfc.num_hashes && nfc.probe_at(item@, i) == j;
                    assert(i < nff.num_hashes && nff.probe_at(item@, i) == j);
                }
                if nff.is_probe(item@, j) {
                    let i = choose|i: u64| i < nff.num_hashes && nff.probe_at(item@, i) == j;
                    assert(i < nfc.num_hashes && nfc.probe_at(item@, i) == j);
                }
            }
            assert(items_total(self.filters@) == sat_add_u64(items_total(pre.filters@), 1));
            assert forall|i: int| 0 <= i < self.filters.len() implies (
            #[trigger] self.filters[i]).wf() by {
                if i < pre.filters.len() {
                    assert(self.filters[i] == pre.filters[i]);
                }
            }
            assert forall|i: int| 1 <= i < self.filters.len() implies (
            #[trigger] self.filters[i]).capacity == sat_mul_u64(
                self.filters[i - 1].capacity,
                self.expansion as u64,
            ) by {
                if i < pre.filters.len() {
                    assert(self.filters[i] == pre.filters[i]);
                    assert(self.filters[i - 1] == pre.filters[i - 1]);
                }
            }
            assert forall|i: int| 0 <= i < self.filters.len() implies (
            #[trigger] self.filters[i]).num_bits == bits_for(
                self.filters[i].capacity,
                lambda_at(self.lam, i as u64),
            ) && self.filters[i].num_hashes == hashes_for(lambda_at(self.lam, i as u64)) by {
                if i < pre.filters.len() {
                    assert(self.filters[i] == pre.filters[i]);
                }
            }
            assert forall|i: int| 0 <= i < self.filters.len() - 1 implies (
            #[trigger] self.filters[i]).items == self.filters[i].capacity by {
                if i < pre.filters.len() - 1 {
                    assert(self.filters[i] == pre.filters[i]);
                } else {
                    assert(self.filters[i] == pre.filters[i]);
                    assert(pre.newest().items == pre.newest().capacity);
                }
            }
        }
    }

    /// The running count of distinct items added.
    pub fn cardinality(&self) -> (r: u64)
        requires
            self.wf(),
        ensures
            r == self.num_items,
            r == items_total(self.filters@),
    {
        self.num_items
    }

    /// Total provisioned capacity across all layers (saturating).
    pub fn capacity(&self) -> (r: u64)
        requires
            self.wf(),
        ensures
            r == cap_total(self.filters@),
    {
        let mut total: u64 = 0;
        let mut i: usize = 0;
        while i < self.filters.len()
            invariant
                self.wf(),
                i <= self.filters.len(),
                total == cap_total(self.filters@.subrange(0, i as int)),
            decreases self.filters.len() - i,
        {
            proof {
                assert(self.filters@.subrange(0, i + 1 as int).drop_last() =~= self.filters@
                    .subrange(0, i as int));
            }
            total = sat_add_exec(total, self.filters[i].capacity);
            i = i + 1;
        }
        proof {
            assert(self.filters@.subrange(0, self.filters@.len() as int) =~= self.filters@);
        }
        total
    }

    /// Total bytes across all layers: each layer's bit array plus fixed
    /// per-layer bookkeeping (saturating).
    pub fn get_memory_usage(&self) -> (r: u64)
        requires
            self.wf(),
        ensures
            r == mem_total(self.filters@),
    {
        let mut total: u64 = 0;
        let mut i: usize = 0;
        while i < self.filters.len()
            invariant
                self.wf(),
                i <= self.filters.len(),
                total == mem_total(self.filters@.subrange(0, i as int)),
            decreases self.filters.len() - i,
        {
            proof {
                assert(self.filters@.subrange(0, i + 1 as int).drop_last() =~= self.filters@
                    .subrange(0, i as int));
            }
            let words = self.filters[i].words.len() as u64;
            total = sat_add_exec(total, words * 8 + 48);
            i = i + 1;
        }
        proof {
            assert(self.filters@.subrange(0, self.filters@.len() as int) =~= self.filters@);
        }
        total
    }
}

/// The filter a set of persisted plain parts describes: the rate, the
/// expansion, the item counter and the layers as stored, with the derived
/// `log2(1/p)` recomputed from the rate.
pub open spec fn assembled(
    fp_num: u64,
    fp_pow: u32,
    expansion: u32,
    num_items: u64,
    filters: Vec<SubFilter>,
) -> BloomFilterType {
    BloomFilterType {
        fp_num,
        fp_pow,
        lam: lambda_of(fp_num, fp_pow),
        expansion,
        num_items,
        filters,
    }
}

impl BloomFilterType {
    /// Rebuilds a filter from its persisted plain parts — the base rate,
    /// the expansion, the item counter and the layer list — accepting them
    /// exactly when they describe a well-formed filter.
    #[verifier::loop_isolation(false)]
    #[verifier::rlimit(100)]
    pub fn from_parts(
        fp_num: u64,
        fp_pow: u32,
        expansion: u32,
        num_items: u64,
        filters: Vec<SubFilter>,
    ) -> (r: Option<BloomFilterType>)
        ensures
            r == (if assembled(fp_num, fp_pow, expansion, num_items, filters).wf() {
                Some(assembled(fp_num, fp_pow, expansion, num_items, filters))
            } else {
                None::<BloomFilterType>
            }),
    {
        let ghost g = assembled(fp_num, fp_pow, expansion, num_items, filters);
        if fp_num < 1 || fp_pow > POW_CAP {
            proof {
                assert(!g.wf());
            }
            return None;
        }
        let lam = lambda_of_exec(fp_num, fp_pow);
        if expansion > EXPANSION_MAX {
            proof {
                assert(!g.wf());
            }
            return None;
        }
        if filters.len() < 1 || (expansion == 0 && filters.len() != 1) {
            proof {
                assert(!g.wf());
            }
            return None;
        }
        let mut total: u64 = 0;
        let mut i: usize = 0;
        proof {
            assert(filters@.subrange(0, 0) =~= Seq::<SubFilter>::empty());
        }
        while i < filters.len()
            invariant
                0 <= i <= filters.len(),
                total == items_total(filters@.subrange(0, i as int)),
                forall|k: int| 0 <= k < i ==> (#[trigger] filters[k]).wf(),
                forall|k: int|
                    1 <= k < i ==> (#[trigger] filters[k]).capacity == sat_mul_u64(
                        filters[k - 1].capacity,
                        expansion as u64,
                    ),
                forall|k: int|
                    0 <= k < i ==> (#[trigger] filters[k]).num_bits == bits_for(
                        filters[k].capacity,
                        lambda_at(lam, k as u64),
                    ) && filters[k].num_hashes == hashes_for(lambda_at(lam, k as u64)),
                forall|k: int|
                    0 <= k < i && k < filters.len() - 1 ==> (#[trigger] filters[k]).items
                        == filters[k].capacity,
            decreases filters.len() - i,
        {
            let f = &filters[i];
            if f.capacity < 1 || f.items > f.capacity {
                proof {
                    assert(!g.wf()) by {
                        if g.wf() {
                            assert(g.filters[i as int].wf());
                        }
                    }
                }
                return None;
            }
            let lam_i = lambda_at_exec(lam, i as u64);
            let want_bits = bits_for_exec(f.capacity, lam_i);
            let want_hashes = hashes_for_exec(lam_i);
            if f.num_bits != want_bits || f.num_hashes != want_hashes {
                proof {
                    assert(!g.wf()) by {
                        if g.wf() {
                            assert(g.filters[i as int].num_bits == bits_for(
                                g.filters[i as int].capacity,
                                lambda_at(g.lam, i as u64),
                            ) && g.filters[i as int].num_hashes == hashes_for(
                                lambda_at(g.lam, i as u64),
                            ));
                        }
                    }
                }
                return None;
            }
            let want_words = word_count_exec(want_bits);
            if f.words.len() as u64 != want_words {
                proof {
                    assert(!g.wf()) by {
                        if g.wf() {
                            assert(g.filters[i as int].wf());
                        }
                    }
                }
                return None;
            }
            if i >= 1 {
                let prev_cap = filters[i - 1].capacity;
                let chained = match prev_cap.checked_mul(expansion as u64) {
                    Some(c) => c,
                    None => u64::MAX,
                };
                if f.capacity != chained {
                    proof {
                        assert(!g.wf()) by {
                            if g.wf() {
                                assert(g.filters[i as int].capacity == sat_mul_u64(
                                    g.filters[i as int - 1].capacity,
                                    g.expansion as u64,
                                ));
                            }
                        }
                    }
                    return None;
                }
            }
            if i + 1 < filters.len() && f.items != f.capacity {
                proof {
                    assert(!g.wf()) by {
                        if g.wf() {
                            assert(g.filters[i as int].items == g.filters[i as int].capacity);
                        }
                    }
                }
                return None;
            }
            proof {
                assert(filters@.subrange(0, i + 1 as int).drop_last() =~= filters@.subrange(
                    0,
                    i as int,
                ));
            }
            total = sat_add_exec(total, f.items);
            i = i + 1;
        }
        proof {
            assert(filters@.subrange(0, filters@.len() as int) =~= filters@);
        }
        if total != num_items {
            proof {
                assert(!g.wf());
            }
            return None;
        }
        proof {
            assert(g.wf());
        }
        Some(BloomFilterType { fp_num, fp_pow, lam, expansion, num_items, filters })
    }
}

/// Round trip of the persisted representation: the parts a well-formed
/// filter supplies reassemble to exactly that filter, so `from_parts`
/// accepts them and returns it.
pub proof fn lemma_parts_round_trip(f: BloomFilterType)
    requires
        f.wf(),
    ensures
        assembled(f.fp_num, f.fp_pow, f.expansion, f.num_items, f.filters) == f,
        assembled(f.fp_num, f.fp_pow, f.expansion, f.num_items, f.filters).wf(),
{
}

/// The empty chain relates a state to itself.
pub proof fn lemma_add_steps_empty(s: BloomFilterType)
    ensures
        BloomFilterType::add_steps(s, Seq::<Seq<u8>>::empty(), s, Seq::<i64>::empty()),
{
    reveal(BloomFilterType::add_steps);
}

/// Extends an `add_steps` chain by one more transition at its end.
pub proof fn lemma_add_steps_snoc(
    a: BloomFilterType,
    its: Seq<Seq<u8>>,
    b: BloomFilterType,
    rs: Seq<i64>,
    x: Seq<u8>,
    c: BloomFilterType,
    r: i64,
)
    requires
        BloomFilterType::add_steps(a, its, b, rs),
        BloomFilterType::add_step(b, x, c, r),
        c.wf(),
    ensures
        BloomFilterType::add_steps(a, its.push(x), c, rs.push(r)),
    decreases its.len(),
{
    reveal(BloomFilterType::add_steps);
    if its.len() == 0 {
        assert(b == a);
        assert(its.push(x)[0] == x);
        assert(rs.push(r)[0] == r);
        assert(its.push(x).drop_first() =~= Seq::<Seq<u8>>::empty());
        assert(rs.push(r).drop_first() =~= Seq::<i64>::empty());
        assert(BloomFilterType::add_steps(
            c,
            its.push(x).drop_first(),
            c,
            rs.push(r).drop_first(),
        ));
        assert(c.wf() && BloomFilterType::add_step(a, its.push(x)[0], c, rs.push(r)[0])
            && BloomFilterType::add_steps(c, its.push(x).drop_first(), c, rs.push(r).drop_first()));
    } else {
        let mid = choose|mid: BloomFilterType|
            mid.wf() && #[trigger] BloomFilterType::add_step(a, its[0], mid, rs[0])
                && BloomFilterType::add_steps(mid, its.drop_first(), b, rs.drop_first());
        lemma_add_steps_snoc(mid, its.drop_first(), b, rs.drop_first(), x, c, r);
        assert(its.push(x).drop_first() =~= its.drop_first().push(x));
        assert(rs.push(r).drop_first() =~= rs.drop_first().push(r));
        assert(its.push(x)[0] == its[0]);
        assert(rs.push(r)[0] == rs[0]);
        assert(mid.wf() && BloomFilterType::add_step(a, its.push(x)[0], mid, rs.push(r)[0])
            && BloomFilterType::add_steps(
                mid,
                its.push(x).drop_first(),
                c,
                rs.push(r).drop_first(),
            ));
    }
}

/// Computes `sat_add_u64(a, b)`.
pub fn sat_add_exec(a: u64, b: u64) -> (r: u64)
    ensures
        r == sat_add_u64(a, b),
{
    match a.checked_add(b) {
        Some(s) => s,
        None => u64::MAX,
    }
}

/// Computes `sat_add_u64(x, 1)`.
fn sat_inc(x: u64) -> (r: u64)
    ensures
        r == sat_add_u64(x, 1),
{
    if x == u64::MAX {
        x
    } else {
        x + 1
    }
}

} // verus!
