//! A single fixed-capacity Bloom filter layer: a zero-initialized bit array
//! sized from a target capacity and false-positive rate, probed by
//! `num_hashes` hash functions per item.

use vstd::prelude::*;
use crate::bits::{word_bit, get_bit, set_bit, lemma_zero_words};
use crate::hashing::{digest_pair, probe_index, probe, hash1, hash2};
use crate::sizing::{bits_for, bits_for_exec, hashes_for, hashes_for_exec, word_count,
    word_count_exec, LAMBDA_CAP, BITS_CAP};

verus! {

/// One layer of a scalable filter.
#[derive(Clone)]
pub struct SubFilter {
    /// The bit array, packed in 64-bit words.
    pub words: Vec<u64>,
    /// Number of valid bits; probes lie in `[0, num_bits)`.
    pub num_bits: u64,
    /// Number of hash probes per item.
    pub num_hashes: u64,
    /// Items this layer is designed to hold; the container stops adding to
    /// the layer once `items` reaches it.
    pub capacity: u64,
    /// Items added to this layer so far.
    pub items: u64,
}

impl SubFilter {
    pub open spec fn wf(self) -> bool {
        &&& 64 <= self.num_bits <= BITS_CAP
        &&& 1 <= self.num_hashes
        &&& self.words.len() == word_count(self.num_bits)
        &&& self.words.len() * 64 >= self.num_bits
        &&& self.words.len() <= 0x4000_0000
        &&& 1 <= self.capacity
        &&& self.items <= self.capacity
    }

    /// Whether bit `j` of the array is set.
    pub open spec fn bit(self, j: int) -> bool
        recommends
            0 <= j < self.num_bits,
    {
        word_bit(self.words@, j)
    }

    /// The bit position probed by hash function `i` for `item`.
    pub open spec fn probe_at(self, item: Seq<u8>, i: u64) -> int {
        probe(item, i, self.num_bits) as int
    }

    /// Whether `j` is one of the probe positions of `item` in this layer.
    pub open spec fn is_probe(self, item: Seq<u8>, j: int) -> bool {
        exists|i: u64| i < self.num_hashes && self.probe_at(item, i) == j
    }

    /// Whether every probe position of `item` is set: the layer reports
    /// `item` as (probably) present. Never false for an item whose probes
    /// were all set by an earlier add.
    pub open spec fn contains_item(self, item: Seq<u8>) -> bool {
        forall|i: u64| i < self.num_hashes ==> self.bit(#[trigger] self.probe_at(item, i))
    }

    /// How an add of `item` changes a layer: exactly the probe positions of
    /// `item` become set, every other bit keeps its value, the item count
    /// rises by one, and the shape is unchanged.
    pub open spec fn add_rel(pre: SubFilter, item: Seq<u8>, post: SubFilter) -> bool {
        &&& post.num_bits == pre.num_bits
        &&& post.num_hashes == pre.num_hashes
        &&& post.capacity == pre.capacity
        &&& post.items == pre.items + 1
        &&& post.words.len() == pre.words.len()
        &&& forall|j: int|
            0 <= j < pre.num_bits ==> post.bit(j) == (pre.bit(j) || pre.is_probe(item, j))
    }

    /// A freshly created layer: every bit clear, no items.
    pub fn create(capacity: u64, lam: u64) -> (f: SubFilter)
        requires
            1 <= capacity,
            1 <= lam <= LAMBDA_CAP,
        ensures
            f.wf(),
            f.capacity == capacity,
            f.items == 0,
            f.num_bits == bits_for(capacity, lam),
            f.num_hashes == hashes_for(lam),
            forall|j: int| 0 <= j < f.num_bits ==> !f.bit(j),
    {
        let num_bits = bits_for_exec(capacity, lam);
        let num_hashes = hashes_for_exec(lam);
        let wc = word_count_exec(num_bits);
        let words: Vec<u64> = vec![0u64; wc as usize];
        let f = SubFilter { words, num_bits, num_hashes, capacity, items: 0 };
        proof {
            lemma_zero_words(f.words@);
            assert forall|j: int| 0 <= j < f.num_bits implies !f.bit(j) by {
                assert(0 <= j / 64 < f.words.len()) by (nonlinear_arith)
                    requires
                        0 <= j,
                        j < f.num_bits,
                        f.words.len() * 64 >= f.num_bits,
                ;
            }
        }
        f
    }

    /// Whether every probe position of `item` is currently set.
    pub fn contains(&self, item: &[u8]) -> (r: bool)
        requires
            self.wf(),
        ensures
            r == self.contains_item(item@),
    {
        let (h1, h2) = digest_pair(item);
        let mut i: u64 = 0;
        let mut all: bool = true;
        while i < self.num_hashes
            invariant
                self.wf(),
                i <= self.num_hashes,
                h1 == hash1(item@),
                h2 == hash2(item@),
                all == forall|i2: u64| i2 < i ==> self.bit(#[trigger] self.probe_at(item@, i2)),
            decreases self.num_hashes - i,
        {
            let idx = probe_index(h1, h2, i, self.num_bits);
            proof {
                assert(idx / 64 < self.words.len()) by (nonlinear_arith)
                    requires
                        0 <= idx,
                        idx < self.num_bits,
                        self.words.len() * 64 >= self.num_bits,
                ;
            }
            let hit = get_bit(&self.words, idx);
            proof {
                assert(hit == self.bit(self.probe_at(item@, i)));
                if all && hit {
                    assert forall|i2: u64| i2 < i + 1 implies self.bit(
                        #[trigger] self.probe_at(item@, i2),
                    ) by {}
                } else if !hit {
                    assert(!self.bit(self.probe_at(item@, i)));
                } else {
                    let w = choose|i2: u64| i2 < i && !self.bit(#[trigger] self.probe_at(item@, i2));
                    assert(w < i + 1 && !self.bit(self.probe_at(item@, w)));
                }
            }
            all = all && hit;
            i = i + 1;
        }
        all
    }

    /// Sets every probe position of `item` and counts the item into the
    /// layer. Returns whether any probed bit was previously clear, i.e.
    /// whether this call changed the bit array.
    pub fn add(&mut self, item: &[u8]) -> (newly: bool)
        requires
            old(self).wf(),
            old(self).items < old(self).capacity,
        ensures
            final(self).wf(),
            SubFilter::add_rel(*old(self), item@, *final(self)),
            newly == !old(self).contains_item(item@),
    {
        let ghost pre = *self;
        let (h1, h2) = digest_pair(item);
        let mut i: u64 = 0;
        let mut newly: bool = false;
        while i < self.num_hashes
            invariant
                self.wf(),
                pre.wf(),
                i <= self.num_hashes,
                h1 == hash1(item@),
                h2 == hash2(item@),
                self.num_bits == pre.num_bits,
                self.num_hashes == pre.num_hashes,
                self.capacity == pre.capacity,
                self.items == pre.items,
                self.words.len() == pre.words.len(),
                forall|j: int|
                    0 <= j < pre.num_bits ==> self.bit(j) == (pre.bit(j) || exists|i2: u64|
                        i2 < i && pre.probe_at(item@, i2) == j),
                newly == exists|i2: u64| i2 < i && !pre.bit(#[trigger] pre.probe_at(item@, i2)),
            decreases self.num_hashes - i,
        {
            let ghost mid = *self;
            let idx = probe_index(h1, h2, i, self.num_bits);
            proof {
                assert(idx / 64 < self.words.len()) by (nonlinear_arith)
                    requires
                        0 <= idx,
                        idx < self.num_bits,
                        self.words.len() * 64 >= self.num_bits,
                ;
            }
            let was = set_bit(&mut self.words, idx);
            proof {
                assert forall|j: int| 0 <= j < pre.num_bits implies self.bit(j) == (pre.bit(j)
                    || exists|i2: u64| i2 < i + 1 && pre.probe_at(item@, i2) == j) by {
                    assert(0 <= j < self.words.len() * 64);
                    assert(self.bit(j) == (mid.bit(j) || j == idx as int));
                    if j == idx as int {
                        assert(pre.probe_at(item@, i) == j);
                    } else {
                        assert((exists|i2: u64| i2 < i + 1 && pre.probe_at(item@, i2) == j)
                            == (exists|i2: u64| i2 < i && pre.probe_at(item@, i2) == j));
                    }
                }
                if !was {
                    assert(!mid.bit(idx as int));
                    assert(!pre.bit(pre.probe_at(item@, i)));
                    assert(exists|i2: u64|
                        i2 < i + 1 && !pre.bit(#[trigger] pre.probe_at(item@, i2)));
                } else {
                    if !pre.bit(idx as int) {
                        assert(exists|i2: u64|
                            i2 < i && !pre.bit(#[trigger] pre.probe_at(item@, i2)));
                    }
                    assert((exists|i2: u64| i2 < i + 1 && !pre.bit(
                        #[trigger] pre.probe_at(item@, i2),
                    )) == (exists|i2: u64| i2 < i && !pre.bit(#[trigger] pre.probe_at(item@, i2))));
                }
            }
            newly = if was {
                newly
            } else {
                true
            };
            i = i + 1;
        }
        self.items = self.items + 1;
        proof {
            if !newly {
                assert forall|i2: u64| i2 < pre.num_hashes implies pre.bit(
                    #[trigger] pre.probe_at(item@, i2),
                ) by {}
            }
        }
        newly
    }
}

} // verus!
