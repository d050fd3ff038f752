//! Hashing of item bytes. Two independent 64-bit FNV-1a style digests are
//! combined by double hashing: the `i`-th probe of an item in a layer with
//! `m` bits is `(h1 + i * h2) mod 2^64 mod m`.

use vstd::prelude::*;
use vstd::wrapping::u64_specs;

verus! {

pub const FNV_PRIME: u64 = 0x100000001b3;
pub const FNV_SEED_A: u64 = 0xcbf29ce484222325;
pub const FNV_SEED_B: u64 = 0x84222325cbf29ce4;

/// FNV-1a folded over `s` from the left, starting from `acc`.
pub open spec fn fnv_acc(s: Seq<u8>, acc: u64) -> u64
    decreases s.len(),
{
    if s.len() == 0 {
        acc
    } else {
        u64_specs::wrapping_mul(fnv_acc(s.drop_last(), acc) ^ (s.last() as u64), FNV_PRIME)
    }
}

pub open spec fn hash1(s: Seq<u8>) -> u64 {
    fnv_acc(s, FNV_SEED_A)
}

pub open spec fn hash2(s: Seq<u8>) -> u64 {
    fnv_acc(s, FNV_SEED_B)
}

/// Bit position probed by the `i`-th hash function of an item in a layer
/// with `m` bits.
pub open spec fn probe(s: Seq<u8>, i: u64, m: u64) -> u64
    recommends
        m >= 1,
{
    u64_specs::wrapping_add(hash1(s), u64_specs::wrapping_mul(i, hash2(s))) % m
}

/// One digest pass over the item bytes.
fn fnv_digest(item: &[u8], seed: u64) -> (h: u64)
    ensures
        h == fnv_acc(item@, seed),
{
    let mut h = seed;
    let mut i: usize = 0;
    while i < item.len()
        invariant
            i <= item.len(),
            h == fnv_acc(item@.subrange(0, i as int), seed),
        decreases item.len() - i,
    {
        let b = item[i];
        h = (h ^ (b as u64)).wrapping_mul(FNV_PRIME);
        proof {
            assert(item@.subrange(0, i + 1 as int).drop_last() =~= item@.subrange(0, i as int));
        }
        i = i + 1;
    }
    proof {
        assert(item@.subrange(0, item@.len() as int) =~= item@);
    }
    h
}

/// Both digests of an item, computed once per operation.
pub fn digest_pair(item: &[u8]) -> (p: (u64, u64))
    ensures
        p.0 == hash1(item@),
        p.1 == hash2(item@),
{
    (fnv_digest(item, FNV_SEED_A), fnv_digest(item, FNV_SEED_B))
}

/// The `i`-th probe position, from the precomputed digests.
pub fn probe_index(h1: u64, h2: u64, i: u64, m: u64) -> (idx: u64)
    requires
        m >= 1,
    ensures
        idx == u64_specs::wrapping_add(h1, u64_specs::wrapping_mul(i, h2)) % m,
        idx < m,
{
    h1.wrapping_add(i.wrapping_mul(h2)) % m
}

} // verus!
