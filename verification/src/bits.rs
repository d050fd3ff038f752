//! A bit array packed in 64-bit words: the positions are tested and set
//! through `word_bit`, and all shift-and-mask reasoning is confined here.

use vstd::prelude::*;

verus! {

/// Whether bit `j` of the packed array `words` is set.
pub open spec fn word_bit(words: Seq<u64>, j: int) -> bool
    recommends
        0 <= j / 64 < words.len(),
{
    (words[j / 64] >> ((j % 64) as u64)) & 1 == 1
}

/// Reads bit `idx`.
pub fn get_bit(words: &Vec<u64>, idx: u64) -> (r: bool)
    requires
        idx / 64 < words.len(),
    ensures
        r == word_bit(words@, idx as int),
{
    let w = (idx / 64) as usize;
    let sh = idx % 64;
    (words[w] >> sh) & 1 == 1
}

/// Sets bit `idx`, leaving every other bit as it was; returns whether the
/// bit was set before the call.
pub fn set_bit(words: &mut Vec<u64>, idx: u64) -> (was: bool)
    requires
        idx / 64 < old(words).len(),
    ensures
        final(words).len() == old(words).len(),
        was == word_bit(old(words)@, idx as int),
        forall|j: int|
            0 <= j < final(words).len() * 64 ==> word_bit(final(words)@, j) == (word_bit(
                old(words)@,
                j,
            ) || j == idx),
{
    let ghost pre = words@;
    let w = (idx / 64) as usize;
    let sh = idx % 64;
    let wv = words[w];
    let was = (wv >> sh) & 1 == 1;
    words[w] = wv | (1u64 << sh);
    proof {
        assert forall|j: int| 0 <= j < words.len() * 64 implies word_bit(words@, j) == (word_bit(
            pre,
            j,
        ) || j == idx) by {
            assert(0 <= j / 64 < words.len()) by (nonlinear_arith)
                requires
                    0 <= j < words.len() * 64,
            ;
            if j / 64 == w as int {
                lemma_bit_or_test(wv, sh, (j % 64) as u64);
                if j != idx as int {
                    assert((j % 64) as u64 != sh || j / 64 != idx as int / 64) by (nonlinear_arith)
                        requires
                            j != idx as int,
                            0 <= j,
                            0 <= idx,
                            sh == idx % 64,
                    ;
                }
            } else {
                assert(words@[j / 64] == pre[j / 64]);
            }
        }
    }
    was
}

/// Every bit of an all-zero array is clear.
pub proof fn lemma_zero_words(words: Seq<u64>)
    requires
        forall|w: int| 0 <= w < words.len() ==> words[w] == 0,
    ensures
        forall|j: int| 0 <= j / 64 < words.len() ==> !word_bit(words, j),
{
    assert forall|j: int| 0 <= j / 64 < words.len() implies !word_bit(words, j) by {
        let c = (j % 64) as u64;
        assert((0u64 >> c) & 1 == 0) by (bit_vector);
    }
}

/// Setting bit `b` of a word sets exactly bit `b`: testing position `c`
/// afterwards yields set iff `c == b` or it was set before.
proof fn lemma_bit_or_test(w: u64, b: u64, c: u64)
    requires
        b < 64,
        c < 64,
    ensures
        ((w | (1u64 << b)) >> c) & 1 == if b == c {
            1u64
        } else {
            (w >> c) & 1
        },
{
    assert(((w | (1u64 << b)) >> c) & 1 == if b == c {
        1u64
    } else {
        (w >> c) & 1
    }) by (bit_vector)
        requires
            b < 64,
            c < 64,
    ;
}

} // verus!
