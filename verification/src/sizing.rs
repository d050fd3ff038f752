//! Sizing of a filter layer. The standard formulas `m = -n*ln(p)/(ln 2)^2`
//! and `k = round((m/n)*ln 2)` are evaluated in fixed-point integer
//! arithmetic with 16 fractional bits, through the identity
//! `-ln(p)/(ln 2)^2 = log2(1/p) / ln 2`. A false-positive rate
//! `p = num / 10^pow` enters as `log2(1/p) = pow*log2(10) - log2(num)`.

use vstd::prelude::*;
use vstd::arithmetic::power2::{pow2, lemma_pow2_unfold, lemma_pow2_strictly_increases, lemma2_to64,
    lemma2_to64_rest};

verus! {

/// `log2(10)` with 16 fractional bits.
pub const LOG2_10_FP: u64 = 217706;

/// `1 / ln(2)` with 16 fractional bits.
pub const INV_LN2_FP: u64 = 94548;

/// `log2(10/9)` with 16 fractional bits: each further layer tightens its
/// false-positive target by the ratio `9/10`.
pub const TIGHTEN_FP: u64 = 9962;

/// Ceiling on `log2(1/p)` (fixed point): rates are never treated as
/// tighter than `2^-200`, which keeps the sizing arithmetic in range.
pub const LAMBDA_CAP: u64 = 13107200;

/// Ceiling on a layer's bit count (2^36 bits, an 8 GiB allocation bound).
pub const BITS_CAP: u64 = 68719476736;

/// Ceiling on the decimal exponent a rate is stored with.
pub const POW_CAP: u32 = 1100000;

/// Halvings of `y` until it lies below `2^33`.
pub open spec fn norm_steps(y: int) -> nat
    decreases y,
{
    if y < 0x2_0000_0000 {
        0
    } else {
        1 + norm_steps(y / 2)
    }
}

/// Value of `y` after those halvings.
pub open spec fn norm_val(y: int) -> int
    decreases y,
{
    if y < 0x2_0000_0000 {
        y
    } else {
        norm_val(y / 2)
    }
}

/// `n` fractional bits of `log2(y / 2^32)` for `y` in `[2^32, 2^33)`,
/// by repeated squaring.
pub open spec fn frac_bits(y: int, n: nat) -> int
    decreases n,
{
    if n == 0 {
        0
    } else {
        let y2 = (y * y) / 0x1_0000_0000;
        if y2 >= 0x2_0000_0000 {
            pow2((n - 1) as nat) + frac_bits(y2 / 2, (n - 1) as nat)
        } else {
            frac_bits(y2, (n - 1) as nat)
        }
    }
}

/// `log2(num)` with 16 fractional bits, for `num >= 1`.
pub open spec fn log2_fixed(num: u64) -> int
    recommends
        num >= 1,
{
    let y0 = num * 0x1_0000_0000;
    norm_steps(y0) * 65536 + frac_bits(norm_val(y0), 16)
}

/// `log2(1/p)` (fixed point, clamped to `[1, LAMBDA_CAP]`) for the rate
/// `p = num / 10^pow`.
pub open spec fn lambda_of(num: u64, pow: u32) -> u64
    recommends
        num >= 1,
        pow <= POW_CAP,
{
    let raw = pow * LOG2_10_FP - log2_fixed(num);
    if raw < 1 {
        1
    } else if raw > LAMBDA_CAP {
        LAMBDA_CAP
    } else {
        raw as u64
    }
}

/// The tightened `log2(1/p)` for the layer with index `i`.
pub open spec fn lambda_at(lam: u64, i: u64) -> u64 {
    if lam + i * TIGHTEN_FP > LAMBDA_CAP {
        LAMBDA_CAP
    } else {
        (lam + i * TIGHTEN_FP) as u64
    }
}

/// Bit count of a layer: `ceil(capacity * lambda / ln 2)` in fixed point,
/// clamped to `[64, BITS_CAP]`.
pub open spec fn bits_for(capacity: u64, lam: u64) -> u64
    recommends
        1 <= lam <= LAMBDA_CAP,
{
    let m = (capacity * lam * INV_LN2_FP + 0xFFFF_FFFF) / 0x1_0000_0000;
    if m < 64 {
        64
    } else if m > BITS_CAP {
        BITS_CAP
    } else {
        m as u64
    }
}

/// Hash-function count of a layer: `round(log2(1/p))`, minimum 1.
pub open spec fn hashes_for(lam: u64) -> u64
    recommends
        lam <= LAMBDA_CAP,
{
    let k = (lam + 32768) / 65536;
    if k < 1 {
        1
    } else {
        k as u64
    }
}

/// 64-bit words needed to hold `num_bits` bits.
pub open spec fn word_count(num_bits: u64) -> u64
    recommends
        num_bits >= 1,
{
    ((num_bits - 1) / 64 + 1) as u64
}

/// Computes `log2_fixed(num)`.
pub fn log2_fixed_exec(num: u64) -> (r: u64)
    requires
        num >= 1,
    ensures
        r == log2_fixed(num),
        r <= 0x40_0000,
{
    let ghost y0: int = num * 0x1_0000_0000;
    let mut y: u128 = (num as u128) * 0x1_0000_0000;
    let mut b: u64 = 0;
    proof {
        lemma2_to64();
        assert(pow2(0) * y == y);
    }
    while y >= 0x2_0000_0000
        invariant
            0x1_0000_0000 <= y,
            y <= u64::MAX as u128 * 0x1_0000_0000,
            b <= 63,
            pow2(b as nat) * y <= y0,
            y0 == num * 0x1_0000_0000,
            norm_steps(y0) == b + norm_steps(y as int),
            norm_val(y as int) == norm_val(y0),
        decreases y,
    {
        proof {
            lemma2_to64();
            lemma2_to64_rest();
            if b >= 63 {
                assert(pow2(b as nat) >= pow2(63)) by {
                    if b > 63 {
                        lemma_pow2_strictly_increases(63, b as nat);
                    }
                }
                assert(pow2(63) * y > u64::MAX as int * 0x1_0000_0000) by (nonlinear_arith)
                    requires
                        y >= 0x2_0000_0000,
                        pow2(63) == 0x8000_0000_0000_0000,
                ;
                assert(pow2(b as nat) * y > y0) by (nonlinear_arith)
                    requires
                        pow2(b as nat) >= pow2(63),
                        pow2(63) * y > y0,
                        y > 0,
                ;
                assert(false);
            }
            lemma_pow2_unfold((b + 1) as nat);
            assert(pow2((b + 1) as nat) * ((y as int) / 2) <= pow2(b as nat) * y)
                by (nonlinear_arith)
                requires
                    pow2((b + 1) as nat) == 2 * pow2(b as nat),
                    y >= 2,
                    pow2(b as nat) >= 0,
            ;
        }
        y = y / 2;
        b = b + 1;
    }
    let ghost y_start: int = y as int;
    let mut frac: u64 = 0;
    let mut i: u64 = 0;
    proof {
        lemma2_to64();
        assert(frac_bits(y_start, 16) == 0 * pow2(16) + frac_bits(y as int, 16));
    }
    while i < 16
        invariant
            i <= 16,
            0x1_0000_0000 <= y < 0x2_0000_0000,
            frac < pow2(i as nat),
            frac <= 0xFFFF,
            frac_bits(y_start, 16) == frac * pow2((16 - i) as nat) + frac_bits(
                y as int,
                (16 - i) as nat,
            ),
        decreases 16 - i,
    {
        proof {
            lemma2_to64();
            if i < 15 {
                lemma_pow2_strictly_increases(i as nat, 15);
            }
            assert(frac < 32768);
            assert((y as int) * (y as int) < 0x4_0000_0000_0000_0000) by (nonlinear_arith)
                requires
                    y < 0x2_0000_0000,
            ;
            assert((y as int) * (y as int) >= 0x1_0000_0000_0000_0000) by (nonlinear_arith)
                requires
                    y >= 0x1_0000_0000,
            ;
        }
        let ghost n: nat = (16 - i) as nat;
        let y2: u128 = (y * y) / 0x1_0000_0000;
        proof {
            lemma_pow2_unfold(n);
            assert(frac_bits(y as int, n) == (if (y2 as int) >= 0x2_0000_0000 {
                pow2((n - 1) as nat) + frac_bits((y2 as int) / 2, (n - 1) as nat)
            } else {
                frac_bits(y2 as int, (n - 1) as nat)
            }));
        }
        if y2 >= 0x2_0000_0000 {
            proof {
                assert((2 * frac + 1) * pow2((n - 1) as nat) == frac * pow2(n) + pow2(
                    (n - 1) as nat,
                )) by (nonlinear_arith)
                    requires
                        pow2(n) == 2 * pow2((n - 1) as nat),
                ;
            }
            y = y2 / 2;
            frac = frac * 2 + 1;
        } else {
            proof {
                assert((2 * frac) * pow2((n - 1) as nat) == frac * pow2(n)) by (nonlinear_arith)
                    requires
                        pow2(n) == 2 * pow2((n - 1) as nat),
                ;
            }
            y = y2;
            frac = frac * 2;
        }
        i = i + 1;
    }
    proof {
        lemma2_to64();
        assert(pow2(0) == 1);
        assert(frac_bits(y as int, 0) == 0);
        assert((16 - i) as nat == 0);
        assert(pow2((16 - i) as nat) == 1);
        assert(frac * pow2((16 - i) as nat) == frac) by (nonlinear_arith)
            requires
                pow2((16 - i) as nat) == 1,
        ;
        assert(frac_bits(y_start, 16) == frac);
    }
    b * 65536 + frac
}

/// Computes `lambda_of(num, pow)`.
pub fn lambda_of_exec(num: u64, pow: u32) -> (r: u64)
    requires
        num >= 1,
        pow <= POW_CAP,
    ensures
        r == lambda_of(num, pow),
        1 <= r <= LAMBDA_CAP,
{
    let t1: u64 = (pow as u64) * LOG2_10_FP;
    let l2: u64 = log2_fixed_exec(num);
    if t1 <= l2 {
        1
    } else {
        let raw = t1 - l2;
        if raw > LAMBDA_CAP {
            LAMBDA_CAP
        } else if raw < 1 {
            1
        } else {
            raw
        }
    }
}

/// Computes `lambda_at(lam, i)`.
pub fn lambda_at_exec(lam: u64, i: u64) -> (r: u64)
    requires
        1 <= lam <= LAMBDA_CAP,
    ensures
        r == lambda_at(lam, i),
        1 <= r <= LAMBDA_CAP,
{
    match i.checked_mul(TIGHTEN_FP) {
        Some(t) => match lam.checked_add(t) {
            Some(s) => if s > LAMBDA_CAP {
                LAMBDA_CAP
            } else {
                s
            },
            None => LAMBDA_CAP,
        },
        None => {
            proof {
                assert(i * TIGHTEN_FP > u64::MAX ==> lam + i * TIGHTEN_FP > LAMBDA_CAP);
            }
            LAMBDA_CAP
        },
    }
}

/// Computes `bits_for(capacity, lam)`.
pub fn bits_for_exec(capacity: u64, lam: u64) -> (r: u64)
    requires
        1 <= lam <= LAMBDA_CAP,
    ensures
        r == bits_for(capacity, lam),
        64 <= r <= BITS_CAP,
{
    proof {
        assert((capacity as int) * (lam as int) * (INV_LN2_FP as int)
            < 0xFFFF_FFFF_0000_0000_0000_0000_0000_0000) by (nonlinear_arith)
            requires
                capacity <= u64::MAX,
                lam <= LAMBDA_CAP,
        ;
    }
    let prod: u128 = (capacity as u128) * (lam as u128) * (INV_LN2_FP as u128);
    let m: u128 = (prod + 0xFFFF_FFFF) / 0x1_0000_0000;
    if m < 64 {
        64
    } else if m > BITS_CAP as u128 {
        BITS_CAP
    } else {
        m as u64
    }
}

/// Computes `hashes_for(lam)`.
pub fn hashes_for_exec(lam: u64) -> (r: u64)
    requires
        lam <= LAMBDA_CAP,
    ensures
        r == hashes_for(lam),
        1 <= r <= 201,
{
    let k = (lam + 32768) / 65536;
    if k < 1 {
        1
    } else {
        k
    }
}

/// Computes `word_count(num_bits)`.
pub fn word_count_exec(num_bits: u64) -> (r: u64)
    requires
        64 <= num_bits <= BITS_CAP,
    ensures
        r == word_count(num_bits),
        1 <= r <= 0x4000_0000,
        r * 64 >= num_bits,
{
    let r = (num_bits - 1) / 64 + 1;
    proof {
        assert(r * 64 >= num_bits) by (nonlinear_arith)
            requires
                r == (num_bits - 1) / 64 + 1,
                num_bits >= 1,
        ;
    }
    r
}

} // verus!
