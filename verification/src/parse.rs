//! Byte-level parsing of command tokens: unsigned integers, decimal
//! false-positive rates, and ASCII-case-insensitive keywords.

use vstd::prelude::*;
use crate::config::{CAPACITY_BOUND, EXPANSION_MAX};
use crate::errors::BloomError;
use crate::params::{pow10, FpRate};
use crate::sizing::POW_CAP;

verus! {

pub open spec fn is_digit(b: u8) -> bool {
    48 <= b <= 57
}

/// ASCII upper-casing of one byte.
pub open spec fn up(b: u8) -> u8 {
    if 97 <= b <= 122 {
        (b - 32) as u8
    } else {
        b
    }
}

/// Unsigned-integer scan from index `i` with accumulator `acc`: every
/// remaining byte must be a digit and the value must fit in 64 bits.
pub open spec fn uint_scan(s: Seq<u8>, i: int, acc: u64) -> Option<u64>
    decreases s.len() - i,
{
    if i < 0 || i >= s.len() {
        Some(acc)
    } else if !is_digit(s[i]) {
        None
    } else if acc * 10 + (s[i] - 48) > u64::MAX {
        None
    } else {
        uint_scan(s, i + 1, (acc * 10 + (s[i] - 48)) as u64)
    }
}

/// How a token parses as an unsigned integer: an optional leading `+`,
/// then at least one digit, no overflow.
pub open spec fn uint_parse(s: Seq<u8>) -> Option<u64> {
    if s.len() == 0 {
        None
    } else if s[0] == 43 {
        if s.len() == 1 {
            None
        } else {
            uint_scan(s, 1, 0)
        }
    } else {
        uint_scan(s, 0, 0)
    }
}

/// Parses a token as an unsigned 64-bit integer.
pub fn parse_u64(t: &[u8]) -> (r: Option<u64>)
    ensures
        r == uint_parse(t@),
{
    if t.len() == 0 {
        return None;
    }
    let start: usize = if t[0] == 43 {
        1
    } else {
        0
    };
    if start == 1 && t.len() == 1 {
        return None;
    }
    let mut acc: u64 = 0;
    let mut i: usize = start;
    while i < t.len()
        invariant
            start <= i <= t.len(),
            uint_parse(t@) == uint_scan(t@, i as int, acc),
        decreases t.len() - i,
    {
        let b = t[i];
        if !(48 <= b && b <= 57) {
            return None;
        }
        let d = (b - 48) as u64;
        let next = match acc.checked_mul(10) {
            Some(m) => m.checked_add(d),
            None => None,
        };
        match next {
            Some(v) => {
                acc = v;
            },
            None => {
                proof {
                    assert(acc * 10 + (t@[i as int] - 48) > u64::MAX);
                }
                return None;
            },
        }
        i = i + 1;
    }
    Some(acc)
}

/// Validates a capacity token: an unsigned integer in `(0, CAPACITY_BOUND)`.
pub fn validate_capacity(t: &[u8]) -> (r: Result<u32, BloomError>)
    ensures
        match uint_parse(t@) {
            Some(v) => if 0 < v < CAPACITY_BOUND as u64 {
                r == Ok::<u32, BloomError>(v as u32)
            } else {
                r == Err::<u32, BloomError>(BloomError::InvalidCapacity)
            },
            None => r == Err::<u32, BloomError>(BloomError::InvalidCapacity),
        },
{
    match parse_u64(t) {
        Some(v) => if 0 < v && v < CAPACITY_BOUND as u64 {
            Ok(v as u32)
        } else {
            Err(BloomError::InvalidCapacity)
        },
        None => Err(BloomError::InvalidCapacity),
    }
}

/// Validates an expansion token: an unsigned integer in `(0, EXPANSION_MAX]`.
pub fn validate_expansion(t: &[u8]) -> (r: Result<u32, BloomError>)
    ensures
        match uint_parse(t@) {
            Some(v) => if 0 < v <= EXPANSION_MAX as u64 {
                r == Ok::<u32, BloomError>(v as u32)
            } else {
                r == Err::<u32, BloomError>(BloomError::InvalidExpansion)
            },
            None => r == Err::<u32, BloomError>(BloomError::InvalidExpansion),
        },
{
    match parse_u64(t) {
        Some(v) => if 0 < v && v <= EXPANSION_MAX as u64 {
            Ok(v as u32)
        } else {
            Err(BloomError::InvalidExpansion)
        },
        None => Err(BloomError::InvalidExpansion),
    }
}

/// Mantissa scan of a decimal token from index `i`: digits with at most
/// one dot, stopping at `e`/`E` or the end. Yields the mantissa truncated
/// to 18 significant digits, the decimal exponent adjustment `pow` (the
/// value read so far is `num * 10^-pow`), the digit count, and the stop
/// index.
pub open spec fn scan_mant(
    s: Seq<u8>,
    i: int,
    num: u64,
    pow: int,
    seen_dot: bool,
    digits: nat,
) -> Option<(u64, int, nat, int)>
    decreases s.len() - i,
{
    if i < 0 || i >= s.len() {
        Some((num, pow, digits, i))
    } else if s[i] == 101 || s[i] == 69 {
        Some((num, pow, digits, i))
    } else if s[i] == 46 {
        if seen_dot {
            None
        } else {
            scan_mant(s, i + 1, num, pow, true, digits)
        }
    } else if is_digit(s[i]) {
        if num < 100000000000000000 {
            scan_mant(
                s,
                i + 1,
                (num * 10 + (s[i] - 48)) as u64,
                if seen_dot {
                    pow + 1
                } else {
                    pow
                },
                seen_dot,
                digits + 1,
            )
        } else {
            scan_mant(
                s,
                i + 1,
                num,
                if seen_dot {
                    pow
                } else {
                    pow - 1
                },
                seen_dot,
                digits + 1,
            )
        }
    } else {
        None
    }
}

/// Exponent-digit scan: every remaining byte must be a digit; the value
/// saturates once it is already far beyond any accepted exponent.
pub open spec fn scan_exp(s: Seq<u8>, i: int, acc: int, digits: nat) -> Option<(int, nat)>
    decreases s.len() - i,
{
    if i < 0 || i >= s.len() {
        Some((acc, digits))
    } else if !is_digit(s[i]) {
        None
    } else {
        scan_exp(
            s,
            i + 1,
            if acc < 10000000 {
                acc * 10 + (s[i] - 48)
            } else {
                acc
            },
            digits + 1,
        )
    }
}

/// Final validation of a scanned rate `num * 10^-pow`: it must be positive
/// (some nonzero digit), below one, and not beyond the exponent cap.
pub open spec fn fp_finish(neg: bool, num: u64, pow: int) -> Option<(u64, u32)> {
    if neg {
        None
    } else if num == 0 {
        None
    } else if pow < 1 {
        None
    } else if pow > POW_CAP {
        None
    } else if pow <= 18 && num >= pow10(pow as nat) {
        None
    } else {
        Some((num, pow as u32))
    }
}

/// How a token parses as a false-positive rate in the open interval
/// `(0, 1)`: an optional sign, a decimal mantissa, an optional exponent.
pub open spec fn fp_parse(s: Seq<u8>) -> Option<(u64, u32)> {
    let neg = s.len() > 0 && s[0] == 45;
    let start: int = if s.len() > 0 && (s[0] == 43 || s[0] == 45) {
        1
    } else {
        0
    };
    match scan_mant(s, start, 0, 0, false, 0) {
        None => None,
        Some((num, pow, digits, j)) => if digits == 0 {
            None
        } else if j == s.len() {
            fp_finish(neg, num, pow)
        } else {
            let eneg = j + 1 < s.len() && s[j + 1] == 45;
            let estart: int = if j + 1 < s.len() && (s[j + 1] == 43 || s[j + 1] == 45) {
                j + 2
            } else {
                j + 1
            };
            match scan_exp(s, estart, 0, 0) {
                None => None,
                Some((e, edigits)) => if edigits == 0 {
                    None
                } else {
                    fp_finish(neg, num, if eneg {
                        pow + e
                    } else {
                        pow - e
                    })
                },
            }
        },
    }
}

/// `10^n` for `n <= 18`.
pub fn pow10_exec(n: u32) -> (r: u64)
    requires
        n <= 18,
    ensures
        r == pow10(n as nat),
{
    let mut r: u64 = 1;
    let mut i: u32 = 0;
    while i < n
        invariant
            i <= n <= 18,
            r == pow10(i as nat),
        decreases n - i,
    {
        proof {
            lemma_pow10_bound(i as nat);
        }
        r = r * 10;
        i = i + 1;
    }
    r
}

proof fn lemma_pow10_pos(n: nat)
    ensures
        pow10(n) >= 1,
    decreases n,
{
    if n > 0 {
        lemma_pow10_pos((n - 1) as nat);
    }
}

proof fn lemma_pow10_mono(a: nat, b: nat)
    requires
        a <= b,
    ensures
        pow10(a) <= pow10(b),
    decreases b,
{
    if a < b {
        lemma_pow10_mono(a, (b - 1) as nat);
        lemma_pow10_pos((b - 1) as nat);
    }
}

/// `10^n <= 10^17` for `n <= 17`.
proof fn lemma_pow10_bound(n: nat)
    requires
        n <= 17,
    ensures
        pow10(n) <= 100000000000000000,
{
    lemma_pow10_mono(n, 17);
    reveal_with_fuel(pow10, 18);
    assert(pow10(17) == 100000000000000000);
}

/// Whether the token spells `NONSCALING`, ASCII-case-insensitively.
pub open spec fn is_nonscaling_kw(t: Seq<u8>) -> bool {
    t.len() == 10 && up(t[0]) == 78 && up(t[1]) == 79 && up(t[2]) == 78 && up(t[3]) == 83 && up(
        t[4],
    ) == 67 && up(t[5]) == 65 && up(t[6]) == 76 && up(t[7]) == 73 && up(t[8]) == 78 && up(t[9])
        == 71
}

/// Whether the token spells `EXPANSION`, ASCII-case-insensitively.
pub open spec fn is_expansion_kw(t: Seq<u8>) -> bool {
    t.len() == 9 && up(t[0]) == 69 && up(t[1]) == 88 && up(t[2]) == 80 && up(t[3]) == 65 && up(
        t[4],
    ) == 78 && up(t[5]) == 83 && up(t[6]) == 73 && up(t[7]) == 79 && up(t[8]) == 78
}

/// Whether the token spells `ERROR`, ASCII-case-insensitively.
pub open spec fn is_error_kw(t: Seq<u8>) -> bool {
    t.len() == 5 && up(t[0]) == 69 && up(t[1]) == 82 && up(t[2]) == 82 && up(t[3]) == 79 && up(
        t[4],
    ) == 82
}

/// Whether the token spells `CAPACITY`, ASCII-case-insensitively.
pub open spec fn is_capacity_kw(t: Seq<u8>) -> bool {
    t.len() == 8 && up(t[0]) == 67 && up(t[1]) == 65 && up(t[2]) == 80 && up(t[3]) == 65 && up(
        t[4],
    ) == 67 && up(t[5]) == 73 && up(t[6]) == 84 && up(t[7]) == 89
}

/// Whether the token spells `NOCREATE`, ASCII-case-insensitively.
pub open spec fn is_nocreate_kw(t: Seq<u8>) -> bool {
    t.len() == 8 && up(t[0]) == 78 && up(t[1]) == 79 && up(t[2]) == 67 && up(t[3]) == 82 && up(
        t[4],
    ) == 69 && up(t[5]) == 65 && up(t[6]) == 84 && up(t[7]) == 69
}

/// Whether the token spells `ITEMS`, ASCII-case-insensitively.
pub open spec fn is_items_kw(t: Seq<u8>) -> bool {
    t.len() == 5 && up(t[0]) == 73 && up(t[1]) == 84 && up(t[2]) == 69 && up(t[3]) == 77 && up(
        t[4],
    ) == 83
}

/// Whether the token spells `SIZE`, ASCII-case-insensitively.
pub open spec fn is_size_kw(t: Seq<u8>) -> bool {
    t.len() == 4 && up(t[0]) == 83 && up(t[1]) == 73 && up(t[2]) == 90 && up(t[3]) == 69
}

/// Whether the token spells `FILTERS`, ASCII-case-insensitively.
pub open spec fn is_filters_kw(t: Seq<u8>) -> bool {
    t.len() == 7 && up(t[0]) == 70 && up(t[1]) == 73 && up(t[2]) == 76 && up(t[3]) == 84 && up(
        t[4],
    ) == 69 && up(t[5]) == 82 && up(t[6]) == 83
}

/// ASCII upper-casing of one byte.
pub fn upb(b: u8) -> (r: u8)
    ensures
        r == up(b),
{
    if 97 <= b && b <= 122 {
        b - 32
    } else {
        b
    }
}

pub fn kw_nonscaling(t: &[u8]) -> (r: bool)
    ensures
        r == is_nonscaling_kw(t@),
{
    t.len() == 10 && upb(t[0]) == 78 && upb(t[1]) == 79 && upb(t[2]) == 78 && upb(t[3]) == 83
        && upb(t[4]) == 67 && upb(t[5]) == 65 && upb(t[6]) == 76 && upb(t[7]) == 73 && upb(t[8])
        == 78 && upb(t[9]) == 71
}

pub fn kw_expansion(t: &[u8]) -> (r: bool)
    ensures
        r == is_expansion_kw(t@),
{
    t.len() == 9 && upb(t[0]) == 69 && upb(t[1]) == 88 && upb(t[2]) == 80 && upb(t[3]) == 65
        && upb(t[4]) == 78 && upb(t[5]) == 83 && upb(t[6]) == 73 && upb(t[7]) == 79 && upb(t[8])
        == 78
}

pub fn kw_error(t: &[u8]) -> (r: bool)
    ensures
        r == is_error_kw(t@),
{
    t.len() == 5 && upb(t[0]) == 69 && upb(t[1]) == 82 && upb(t[2]) == 82 && upb(t[3]) == 79
        && upb(t[4]) == 82
}

pub fn kw_capacity(t: &[u8]) -> (r: bool)
    ensures
        r == is_capacity_kw(t@),
{
    t.len() == 8 && upb(t[0]) == 67 && upb(t[1]) == 65 && upb(t[2]) == 80 && upb(t[3]) == 65
        && upb(t[4]) == 67 && upb(t[5]) == 73 && upb(t[6]) == 84 && upb(t[7]) == 89
}

pub fn kw_nocreate(t: &[u8]) -> (r: bool)
    ensures
        r == is_nocreate_kw(t@),
{
    t.len() == 8 && upb(t[0]) == 78 && upb(t[1]) == 79 && upb(t[2]) == 67 && upb(t[3]) == 82
        && upb(t[4]) == 69 && upb(t[5]) == 65 && upb(t[6]) == 84 && upb(t[7]) == 69
}

pub fn kw_items(t: &[u8]) -> (r: bool)
    ensures
        r == is_items_kw(t@),
{
    t.len() == 5 && upb(t[0]) == 73 && upb(t[1]) == 84 && upb(t[2]) == 69 && upb(t[3]) == 77
        && upb(t[4]) == 83
}

pub fn kw_size(t: &[u8]) -> (r: bool)
    ensures
        r == is_size_kw(t@),
{
    t.len() == 4 && upb(t[0]) == 83 && upb(t[1]) == 73 && upb(t[2]) == 90 && upb(t[3]) == 69
}

pub fn kw_filters(t: &[u8]) -> (r: bool)
    ensures
        r == is_filters_kw(t@),
{
    t.len() == 7 && upb(t[0]) == 70 && upb(t[1]) == 73 && upb(t[2]) == 76 && upb(t[3]) == 84
        && upb(t[4]) == 69 && upb(t[5]) == 82 && upb(t[6]) == 83
}

/// The default false-positive rate `0.001` used when a command omits one.
pub fn default_fp_rate() -> (fp: FpRate)
    ensures
        fp == (FpRate { num: 1u64, pow: 3u32 }),
        fp.wf(),
{
    proof {
        reveal_with_fuel(pow10, 5);
        assert(pow10(3) == 1000);
    }
    FpRate { num: 1, pow: 3 }
}

/// Parses and validates a false-positive-rate token.
#[verifier::loop_isolation(false)]
pub fn parse_fp_rate(t: &[u8]) -> (r: Result<FpRate, BloomError>)
    ensures
        match fp_parse(t@) {
            Some(np) => r == Ok::<FpRate, BloomError>(FpRate { num: np.0, pow: np.1 }),
            None => r == Err::<FpRate, BloomError>(BloomError::InvalidErrorRate),
        },
        r matches Ok(fp) ==> fp.wf(),
{
    let neg = t.len() > 0 && t[0] == 45;
    let start: usize = if t.len() > 0 && (t[0] == 43 || t[0] == 45) {
        1
    } else {
        0
    };
    let mut num: u64 = 0;
    let mut pow: i128 = 0;
    let mut seen_dot: bool = false;
    let mut digits: u64 = 0;
    let mut i: usize = start;
    while i < t.len() && t[i] != 101 && t[i] != 69
        invariant
            start <= i <= t.len(),
            num < 1000000000000000000,
            -(i as int) <= pow <= i as int,
            digits <= i,
            scan_mant(t@, start as int, 0, 0, false, 0) == scan_mant(
                t@,
                i as int,
                num,
                pow as int,
                seen_dot,
                digits as nat,
            ),
        decreases t.len() - i,
    {
        let b = t[i];
        if b == 46 {
            if seen_dot {
                return Err(BloomError::InvalidErrorRate);
            }
            seen_dot = true;
        } else if 48 <= b && b <= 57 {
            if num < 100000000000000000 {
                num = num * 10 + ((b - 48) as u64);
                if seen_dot {
                    pow = pow + 1;
                }
            } else {
                if !seen_dot {
                    pow = pow - 1;
                }
            }
            digits = digits + 1;
        } else {
            return Err(BloomError::InvalidErrorRate);
        }
        i = i + 1;
    }
    // `i` now sits at the exponent marker or at the end of the token.
    if digits == 0 {
        return Err(BloomError::InvalidErrorRate);
    }
    let pow_final: i128 = if i == t.len() {
        pow
    } else {
        let eneg = i + 1 < t.len() && t[i + 1] == 45;
        let estart: usize = if i + 1 < t.len() && (t[i + 1] == 43 || t[i + 1] == 45) {
            i + 2
        } else {
            i + 1
        };
        let mut acc: u64 = 0;
        let mut edigits: u64 = 0;
        let mut j: usize = estart;
        while j < t.len()
            invariant
                estart <= j <= t.len(),
                acc <= 100000009,
                edigits <= j,
                scan_exp(t@, estart as int, 0, 0) == scan_exp(
                    t@,
                    j as int,
                    acc as int,
                    edigits as nat,
                ),
            decreases t.len() - j,
        {
            let b = t[j];
            if !(48 <= b && b <= 57) {
                return Err(BloomError::InvalidErrorRate);
            }
            if acc < 10000000 {
                acc = acc * 10 + ((b - 48) as u64);
            }
            edigits = edigits + 1;
            j = j + 1;
        }
        if edigits == 0 {
            return Err(BloomError::InvalidErrorRate);
        }
        if eneg {
            pow + acc as i128
        } else {
            pow - acc as i128
        }
    };
    if neg {
        return Err(BloomError::InvalidErrorRate);
    }
    if num == 0 {
        return Err(BloomError::InvalidErrorRate);
    }
    if pow_final < 1 {
        return Err(BloomError::InvalidErrorRate);
    }
    if pow_final > POW_CAP as i128 {
        return Err(BloomError::InvalidErrorRate);
    }
    let powu = pow_final as u32;
    if powu <= 18 {
        let bound = pow10_exec(powu);
        if num >= bound {
            return Err(BloomError::InvalidErrorRate);
        }
    }
    proof {
        if powu >= 19 {
        } else {
            assert((num as nat) < pow10(powu as nat));
        }
    }
    Ok(FpRate { num, pow: powu })
}

} // verus!
