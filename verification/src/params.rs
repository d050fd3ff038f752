//! The parameter validator: parses and bounds-checks the user-supplied
//! false-positive rate, capacity and expansion tokens. Pure functions of
//! their inputs; defaults for omitted parameters are the caller's concern.

use vstd::prelude::*;
use crate::config::{CAPACITY_BOUND, EXPANSION_MAX};
use crate::errors::BloomError;
use crate::sizing::POW_CAP;

verus! {

pub open spec fn pow10(n: nat) -> nat
    decreases n,
{
    if n == 0 {
        1
    } else {
        10 * pow10((n - 1) as nat)
    }
}

/// A validated false-positive rate `num / 10^pow`, guaranteed to lie in
/// the open interval `(0, 1)`.
#[derive(Clone, Copy, Debug, PartialEq, Eq, Structural)]
pub struct FpRate {
    pub num: u64,
    pub pow: u32,
}

impl FpRate {
    /// `num >= 1` makes the rate positive; `num < 10^pow` makes it less
    /// than one (`pow >= 19` implies that, as `num` never exceeds 18
    /// digits).
    pub open spec fn wf(self) -> bool {
        &&& 1 <= self.num < 0x1000_0000_0000_0000
        &&& 1 <= self.pow <= POW_CAP
        &&& (self.pow >= 19 || (self.num as nat) < pow10(self.pow as nat))
    }
}

} // verus!
