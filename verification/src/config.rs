//! Process-wide tunables for filter creation: hard bounds on the accepted
//! capacity and expansion parameters, and the defaults consulted when a
//! command omits a parameter.

use vstd::prelude::*;

verus! {

/// Exclusive upper bound on a filter layer's configured item capacity:
/// a capacity `c` is valid iff `0 < c < CAPACITY_BOUND`.
pub const CAPACITY_BOUND: u32 = 4294967295;

/// Inclusive upper bound on the expansion factor: an expansion `e` given
/// explicitly is valid iff `0 < e <= EXPANSION_MAX`.
pub const EXPANSION_MAX: u32 = 10;

/// Expansion value that marks a non-scaling filter: once its single layer
/// is full, adds of new items fail instead of growing the filter.
pub const NONSCALING: u32 = 0;

/// Defaults consulted only when a command omits a parameter; read, never
/// written, by the engine.
pub struct Config {
    /// Capacity of the first layer of a filter created without an explicit
    /// capacity.
    pub default_capacity: u32,
    /// Expansion factor of a filter created without an explicit expansion
    /// (`0` means non-scaling).
    pub default_expansion: u32,
}

impl Config {
    /// The defaults are subject to the same bounds as explicit parameters.
    pub open spec fn wf(self) -> bool {
        &&& 0 < self.default_capacity < CAPACITY_BOUND
        &&& self.default_expansion <= EXPANSION_MAX
    }
}

impl Default for Config {
    fn default() -> (c: Config)
        ensures
            c.wf(),
            c.default_capacity == 100000,
            c.default_expansion == 2,
    {
        Config { default_capacity: 100000, default_expansion: 2 }
    }
}

} // verus!
