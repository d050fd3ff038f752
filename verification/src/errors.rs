//! The error taxonomy of the engine. Every failure a command handler can
//! report is one of these variants; the host-facing layer maps them to its
//! own wire representation.

use vstd::prelude::*;

verus! {

/// Errors reported synchronously by the command handlers.
#[derive(Clone, Copy, Debug, PartialEq, Eq, Structural)]
pub enum BloomError {
    /// The argument count violates the command's grammar.
    WrongArity,
    /// An unrecognized or misplaced keyword, or a keyword missing its value.
    SyntaxError,
    /// A false-positive rate outside the open interval `(0, 1)`, or one that
    /// does not parse as a decimal number.
    InvalidErrorRate,
    /// A capacity outside `(0, CAPACITY_BOUND)`, or one that does not parse.
    InvalidCapacity,
    /// An expansion outside `(0, EXPANSION_MAX]`, or one that does not parse.
    InvalidExpansion,
    /// A reserve against a key that already holds a filter.
    AlreadyExists,
    /// A query-style operation against an absent key.
    NotFound,
    /// An unknown info sub-field.
    InvalidInfoValue,
}

} // verus!
