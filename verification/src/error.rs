//! Errors raised while measuring performance.

use vstd::prelude::*;

verus! {

/// Why a decimal integer literal could not be read.
#[derive(Clone, Copy, Debug, PartialEq, Eq, Structural)]
pub enum IntErrorKind {
    /// The literal holds no digit.
    Empty,
    /// The literal holds a character that is no decimal digit.
    InvalidDigit,
    /// The number does not fit the target type.
    PosOverflow,
}

/// Failure of a performance computation.
#[derive(Clone, Copy, Debug, PartialEq, Eq, Structural)]
pub enum PerformanceError {
    /// A ratio or an annualized rate was divided by a zero magnitude.
    DivByZero,
    /// A fixed-point operation left the representable range.
    Overflow,
    /// A small integer literal, such as a token's decimals, is malformed.
    ParseIntError(IntErrorKind),
    /// An amount literal is malformed.
    ParseError(IntErrorKind),
}

} // verus!
