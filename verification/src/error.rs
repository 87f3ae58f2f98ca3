//! The errors the crate's functions report.

use vstd::prelude::*;

verus! {

/// Why a date string could not be parsed.
#[derive(Debug, Clone, Copy, PartialEq, Eq, Structural)]
pub enum ParseError {
    /// After stripping separators the text does not hold 4, 6 or 8 digits.
    InvalidLength,
    /// The digits do not form a valid calendar date.
    InvalidDate,
}

/// Why an offset could not be applied to a date.
#[derive(Debug, Clone, Copy, PartialEq, Eq, Structural)]
pub enum ArithmeticError {
    /// The resulting date would fall outside the representable calendar range.
    OutOfRange,
}

} // verus!
