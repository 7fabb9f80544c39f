//! The typed failure that every parser of this library reports.

use vstd::prelude::*;

verus! {

/// Why a text was refused.
#[derive(Clone, Copy, Debug, PartialEq, Eq, Structural)]
pub enum ParseErrorKind {
    /// The text does not have the shape that the grammar asks for.
    Syntax,
    /// The shape is right, but a number in it does not fit 32 bits.
    NumberOutOfRange,
    /// A requirement does not start with a comparison operator.
    UnknownOperator,
}

/// A refused text, with the reason.
#[derive(Clone, Debug, PartialEq, Eq)]
pub struct ParseError {
    pub kind: ParseErrorKind,
    pub input: String,
}

/// A requirement could not be evaluated: the compatible-release operator
/// `~=` is not supported.
#[derive(Clone, Copy, Debug, PartialEq, Eq, Structural)]
pub struct UnsupportedOperator;

} // verus!
