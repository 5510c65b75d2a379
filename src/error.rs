//! What can go wrong while reading color markup.

use vstd::prelude::*;

verus! {

/// A grammar error found while scanning color markup.
///
/// Bracket errors carry the character index of the offending `[`; token errors
/// carry the offending token.
#[derive(Debug, PartialEq, Eq)]
pub enum ColorError {
    /// A mode expression is opened and never closed.
    UnmatchedBracket(usize),
    /// A `[` stands inside an open mode expression.
    NestedBracket(usize),
    /// A token matches no style, color or numeric code.
    UnknownModifier(String),
    /// A decimal color id with more than three digits.
    MalformedNumericCode(String),
    /// A `#` code that is not exactly six hex digits.
    MalformedHexCode(String),
    /// The text does not begin with a string literal.
    MissingLiteralDelimiter,
}

/// The mathematical value of a [`ColorError`].
pub enum ColorFault {
    UnmatchedBracket(nat),
    NestedBracket(nat),
    UnknownModifier(Seq<char>),
    MalformedNumericCode(Seq<char>),
    MalformedHexCode(Seq<char>),
    MissingLiteralDelimiter,
}

impl View for ColorError {
    type V = ColorFault;

    open spec fn view(&self) -> ColorFault {
        match self {
            ColorError::UnmatchedBracket(i) => ColorFault::UnmatchedBracket(*i as nat),
            ColorError::NestedBracket(i) => ColorFault::NestedBracket(*i as nat),
            ColorError::UnknownModifier(t) => ColorFault::UnknownModifier(t@),
            ColorError::MalformedNumericCode(t) => ColorFault::MalformedNumericCode(t@),
            ColorError::MalformedHexCode(t) => ColorFault::MalformedHexCode(t@),
            ColorError::MissingLiteralDelimiter => ColorFault::MissingLiteralDelimiter,
        }
    }
}

} // verus!
