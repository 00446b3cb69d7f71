use crate::reader::Position;
use vstd::prelude::*;

verus! {

/// What a parser expected or rejected at the failure position.
#[derive(Clone, Copy, Debug, PartialEq, Eq, Structural)]
pub enum ErrorKind {
    /// An escape sequence must start with a backslash.
    ExpectingBackslash,
    /// The character after a backslash names no escape.
    InvalidEscape,
    /// A hexadecimal digit was required.
    InvalidHexDigit,
    /// The hexadecimal value is not a Unicode scalar value.
    InvalidUnicodeScalar,
    /// A `{` was required after `\u`.
    ExpectingOpenBrace,
    /// A `}` was required after the digits of a `\u{..}` escape.
    ExpectingCloseBrace,
    /// No acceptable character at this place.
    ExpectingChar,
    /// No literal text at this place.
    ExpectingString,
    /// No key text at this place.
    ExpectingKeyString,
    /// A `"` was required.
    ExpectingQuote,
    /// A quoted template lacks its closing `"`.
    UnterminatedQuotedLiteral,
    /// An interpolation must start with `{{`.
    ExpectingInterpolation,
    /// An interpolation names no variable.
    InvalidVariableName,
    /// An interpolation lacks its closing `}}`.
    UnterminatedInterpolation,
}

/// A failed parse. A recoverable failure tells the caller to try another
/// alternative and leaves the reader where it was; a fatal one ends the parse.
#[derive(Clone, Copy, Debug, PartialEq, Eq, Structural)]
pub struct ParseFailure {
    pub position: Position,
    pub recoverable: bool,
    pub kind: ErrorKind,
}

} // verus!
