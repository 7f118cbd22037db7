//! The typed errors of the tokeniser.

use vstd::prelude::*;

verus! {

/// Why an operation gave up.
#[derive(Debug, Clone, Copy, PartialEq, Eq, Structural)]
pub enum ErrorKind {
    /// An escape marker stands where a token would begin.
    EscapeAtTokenStart,
    /// The character after an escape marker is not in the escape table.
    UnknownEscapeSequence,
    /// A token begins with a bracket although standalone brackets are off.
    BracketAtStartNotAllowed,
    /// A bracket opens inside a plain token although prefixed brackets are off.
    BracketNotAllowedMidToken,
    /// A closing bracket stands where a token would begin.
    ClosingBracketAtTokenStart,
    /// A closing bracket inside a plain token, with no bracket open.
    ClosingBracketWithoutOpenBracket,
    /// A closed block is followed by something other than a delimiter.
    ExpectedTrailingDelimiterAfterBlock,
    /// The text is not enclosed by the quote character at both ends.
    StringNotFullyEnclosed,
    /// The bracket-begin character does not occur in the text.
    BracketNotFound,
}

/// An error together with the character that caused it and the index of that
/// character, counted in characters from the start of the scanned text.
#[derive(Debug, Clone, Copy, PartialEq, Eq, Structural)]
pub struct TokenError {
    pub kind: ErrorKind,
    pub ch: char,
    pub pos: usize,
}

} // verus!
