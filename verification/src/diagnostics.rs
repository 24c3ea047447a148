//! Lexical diagnostics. The scanner never halts on a bad input: it records
//! one diagnostic per problem and keeps going, so a single pass can surface
//! several independent errors. The caller inspects the accumulated list
//! after scanning instead of reading ambient global state.

use vstd::prelude::*;

verus! {

/// What went wrong at one place in the source.
#[derive(Clone, Copy, PartialEq, Eq, Structural, Debug)]
pub enum LexErrorKind {
    /// A byte that starts no valid token; it is skipped and reported once.
    UnexpectedCharacter(u8),
    /// A `"` with no matching closing quote before end of input; the
    /// lexeme is abandoned and reported once.
    UnterminatedString,
}

/// One reported lexical error: its kind and the 1-based source line.
#[derive(Clone, Copy, PartialEq, Eq, Structural, Debug)]
pub struct LexError {
    pub kind: LexErrorKind,
    pub line: usize,
}

impl LexError {
    pub fn new(kind: LexErrorKind, line: usize) -> (e: LexError)
        ensures
            e == (LexError { kind, line }),
    {
        LexError { kind, line }
    }
}

} // verus!
