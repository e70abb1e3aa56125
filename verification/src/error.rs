//! Failures of a token attempt, and the way a recognizer's result is held
//! against what the grammar prescribes.

use vstd::prelude::*;

verus! {

/// The part of a literal that was expected and not found.
#[derive(Clone, Copy, Debug, PartialEq, Eq, Structural)]
pub enum Construct {
    /// One or more digits of the literal's radix.
    Digits,
    /// The character after the marker `#\`.
    Character,
    /// One of `\`, `"`, `n`, `r`, `t` after a backslash in a string.
    Escape,
    /// The `"` that closes a string.
    ClosingQuote,
}

/// The nature of a failure.
#[derive(Clone, Copy, Debug, PartialEq, Eq, Structural)]
pub enum ErrorKind {
    /// The input opens a literal whose body is absent or invalid.
    Malformed(Construct),
    /// The digits are well formed and their value is outside the signed
    /// 64-bit range.
    Overflow,
    /// No production matches at the start of the input.
    NoMatch,
}

/// A failed attempt: what went wrong, and at which offset from the start of
/// the input that was handed to the recognizer.
#[derive(Clone, Copy, Debug, PartialEq, Eq, Structural)]
pub struct LexError {
    pub kind: ErrorKind,
    pub position: usize,
}

/// The failure of the given kind at the given offset.
pub open spec fn failure(kind: ErrorKind, position: int) -> LexError {
    LexError { kind, position: position as usize }
}

/// What the grammar prescribes for an input: a value and the number of bytes
/// that its lexeme takes, or a failure.
pub type Lexed<T> = Result<(T, int), LexError>;

/// The outcome `g` of a recognizer that ran after `k` bytes had been consumed:
/// lengths and positions count from the earlier start.
pub open spec fn after<T>(k: int, g: Lexed<T>) -> Lexed<T> {
    match g {
        Ok((v, n)) => Ok((v, n + k)),
        Err(e) => Err(failure(e.kind, e.position + k)),
    }
}

/// The outcome `g` concerns a sequence of `len` bytes: a lexeme of at least
/// one byte and at most `len`, or a failure at an offset of at most `len`.
pub open spec fn within<T>(g: Lexed<T>, len: nat) -> bool {
    match g {
        Ok((_, n)) => 0 < n <= len,
        Err(e) => e.position <= len,
    }
}

/// The result `r` of a recognizer on `input` is the outcome `g`, which lies
/// within the input: on success the same value, and as remainder exactly the
/// input after the lexeme; on failure the same error.
pub open spec fn yields<T>(input: Seq<u8>, r: Result<(&[u8], T), LexError>, g: Lexed<T>) -> bool {
    within(g, input.len()) && match (r, g) {
        (Ok((rest, v)), Ok((gv, n))) => v == gv && rest@ == input.skip(n),
        (Err(e), Err(ge)) => e == ge,
        _ => false,
    }
}

/// As [`yields`], for a value that is compared by its view.
pub open spec fn yields_view<T: View>(
    input: Seq<u8>,
    r: Result<(&[u8], T), LexError>,
    g: Lexed<T::V>,
) -> bool {
    within(g, input.len()) && match (r, g) {
        (Ok((rest, v)), Ok((gv, n))) => v@ == gv && rest@ == input.skip(n),
        (Err(e), Err(ge)) => e == ge,
        _ => false,
    }
}

} // verus!
