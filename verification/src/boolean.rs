//! Boolean literals: `#t` and `#f`, and no other spelling.

use vstd::prelude::*;
use vstd::slice::slice_subrange;
use crate::chars::{begins_with, lemma_begins_with, starts_with};
use crate::error::{ErrorKind, LexError, Lexed, failure, within, yields};

verus! {

/// A boolean literal at the start of `s`.
pub open spec fn lex_boolean(s: Seq<u8>) -> Lexed<bool> {
    if begins_with(s, "#t"@) {
        Ok((true, 2))
    } else if begins_with(s, "#f"@) {
        Ok((false, 2))
    } else {
        Err(failure(ErrorKind::NoMatch, 0))
    }
}

/// Reads a boolean literal from the start of `input`.
pub fn boolean<'a>(input: &'a [u8]) -> (r: Result<(&'a [u8], bool), LexError>)
    ensures
        yields(input@, r, lex_boolean(input@)),
{
    proof {
        reveal_strlit("#t");
        reveal_strlit("#f");
    }
    if starts_with(input, "#t") {
        Ok((slice_subrange(input, 2, input.len()), true))
    } else if starts_with(input, "#f") {
        Ok((slice_subrange(input, 2, input.len()), false))
    } else {
        Err(LexError { kind: ErrorKind::NoMatch, position: 0 })
    }
}

/// A boolean literal, or the failure to read one, lies within the input.
pub proof fn lemma_lex_boolean_within(s: Seq<u8>)
    ensures
        within(lex_boolean(s), s.len()),
{
    reveal_strlit("#t");
    reveal_strlit("#f");
    lemma_begins_with(s, "#t"@);
    lemma_begins_with(s, "#f"@);
}

} // verus!
