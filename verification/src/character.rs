//! Character literals: the marker `#\`, then one of the names `space` and
//! `newline`, or any one character.
//!
//! The input is a sequence of bytes, and text in it is UTF-8. The one
//! character after the marker is the scalar value that the next bytes
//! encode. A byte that starts no valid encoding does not fail the literal:
//! it is taken alone, as the character with the byte's number.

use vstd::prelude::*;
use vstd::slice::slice_subrange;
use vstd::utf8::{
    decode_first_scalar, is_continuation_byte, is_scalar, length_of_first_scalar,
    valid_first_scalar,
};
use crate::chars::{begins_with, lemma_begins_with, starts_with};
use crate::error::{Construct, ErrorKind, LexError, Lexed, failure, within, yields};

verus! {

/// The single character at the start of `s`, with the number of bytes that
/// it takes, if `s` is not empty.
pub open spec fn any_character(s: Seq<u8>) -> Option<(char, int)> {
    if valid_first_scalar(s) {
        Some((decode_first_scalar(s) as char, length_of_first_scalar(s)))
    } else if s.len() > 0 {
        Some((s[0] as char, 1))
    } else {
        None
    }
}

/// A character literal at the start of `s`. The names come before the single
/// character, so that `#\space` is the space and not the letter `s`.
pub open spec fn lex_character(s: Seq<u8>) -> Lexed<char> {
    let body = s.skip(2);
    if !begins_with(s, "#\\"@) {
        Err(failure(ErrorKind::NoMatch, 0))
    } else if begins_with(body, "space"@) {
        Ok((' ', 7))
    } else if begins_with(body, "newline"@) {
        Ok(('\n', 9))
    } else {
        match any_character(body) {
            Some((c, n)) => Ok((c, n + 2)),
            None => Err(failure(ErrorKind::Malformed(Construct::Character), 2)),
        }
    }
}

/// Calls `nom::anychar`, which takes one element from the start of its
/// input. The claim, for a byte slice: the result is the remainder after the
/// first byte and that byte as the character with its number; on an empty
/// slice there is no result.
#[verifier::external_body]
fn nom_anychar<'a>(input: &'a [u8]) -> (r: Option<(&'a [u8], char)>)
    ensures
        match r {
            Some((rest, c)) => input@.len() > 0 && c == input@[0] as char && rest@ == input@.skip(
                1,
            ),
            None => input@.len() == 0,
        },
{
    match nom::anychar(input) {
        nom::IResult::Done(rest, c) => Some((rest, c)),
        nom::IResult::Error(_) => None,
        nom::IResult::Incomplete(_) => None,
    }
}

/// Calls `char::from_u32`. The claim: a Unicode scalar value gives the
/// character with that number, and any other number gives nothing.
#[verifier::external_body]
fn scalar_char(v: u32) -> (r: Option<char>)
    ensures
        is_scalar(v) ==> r == Some(v as char),
        !is_scalar(v) ==> r is None,
{
    char::from_u32(v)
}

/// Whether `b` can follow the leading byte of a UTF-8 encoding.
fn is_continuation(b: u8) -> (r: bool)
    ensures
        r == is_continuation_byte(b),
{
    0x80 <= b && b <= 0xbf
}

/// The scalar value that the first bytes of `bytes` encode in UTF-8, with
/// the number of those bytes, or `None` where `bytes` starts with no valid
/// encoding.
pub fn first_scalar(bytes: &[u8]) -> (r: Option<(char, usize)>)
    ensures
        match r {
            Some((c, n)) => valid_first_scalar(bytes@) && c == decode_first_scalar(bytes@) as char
                && n == length_of_first_scalar(bytes@),
            None => !valid_first_scalar(bytes@),
        },
{
    if bytes.len() == 0 {
        return None;
    }
    let b0 = bytes[0];
    if b0 <= 0x7f {
        let code = (b0 & 0x7f) as u32;
        assert(b0 & 0x7f <= 0x7f) by (bit_vector);
        match scalar_char(code) {
            Some(c) => Some((c, 1)),
            None => None,
        }
    } else if 0xc0 <= b0 && b0 <= 0xdf {
        if bytes.len() < 2 || !is_continuation(bytes[1]) {
            return None;
        }
        let b1 = bytes[1];
        let code = (((b0 & 0x1f) as u32) << 6) | ((b1 & 0x3f) as u32);
        assert((((b0 & 0x1f) as u32) << 6) | ((b1 & 0x3f) as u32) <= 0x7ff) by (bit_vector);
        if code < 0x80 {
            return None;
        }
        match scalar_char(code) {
            Some(c) => Some((c, 2)),
            None => None,
        }
    } else if 0xe0 <= b0 && b0 <= 0xef {
        if bytes.len() < 3 || !is_continuation(bytes[1]) || !is_continuation(bytes[2]) {
            return None;
        }
        let b1 = bytes[1];
        let b2 = bytes[2];
        let code = (((b0 & 0x0f) as u32) << 12) | (((b1 & 0x3f) as u32) << 6) | ((b2 & 0x3f) as u32);
        assert((((b0 & 0x0f) as u32) << 12) | (((b1 & 0x3f) as u32) << 6) | ((b2 & 0x3f) as u32)
            <= 0xffff) by (bit_vector);
        if code < 0x800 || (0xd800 <= code && code <= 0xdfff) {
            return None;
        }
        match scalar_char(code) {
            Some(c) => Some((c, 3)),
            None => None,
        }
    } else if 0xf0 <= b0 && b0 <= 0xf7 {
        if bytes.len() < 4 || !is_continuation(bytes[1]) || !is_continuation(bytes[2])
            || !is_continuation(bytes[3]) {
            return None;
        }
        let b1 = bytes[1];
        let b2 = bytes[2];
        let b3 = bytes[3];
        let code = (((b0 & 0x07) as u32) << 18) | (((b1 & 0x3f) as u32) << 12) | (((b2
            & 0x3f) as u32) << 6) | ((b3 & 0x3f) as u32);
        if code < 0x10000 || code > 0x10ffff {
            return None;
        }
        match scalar_char(code) {
            Some(c) => Some((c, 4)),
            None => None,
        }
    } else {
        None
    }
}

/// Reads a single character from the start of `input`.
pub fn anychar<'a>(input: &'a [u8]) -> (r: Option<(&'a [u8], char)>)
    ensures
        match r {
            Some((rest, c)) => any_character(input@) matches Some((gc, n)) && c == gc && rest@
                == input@.skip(n),
            None => any_character(input@) is None,
        },
{
    match first_scalar(input) {
        Some((c, n)) => Some((slice_subrange(input, n, input.len()), c)),
        None => nom_anychar(input),
    }
}

/// Reads a character literal from the start of `input`.
pub fn character<'a>(input: &'a [u8]) -> (r: Result<(&'a [u8], char), LexError>)
    ensures
        yields(input@, r, lex_character(input@)),
{
    proof {
        reveal_strlit("#\\");
        reveal_strlit("space");
        reveal_strlit("newline");
    }
    if !starts_with(input, "#\\") {
        return Err(LexError { kind: ErrorKind::NoMatch, position: 0 });
    }
    let body = slice_subrange(input, 2, input.len());
    if starts_with(body, "space") {
        Ok((slice_subrange(input, 7, input.len()), ' '))
    } else if starts_with(body, "newline") {
        Ok((slice_subrange(input, 9, input.len()), '\n'))
    } else {
        match anychar(body) {
            Some((rest, c)) => {
                assert(rest@ == input@.skip(lex_character(input@)->Ok_0.1));
                Ok((rest, c))
            },
            None => Err(LexError { kind: ErrorKind::Malformed(Construct::Character), position: 2 }),
        }
    }
}

/// A character literal, or the failure to read one, lies within the input.
pub proof fn lemma_lex_character_within(s: Seq<u8>)
    ensures
        within(lex_character(s), s.len()),
{
    reveal_strlit("#\\");
    reveal_strlit("space");
    reveal_strlit("newline");
    lemma_begins_with(s, "#\\"@);
    lemma_begins_with(s.skip(2), "space"@);
    lemma_begins_with(s.skip(2), "newline"@);
}

} // verus!
