//! String literals: a run between two `"` in which a backslash introduces
//! one of five escapes, decoded to text.
//!
//! The decoded bytes become text as UTF-8. Bytes that are no valid UTF-8 do
//! not fail the literal: each invalid sequence is replaced by U+FFFD.

use vstd::prelude::*;
use vstd::slice::slice_subrange;
use vstd::utf8::{decode_utf8, valid_utf8};
use crate::chars::{begins_with, lemma_begins_with, starts_with};
use crate::error::{Construct, ErrorKind, LexError, Lexed, failure, within, yields_view};

verus! {

/// The byte that an escape stands for, by the byte after the backslash.
pub open spec fn escape_of(c: u8) -> Option<u8> {
    if c == ('\\' as u8) {
        Some('\\' as u8)
    } else if c == ('"' as u8) {
        Some('"' as u8)
    } else if c == ('n' as u8) {
        Some('\n' as u8)
    } else if c == ('r' as u8) {
        Some('\r' as u8)
    } else if c == ('t' as u8) {
        Some('\t' as u8)
    } else {
        None
    }
}

/// The outcome `g` of the rest of a string body, seen from `k` bytes earlier
/// in the input, before which the bytes `head` were decoded.
pub open spec fn prepend(head: Seq<u8>, k: int, g: Lexed<Seq<u8>>) -> Lexed<Seq<u8>> {
    match g {
        Ok((bytes, n)) => Ok((head + bytes, n + k)),
        Err(e) => Err(failure(e.kind, e.position + k)),
    }
}

/// The body of a string literal at the start of `s`, from the byte after the
/// opening quote up to and with the closing quote: the decoded bytes, and the
/// number of bytes taken. A byte that is neither `"` nor `\` stands for
/// itself; a backslash and the byte after it stand for one byte; the first
/// `"` that no backslash precedes closes the body.
pub open spec fn lex_string_body(s: Seq<u8>) -> Lexed<Seq<u8>>
    decreases s.len(),
{
    if s.len() == 0 {
        Err(failure(ErrorKind::Malformed(Construct::ClosingQuote), 0))
    } else if s[0] == ('"' as u8) {
        Ok((Seq::empty(), 1))
    } else if s[0] != ('\\' as u8) {
        prepend(seq![s[0]], 1, lex_string_body(s.skip(1)))
    } else if s.len() >= 2 && escape_of(s[1]) is Some {
        prepend(seq![escape_of(s[1])->Some_0], 2, lex_string_body(s.skip(2)))
    } else {
        Err(failure(ErrorKind::Malformed(Construct::Escape), 1))
    }
}

/// What `String::from_utf8_lossy` makes of bytes.
pub uninterp spec fn lossy_text(bytes: Seq<u8>) -> Seq<char>;

/// The text that bytes are decoded to: what they encode where they are valid
/// UTF-8, and the lossy conversion otherwise.
pub open spec fn text_from(bytes: Seq<u8>) -> Seq<char> {
    if valid_utf8(bytes) {
        decode_utf8(bytes)
    } else {
        lossy_text(bytes)
    }
}

/// A string literal at the start of `s`.
pub open spec fn lex_string(s: Seq<u8>) -> Lexed<Seq<char>> {
    if !begins_with(s, "\""@) {
        Err(failure(ErrorKind::NoMatch, 0))
    } else {
        match lex_string_body(s.skip(1)) {
            Ok((bytes, n)) => Ok((text_from(bytes), n + 1)),
            Err(e) => Err(failure(e.kind, e.position + 1)),
        }
    }
}

/// Calls `String::from_utf8_lossy` and takes the result as an owned string.
/// The claim: bytes that are valid UTF-8 give the text that they encode;
/// what other bytes give is only named.
#[verifier::external_body]
pub(crate) fn lossy_string(bytes: &[u8]) -> (s: String)
    ensures
        s@ == lossy_text(bytes@),
        valid_utf8(bytes@) ==> s@ == decode_utf8(bytes@),
{
    String::from_utf8_lossy(bytes).into_owned()
}

/// The text of the bytes `i`, with U+FFFD in place of what is no valid UTF-8.
pub fn to_s(i: Vec<u8>) -> (s: String)
    ensures
        s@ == text_from(i@),
{
    lossy_string(i.as_slice())
}

/// The byte that the escape named by `c` stands for.
pub fn escape(c: u8) -> (r: Option<u8>)
    ensures
        r == escape_of(c),
{
    if c == ('\\' as u8) {
        Some('\\' as u8)
    } else if c == ('"' as u8) {
        Some('"' as u8)
    } else if c == ('n' as u8) {
        Some('\n' as u8)
    } else if c == ('r' as u8) {
        Some('\r' as u8)
    } else if c == ('t' as u8) {
        Some('\t' as u8)
    } else {
        None
    }
}

/// Decoding `head` first and then what follows `k` bytes later is decoding
/// one byte more and then what follows after it.
proof fn lemma_prepend_twice(head: Seq<u8>, k: int, b: u8, j: int, g: Lexed<Seq<u8>>)
    requires
        0 <= k,
        0 <= j,
        g is Err ==> g->Err_0.position + j + k <= usize::MAX,
    ensures
        prepend(head, k, prepend(seq![b], j, g)) == prepend(head.push(b), k + j, g),
{
    match g {
        Ok((bytes, n)) => {
            assert(head + (seq![b] + bytes) =~= head.push(b) + bytes);
        },
        Err(e) => {},
    }
}

/// The body of a string literal, or the failure to read one, lies within
/// the input.
pub proof fn lemma_lex_string_body_within(s: Seq<u8>)
    ensures
        within(lex_string_body(s), s.len()),
    decreases s.len(),
{
    if s.len() == 0 || s[0] == ('"' as u8) {
    } else if s[0] != ('\\' as u8) {
        lemma_lex_string_body_within(s.skip(1));
    } else if s.len() >= 2 && escape_of(s[1]) is Some {
        lemma_lex_string_body_within(s.skip(2));
    }
}

/// Reads the body of a string literal from the start of `input`, which is
/// the byte after the opening quote: the decoded bytes, and the remainder
/// after the closing quote.
pub fn string_content<'a>(input: &'a [u8]) -> (r: Result<(&'a [u8], Vec<u8>), LexError>)
    ensures
        yields_view(input@, r, lex_string_body(input@)),
{
    let mut out: Vec<u8> = Vec::new();
    let mut i: usize = 0;
    proof {
        assert(input@.skip(0) =~= input@);
        lemma_lex_string_body_within(input@);
        assert(Seq::<u8>::empty() + lex_string_body(input@)->Ok_0.0 =~= lex_string_body(
            input@,
        )->Ok_0.0);
    }
    loop
        invariant
            i <= input.len(),
            lex_string_body(input@) == prepend(out@, i as int, lex_string_body(input@.skip(i as int))),
        decreases input.len() - i,
    {
        proof {
            lemma_lex_string_body_within(input@.skip(i as int));
        }
        if i >= input.len() {
            return Err(
                LexError { kind: ErrorKind::Malformed(Construct::ClosingQuote), position: i },
            );
        }
        let c = input[i];
        assert(input@.skip(i as int)[0] == c);
        if c == ('"' as u8) {
            proof {
                assert(out@ + Seq::<u8>::empty() =~= out@);
            }
            return Ok((slice_subrange(input, i + 1, input.len()), out));
        } else if c != ('\\' as u8) {
            proof {
                assert(input@.skip(i as int).skip(1) =~= input@.skip(i + 1));
                lemma_lex_string_body_within(input@.skip(i + 1));
                lemma_prepend_twice(out@, i as int, c, 1, lex_string_body(input@.skip(i + 1)));
            }
            out.push(c);
            i += 1;
        } else {
            if i + 1 >= input.len() {
                return Err(
                    LexError { kind: ErrorKind::Malformed(Construct::Escape), position: i + 1 },
                );
            }
            assert(input@.skip(i as int)[1] == input@[i + 1]);
            match escape(input[i + 1]) {
                Some(b) => {
                    proof {
                        assert(input@.skip(i as int).skip(2) =~= input@.skip(i + 2));
                        lemma_lex_string_body_within(input@.skip(i + 2));
                        lemma_prepend_twice(
                            out@,
                            i as int,
                            b,
                            2,
                            lex_string_body(input@.skip(i + 2)),
                        );
                    }
                    out.push(b);
                    i += 2;
                },
                None => {
                    return Err(
                        LexError { kind: ErrorKind::Malformed(Construct::Escape), position: i + 1 },
                    );
                },
            }
        }
    }
}

/// Reads a string literal from the start of `input`.
pub fn string<'a>(input: &'a [u8]) -> (r: Result<(&'a [u8], String), LexError>)
    ensures
        yields_view(input@, r, lex_string(input@)),
{
    proof {
        reveal_strlit("\"");
    }
    if !starts_with(input, "\"") {
        return Err(LexError { kind: ErrorKind::NoMatch, position: 0 });
    }
    let body = slice_subrange(input, 1, input.len());
    match string_content(body) {
        Ok((rest, bytes)) => {
            assert(rest@ == input@.skip(lex_string(input@)->Ok_0.1));
            Ok((rest, to_s(bytes)))
        },
        Err(e) => Err(LexError { kind: e.kind, position: e.position + 1 }),
    }
}

/// A string literal, or the failure to read one, lies within the input.
pub proof fn lemma_lex_string_within(s: Seq<u8>)
    requires
        s.len() <= usize::MAX,
    ensures
        within(lex_string(s), s.len()),
{
    reveal_strlit("\"");
    lemma_begins_with(s, "\""@);
    lemma_lex_string_body_within(s.skip(1));
}

} // verus!
