//! Identifiers: the three peculiar spellings `+`, `-` and `...`, and the
//! standard form of one initial character and any number of subsequent ones.

use vstd::prelude::*;
use vstd::slice::slice_subrange;
use vstd::utf8::{
    decode_utf8, encode_utf8, encode_utf8_decode_utf8, encode_utf8_valid_utf8, is_ascii_chars,
    is_ascii_chars_encode_utf8, valid_utf8,
};
use crate::chars::{
    begins_with, initial, is_initial, is_subsequent, lemma_begins_with, lemma_run_len_ends,
    lemma_run_len_is, run_len, starts_with, subsequent, text_of,
};
use crate::error::{ErrorKind, LexError, Lexed, failure, within, yields_view};
use crate::string::lossy_string;

verus! {

/// The length of a peculiar identifier at the start of `s`, or zero.
pub open spec fn peculiar_len(s: Seq<u8>) -> int {
    if begins_with(s, "+"@) || begins_with(s, "-"@) {
        1
    } else if begins_with(s, "..."@) {
        3
    } else {
        0
    }
}

/// The length of a standard identifier at the start of `s`, or zero: one
/// initial character and the longest run of subsequent characters after it.
pub open spec fn common_len(s: Seq<u8>) -> int {
    if s.len() > 0 && initial(s[0]) {
        1 + run_len(s.skip(1), |c: u8| subsequent(c)) as int
    } else {
        0
    }
}

/// The length of the identifier at the start of `s`, or zero. The peculiar
/// spellings come first.
pub open spec fn identifier_len(s: Seq<u8>) -> int {
    if peculiar_len(s) > 0 {
        peculiar_len(s)
    } else {
        common_len(s)
    }
}

/// An identifier at the start of `s`, as text.
pub open spec fn lex_identifier(s: Seq<u8>) -> Lexed<Seq<char>> {
    let n = identifier_len(s);
    if n == 0 {
        Err(failure(ErrorKind::NoMatch, 0))
    } else {
        Ok((text_of(s.take(n)), n))
    }
}

/// Bytes below 128 are valid UTF-8, and encode the characters with their
/// numbers.
pub proof fn lemma_ascii_text(bytes: Seq<u8>)
    requires
        forall|i: int| 0 <= i < bytes.len() ==> #[trigger] bytes[i] < 128,
    ensures
        valid_utf8(bytes),
        decode_utf8(bytes) == text_of(bytes),
{
    let chars = text_of(bytes);
    assert(is_ascii_chars(chars)) by {
        assert forall|i: int| 0 <= i < chars.len() implies '\0' <= #[trigger] chars[i]
            <= '\u{7f}' by {
            assert(bytes[i] < 128);
        }
    }
    is_ascii_chars_encode_utf8(chars);
    assert(encode_utf8(chars) =~= bytes) by {
        assert forall|i: int| 0 <= i < bytes.len() implies encode_utf8(chars)[i] == bytes[i] by {
            assert(chars[i] as u8 == bytes[i]);
        }
    }
    encode_utf8_valid_utf8(chars);
    encode_utf8_decode_utf8(chars);
}

/// An identifier lies within the input and holds bytes below 128 only.
pub proof fn lemma_identifier_is_ascii(s: Seq<u8>)
    ensures
        0 <= identifier_len(s) <= s.len(),
        forall|i: int| 0 <= i < identifier_len(s) ==> #[trigger] s[i] < 128,
{
    reveal_strlit("+");
    reveal_strlit("-");
    reveal_strlit("...");
    lemma_begins_with(s, "+"@);
    lemma_begins_with(s, "-"@);
    lemma_begins_with(s, "..."@);
    if peculiar_len(s) == 0 && s.len() > 0 && initial(s[0]) {
        let t = s.skip(1);
        lemma_run_len_ends(t, |c: u8| subsequent(c));
        assert forall|i: int| 0 <= i < identifier_len(s) implies #[trigger] s[i] < 128 by {
            if i > 0 {
                assert(subsequent(t[i - 1]));
            }
        }
    }
}

/// The length of a peculiar identifier at the start of `input`, or zero.
pub fn peculiar_identifier(input: &[u8]) -> (n: usize)
    ensures
        n == peculiar_len(input@),
{
    proof {
        reveal_strlit("+");
        reveal_strlit("-");
        reveal_strlit("...");
    }
    if starts_with(input, "+") || starts_with(input, "-") {
        1
    } else if starts_with(input, "...") {
        3
    } else {
        0
    }
}

/// The length of a standard identifier at the start of `input`, or zero.
pub fn common_identifier(input: &[u8]) -> (n: usize)
    ensures
        n == common_len(input@),
{
    if input.len() == 0 || !is_initial(input[0]) {
        return 0;
    }
    let ghost tail = input@.skip(1);
    let mut n: usize = 1;
    while n < input.len() && is_subsequent(input[n])
        invariant
            1 <= n <= input.len(),
            tail == input@.skip(1),
            forall|i: int| 0 <= i < n - 1 ==> subsequent(#[trigger] tail[i]),
        decreases input.len() - n,
    {
        assert(tail[n - 1] == input@[n as int]);
        n += 1;
    }
    proof {
        if n < input.len() {
            assert(tail[n - 1] == input@[n as int]);
        }
        lemma_run_len_is(tail, |c: u8| subsequent(c), n - 1);
    }
    n
}

/// Reads an identifier from the start of `input`.
pub fn identifier<'a>(input: &'a [u8]) -> (r: Result<(&'a [u8], String), LexError>)
    ensures
        yields_view(input@, r, lex_identifier(input@)),
{
    let p = peculiar_identifier(input);
    let n = if p > 0 {
        p
    } else {
        common_identifier(input)
    };
    if n == 0 {
        return Err(LexError { kind: ErrorKind::NoMatch, position: 0 });
    }
    proof {
        lemma_identifier_is_ascii(input@);
    }
    let lexeme = slice_subrange(input, 0, n);
    proof {
        assert forall|i: int| 0 <= i < lexeme@.len() implies #[trigger] lexeme@[i] < 128 by {
            assert(lexeme@[i] == input@[i]);
        }
        lemma_ascii_text(lexeme@);
    }
    let text = lossy_string(lexeme);
    Ok((slice_subrange(input, n, input.len()), text))
}

/// An identifier, or the failure to read one, lies within the input.
pub proof fn lemma_lex_identifier_within(s: Seq<u8>)
    ensures
        within(lex_identifier(s), s.len()),
{
    lemma_identifier_is_ascii(s);
}

} // verus!
