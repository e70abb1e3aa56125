//! Character classes of the lexical grammar, as predicates over single bytes,
//! and the measure of a run of bytes of one class.

use vstd::prelude::*;

verus! {

/// A numeral base in which an integer literal can be written.
#[derive(Clone, Copy, Debug, PartialEq, Eq, Structural)]
pub enum Radix {
    Binary,
    Octal,
    Decimal,
    Hexadecimal,
}

impl Radix {
    /// The number that the radix stands for.
    pub open spec fn base(self) -> nat {
        match self {
            Radix::Binary => 2,
            Radix::Octal => 8,
            Radix::Decimal => 10,
            Radix::Hexadecimal => 16,
        }
    }
}

/// The byte `c` is a digit of the given radix. Hexadecimal digits may be
/// written in either case.
pub open spec fn digit_in_base(c: u8, radix: Radix) -> bool {
    let ch = c as char;
    match radix {
        Radix::Binary => '0' <= ch <= '1',
        Radix::Octal => '0' <= ch <= '7',
        Radix::Decimal => '0' <= ch <= '9',
        Radix::Hexadecimal => '0' <= ch <= '9' || 'a' <= ch <= 'f' || 'A' <= ch <= 'F',
    }
}

/// The byte `c` is a lower-case ASCII letter. Upper-case letters are no part
/// of an identifier.
pub open spec fn letter(c: u8) -> bool {
    'a' <= c as char <= 'z'
}

/// The byte `c` is one of `! $ % & * / : < = > ? ^ _ ~`.
pub open spec fn special_initial(c: u8) -> bool {
    let ch = c as char;
    ch == '!' || ch == '$' || ch == '%' || ch == '&' || ch == '*' || ch == '/' || ch == ':'
        || ch == '<' || ch == '=' || ch == '>' || ch == '?' || ch == '^' || ch == '_' || ch
        == '~'
}

/// The byte `c` is one of `+ - . @`.
pub open spec fn special_subsequent(c: u8) -> bool {
    let ch = c as char;
    ch == '+' || ch == '-' || ch == '.' || ch == '@'
}

/// The byte `c` can open a standard identifier.
pub open spec fn initial(c: u8) -> bool {
    letter(c) || special_initial(c)
}

/// The byte `c` can continue a standard identifier.
pub open spec fn subsequent(c: u8) -> bool {
    initial(c) || digit_in_base(c, Radix::Decimal) || special_subsequent(c)
}

/// Whether `c` is a digit of the given radix.
pub fn is_digit_in_base(c: u8, radix: Radix) -> (b: bool)
    ensures
        b == digit_in_base(c, radix),
{
    let ch = c as char;
    match radix {
        Radix::Binary => '0' <= ch && ch <= '1',
        Radix::Octal => '0' <= ch && ch <= '7',
        Radix::Decimal => '0' <= ch && ch <= '9',
        Radix::Hexadecimal => ('0' <= ch && ch <= '9') || ('a' <= ch && ch <= 'f') || ('A' <= ch
            && ch <= 'F'),
    }
}

/// Whether `byte` is `0` or `1`.
pub fn is_bin_digit(byte: u8) -> (b: bool)
    ensures
        b == digit_in_base(byte, Radix::Binary),
{
    let ch = byte as char;
    ch == '0' || ch == '1'
}

/// Whether `c` is a lower-case ASCII letter.
pub fn is_letter(c: u8) -> (b: bool)
    ensures
        b == letter(c),
{
    let ch = c as char;
    'a' <= ch && ch <= 'z'
}

/// Whether `c` is one of `! $ % & * / : < = > ? ^ _ ~`.
pub fn is_special_initial(c: u8) -> (b: bool)
    ensures
        b == special_initial(c),
{
    let ch = c as char;
    ch == '!' || ch == '$' || ch == '%' || ch == '&' || ch == '*' || ch == '/' || ch == ':'
        || ch == '<' || ch == '=' || ch == '>' || ch == '?' || ch == '^' || ch == '_' || ch
        == '~'
}

/// Whether `c` is one of `+ - . @`.
pub fn is_special_subsequent(c: u8) -> (b: bool)
    ensures
        b == special_subsequent(c),
{
    let ch = c as char;
    ch == '+' || ch == '-' || ch == '.' || ch == '@'
}

/// Whether `c` can open a standard identifier.
pub fn is_initial(c: u8) -> (b: bool)
    ensures
        b == initial(c),
{
    is_letter(c) || is_special_initial(c)
}

/// Whether `c` can continue a standard identifier.
pub fn is_subsequent(c: u8) -> (b: bool)
    ensures
        b == subsequent(c),
{
    is_initial(c) || is_digit_in_base(c, Radix::Decimal) || is_special_subsequent(c)
}

/// The length of the longest prefix of `s` whose bytes all satisfy `class`.
pub open spec fn run_len(s: Seq<u8>, class: spec_fn(u8) -> bool) -> nat
    decreases s.len(),
{
    if s.len() > 0 && class(s[0]) {
        1 + run_len(s.skip(1), class)
    } else {
        0
    }
}

/// A run lies within the sequence, holds only bytes of the class, and ends at
/// the end of the sequence or before a byte outside the class.
pub proof fn lemma_run_len_ends(s: Seq<u8>, class: spec_fn(u8) -> bool)
    ensures
        run_len(s, class) <= s.len(),
        forall|i: int| 0 <= i < run_len(s, class) ==> class(#[trigger] s[i]),
        run_len(s, class) == s.len() || !class(s[run_len(s, class) as int]),
    decreases s.len(),
{
    if s.len() > 0 && class(s[0]) {
        let t = s.skip(1);
        lemma_run_len_ends(t, class);
        assert forall|i: int| 0 <= i < run_len(s, class) implies class(#[trigger] s[i]) by {
            if i > 0 {
                assert(s[i] == t[i - 1]);
            }
        }
        if run_len(t, class) < t.len() {
            assert(t[run_len(t, class) as int] == s[run_len(s, class) as int]);
        }
    }
}

/// A prefix of bytes of the class that cannot be extended is the run.
pub proof fn lemma_run_len_is(s: Seq<u8>, class: spec_fn(u8) -> bool, n: int)
    requires
        0 <= n <= s.len(),
        forall|i: int| 0 <= i < n ==> class(#[trigger] s[i]),
        n == s.len() || !class(s[n]),
    ensures
        run_len(s, class) == n,
    decreases n,
{
    if n > 0 {
        let t = s.skip(1);
        assert(class(s[0]));
        assert forall|i: int| 0 <= i < n - 1 implies class(#[trigger] t[i]) by {
            assert(t[i] == s[i + 1]);
        }
        if n < s.len() {
            assert(t[n - 1] == s[n]);
        }
        lemma_run_len_is(t, class, n - 1);
    }
}

/// The text that bytes spell when each byte stands for the character with
/// its number.
pub open spec fn text_of(bytes: Seq<u8>) -> Seq<char> {
    Seq::new(bytes.len(), |i: int| bytes[i] as char)
}

/// The bytes of an ASCII text.
pub open spec fn spelling(word: Seq<char>) -> Seq<u8> {
    Seq::new(word.len(), |i: int| word[i] as u8)
}

/// `s` starts with the bytes of the ASCII text `word`.
pub open spec fn begins_with(s: Seq<u8>, word: Seq<char>) -> bool {
    spelling(word).is_prefix_of(s)
}

/// Whether `input` starts with the bytes of `word`.
pub(crate) fn starts_with(input: &[u8], word: &str) -> (b: bool)
    requires
        word.is_ascii(),
    ensures
        b == begins_with(input@, word@),
{
    broadcast use vstd::string::is_ascii_spec_bytes;

    let w = word.as_bytes();
    assert(w@ =~= spelling(word@));
    if w.len() > input.len() {
        return false;
    }
    let mut i: usize = 0;
    while i < w.len()
        invariant
            i <= w.len() <= input.len(),
            w@ == spelling(word@),
            forall|j: int| 0 <= j < i ==> input[j] == w[j],
        decreases w.len() - i,
    {
        if input[i] != w[i] {
            assert(input@.subrange(0, w@.len() as int)[i as int] != w@[i as int]);
            return false;
        }
        i += 1;
    }
    assert(w@ =~= input@.subrange(0, w@.len() as int));
    true
}

/// `s` starts with `word` exactly when it is long enough and agrees with the
/// word byte by byte.
pub proof fn lemma_begins_with(s: Seq<u8>, word: Seq<char>)
    ensures
        begins_with(s, word) <==> (word.len() <= s.len() && forall|i: int|
            0 <= i < word.len() ==> #[trigger] s[i] == word[i] as u8),
{
    let w = spelling(word);
    if word.len() <= s.len() {
        let head = s.subrange(0, w.len() as int);
        if begins_with(s, word) {
            assert forall|i: int| 0 <= i < word.len() implies #[trigger] s[i] == word[i] as u8 by {
                assert(head[i] == w[i]);
            }
        }
        if forall|i: int| 0 <= i < word.len() ==> #[trigger] s[i] == word[i] as u8 {
            assert(w =~= head);
        }
    }
}

} // verus!
