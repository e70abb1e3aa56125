//! Integer literals: an optional radix marker, an optional sign, and digits of
//! the radix, converted to a signed 64-bit value.

use vstd::prelude::*;
use vstd::slice::slice_subrange;
use crate::chars::{
    Radix, begins_with, digit_in_base, is_bin_digit, lemma_begins_with, lemma_run_len_ends,
    lemma_run_len_is, run_len, spelling, starts_with,
};
use crate::error::{Construct, ErrorKind, LexError, Lexed, after, failure, within, yields};

verus! {

/// The number that a digit stands for; letters count from ten in either case.
pub open spec fn digit_value(c: u8) -> int {
    if ('0' as u8) <= c <= ('9' as u8) {
        c - ('0' as u8)
    } else if ('a' as u8) <= c <= ('f' as u8) {
        c - ('a' as u8) + 10
    } else if ('A' as u8) <= c <= ('F' as u8) {
        c - ('A' as u8) + 10
    } else {
        0
    }
}

/// The number that a sequence of digits denotes in positional notation, the
/// most significant digit first.
pub open spec fn digits_value(s: Seq<u8>, radix: Radix) -> int
    decreases s.len(),
{
    if s.len() == 0 {
        0
    } else {
        digits_value(s.drop_last(), radix) * radix.base() + digit_value(s.last())
    }
}

/// The number of bytes that an optional `+` or `-` takes at the start of `s`.
pub open spec fn sign_len(s: Seq<u8>) -> int {
    if s.len() > 0 && (s[0] == ('+' as u8) || s[0] == ('-' as u8)) {
        1
    } else {
        0
    }
}

/// The length of the longest prefix of `s` made of digits of the radix.
pub open spec fn digit_run(s: Seq<u8>, radix: Radix) -> nat {
    run_len(s, |c: u8| digit_in_base(c, radix))
}

/// The magnitude `m` with the sign that `negative` tells.
pub open spec fn signed(m: int, negative: bool) -> int {
    if negative {
        -m
    } else {
        m
    }
}

/// A mathematical integer as a signed 64-bit value, where it is one.
pub open spec fn in_range(v: int) -> Option<i64> {
    if i64::MIN <= v <= i64::MAX {
        Some(v as i64)
    } else {
        None
    }
}

/// The value of a numeral: an optional sign followed by digits.
pub open spec fn numeral_value(s: Seq<u8>, radix: Radix) -> int {
    signed(digits_value(s.skip(sign_len(s)), radix), s.len() > 0 && s[0] == ('-' as u8))
}

/// A signed integer of the given radix at the start of `s`: an optional
/// sign, then the longest run of digits, which must hold at least one digit
/// and denote a value of the signed 64-bit range. Without a digit the failure
/// is placed where the digit was due; a value outside the range fails at the
/// start of the numeral.
pub open spec fn lex_integer_in(s: Seq<u8>, radix: Radix) -> Lexed<i64> {
    let k = sign_len(s);
    let d = digit_run(s.skip(k), radix);
    if d == 0 {
        Err(failure(ErrorKind::Malformed(Construct::Digits), k))
    } else {
        match in_range(numeral_value(s.take(k + d), radix)) {
            Some(v) => Ok((v, k + d)),
            None => Err(failure(ErrorKind::Overflow, 0)),
        }
    }
}

/// The radix that a two-byte marker at the start of `s` selects.
pub open spec fn marked_radix(s: Seq<u8>) -> Option<Radix> {
    if begins_with(s, "#b"@) {
        Some(Radix::Binary)
    } else if begins_with(s, "#o"@) {
        Some(Radix::Octal)
    } else if begins_with(s, "#d"@) {
        Some(Radix::Decimal)
    } else if begins_with(s, "#x"@) {
        Some(Radix::Hexadecimal)
    } else {
        None
    }
}

/// An integer literal at the start of `s`. After a radix marker the digits
/// of that radix must follow; without a marker the literal is decimal, and
/// an input that holds no decimal numeral is no integer literal at all.
pub open spec fn lex_integer(s: Seq<u8>) -> Lexed<i64> {
    match marked_radix(s) {
        Some(radix) => after(2, lex_integer_in(s.skip(2), radix)),
        None => match lex_integer_in(s, Radix::Decimal) {
            Err(e) if e.kind == ErrorKind::Malformed(Construct::Digits) => Err(
                failure(ErrorKind::NoMatch, 0),
            ),
            g => g,
        },
    }
}

/// Calls `nom::digit`, which takes the longest run of decimal digits
/// `0`-`9` from the start of a byte slice. The claim: with at least one such
/// digit at the start, the result is the remainder and the run, in that
/// order; with none, or on an empty slice, there is no result.
#[verifier::external_body]
fn nom_digit<'a>(input: &'a [u8]) -> (r: Option<(&'a [u8], &'a [u8])>)
    ensures
        match r {
            Some((rest, run)) => digit_run(input@, Radix::Decimal) > 0
                && run@ == input@.take(digit_run(input@, Radix::Decimal) as int)
                && rest@ == input@.skip(digit_run(input@, Radix::Decimal) as int),
            None => digit_run(input@, Radix::Decimal) == 0,
        },
{
    match nom::digit(input) {
        nom::IResult::Done(rest, run) => Some((rest, run)),
        nom::IResult::Error(_) => None,
        nom::IResult::Incomplete(_) => None,
    }
}

/// Calls `nom::oct_digit`, which takes the longest run of octal digits
/// `0`-`7` from the start of a byte slice. The claim: with at least one such
/// digit at the start, the result is the remainder and the run, in that
/// order; with none, or on an empty slice, there is no result.
#[verifier::external_body]
fn nom_oct_digit<'a>(input: &'a [u8]) -> (r: Option<(&'a [u8], &'a [u8])>)
    ensures
        match r {
            Some((rest, run)) => digit_run(input@, Radix::Octal) > 0
                && run@ == input@.take(digit_run(input@, Radix::Octal) as int)
                && rest@ == input@.skip(digit_run(input@, Radix::Octal) as int),
            None => digit_run(input@, Radix::Octal) == 0,
        },
{
    match nom::oct_digit(input) {
        nom::IResult::Done(rest, run) => Some((rest, run)),
        nom::IResult::Error(_) => None,
        nom::IResult::Incomplete(_) => None,
    }
}

/// Calls `nom::hex_digit`, which takes the longest run of hexadecimal digits
/// `0`-`9`, `a`-`f`, `A`-`F` from the start of a byte slice. The claim: with
/// at least one such digit at the start, the result is the remainder and the
/// run, in that order; with none, or on an empty slice, there is no result.
#[verifier::external_body]
fn nom_hex_digit<'a>(input: &'a [u8]) -> (r: Option<(&'a [u8], &'a [u8])>)
    ensures
        match r {
            Some((rest, run)) => digit_run(input@, Radix::Hexadecimal) > 0
                && run@ == input@.take(digit_run(input@, Radix::Hexadecimal) as int)
                && rest@ == input@.skip(digit_run(input@, Radix::Hexadecimal) as int),
            None => digit_run(input@, Radix::Hexadecimal) == 0,
        },
{
    match nom::hex_digit(input) {
        nom::IResult::Done(rest, run) => Some((rest, run)),
        nom::IResult::Error(_) => None,
        nom::IResult::Incomplete(_) => None,
    }
}

/// The length of the run of binary digits at the start of `input`.
pub fn bin_digit(input: &[u8]) -> (n: usize)
    ensures
        n == digit_run(input@, Radix::Binary),
{
    let mut n: usize = 0;
    while n < input.len() && is_bin_digit(input[n])
        invariant
            n <= input.len(),
            forall|i: int| 0 <= i < n ==> digit_in_base(#[trigger] input@[i], Radix::Binary),
        decreases input.len() - n,
    {
        n += 1;
    }
    proof {
        lemma_run_len_is(input@, |c: u8| digit_in_base(c, Radix::Binary), n as int);
    }
    n
}

/// The length of the run of digits of the radix at the start of `input`.
pub fn digits(input: &[u8], radix: Radix) -> (n: usize)
    ensures
        n == digit_run(input@, radix),
{
    proof {
        lemma_run_len_ends(input@, |c: u8| digit_in_base(c, radix));
    }
    let found = match radix {
        Radix::Binary => {
            return bin_digit(input);
        },
        Radix::Octal => nom_oct_digit(input),
        Radix::Decimal => nom_digit(input),
        Radix::Hexadecimal => nom_hex_digit(input),
    };
    match found {
        Some((_, run)) => run.len(),
        None => 0,
    }
}

/// The number of bytes that an optional sign takes at the start of `input`.
pub fn sign(input: &[u8]) -> (k: usize)
    ensures
        k == sign_len(input@),
{
    if input.len() > 0 && (input[0] == ('+' as u8) || input[0] == ('-' as u8)) {
        1
    } else {
        0
    }
}

/// The base of the radix as a machine integer.
fn radix_base(radix: Radix) -> (b: i64)
    ensures
        b == radix.base(),
{
    match radix {
        Radix::Binary => 2,
        Radix::Octal => 8,
        Radix::Decimal => 10,
        Radix::Hexadecimal => 16,
    }
}

/// The number that the digit `c` stands for.
fn digit_number(c: u8) -> (d: i64)
    ensures
        d == digit_value(c),
        0 <= d < 16,
{
    if ('0' as u8) <= c && c <= ('9' as u8) {
        (c - ('0' as u8)) as i64
    } else if ('a' as u8) <= c && c <= ('f' as u8) {
        (c - ('a' as u8)) as i64 + 10
    } else if ('A' as u8) <= c && c <= ('F' as u8) {
        (c - ('A' as u8)) as i64 + 10
    } else {
        0
    }
}

/// The signed value of a sequence of digits, or `None` where it is outside
/// the signed 64-bit range. A negative value is built from below, so that the
/// least value of the range is reached.
pub fn convert(digits: &[u8], radix: Radix, negative: bool) -> (r: Option<i64>)
    ensures
        r == in_range(signed(digits_value(digits@, radix), negative)),
{
    let base = radix_base(radix);
    let mut acc: i64 = 0;
    let mut i: usize = 0;
    while i < digits.len()
        invariant
            i <= digits.len(),
            base == radix.base(),
            acc == signed(digits_value(digits@.take(i as int), radix), negative),
        decreases digits.len() - i,
    {
        let d = digit_number(digits[i]);
        proof {
            lemma_digits_value_step(digits@, radix, i as int);
            lemma_digits_value_grows(digits@, radix, i as int + 1);
            lemma_digits_value_grows(digits@, radix, i as int);
            assert(base == 2 || base == 8 || base == 10 || base == 16);
        }
        let scaled = match acc.checked_mul(base) {
            Some(x) => x,
            None => {
                return None;
            },
        };
        let next = if negative {
            scaled.checked_sub(d)
        } else {
            scaled.checked_add(d)
        };
        match next {
            Some(x) => {
                acc = x;
            },
            None => {
                return None;
            },
        }
        i += 1;
    }
    assert(digits@.take(i as int) == digits@);
    Some(acc)
}

/// Reads a signed integer of the given radix from the start of `input`.
pub fn integer_in<'a>(input: &'a [u8], radix: Radix) -> (r: Result<(&'a [u8], i64), LexError>)
    ensures
        yields(input@, r, lex_integer_in(input@, radix)),
{
    let k = sign(input);
    let negative = k == 1 && input[0] == ('-' as u8);
    let body = slice_subrange(input, k, input.len());
    let d = digits(body, radix);
    proof {
        lemma_run_len_ends(body@, |c: u8| digit_in_base(c, radix));
    }
    if d == 0 {
        return Err(LexError { kind: ErrorKind::Malformed(Construct::Digits), position: k });
    }
    let run = slice_subrange(input, k, k + d);
    assert(run@ == input@.take(k + d).skip(sign_len(input@.take(k + d))));
    match convert(run, radix, negative) {
        Some(v) => Ok((slice_subrange(input, k + d, input.len()), v)),
        None => Err(LexError { kind: ErrorKind::Overflow, position: 0 }),
    }
}

/// The radix that a marker at the start of `input` selects.
pub fn radix_marker(input: &[u8]) -> (r: Option<Radix>)
    ensures
        r == marked_radix(input@),
{
    proof {
        reveal_strlit("#b");
        reveal_strlit("#o");
        reveal_strlit("#d");
        reveal_strlit("#x");
    }
    if starts_with(input, "#b") {
        Some(Radix::Binary)
    } else if starts_with(input, "#o") {
        Some(Radix::Octal)
    } else if starts_with(input, "#d") {
        Some(Radix::Decimal)
    } else if starts_with(input, "#x") {
        Some(Radix::Hexadecimal)
    } else {
        None
    }
}

/// Reads an integer literal from the start of `input`.
pub fn integer<'a>(input: &'a [u8]) -> (r: Result<(&'a [u8], i64), LexError>)
    ensures
        yields(input@, r, lex_integer(input@)),
{
    match radix_marker(input) {
        Some(radix) => {
            proof {
                reveal_strlit("#b");
                reveal_strlit("#o");
                reveal_strlit("#d");
                reveal_strlit("#x");
            }
            let body = slice_subrange(input, 2, input.len());
            match integer_in(body, radix) {
                Ok((rest, v)) => {
                    assert(rest@ == input@.skip(lex_integer(input@)->Ok_0.1));
                    Ok((rest, v))
                },
                Err(e) => Err(LexError { kind: e.kind, position: e.position + 2 }),
            }
        },
        None => match integer_in(input, Radix::Decimal) {
            Ok((rest, v)) => Ok((rest, v)),
            Err(e) => match e.kind {
                ErrorKind::Malformed(_) => Err(LexError { kind: ErrorKind::NoMatch, position: 0 }),
                _ => Err(e),
            },
        },
    }
}

/// The value of a sequence of digits is not negative.
pub proof fn lemma_digits_value_nonnegative(s: Seq<u8>, radix: Radix)
    ensures
        0 <= digits_value(s, radix),
    decreases s.len(),
{
    if s.len() > 0 {
        lemma_digits_value_nonnegative(s.drop_last(), radix);
        assert(digits_value(s.drop_last(), radix) * radix.base() >= 0) by (nonlinear_arith)
            requires
                digits_value(s.drop_last(), radix) >= 0,
                radix.base() >= 2,
        ;
    }
}

/// The value of the digits read so far never exceeds the value of all of them.
pub proof fn lemma_digits_value_grows(s: Seq<u8>, radix: Radix, i: int)
    requires
        0 <= i <= s.len(),
    ensures
        0 <= digits_value(s.take(i), radix) <= digits_value(s, radix),
    decreases s.len() - i,
{
    if i == s.len() {
        assert(s.take(i) == s);
        lemma_digits_value_nonnegative(s, radix);
    } else {
        assert(s.drop_last().take(i) == s.take(i));
        lemma_digits_value_grows(s.drop_last(), radix, i);
        assert(radix.base() >= 2);
        assert(digits_value(s.drop_last(), radix) * radix.base() >= digits_value(
            s.drop_last(),
            radix,
        )) by (nonlinear_arith)
            requires
                digits_value(s.drop_last(), radix) >= 0,
                radix.base() >= 2,
        ;
    }
}

/// One more digit multiplies the value by the base and adds the digit.
pub proof fn lemma_digits_value_step(s: Seq<u8>, radix: Radix, i: int)
    requires
        0 <= i < s.len(),
    ensures
        digits_value(s.take(i + 1), radix) == digits_value(s.take(i), radix) * radix.base()
            + digit_value(s[i]),
{
    assert(s.take(i + 1).drop_last() == s.take(i));
}

/// An integer literal, or the failure to read one, lies within the input.
pub proof fn lemma_lex_integer_within(s: Seq<u8>)
    requires
        s.len() <= usize::MAX,
    ensures
        within(lex_integer(s), s.len()),
{
    reveal_strlit("#b");
    reveal_strlit("#o");
    reveal_strlit("#d");
    reveal_strlit("#x");
    lemma_begins_with(s, "#b"@);
    lemma_begins_with(s, "#o"@);
    lemma_begins_with(s, "#d"@);
    lemma_begins_with(s, "#x"@);
    match marked_radix(s) {
        Some(radix) => {
            let t = s.skip(2);
            lemma_run_len_ends(t.skip(sign_len(t)), |c: u8| digit_in_base(c, radix));
        },
        None => {
            lemma_run_len_ends(s.skip(sign_len(s)), |c: u8| digit_in_base(c, Radix::Decimal));
        },
    }
}

/// `s` is a numeral of the radix from its first byte to its last: an
/// optional sign, then digits, one at least, and nothing else.
pub open spec fn is_numeral(s: Seq<u8>, radix: Radix) -> bool {
    let k = sign_len(s);
    digit_run(s.skip(k), radix) > 0 && k + digit_run(s.skip(k), radix) == s.len()
}

/// The marker that selects a radix.
pub open spec fn marker_of(radix: Radix) -> Seq<char> {
    match radix {
        Radix::Binary => "#b"@,
        Radix::Octal => "#o"@,
        Radix::Decimal => "#d"@,
        Radix::Hexadecimal => "#x"@,
    }
}

/// The digit that stands for a number below sixteen, letters in lower case.
pub open spec fn digit_for(d: int) -> u8 {
    if d < 10 {
        (('0' as u8) + d) as u8
    } else {
        (('a' as u8) + d - 10) as u8
    }
}

/// The digits of a magnitude in the radix, the most significant first and
/// without leading zeros; zero is written `0`.
pub open spec fn magnitude_digits(m: nat, radix: Radix) -> Seq<u8>
    decreases m,
    via magnitude_digits_shrinks
{
    if m < radix.base() {
        seq![digit_for(m as int)]
    } else {
        magnitude_digits(m / radix.base(), radix).push(
            digit_for((m % radix.base()) as int),
        )
    }
}

#[via_fn]
proof fn magnitude_digits_shrinks(m: nat, radix: Radix) {
    lemma_quotient(m, radix);
}

/// The numeral that writes `v` in the radix: `-` before the digits of a
/// negative value, no sign otherwise.
pub open spec fn numeral_of(v: int, radix: Radix) -> Seq<u8> {
    if v < 0 {
        seq!['-' as u8] + magnitude_digits((-v) as nat, radix)
    } else {
        magnitude_digits(v as nat, radix)
    }
}

/// Division by the base: the quotient of a magnitude that has more than one
/// digit is smaller, and quotient and remainder give the magnitude back.
pub proof fn lemma_quotient(m: nat, radix: Radix)
    ensures
        0 <= m % radix.base() < radix.base(),
        (m / radix.base()) * radix.base() + m % radix.base() == m,
        m >= radix.base() ==> 0 < m / radix.base() < m,
{
    match radix {
        Radix::Binary => {
            assert(m >= 2 ==> 0 < m / 2 < m);
            assert((m / 2) * 2 + m % 2 == m);
        },
        Radix::Octal => {
            assert(m >= 8 ==> 0 < m / 8 < m);
            assert((m / 8) * 8 + m % 8 == m);
        },
        Radix::Decimal => {
            assert(m >= 10 ==> 0 < m / 10 < m);
            assert((m / 10) * 10 + m % 10 == m);
        },
        Radix::Hexadecimal => {
            assert(m >= 16 ==> 0 < m / 16 < m);
            assert((m / 16) * 16 + m % 16 == m);
        },
    }
}

/// The digits written for a magnitude are digits of the radix, and denote
/// the magnitude.
pub proof fn lemma_magnitude_digits(m: nat, radix: Radix)
    ensures
        magnitude_digits(m, radix).len() > 0,
        forall|i: int|
            0 <= i < magnitude_digits(m, radix).len() ==> digit_in_base(
                #[trigger] magnitude_digits(m, radix)[i],
                radix,
            ),
        digits_value(magnitude_digits(m, radix), radix) == m,
    decreases m,
{
    let b = radix.base();
    assert(b == 2 || b == 8 || b == 10 || b == 16);
    let s = magnitude_digits(m, radix);
    if m < b {
        assert(s.drop_last() =~= Seq::<u8>::empty());
        assert(digits_value(s.drop_last(), radix) == 0);
        assert(digit_value(digit_for(m as int)) == m);
    } else {
        let q = (m / b) as nat;
        let r = (m % b) as int;
        lemma_magnitude_digits(q, radix);
        let t = magnitude_digits(q, radix);
        assert(s == t.push(digit_for(r)));
        assert(s.drop_last() =~= t);
        assert(s.last() == digit_for(r));
        assert(digit_value(digit_for(r)) == r);
        assert(digit_in_base(digit_for(r), radix));
        lemma_quotient(m, radix);
    }
}

/// A sequence made of digits only is its own digit run.
pub proof fn lemma_digit_run_whole(s: Seq<u8>, radix: Radix)
    requires
        forall|i: int| 0 <= i < s.len() ==> digit_in_base(#[trigger] s[i], radix),
    ensures
        digit_run(s, radix) == s.len(),
{
    lemma_run_len_is(s, |c: u8| digit_in_base(c, radix), s.len() as int);
}

/// What is written for a value is a numeral of the radix, and its value is
/// the value written.
pub proof fn lemma_numeral_of(v: int, radix: Radix)
    ensures
        is_numeral(numeral_of(v, radix), radix),
        numeral_value(numeral_of(v, radix), radix) == v,
        numeral_of(v, radix)[0] != ('#' as u8),
{
    let s = numeral_of(v, radix);
    let m = if v < 0 { (-v) as nat } else { v as nat };
    let ds = magnitude_digits(m, radix);
    lemma_magnitude_digits(m, radix);
    lemma_digit_run_whole(ds, radix);
    assert(digit_in_base(ds[0], radix));
    if v < 0 {
        assert(s.skip(1) =~= ds);
    } else {
        assert(s.skip(0) =~= ds);
    }
}

/// A numeral that is not preceded by a marker is read as a whole, in
/// decimal, where its value fits.
pub proof fn lemma_lex_integer_in_whole(s: Seq<u8>, radix: Radix)
    requires
        is_numeral(s, radix),
    ensures
        lex_integer_in(s, radix) == match in_range(numeral_value(s, radix)) {
            Some(v) => Ok::<(i64, int), LexError>((v, s.len() as int)),
            None => Err::<(i64, int), LexError>(failure(ErrorKind::Overflow, 0)),
        },
{
    assert(s.take(s.len() as int) == s);
}

/// Reading decimal: a decimal numeral whose value is in the signed 64-bit
/// range is read as a whole and as that value, and the marker `#d` before it
/// changes nothing but the two bytes that it takes.
pub proof fn law_decimal_value(s: Seq<u8>)
    requires
        is_numeral(s, Radix::Decimal),
        i64::MIN <= numeral_value(s, Radix::Decimal) <= i64::MAX,
    ensures
        lex_integer(s) == Ok::<(i64, int), LexError>(
            (numeral_value(s, Radix::Decimal) as i64, s.len() as int),
        ),
        lex_integer(spelling("#d"@) + s) == Ok::<(i64, int), LexError>(
            (numeral_value(s, Radix::Decimal) as i64, s.len() as int + 2),
        ),
{
    reveal_strlit("#b");
    reveal_strlit("#o");
    reveal_strlit("#d");
    reveal_strlit("#x");
    lemma_run_len_ends(s.skip(sign_len(s)), |c: u8| digit_in_base(c, Radix::Decimal));
    assert(s[0] != ('#' as u8)) by {
        if sign_len(s) == 0 {
            assert(s.skip(0)[0] == s[0]);
        }
    }
    lemma_begins_with(s, "#b"@);
    lemma_begins_with(s, "#o"@);
    lemma_begins_with(s, "#d"@);
    lemma_begins_with(s, "#x"@);
    lemma_lex_integer_in_whole(s, Radix::Decimal);
    let t = spelling("#d"@) + s;
    lemma_begins_with(t, "#b"@);
    lemma_begins_with(t, "#o"@);
    lemma_begins_with(t, "#d"@);
    assert(t[0] == ('#' as u8) && t[1] == ('d' as u8));
    assert(marked_radix(t) == Some(Radix::Decimal));
    assert(t.skip(2) =~= s);
}

/// Writing and reading back: for every radix and every signed 64-bit value,
/// the radix marker followed by the value written in that radix is read as a
/// whole and as that value.
pub proof fn law_radix_round_trip(v: i64, radix: Radix)
    ensures
        lex_integer(spelling(marker_of(radix)) + numeral_of(v as int, radix)) == Ok::<
            (i64, int),
            LexError,
        >((v, numeral_of(v as int, radix).len() as int + 2)),
{
    reveal_strlit("#b");
    reveal_strlit("#o");
    reveal_strlit("#d");
    reveal_strlit("#x");
    let s = numeral_of(v as int, radix);
    let t = spelling(marker_of(radix)) + s;
    lemma_numeral_of(v as int, radix);
    lemma_lex_integer_in_whole(s, radix);
    lemma_begins_with(t, "#b"@);
    lemma_begins_with(t, "#o"@);
    lemma_begins_with(t, "#d"@);
    lemma_begins_with(t, "#x"@);
    assert(t[0] == spelling(marker_of(radix))[0] && t[1] == spelling(marker_of(radix))[1]);
    assert(marked_radix(t) == Some(radix));
    assert(t.skip(2) =~= s);
}

} // verus!
