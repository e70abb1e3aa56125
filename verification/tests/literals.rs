use scheme_lexer::{
    anychar, boolean, character, escape, first_scalar, string, string_content, to_s,
};
use scheme_lexer::{Construct, ErrorKind, LexError};

fn no_match() -> LexError {
    LexError { kind: ErrorKind::NoMatch, position: 0 }
}

fn malformed(expected: Construct, position: usize) -> LexError {
    LexError { kind: ErrorKind::Malformed(expected), position }
}

#[test]
fn boolean_takes_two_bytes() {
    assert_eq!(boolean(b"#t1"), Ok((&b"1"[..], true)));
    assert_eq!(boolean(b"#f)"), Ok((&b")"[..], false)));
    assert_eq!(boolean(b"#true"), Ok((&b"rue"[..], true)));
}

#[test]
fn boolean_has_no_other_spelling() {
    assert_eq!(boolean(b""), Err(no_match()));
    assert_eq!(boolean(b"#"), Err(no_match()));
    assert_eq!(boolean(b"#T"), Err(no_match()));
    assert_eq!(boolean(b"#F"), Err(no_match()));
    assert_eq!(boolean(b"t"), Err(no_match()));
    assert_eq!(boolean(b"true"), Err(no_match()));
    assert_eq!(boolean(b"#\\t"), Err(no_match()));
}

#[test]
fn named_characters_come_first() {
    assert_eq!(character(b"#\\space"), Ok((&b""[..], ' ')));
    assert_eq!(character(b"#\\newline"), Ok((&b""[..], '\n')));
    assert_eq!(character(b"#\\spaces"), Ok((&b"s"[..], ' ')));
    assert_eq!(character(b"#\\newline)"), Ok((&b")"[..], '\n')));
}

#[test]
fn unfinished_name_is_a_single_character() {
    assert_eq!(character(b"#\\s"), Ok((&b""[..], 's')));
    assert_eq!(character(b"#\\spac"), Ok((&b"pac"[..], 's')));
    assert_eq!(character(b"#\\newlin"), Ok((&b"ewlin"[..], 'n')));
    assert_eq!(character(b"#\\Space"), Ok((&b"pace"[..], 'S')));
}

#[test]
fn any_single_character() {
    assert_eq!(character(b"#\\X"), Ok((&b""[..], 'X')));
    assert_eq!(character(b"#\\ "), Ok((&b""[..], ' ')));
    assert_eq!(character(b"#\\\\"), Ok((&b""[..], '\\')));
    assert_eq!(character(b"#\\#"), Ok((&b""[..], '#')));
    assert_eq!(character(b"#\\\""), Ok((&b""[..], '"')));
    assert_eq!(character(b"#\\\n"), Ok((&b""[..], '\n')));
    assert_eq!(character(b"#\\ab"), Ok((&b"b"[..], 'a')));
    assert_eq!(character(b"#\\\x00"), Ok((&b""[..], '\0')));
}

#[test]
fn character_is_one_scalar_value() {
    assert_eq!(character("#\\é".as_bytes()), Ok((&b""[..], 'é')));
    assert_eq!(character("#\\中x".as_bytes()), Ok((&b"x"[..], '中')));
    assert_eq!(character("#\\😀)".as_bytes()), Ok((&b")"[..], '😀')));
    assert_eq!(character("#\\λambda".as_bytes()), Ok((&b"ambda"[..], 'λ')));
}

#[test]
fn byte_outside_any_encoding_is_taken_alone() {
    assert_eq!(character(b"#\\\xff"), Ok((&b""[..], '\u{ff}')));
    assert_eq!(character(b"#\\\x80"), Ok((&b""[..], '\u{80}')));
    assert_eq!(character(b"#\\\xc3"), Ok((&b""[..], '\u{c3}')));
    assert_eq!(character(b"#\\\xc3("), Ok((&b"("[..], '\u{c3}')));
    assert_eq!(character(b"#\\\xc0\x80"), Ok((&b"\x80"[..], '\u{c0}')));
    assert_eq!(character(b"#\\\xe0\x80\x80"), Ok((&b"\x80\x80"[..], '\u{e0}')));
    assert_eq!(character(b"#\\\xed\xa0\x80"), Ok((&b"\xa0\x80"[..], '\u{ed}')));
    assert_eq!(character(b"#\\\xf4\x90\x80\x80"), Ok((&b"\x90\x80\x80"[..], '\u{f4}')));
    assert_eq!(character(b"#\\\xf0\x80\x80\x80"), Ok((&b"\x80\x80\x80"[..], '\u{f0}')));
    assert_eq!(character(b"#\\\xf8\x80\x80\x80"), Ok((&b"\x80\x80\x80"[..], '\u{f8}')));
}

#[test]
fn first_scalar_of_bytes() {
    assert_eq!(first_scalar(b""), None);
    assert_eq!(first_scalar(b"a"), Some(('a', 1)));
    assert_eq!(first_scalar(b"\x00"), Some(('\0', 1)));
    assert_eq!(first_scalar(b"\x7fz"), Some(('\u{7f}', 1)));
    assert_eq!(first_scalar(b"\xc2\x80"), Some(('\u{80}', 2)));
    assert_eq!(first_scalar(b"\xdf\xbf"), Some(('\u{7ff}', 2)));
    assert_eq!(first_scalar(b"\xe0\xa0\x80"), Some(('\u{800}', 3)));
    assert_eq!(first_scalar(b"\xed\x9f\xbf"), Some(('\u{d7ff}', 3)));
    assert_eq!(first_scalar(b"\xee\x80\x80"), Some(('\u{e000}', 3)));
    assert_eq!(first_scalar(b"\xef\xbf\xbf"), Some(('\u{ffff}', 3)));
    assert_eq!(first_scalar(b"\xf0\x90\x80\x80"), Some(('\u{10000}', 4)));
    assert_eq!(first_scalar(b"\xf4\x8f\xbf\xbf"), Some(('\u{10ffff}', 4)));
    assert_eq!(first_scalar(b"\x80"), None);
    assert_eq!(first_scalar(b"\xbf"), None);
    assert_eq!(first_scalar(b"\xc2"), None);
    assert_eq!(first_scalar(b"\xc2a"), None);
    assert_eq!(first_scalar(b"\xc0\x80"), None);
    assert_eq!(first_scalar(b"\xc1\xbf"), None);
    assert_eq!(first_scalar(b"\xe0\x9f\xbf"), None);
    assert_eq!(first_scalar(b"\xe2\x88"), None);
    assert_eq!(first_scalar(b"\xed\xa0\x80"), None);
    assert_eq!(first_scalar(b"\xed\xbf\xbf"), None);
    assert_eq!(first_scalar(b"\xf0\x8f\xbf\xbf"), None);
    assert_eq!(first_scalar(b"\xf4\x90\x80\x80"), None);
    assert_eq!(first_scalar(b"\xf7\xbf\xbf\xbf"), None);
    assert_eq!(first_scalar(b"\xf8\x88\x80\x80\x80"), None);
    assert_eq!(first_scalar(b"\xff"), None);
}

#[test]
fn first_scalar_agrees_with_the_encoding_of_every_character() {
    let mut buffer = [0u8; 4];
    for code in 0..=0x10ffffu32 {
        if let Some(c) = char::from_u32(code) {
            let encoded = c.encode_utf8(&mut buffer).as_bytes();
            assert_eq!(first_scalar(encoded), Some((c, encoded.len())));
        }
    }
}

#[test]
fn any_single_character_of_bytes() {
    assert_eq!(anychar(b"ab"), Some((&b"b"[..], 'a')));
    assert_eq!(anychar("é!".as_bytes()), Some((&b"!"[..], 'é')));
    assert_eq!(anychar(b"\xe9!"), Some((&b"!"[..], '\u{e9}')));
    assert_eq!(anychar(b""), None);
}

#[test]
fn character_failures() {
    assert_eq!(character(b"#\\"), Err(malformed(Construct::Character, 2)));
    assert_eq!(character(b""), Err(no_match()));
    assert_eq!(character(b"#"), Err(no_match()));
    assert_eq!(character(b"#t"), Err(no_match()));
    assert_eq!(character(b"\\a"), Err(no_match()));
    assert_eq!(character(b"a"), Err(no_match()));
}

#[test]
fn string_escapes_are_decoded() {
    assert_eq!(string("\"a\\\"b\"".as_bytes()), Ok((&b""[..], String::from("a\"b"))));
    assert_eq!(string("\"\\n\"".as_bytes()), Ok((&b""[..], String::from("\n"))));
    assert_eq!(string(b"\"\\\\\""), Ok((&b""[..], String::from("\\"))));
    assert_eq!(string(b"\"\\r\""), Ok((&b""[..], String::from("\r"))));
    assert_eq!(string(b"\"\\t\""), Ok((&b""[..], String::from("\t"))));
    assert_eq!(
        string(b"\"a\\\\b\\\"c\\nd\\re\\tf\""),
        Ok((&b""[..], String::from("a\\b\"c\nd\re\tf")))
    );
    assert_eq!(string(b"\"\\n\\n\""), Ok((&b""[..], String::from("\n\n"))));
}

#[test]
fn unknown_escape_fails() {
    assert_eq!(string("\"\\z\"".as_bytes()), Err(malformed(Construct::Escape, 2)));
    assert_eq!(string(b"\"ab\\0\""), Err(malformed(Construct::Escape, 4)));
    assert_eq!(string(b"\"\\N\""), Err(malformed(Construct::Escape, 2)));
    assert_eq!(string(b"\"\\ \""), Err(malformed(Construct::Escape, 2)));
    assert_eq!(string(b"\"abc\\"), Err(malformed(Construct::Escape, 5)));
}

#[test]
fn plain_runs_are_copied() {
    assert_eq!(string(b"\"hello world\""), Ok((&b""[..], String::from("hello world"))));
    assert_eq!(string(b"\"\""), Ok((&b""[..], String::new())));
    assert_eq!(string(b"\"a\nb\""), Ok((&b""[..], String::from("a\nb"))));
    assert_eq!(string(b"\"(#t 'x)\""), Ok((&b""[..], String::from("(#t 'x)"))));
}

#[test]
fn string_ends_at_the_first_bare_quote() {
    assert_eq!(string(b"\"ab\"cd"), Ok((&b"cd"[..], String::from("ab"))));
    assert_eq!(string(b"\"ab\"\"cd\""), Ok((&b"\"cd\""[..], String::from("ab"))));
    assert_eq!(string(b"\"a\\\"\" b"), Ok((&b" b"[..], String::from("a\""))));
}

#[test]
fn unterminated_string_fails() {
    assert_eq!(string(b"\""), Err(malformed(Construct::ClosingQuote, 1)));
    assert_eq!(string(b"\"abc"), Err(malformed(Construct::ClosingQuote, 4)));
    assert_eq!(string(b"\"abc\\\""), Err(malformed(Construct::ClosingQuote, 6)));
    assert_eq!(string(b"\"\\n"), Err(malformed(Construct::ClosingQuote, 3)));
}

#[test]
fn string_needs_an_opening_quote() {
    assert_eq!(string(b""), Err(no_match()));
    assert_eq!(string(b"abc\""), Err(no_match()));
    assert_eq!(string(b"'a'"), Err(no_match()));
}

#[test]
fn string_text_is_utf8() {
    assert_eq!(string("\"héllo → ∀\"".as_bytes()), Ok((&b""[..], String::from("héllo → ∀"))));
    assert_eq!(string("\"é\\né\"".as_bytes()), Ok((&b""[..], String::from("é\né"))));
}

#[test]
fn invalid_utf8_is_replaced() {
    assert_eq!(string(b"\"a\xffb\""), Ok((&b""[..], String::from("a\u{fffd}b"))));
    assert_eq!(string(b"\"\xc3\""), Ok((&b""[..], String::from("\u{fffd}"))));
    assert_eq!(string(b"\"\xc3\\n\xa9\""), Ok((&b""[..], String::from("\u{fffd}\n\u{fffd}"))));
}

#[test]
fn text_of_bytes() {
    assert_eq!(to_s(Vec::new()), String::new());
    assert_eq!(to_s(b"abc".to_vec()), String::from("abc"));
    assert_eq!(to_s("é∀".as_bytes().to_vec()), String::from("é∀"));
    assert_eq!(to_s(vec![0xff, b'a']), String::from("\u{fffd}a"));
    assert_eq!(to_s(vec![b'a', 0xe2, 0x88]), String::from("a\u{fffd}"));
}

#[test]
fn string_body_in_bytes() {
    assert_eq!(string_content(b"ab\\tc\" rest"), Ok((&b" rest"[..], b"ab\tc".to_vec())));
    assert_eq!(string_content(b"\""), Ok((&b""[..], Vec::new())));
    assert_eq!(string_content(b"\xff\""), Ok((&b""[..], vec![0xff])));
    assert_eq!(string_content(b""), Err(malformed(Construct::ClosingQuote, 0)));
    assert_eq!(string_content(b"ab"), Err(malformed(Construct::ClosingQuote, 2)));
    assert_eq!(string_content(b"a\\"), Err(malformed(Construct::Escape, 2)));
    assert_eq!(string_content(b"a\\q\""), Err(malformed(Construct::Escape, 2)));
}

#[test]
fn the_five_escapes() {
    assert_eq!(escape(b'\\'), Some(b'\\'));
    assert_eq!(escape(b'"'), Some(b'"'));
    assert_eq!(escape(b'n'), Some(b'\n'));
    assert_eq!(escape(b'r'), Some(b'\r'));
    assert_eq!(escape(b't'), Some(b'\t'));
    let mut known = 0;
    for c in 0..=255u8 {
        if escape(c).is_some() {
            known += 1;
        }
    }
    assert_eq!(known, 5);
}
