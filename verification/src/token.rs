//! Tokens, and the dispatcher that reads one token from the start of a
//! buffer by trying the productions of the grammar in a fixed order.

use vstd::prelude::*;
use vstd::slice::slice_subrange;
use crate::boolean::{boolean, lemma_lex_boolean_within, lex_boolean};
use crate::character::{character, lemma_lex_character_within, lex_character};
use crate::chars::{begins_with, lemma_begins_with, starts_with, text_of};
use crate::error::{ErrorKind, LexError, Lexed, failure, within, yields_view};
use crate::identifier::{
    identifier, identifier_len, lemma_lex_identifier_within, lex_identifier,
};
use crate::keyword::{SyntacticKeyword, keyword_of, syntactic_keyword};
use crate::number::{integer, lemma_lex_integer_within, lex_integer};
use crate::string::{lemma_lex_string_within, lex_string, string};

verus! {

/// A lexical token. It owns what it was decoded to and keeps no reference to
/// the input.
#[derive(Debug, PartialEq, Eq)]
pub enum Token {
    Keyword(SyntacticKeyword),
    Number(i64),
    Boolean(bool),
    Character(char),
    String(String),
    Identifier(String),
    LBracket,
    RBracket,
    HashBracket,
    Quote,
    Quasiquote,
    Unquote,
    UnquoteSplicing,
    Dot,
}

/// A token as a mathematical value: text is a sequence of characters.
pub ghost enum TokenView {
    Keyword(SyntacticKeyword),
    Number(i64),
    Boolean(bool),
    Character(char),
    String(Seq<char>),
    Identifier(Seq<char>),
    LBracket,
    RBracket,
    HashBracket,
    Quote,
    Quasiquote,
    Unquote,
    UnquoteSplicing,
    Dot,
}

impl View for Token {
    type V = TokenView;

    open spec fn view(&self) -> TokenView {
        match self {
            Token::Keyword(k) => TokenView::Keyword(*k),
            Token::Number(v) => TokenView::Number(*v),
            Token::Boolean(b) => TokenView::Boolean(*b),
            Token::Character(c) => TokenView::Character(*c),
            Token::String(text) => TokenView::String(text@),
            Token::Identifier(text) => TokenView::Identifier(text@),
            Token::LBracket => TokenView::LBracket,
            Token::RBracket => TokenView::RBracket,
            Token::HashBracket => TokenView::HashBracket,
            Token::Quote => TokenView::Quote,
            Token::Quasiquote => TokenView::Quasiquote,
            Token::Unquote => TokenView::Unquote,
            Token::UnquoteSplicing => TokenView::UnquoteSplicing,
            Token::Dot => TokenView::Dot,
        }
    }
}

/// A punctuation token at the start of `s`. Of two that start alike the
/// longer comes first: `,@` before `,`.
pub open spec fn lex_punctuation(s: Seq<u8>) -> Lexed<TokenView> {
    if begins_with(s, "("@) {
        Ok((TokenView::LBracket, 1))
    } else if begins_with(s, ")"@) {
        Ok((TokenView::RBracket, 1))
    } else if begins_with(s, "#("@) {
        Ok((TokenView::HashBracket, 2))
    } else if begins_with(s, "'"@) {
        Ok((TokenView::Quote, 1))
    } else if begins_with(s, "`"@) {
        Ok((TokenView::Quasiquote, 1))
    } else if begins_with(s, ",@"@) {
        Ok((TokenView::UnquoteSplicing, 2))
    } else if begins_with(s, ","@) {
        Ok((TokenView::Unquote, 1))
    } else if begins_with(s, "."@) {
        Ok((TokenView::Dot, 1))
    } else {
        Err(failure(ErrorKind::NoMatch, 0))
    }
}

/// The token that an identifier with the given text is: a keyword where the
/// text is the exact spelling of a reserved word, a free identifier otherwise.
pub open spec fn resolve(text: Seq<char>) -> TokenView {
    match keyword_of(text) {
        Some(k) => TokenView::Keyword(k),
        None => TokenView::Identifier(text),
    }
}

/// The failure of a token attempt in which no production matched: that of
/// the literal whose marker opened the input, if there is one, and otherwise
/// the plain statement that nothing matched.
pub open spec fn token_failure(s: Seq<u8>) -> LexError {
    match (lex_integer(s), lex_character(s), lex_string(s)) {
        (Err(e), _, _) if e.kind != ErrorKind::NoMatch => e,
        (_, Err(e), _) if e.kind != ErrorKind::NoMatch => e,
        (_, _, Err(e)) if e.kind != ErrorKind::NoMatch => e,
        _ => failure(ErrorKind::NoMatch, 0),
    }
}

/// The token at the start of `s`: the first, in this order, of an integer,
/// a boolean, a character, a string, an identifier with its keyword
/// resolved, and a punctuation token.
pub open spec fn lex_token(s: Seq<u8>) -> Lexed<TokenView> {
    if let Ok((v, n)) = lex_integer(s) {
        Ok((TokenView::Number(v), n))
    } else if let Ok((b, n)) = lex_boolean(s) {
        Ok((TokenView::Boolean(b), n))
    } else if let Ok((c, n)) = lex_character(s) {
        Ok((TokenView::Character(c), n))
    } else if let Ok((text, n)) = lex_string(s) {
        Ok((TokenView::String(text), n))
    } else if let Ok((text, n)) = lex_identifier(s) {
        Ok((resolve(text), n))
    } else if let Ok((t, n)) = lex_punctuation(s) {
        Ok((t, n))
    } else {
        Err(token_failure(s))
    }
}

/// Reads a punctuation token from the start of `input`.
pub fn punctuation<'a>(input: &'a [u8]) -> (r: Result<(&'a [u8], Token), LexError>)
    ensures
        yields_view(input@, r, lex_punctuation(input@)),
{
    proof {
        reveal_strlit("(");
        reveal_strlit(")");
        reveal_strlit("#(");
        reveal_strlit("'");
        reveal_strlit("`");
        reveal_strlit(",@");
        reveal_strlit(",");
        reveal_strlit(".");
    }
    let (token, n): (Token, usize) = if starts_with(input, "(") {
        (Token::LBracket, 1)
    } else if starts_with(input, ")") {
        (Token::RBracket, 1)
    } else if starts_with(input, "#(") {
        (Token::HashBracket, 2)
    } else if starts_with(input, "'") {
        (Token::Quote, 1)
    } else if starts_with(input, "`") {
        (Token::Quasiquote, 1)
    } else if starts_with(input, ",@") {
        (Token::UnquoteSplicing, 2)
    } else if starts_with(input, ",") {
        (Token::Unquote, 1)
    } else if starts_with(input, ".") {
        (Token::Dot, 1)
    } else {
        return Err(LexError { kind: ErrorKind::NoMatch, position: 0 });
    };
    Ok((slice_subrange(input, n, input.len()), token))
}

/// Reads one token from the start of `input`, and hands back the bytes after
/// it.
pub fn token<'a>(input: &'a [u8]) -> (r: Result<(&'a [u8], Token), LexError>)
    ensures
        yields_view(input@, r, lex_token(input@)),
{
    let in_integer = match integer(input) {
        Ok((rest, v)) => {
            return Ok((rest, Token::Number(v)));
        },
        Err(e) => e,
    };
    if let Ok((rest, b)) = boolean(input) {
        return Ok((rest, Token::Boolean(b)));
    }
    let in_character = match character(input) {
        Ok((rest, c)) => {
            return Ok((rest, Token::Character(c)));
        },
        Err(e) => e,
    };
    let in_string = match string(input) {
        Ok((rest, text)) => {
            return Ok((rest, Token::String(text)));
        },
        Err(e) => e,
    };
    if let Ok((rest, text)) = identifier(input) {
        return match syntactic_keyword(text.as_str()) {
            Some(k) => Ok((rest, Token::Keyword(k))),
            None => Ok((rest, Token::Identifier(text))),
        };
    }
    if let Ok((rest, t)) = punctuation(input) {
        return Ok((rest, t));
    }
    if in_integer.kind != ErrorKind::NoMatch {
        Err(in_integer)
    } else if in_character.kind != ErrorKind::NoMatch {
        Err(in_character)
    } else if in_string.kind != ErrorKind::NoMatch {
        Err(in_string)
    } else {
        Err(LexError { kind: ErrorKind::NoMatch, position: 0 })
    }
}

/// A punctuation token, or the failure to read one, lies within the input.
pub proof fn lemma_lex_punctuation_within(s: Seq<u8>)
    ensures
        within(lex_punctuation(s), s.len()),
{
    reveal_strlit("(");
    reveal_strlit(")");
    reveal_strlit("#(");
    reveal_strlit("'");
    reveal_strlit("`");
    reveal_strlit(",@");
    reveal_strlit(",");
    reveal_strlit(".");
    lemma_begins_with(s, "("@);
    lemma_begins_with(s, ")"@);
    lemma_begins_with(s, "#("@);
    lemma_begins_with(s, "'"@);
    lemma_begins_with(s, "`"@);
    lemma_begins_with(s, ",@"@);
    lemma_begins_with(s, ","@);
    lemma_begins_with(s, "."@);
}

/// Progress: a token takes at least one byte of the input and none beyond
/// it, and a failure is placed within the input.
pub proof fn law_token_within(s: Seq<u8>)
    requires
        s.len() <= usize::MAX,
    ensures
        within(lex_token(s), s.len()),
{
    lemma_lex_integer_within(s);
    lemma_lex_boolean_within(s);
    lemma_lex_character_within(s);
    lemma_lex_string_within(s);
    lemma_lex_identifier_within(s);
    lemma_lex_punctuation_within(s);
}

/// No byte is read twice: where a token is read from `s` and a second one
/// from the remainder, the first lexeme is the `n` bytes at the start of `s`
/// and the second is the `m` bytes that follow them, so the two do not
/// overlap and lie within `s`.
pub proof fn law_remainder_is_fresh(s: Seq<u8>, n: int, m: int)
    requires
        s.len() <= usize::MAX,
        lex_token(s) matches Ok((_, k)) && k == n,
        lex_token(s.skip(n)) matches Ok((_, k)) && k == m,
    ensures
        0 < n,
        0 < m,
        n + m <= s.len(),
        s.skip(n).take(m) == s.subrange(n, n + m),
{
    law_token_within(s);
    law_token_within(s.skip(n));
    assert(s.skip(n).take(m) =~= s.subrange(n, n + m));
}

/// Keywords are whole words: a keyword token is read from an identifier
/// lexeme, which is the longest that the identifier grammar takes, and the
/// text of that lexeme is the exact spelling of the reserved word. A longer
/// identifier that only starts with a reserved word is no keyword.
pub proof fn law_keyword_is_whole_identifier(s: Seq<u8>, k: SyntacticKeyword, n: int)
    requires
        lex_token(s) == Ok::<(TokenView, int), LexError>((TokenView::Keyword(k), n)),
    ensures
        n == identifier_len(s),
        keyword_of(text_of(s.take(n))) == Some(k),
{
}

} // verus!
