//! The reserved words of the language, and the table that tells a reserved
//! word from a free identifier by its exact spelling.

use vstd::prelude::*;
use vstd::utf8::{encode_utf8, encode_utf8_decode_utf8};

verus! {

/// A reserved word that introduces an expression.
#[derive(Clone, Copy, Debug, PartialEq, Eq, Structural)]
pub enum ExpressionKeyword {
    Quote,
    Lambda,
    If,
    SetBang,
    Begin,
    Cond,
    And,
    Or,
    Case,
    Let,
    LetStar,
    LetRec,
    Do,
    Delay,
    Quasiquote,
}

/// A reserved word.
#[derive(Clone, Copy, Debug, PartialEq, Eq, Structural)]
pub enum SyntacticKeyword {
    Else,
    Arrow,
    Define,
    Unquote,
    UnquoteSplicing,
    Expression(ExpressionKeyword),
}

/// The expression keyword that `word` spells, letter for letter.
pub open spec fn expression_keyword_of(word: Seq<char>) -> Option<ExpressionKeyword> {
    if word == "quote"@ {
        Some(ExpressionKeyword::Quote)
    } else if word == "lambda"@ {
        Some(ExpressionKeyword::Lambda)
    } else if word == "if"@ {
        Some(ExpressionKeyword::If)
    } else if word == "set!"@ {
        Some(ExpressionKeyword::SetBang)
    } else if word == "begin"@ {
        Some(ExpressionKeyword::Begin)
    } else if word == "cond"@ {
        Some(ExpressionKeyword::Cond)
    } else if word == "and"@ {
        Some(ExpressionKeyword::And)
    } else if word == "or"@ {
        Some(ExpressionKeyword::Or)
    } else if word == "case"@ {
        Some(ExpressionKeyword::Case)
    } else if word == "letrec"@ {
        Some(ExpressionKeyword::LetRec)
    } else if word == "let*"@ {
        Some(ExpressionKeyword::LetStar)
    } else if word == "let"@ {
        Some(ExpressionKeyword::Let)
    } else if word == "do"@ {
        Some(ExpressionKeyword::Do)
    } else if word == "delay"@ {
        Some(ExpressionKeyword::Delay)
    } else if word == "quasiquote"@ {
        Some(ExpressionKeyword::Quasiquote)
    } else {
        None
    }
}

/// The reserved word that `word` spells, letter for letter. A word that
/// only starts with a reserved word, or is the start of one, is none.
pub open spec fn keyword_of(word: Seq<char>) -> Option<SyntacticKeyword> {
    match expression_keyword_of(word) {
        Some(e) => Some(SyntacticKeyword::Expression(e)),
        None => if word == "else"@ {
            Some(SyntacticKeyword::Else)
        } else if word == "=>"@ {
            Some(SyntacticKeyword::Arrow)
        } else if word == "define"@ {
            Some(SyntacticKeyword::Define)
        } else if word == "unquote-splicing"@ {
            Some(SyntacticKeyword::UnquoteSplicing)
        } else if word == "unquote"@ {
            Some(SyntacticKeyword::Unquote)
        } else {
            None
        },
    }
}

/// Whether two texts are the same, character for character.
pub fn same_text(a: &str, b: &str) -> (r: bool)
    ensures
        r == (a@ == b@),
{
    let x = a.as_bytes();
    let y = b.as_bytes();
    proof {
        encode_utf8_decode_utf8(a@);
        encode_utf8_decode_utf8(b@);
    }
    if x.len() != y.len() {
        return false;
    }
    let mut i: usize = 0;
    while i < x.len()
        invariant
            i <= x.len(),
            x.len() == y.len(),
            x@ == encode_utf8(a@),
            y@ == encode_utf8(b@),
            forall|j: int| 0 <= j < i ==> x[j] == y[j],
        decreases x.len() - i,
    {
        if x[i] != y[i] {
            return false;
        }
        i += 1;
    }
    assert(x@ =~= y@);
    true
}

/// Looks `word` up among the expression keywords.
pub fn expression_keyword(word: &str) -> (r: Option<ExpressionKeyword>)
    ensures
        r == expression_keyword_of(word@),
{
    if same_text(word, "quote") {
        Some(ExpressionKeyword::Quote)
    } else if same_text(word, "lambda") {
        Some(ExpressionKeyword::Lambda)
    } else if same_text(word, "if") {
        Some(ExpressionKeyword::If)
    } else if same_text(word, "set!") {
        Some(ExpressionKeyword::SetBang)
    } else if same_text(word, "begin") {
        Some(ExpressionKeyword::Begin)
    } else if same_text(word, "cond") {
        Some(ExpressionKeyword::Cond)
    } else if same_text(word, "and") {
        Some(ExpressionKeyword::And)
    } else if same_text(word, "or") {
        Some(ExpressionKeyword::Or)
    } else if same_text(word, "case") {
        Some(ExpressionKeyword::Case)
    } else if same_text(word, "letrec") {
        Some(ExpressionKeyword::LetRec)
    } else if same_text(word, "let*") {
        Some(ExpressionKeyword::LetStar)
    } else if same_text(word, "let") {
        Some(ExpressionKeyword::Let)
    } else if same_text(word, "do") {
        Some(ExpressionKeyword::Do)
    } else if same_text(word, "delay") {
        Some(ExpressionKeyword::Delay)
    } else if same_text(word, "quasiquote") {
        Some(ExpressionKeyword::Quasiquote)
    } else {
        None
    }
}

/// Looks `word` up among the reserved words. The longer of two words that
/// start alike stands before the shorter.
pub fn syntactic_keyword(word: &str) -> (r: Option<SyntacticKeyword>)
    ensures
        r == keyword_of(word@),
{
    match expression_keyword(word) {
        Some(e) => Some(SyntacticKeyword::Expression(e)),
        None => if same_text(word, "else") {
            Some(SyntacticKeyword::Else)
        } else if same_text(word, "=>") {
            Some(SyntacticKeyword::Arrow)
        } else if same_text(word, "define") {
            Some(SyntacticKeyword::Define)
        } else if same_text(word, "unquote-splicing") {
            Some(SyntacticKeyword::UnquoteSplicing)
        } else if same_text(word, "unquote") {
            Some(SyntacticKeyword::Unquote)
        } else {
            None
        },
    }
}

} // verus!
