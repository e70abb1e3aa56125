//! Lexical analysis for a Scheme-family language: one token from the start of
//! a byte buffer, together with the bytes that the token did not consume.
//!
//! Every recognizer takes the input as bytes and returns either the value it
//! read with the remainder of the input, or a [`LexError`]. What each of them
//! reads is defined by a specification function of the same module, whose
//! name starts with `lex_`.

pub mod boolean;
pub mod character;
pub mod chars;
pub mod error;
pub mod identifier;
pub mod keyword;
pub mod number;
pub mod string;
pub mod token;

pub use crate::boolean::boolean;
pub use crate::character::{anychar, character, first_scalar};
pub use crate::chars::{
    Radix, is_bin_digit, is_digit_in_base, is_initial, is_letter, is_special_initial,
    is_special_subsequent, is_subsequent,
};
pub use crate::error::{Construct, ErrorKind, LexError};
pub use crate::identifier::{common_identifier, identifier, peculiar_identifier};
pub use crate::keyword::{ExpressionKeyword, SyntacticKeyword, expression_keyword, syntactic_keyword};
pub use crate::number::{bin_digit, convert, digits, integer, integer_in, radix_marker, sign};
pub use crate::string::{escape, string, string_content, to_s};
pub use crate::token::{Token, punctuation, token};
