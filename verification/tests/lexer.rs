use scheme_lexer::{boolean, character, integer, token};
use scheme_lexer::{ExpressionKeyword, SyntacticKeyword, Token};

#[test]
fn test_boolean() {
    assert_eq!(boolean("#t".as_bytes()), Ok((&b""[..], true)));
    assert_eq!(boolean("#f".as_bytes()), Ok((&b""[..], false)));
}

#[test]
fn test_character() {
    assert_eq!(character("#\\space".as_bytes()), Ok((&b""[..], ' ')));
    assert_eq!(character("#\\newline".as_bytes()), Ok((&b""[..], '\n')));
    assert_eq!(character("#\\ ".as_bytes()), Ok((&b""[..], ' ')));
    assert_eq!(character("#\\X".as_bytes()), Ok((&b""[..], 'X')));
}

#[test]
fn test_integer() {
    assert_eq!(integer("1".as_bytes()), Ok((&b""[..], 1)));
    assert_eq!(integer("#d+1".as_bytes()), Ok((&b""[..], 1)));
    assert_eq!(integer("-1".as_bytes()), Ok((&b""[..], -1)));
    assert_eq!(integer("#b010101".as_bytes()), Ok((&b""[..], 21)));
    assert_eq!(integer("#o77".as_bytes()), Ok((&b""[..], 63)));
    assert_eq!(integer("#xFF".as_bytes()), Ok((&b""[..], 255)));
    assert_eq!(integer("#x-ff".as_bytes()), Ok((&b""[..], -255)));
}

#[test]
fn test_token() {
    assert_eq!(token("1".as_bytes()), Ok((&b""[..], Token::Number(1))));
    assert_eq!(
        token("else".as_bytes()),
        Ok((&b""[..], Token::Keyword(SyntacticKeyword::Else)))
    );
    assert_eq!(
        token("lambda".as_bytes()),
        Ok((
            &b""[..],
            Token::Keyword(SyntacticKeyword::Expression(ExpressionKeyword::Lambda))
        ))
    );
    assert_eq!(
        token("#\\space".as_bytes()),
        Ok((&b""[..], Token::Character(' ')))
    );
}
