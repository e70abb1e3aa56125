use scheme_lexer::{
    is_digit_in_base, is_initial, is_letter, is_special_initial, is_special_subsequent,
    is_subsequent,
};
use scheme_lexer::Radix;

fn members(class: fn(u8) -> bool) -> Vec<u8> {
    let mut found = Vec::new();
    for c in 0..=255u8 {
        if class(c) {
            found.push(c);
        }
    }
    found
}

fn binary(c: u8) -> bool {
    is_digit_in_base(c, Radix::Binary)
}

fn octal(c: u8) -> bool {
    is_digit_in_base(c, Radix::Octal)
}

fn decimal(c: u8) -> bool {
    is_digit_in_base(c, Radix::Decimal)
}

fn hexadecimal(c: u8) -> bool {
    is_digit_in_base(c, Radix::Hexadecimal)
}

#[test]
fn digits_of_each_base() {
    assert_eq!(members(binary), b"01".to_vec());
    assert_eq!(members(octal), b"01234567".to_vec());
    assert_eq!(members(decimal), b"0123456789".to_vec());
    assert_eq!(members(hexadecimal), b"0123456789ABCDEFabcdef".to_vec());
}

#[test]
fn letters_are_lower_case_ascii() {
    assert_eq!(members(is_letter), b"abcdefghijklmnopqrstuvwxyz".to_vec());
    assert!(!is_letter(b'A'));
    assert!(!is_letter(b'Z'));
    assert!(!is_letter(0xe9));
}

#[test]
fn special_characters() {
    assert_eq!(members(is_special_initial), b"!$%&*/:<=>?^_~".to_vec());
    assert_eq!(members(is_special_subsequent), b"+-.@".to_vec());
}

#[test]
fn initial_and_subsequent_characters() {
    assert_eq!(
        members(is_initial),
        b"!$%&*/:<=>?^_abcdefghijklmnopqrstuvwxyz~".to_vec()
    );
    assert_eq!(
        members(is_subsequent),
        b"!$%&*+-./0123456789:<=>?@^_abcdefghijklmnopqrstuvwxyz~".to_vec()
    );
}
