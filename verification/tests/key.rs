use stealth_gas::key::{check_key, digit_value, hex_digit, KeyError};
use stealth_gas::network::get_default_pubkey;

#[test]
fn the_default_key_is_a_key() {
    assert_eq!(check_key(&get_default_pubkey(17000)), Ok(()));
}

#[test]
fn keys_are_checked_in_order() {
    assert_eq!(check_key(""), Err(KeyError::TooShort));
    assert_eq!(check_key("0x0x0x0100010"), Err(KeyError::TooShort));
    assert_eq!(check_key("0X01000100ff"), Err(KeyError::BadDigit));
    assert_eq!(check_key("01000100f\u{e9}"), Err(KeyError::BadDigit));
    assert_eq!(check_key("0x01000100f"), Err(KeyError::OddLength));
    assert_eq!(check_key("0x00000000ff"), Err(KeyError::SmallExponent));
    assert_eq!(check_key("0x00000100ff"), Err(KeyError::SmallExponent));
    assert_eq!(check_key("0x00000200ff"), Ok(()));
    assert_eq!(check_key("0x01000100"), Err(KeyError::ZeroModulus));
    assert_eq!(check_key("0x0100010000"), Err(KeyError::ZeroModulus));
    assert_eq!(check_key("0x0x01000100ff"), Ok(()));
    assert_eq!(check_key("01000100ff"), Ok(()));
    assert_eq!(check_key("0x01000100FF"), Ok(()));
}

#[test]
fn a_modulus_may_have_4096_bits_and_no_more() {
    let widest = format!("0x0100010000{}", "f".repeat(1024));
    assert_eq!(check_key(&widest), Ok(()));
    let wider = format!("0x0100010001{}", "0".repeat(1024));
    assert_eq!(check_key(&wider), Err(KeyError::LargeModulus));
}

#[test]
fn hexadecimal_digits_have_their_values() {
    assert!(hex_digit('0') && hex_digit('9') && hex_digit('a') && hex_digit('F'));
    assert!(!hex_digit('g') && !hex_digit('x') && !hex_digit(' ') && !hex_digit('/'));
    assert_eq!(digit_value('0'), 0);
    assert_eq!(digit_value('9'), 9);
    assert_eq!(digit_value('a'), 10);
    assert_eq!(digit_value('F'), 15);
}
