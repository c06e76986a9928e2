//! Hexadecimal text, the form in which tickets, keys and addresses are kept.

use vstd::prelude::*;

verus! {

/// `c` is one of `0-9`, `a-f`, `A-F`.
pub open spec fn is_hex_digit(c: char) -> bool {
    ('0' <= c && c <= '9') || ('a' <= c && c <= 'f') || ('A' <= c && c <= 'F')
}

/// The number that a hexadecimal digit stands for.
pub open spec fn hex_digit_value(c: char) -> int {
    if '0' <= c && c <= '9' {
        c as int - '0' as int
    } else if 'a' <= c && c <= 'f' {
        c as int - 'a' as int + 10
    } else {
        c as int - 'A' as int + 10
    }
}

/// The lower-case digit for a number below sixteen.
pub open spec fn lower_hex_digit(v: int) -> char {
    if v < 10 {
        ('0' as int + v) as char
    } else {
        ('a' as int + v - 10) as char
    }
}

/// `s` begins with `0x` or `0X`.
pub open spec fn has_prefix(s: Seq<char>) -> bool {
    s.len() >= 2 && s[0] == '0' && (s[1] == 'x' || s[1] == 'X')
}

/// `s` without one leading `0x` or `0X`, if it has one.
pub open spec fn strip_prefix(s: Seq<char>) -> Seq<char> {
    if has_prefix(s) {
        s.skip(2)
    } else {
        s
    }
}

/// Every character of `s` is a hexadecimal digit.
pub open spec fn all_hex(s: Seq<char>) -> bool {
    forall|i: int| 0 <= i < s.len() ==> is_hex_digit(#[trigger] s[i])
}

/// `s` is an even number of hexadecimal digits behind an optional prefix.
pub open spec fn decodable(s: Seq<char>) -> bool {
    s.len() % 2 == 0 && all_hex(strip_prefix(s))
}

/// The bytes that the digits of `s` spell, two digits to a byte, high digit first.
pub open spec fn decoded(s: Seq<char>) -> Seq<u8> {
    let d = strip_prefix(s);
    Seq::new(
        d.len() / 2,
        |i: int| (16 * hex_digit_value(d[2 * i]) + hex_digit_value(d[2 * i + 1])) as u8,
    )
}

/// Two lower-case digits for each byte of `bytes`.
pub open spec fn encoded(bytes: Seq<u8>) -> Seq<char> {
    Seq::new(
        2 * bytes.len(),
        |i: int|
            if i % 2 == 0 {
                lower_hex_digit(bytes[i / 2] as int / 16)
            } else {
                lower_hex_digit(bytes[i / 2] as int % 16)
            },
    )
}

/// `0x` followed by the digits of `bytes`.
pub open spec fn encoded_prefixed(bytes: Seq<u8>) -> Seq<char> {
    seq!['0', 'x'] + encoded(bytes)
}

/// Decoding undoes encoding: the prefixed text of any bytes is decodable, and
/// decodes to those bytes.
pub proof fn lemma_decode_encoded(bytes: Seq<u8>)
    ensures
        decodable(encoded_prefixed(bytes)),
        decoded(encoded_prefixed(bytes)) == bytes,
{
    let text = encoded_prefixed(bytes);
    let digits = encoded(bytes);
    assert(has_prefix(text));
    assert(strip_prefix(text) =~= digits);
    assert forall|i: int| 0 <= i < digits.len() implies is_hex_digit(#[trigger] digits[i]) by {
        let b = bytes[i / 2] as int;
        assert(0 <= b / 16 < 16 && 0 <= b % 16 < 16);
    }
    assert forall|i: int| 0 <= i < bytes.len() implies decoded(text)[i] == bytes[i] by {
        let b = bytes[i] as int;
        assert(0 <= b / 16 < 16 && 0 <= b % 16 < 16);
        assert((2 * i) / 2 == i && (2 * i + 1) / 2 == i);
        assert((2 * i) % 2 == 0 && (2 * i + 1) % 2 == 1);
        assert(hex_digit_value(lower_hex_digit(b / 16)) == b / 16);
        assert(hex_digit_value(lower_hex_digit(b % 16)) == b % 16);
        assert(digits[2 * i] == lower_hex_digit(b / 16));
        assert(digits[2 * i + 1] == lower_hex_digit(b % 16));
    }
    assert(decoded(text) =~= bytes);
}

/// Calls `alloy::hex::decode`, which accepts an even number of hexadecimal
/// digits of either case behind an optional `0x` or `0X` and gives the bytes
/// they spell; any other text is an error, returned here as `None`.
#[verifier::external_body]
pub(crate) fn decode(text: &str) -> (r: Option<Vec<u8>>)
    ensures
        r is Some <==> decodable(text@),
        r matches Some(bytes) ==> bytes@ == decoded(text@),
{
    alloy::hex::decode(text).ok()
}

/// Calls `alloy::hex::encode_prefixed`, which writes `0x` and then two
/// lower-case digits for each byte.
#[verifier::external_body]
pub(crate) fn encode_prefixed(bytes: &[u8]) -> (r: String)
    ensures
        r@ == encoded_prefixed(bytes@),
{
    alloy::hex::encode_prefixed(bytes)
}

} // verus!
