//! The coordinator's public key as hexadecimal text.
//!
//! The text is any number of `0x` prefixes, then six digits of public
//! exponent, two digits that separate, and the digits of the modulus, most
//! significant first.

use vstd::prelude::*;
use crate::encoding::{all_hex, hex_digit_value, is_hex_digit};
use crate::text::characters;

verus! {

/// Digits of the public exponent.
pub const EXPONENT_DIGITS: usize = 6;

/// Digits before the modulus: the exponent and the separator.
pub const HEADER_DIGITS: usize = 8;

/// The most digits a modulus may have, leading zeros aside: 4096 bits.
pub const MAX_MODULUS_DIGITS: usize = 1024;

/// Why a text is no public key.
#[derive(Clone, Copy, Debug, PartialEq, Eq, Structural)]
pub enum KeyError {
    /// Fewer than eight characters follow the prefix.
    TooShort,
    /// Some character after the prefix is no hexadecimal digit.
    BadDigit,
    /// The digits do not pair up into bytes.
    OddLength,
    /// The public exponent is below two.
    SmallExponent,
    /// The modulus is zero.
    ZeroModulus,
    /// The modulus is longer than 4096 bits.
    LargeModulus,
}

/// `s` without its leading `0x` prefixes, however many.
pub open spec fn key_body(s: Seq<char>) -> Seq<char>
    decreases s.len(),
{
    if s.len() >= 2 && s[0] == '0' && s[1] == 'x' {
        key_body(s.skip(2))
    } else {
        s
    }
}

/// The number that the hexadecimal digits `d` spell.
pub open spec fn digits_value(d: Seq<char>) -> nat
    decreases d.len(),
{
    if d.len() == 0 {
        0
    } else {
        (16 * digits_value(d.drop_last()) + hex_digit_value(d.last())) as nat
    }
}

/// `d` without its leading zeros.
pub open spec fn significant(d: Seq<char>) -> Seq<char>
    decreases d.len(),
{
    if d.len() > 0 && d[0] == '0' {
        significant(d.skip(1))
    } else {
        d
    }
}

/// Whether `s` is a public key, and if not, the first reason why.
pub open spec fn key_check(s: Seq<char>) -> Result<(), KeyError> {
    let body = key_body(s);
    if body.len() < HEADER_DIGITS {
        Err(KeyError::TooShort)
    } else if !all_hex(body) {
        Err(KeyError::BadDigit)
    } else if body.len() % 2 != 0 {
        Err(KeyError::OddLength)
    } else if digits_value(body.subrange(0, EXPONENT_DIGITS as int)) < 2 {
        Err(KeyError::SmallExponent)
    } else if significant(body.skip(HEADER_DIGITS as int)).len() == 0 {
        Err(KeyError::ZeroModulus)
    } else if significant(body.skip(HEADER_DIGITS as int)).len() > MAX_MODULUS_DIGITS {
        Err(KeyError::LargeModulus)
    } else {
        Ok(())
    }
}

/// `s` is a public key.
pub open spec fn valid_key(s: Seq<char>) -> bool {
    key_check(s) is Ok
}

/// Tells whether `c` is a hexadecimal digit.
pub fn hex_digit(c: char) -> (r: bool)
    ensures
        r == is_hex_digit(c),
{
    (c >= '0' && c <= '9') || (c >= 'a' && c <= 'f') || (c >= 'A' && c <= 'F')
}

/// The number that the hexadecimal digit `c` stands for.
pub fn digit_value(c: char) -> (r: u8)
    requires
        is_hex_digit(c),
    ensures
        r == hex_digit_value(c),
        r < 16,
{
    if c >= '0' && c <= '9' {
        (c as u32 - '0' as u32) as u8
    } else if c >= 'a' && c <= 'f' {
        (c as u32 - 'a' as u32 + 10) as u8
    } else {
        (c as u32 - 'A' as u32 + 10) as u8
    }
}

/// Index of the first character of `chars` behind its `0x` prefixes.
fn body_start(chars: &Vec<char>) -> (p: usize)
    ensures
        p <= chars@.len(),
        key_body(chars@) == chars@.skip(p as int),
{
    let n = chars.len();
    let mut p: usize = 0;
    assert(chars@.skip(0) =~= chars@);
    while p < n && n - p >= 2 && chars[p] == '0' && chars[p + 1] == 'x'
        invariant
            p <= n,
            n == chars@.len(),
            key_body(chars@) == key_body(chars@.skip(p as int)),
        decreases n - p,
    {
        assert(chars@.skip(p as int).skip(2) =~= chars@.skip(p + 2));
        p += 2;
    }
    p
}

/// Checks that `text` is a public key.
#[verifier::loop_isolation(false)]
pub fn check_key(text: &str) -> (r: Result<(), KeyError>)
    ensures
        r == key_check(text@),
{
    let chars = characters(text);
    let n = chars.len();
    let start = body_start(&chars);
    let ghost body = chars@.skip(start as int);
    if n - start < HEADER_DIGITS {
        return Err(KeyError::TooShort);
    }
    let mut i: usize = start;
    while i < n
        invariant
            start <= i <= n,
            n == chars@.len(),
            body == chars@.skip(start as int),
            forall|k: int| 0 <= k < i - start ==> is_hex_digit(#[trigger] body[k]),
        decreases n - i,
    {
        if !hex_digit(chars[i]) {
            assert(!is_hex_digit(body[i - start]));
            assert(!all_hex(body));
            return Err(KeyError::BadDigit);
        }
        i += 1;
    }
    assert(all_hex(body));
    if (n - start) % 2 != 0 {
        return Err(KeyError::OddLength);
    }
    let ghost exponent = body.subrange(0, EXPONENT_DIGITS as int);
    let mut value: u32 = 0;
    let mut e: usize = 0;
    assert(exponent.take(0) =~= Seq::empty());
    while e < EXPONENT_DIGITS
        invariant
            e <= EXPONENT_DIGITS,
            start + HEADER_DIGITS <= n,
            n == chars@.len(),
            body == chars@.skip(start as int),
            exponent == body.subrange(0, EXPONENT_DIGITS as int),
            all_hex(body),
            value == digits_value(exponent.take(e as int)),
            value < pow16(e as nat),
        decreases EXPONENT_DIGITS - e,
    {
        let c = chars[start + e];
        assert(c == body[e as int]);
        assert(exponent.take(e + 1).drop_last() =~= exponent.take(e as int));
        assert(exponent.take(e + 1).last() == c);
        assert(pow16((e + 1) as nat) == 16 * pow16(e as nat));
        assert(pow16(6) == 16777216) by {
            reveal_with_fuel(pow16, 7);
        }
        assert(pow16((e + 1) as nat) <= pow16(6)) by {
            lemma_pow16_monotonic((e + 1) as nat, 6);
        }
        value = value * 16 + digit_value(c) as u32;
        e += 1;
    }
    assert(exponent.take(EXPONENT_DIGITS as int) =~= exponent);
    if value < 2 {
        return Err(KeyError::SmallExponent);
    }
    let ghost modulus = body.skip(HEADER_DIGITS as int);
    let mut m: usize = start + HEADER_DIGITS;
    assert(modulus.skip(0) =~= modulus);
    while m < n && chars[m] == '0'
        invariant
            start + HEADER_DIGITS <= m <= n,
            n == chars@.len(),
            body == chars@.skip(start as int),
            modulus == body.skip(HEADER_DIGITS as int),
            significant(modulus) == significant(modulus.skip(m - start - HEADER_DIGITS)),
        decreases n - m,
    {
        assert(modulus.skip(m - start - HEADER_DIGITS)[0] == chars@[m as int]);
        assert(modulus.skip(m - start - HEADER_DIGITS).skip(1) =~= modulus.skip(
            m + 1 - start - HEADER_DIGITS,
        ));
        m += 1;
    }
    assert(significant(modulus) == modulus.skip(m - start - HEADER_DIGITS)) by {
        if m < n {
            assert(modulus.skip(m - start - HEADER_DIGITS)[0] == chars@[m as int]);
        }
    }
    if n - m == 0 {
        Err(KeyError::ZeroModulus)
    } else if n - m > MAX_MODULUS_DIGITS {
        Err(KeyError::LargeModulus)
    } else {
        Ok(())
    }
}

/// Sixteen to the power `e`.
pub open spec fn pow16(e: nat) -> nat
    decreases e,
{
    if e == 0 {
        1
    } else {
        16 * pow16((e - 1) as nat)
    }
}

/// Powers of sixteen grow with the exponent.
pub proof fn lemma_pow16_monotonic(a: nat, b: nat)
    requires
        a <= b,
    ensures
        pow16(a) <= pow16(b),
    decreases b,
{
    if a < b {
        lemma_pow16_monotonic(a, (b - 1) as nat);
    }
}

} // verus!
