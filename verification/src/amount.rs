//! Amounts of wei: unsigned 256-bit integers.
//!
//! An amount is held as four 64-bit limbs and stands for a natural number
//! below 2^256. Arithmetic never wraps: a result that does not fit is
//! reported, not truncated.

use vstd::prelude::*;
use alloy::primitives::U256;
use crate::text::{characters, string_of};

verus! {

/// An amount of wei, below 2^256. Limbs are least significant first.
#[derive(Clone, Copy, Debug, PartialEq, Eq)]
pub struct Wei {
    pub limbs: [u64; 4],
}

/// 2^64, the weight of the second limb.
pub open spec fn limb_base() -> nat {
    0x1_0000_0000_0000_0000
}

/// 2^256, which no amount reaches.
pub open spec fn limit() -> nat {
    limb_base() * limb_base() * limb_base() * limb_base()
}

/// Wei in one ether: 10^18.
pub const WEI_PER_ETH: u64 = 1_000_000_000_000_000_000;

/// Digits behind the decimal point of an amount in ether.
pub const ETH_DECIMALS: usize = 18;

impl View for Wei {
    type V = nat;

    open spec fn view(&self) -> nat {
        (self.limbs@[0] as nat) + (self.limbs@[1] as nat) * limb_base() + (self.limbs@[2] as nat)
            * limb_base() * limb_base() + (self.limbs@[3] as nat) * limb_base() * limb_base()
            * limb_base()
    }
}

/// The number that the character stands for as a digit: `0-9` for themselves,
/// letters of either case from ten on. A negative number for other characters.
pub open spec fn digit_of(c: char) -> int {
    if '0' <= c && c <= '9' {
        c as int - '0' as int
    } else if 'a' <= c && c <= 'z' {
        c as int - 'a' as int + 10
    } else if 'A' <= c && c <= 'Z' {
        c as int - 'A' as int + 10
    } else {
        -1
    }
}

/// The radix that the first two characters of `s` announce: sixteen for
/// `0x`, eight for `0o`, two for `0b`, in either case; ten without any.
pub open spec fn radix_of(s: Seq<char>) -> int {
    if s.len() >= 2 && s[0] == '0' {
        if s[1] == 'x' || s[1] == 'X' {
            16
        } else if s[1] == 'o' || s[1] == 'O' {
            8
        } else if s[1] == 'b' || s[1] == 'B' {
            2
        } else {
            10
        }
    } else {
        10
    }
}

/// The digits of `s`: what follows the two characters that announce a radix,
/// or all of `s` where none is announced.
pub open spec fn numeral(s: Seq<char>) -> Seq<char> {
    if radix_of(s) == 10 {
        s
    } else {
        s.skip(2)
    }
}

/// Every character of `d` is a digit of the radix, or an underscore.
pub open spec fn numeral_ok(d: Seq<char>, radix: int) -> bool {
    forall|i: int| 0 <= i < d.len() ==> (#[trigger] d[i]) == '_' || 0 <= digit_of(d[i]) < radix
}

/// The number that the digits `d` spell in the radix, underscores passed over.
pub open spec fn numeral_value(d: Seq<char>, radix: int) -> int
    decreases d.len(),
{
    if d.len() == 0 {
        0
    } else if d.last() == '_' {
        numeral_value(d.drop_last(), radix)
    } else {
        numeral_value(d.drop_last(), radix) * radix + digit_of(d.last())
    }
}

/// The amount that `s` spells, if it spells one: digits of the announced
/// radix, with underscores allowed among them, whose value is below 2^256.
/// No digits at all spell zero.
pub open spec fn amount_value(s: Seq<char>) -> Option<nat> {
    let digits = numeral(s);
    let radix = radix_of(s);
    if numeral_ok(digits, radix) && 0 <= numeral_value(digits, radix) < limit() {
        Some(numeral_value(digits, radix) as nat)
    } else {
        None
    }
}

/// The character for a digit below ten.
pub open spec fn digit_char(d: nat) -> char {
    ('0' as nat + d) as char
}

/// The digits of `v` in base ten, without leading zeros; `0` for zero.
pub open spec fn decimal(v: nat) -> Seq<char>
    decreases v,
{
    if v < 10 {
        seq![digit_char(v)]
    } else {
        decimal(v / 10).push(digit_char(v % 10))
    }
}

/// The last `width` digits of `v` in base ten, zeros in front where `v` has
/// fewer.
pub open spec fn fixed_decimal(v: nat, width: nat) -> Seq<char>
    decreases width,
{
    if width == 0 {
        Seq::empty()
    } else {
        fixed_decimal(v / 10, (width - 1) as nat).push(digit_char(v % 10))
    }
}

/// `d` without its trailing zeros.
pub open spec fn trimmed(d: Seq<char>) -> Seq<char>
    decreases d.len(),
{
    if d.len() > 0 && d.last() == '0' {
        trimmed(d.drop_last())
    } else {
        d
    }
}

/// An amount of wei written in ether: the whole ethers, a point, the
/// fraction to eighteen places without its trailing zeros, and the unit.
pub open spec fn eth_text(wei: nat) -> Seq<char> {
    decimal(wei / (WEI_PER_ETH as nat)) + seq!['.'] + trimmed(
        fixed_decimal(wei % (WEI_PER_ETH as nat), ETH_DECIMALS as nat),
    ) + seq![' ', 'E', 'T', 'H']
}

/// Calls `U256::checked_mul`, which gives the product where it is below
/// 2^256 and `None` where it is not.
#[verifier::external_body]
fn checked_mul(a: Wei, b: Wei) -> (r: Option<Wei>)
    ensures
        match r {
            Some(p) => p@ == a@ * b@,
            None => a@ * b@ >= limit(),
        },
{
    U256::from_limbs(a.limbs).checked_mul(U256::from_limbs(b.limbs)).map(
        |p| Wei { limbs: p.into_limbs() },
    )
}

/// Calls `U256::checked_add`, which gives the sum where it is below 2^256
/// and `None` where it is not.
#[verifier::external_body]
fn checked_add(a: Wei, b: Wei) -> (r: Option<Wei>)
    ensures
        match r {
            Some(s) => s@ == a@ + b@,
            None => a@ + b@ >= limit(),
        },
{
    U256::from_limbs(a.limbs).checked_add(U256::from_limbs(b.limbs)).map(
        |s| Wei { limbs: s.into_limbs() },
    )
}

/// Calls `U256::div_rem`, which gives quotient and remainder of the division
/// by a divisor that is not zero.
#[verifier::external_body]
fn div_rem(a: Wei, b: Wei) -> (r: (Wei, Wei))
    requires
        b@ != 0,
    ensures
        r.0@ == a@ / b@,
        r.1@ == a@ % b@,
{
    let (q, r) = U256::from_limbs(a.limbs).div_rem(U256::from_limbs(b.limbs));
    (Wei { limbs: q.into_limbs() }, Wei { limbs: r.into_limbs() })
}

/// Calls `U256::from_str`, which reads a number in the radix that the text
/// announces, passes over underscores, and fails on any other character that
/// is no digit of the radix and on a value of 2^256 or more.
#[verifier::external_body]
pub(crate) fn from_str(text: &str) -> (r: Option<Wei>)
    ensures
        match r {
            Some(w) => amount_value(text@) == Some(w@),
            None => amount_value(text@) is None,
        },
{
    text.parse::<U256>().ok().map(|v| Wei { limbs: v.into_limbs() })
}

/// Calls `U256::to_string`, which writes the number in base ten.
#[verifier::external_body]
fn to_decimal(a: Wei) -> (r: String)
    ensures
        r@ == decimal(a@),
{
    U256::from_limbs(a.limbs).to_string()
}

impl Wei {
    /// The amount `value`.
    pub fn from_u64(value: u64) -> (r: Wei)
        ensures
            r@ == value,
    {
        Wei { limbs: [value, 0, 0, 0] }
    }
}

/// The amount payable for `count` tickets at `ticket_cost` each, with
/// `shipping_cost` added once. `None` where that is 2^256 or more.
pub fn total_cost(ticket_cost: Wei, shipping_cost: Wei, count: usize) -> (r: Option<Wei>)
    ensures
        match r {
            Some(t) => t@ == ticket_cost@ * count + shipping_cost@ && t@ < limit(),
            None => ticket_cost@ * count + shipping_cost@ >= limit(),
        },
{
    match checked_mul(ticket_cost, Wei::from_u64(count as u64)) {
        Some(product) => checked_add(product, shipping_cost),
        None => None,
    }
}

/// The character for the digit `d`.
fn digit(d: u64) -> (r: char)
    requires
        d < 10,
    ensures
        r == digit_char(d as nat),
{
    let code: u8 = 48 + d as u8;
    code as char
}

/// The last `width` digits of `v` in base ten.
fn fixed_digits(v: u64, width: usize) -> (r: Vec<char>)
    ensures
        r@ == fixed_decimal(v as nat, width as nat),
    decreases width,
{
    if width == 0 {
        Vec::new()
    } else {
        let mut digits = fixed_digits(v / 10, width - 1);
        digits.push(digit(v % 10));
        digits
    }
}

/// The digits of `v` in base ten.
pub fn decimal_digits(v: u64) -> (r: Vec<char>)
    ensures
        r@ == decimal(v as nat),
    decreases v,
{
    if v < 10 {
        let mut digits = Vec::new();
        digits.push(digit(v));
        digits
    } else {
        let mut digits = decimal_digits(v / 10);
        digits.push(digit(v % 10));
        digits
    }
}

/// Drops the trailing zeros of `digits`.
fn trim(digits: &mut Vec<char>)
    ensures
        final(digits)@ == trimmed(old(digits)@),
{
    while digits.len() > 0 && digits[digits.len() - 1] == '0'
        invariant
            trimmed(digits@) == trimmed(old(digits)@),
        decreases digits@.len(),
    {
        digits.pop();
    }
}

/// Writes an amount of wei in ether, as `1.5 ETH`: the fraction has as many
/// places as it needs, none where the amount is whole ethers.
pub fn u256_to_eth(wei: Wei) -> (r: String)
    ensures
        r@ == eth_text(wei@),
{
    let (whole, rest) = div_rem(wei, Wei::from_u64(WEI_PER_ETH));
    assert(rest.limbs@[1] == 0 && rest.limbs@[2] == 0 && rest.limbs@[3] == 0) by {
        lemma_small_amount(rest);
    }
    let mut text = characters(to_decimal(whole).as_str());
    text.push('.');
    let mut fraction = fixed_digits(rest.limbs[0], ETH_DECIMALS);
    trim(&mut fraction);
    let mut places = fraction;
    text.append(&mut places);
    text.push(' ');
    text.push('E');
    text.push('T');
    text.push('H');
    assert(text@ =~= eth_text(wei@));
    string_of(&text)
}

/// An amount below 2^64 lies in its first limb.
proof fn lemma_small_amount(a: Wei)
    requires
        a@ < limb_base(),
    ensures
        a.limbs@[1] == 0,
        a.limbs@[2] == 0,
        a.limbs@[3] == 0,
        a.limbs@[0] == a@,
{
    let b = limb_base();
    let l1 = a.limbs@[1] as nat;
    let l2 = a.limbs@[2] as nat;
    let l3 = a.limbs@[3] as nat;
    assert(l1 > 0 ==> l1 * b >= b) by (nonlinear_arith)
        requires
            b > 0,
    ;
    assert(l2 > 0 ==> l2 * b * b >= b) by (nonlinear_arith)
        requires
            b > 0,
    ;
    assert(l3 > 0 ==> l3 * b * b * b >= b) by (nonlinear_arith)
        requires
            b > 0,
    ;
    assert(l2 * b * b >= 0 && l3 * b * b * b >= 0 && l1 * b >= 0) by (nonlinear_arith)
        requires
            b > 0,
    ;
}

} // verus!
