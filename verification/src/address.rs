//! Account and contract addresses: twenty bytes, written in hexadecimal.

use vstd::prelude::*;
use crate::encoding::{decodable, decode, decoded};
use crate::text::{characters, string_of};

verus! {

/// Number of bytes in an address.
pub const ADDRESS_LEN: usize = 20;

/// An address.
#[derive(Clone, Copy, Debug, PartialEq, Eq)]
pub struct Address {
    pub bytes: [u8; 20],
}

impl View for Address {
    type V = Seq<u8>;

    open spec fn view(&self) -> Seq<u8> {
        self.bytes@
    }
}

/// Why a text is no address.
#[derive(Clone, Copy, Debug, PartialEq, Eq, Structural)]
pub enum AddressError {
    /// The text, its `0x` markers aside, is no hexadecimal text.
    BadHex,
    /// The text spells this many bytes, not twenty.
    WrongLength(usize),
}

/// `s` with every `0x` taken out, reading from the left.
pub open spec fn unmarked(s: Seq<char>) -> Seq<char>
    decreases s.len(),
{
    if s.len() >= 2 && s[0] == '0' && s[1] == 'x' {
        unmarked(s.skip(2))
    } else if s.len() == 0 {
        s
    } else {
        seq![s[0]] + unmarked(s.skip(1))
    }
}

/// The address that `s` spells, or why it spells none.
pub open spec fn address_value(s: Seq<char>) -> Result<Seq<u8>, AddressError> {
    let digits = unmarked(s);
    if !decodable(digits) {
        Err(AddressError::BadHex)
    } else if decoded(digits).len() != ADDRESS_LEN {
        Err(AddressError::WrongLength(decoded(digits).len() as usize))
    } else {
        Ok(decoded(digits))
    }
}

/// Takes every `0x` out of `chars`, reading from the left.
fn without_markers(chars: &Vec<char>) -> (r: Vec<char>)
    ensures
        r@ == unmarked(chars@),
{
    let n = chars.len();
    let mut out: Vec<char> = Vec::new();
    let mut i: usize = 0;
    assert(chars@.skip(0) =~= chars@);
    assert(out@ + unmarked(chars@) =~= unmarked(chars@));
    while i < n
        invariant
            i <= n,
            n == chars@.len(),
            unmarked(chars@) == out@ + unmarked(chars@.skip(i as int)),
        decreases n - i,
    {
        let ghost rest = chars@.skip(i as int);
        if n - i >= 2 && chars[i] == '0' && chars[i + 1] == 'x' {
            assert(rest.skip(2) =~= chars@.skip(i + 2));
            i += 2;
        } else {
            assert(rest[0] == chars@[i as int]);
            assert(rest.skip(1) =~= chars@.skip(i + 1));
            assert(out@.push(chars@[i as int]) + unmarked(chars@.skip(i + 1)) =~= out@ + (
            seq![rest[0]] + unmarked(rest.skip(1))));
            out.push(chars[i]);
            i += 1;
        }
    }
    assert(out@ + unmarked(chars@.skip(n as int)) =~= out@);
    out
}

/// Reads an address from hexadecimal text. Any `0x` in the text is passed
/// over; what remains must spell twenty bytes.
pub fn parse_address(text: &str) -> (r: Result<Address, AddressError>)
    ensures
        match r {
            Ok(address) => address_value(text@) == Ok::<Seq<u8>, AddressError>(address@),
            Err(e) => address_value(text@) == Err::<Seq<u8>, AddressError>(e),
        },
{
    let digits = string_of(&without_markers(&characters(text)));
    match decode(digits.as_str()) {
        None => Err(AddressError::BadHex),
        Some(found) => {
            if found.len() != ADDRESS_LEN {
                return Err(AddressError::WrongLength(found.len()));
            }
            let mut bytes = [0u8; 20];
            let mut i: usize = 0;
            while i < ADDRESS_LEN
                invariant
                    i <= ADDRESS_LEN,
                    found@.len() == ADDRESS_LEN,
                    forall|k: int| 0 <= k < i ==> bytes@[k] == found@[k],
                decreases ADDRESS_LEN - i,
            {
                bytes[i] = found[i];
                i += 1;
            }
            assert(bytes@ =~= found@);
            Ok(Address { bytes })
        },
    }
}

} // verus!
