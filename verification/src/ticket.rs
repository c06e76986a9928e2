//! Tickets at each stage of their life: unsigned, blind-signed, finalized.
//!
//! Every field is hexadecimal text, as it is persisted. A ticket's identifier
//! is the 32 bytes that its `id` text decodes to.

use vstd::prelude::*;
use crate::encoding::{decodable, decode, decoded};

verus! {

/// Number of bytes in a ticket identifier.
pub const ID_LEN: usize = 32;

/// A ticket as generated: the blinded message that is sent for signing, with
/// the secrets that later turn the blind signature into a signature.
#[derive(Clone, Debug, PartialEq, Eq)]
pub struct UnsignedTicket {
    pub msg: String,
    pub blind_msg: String,
    pub msg_randomizer: String,
    pub id: String,
    pub secret: String,
}

/// What an [`UnsignedTicket`] holds, as sequences of characters.
pub struct UnsignedTicketView {
    pub msg: Seq<char>,
    pub blind_msg: Seq<char>,
    pub msg_randomizer: Seq<char>,
    pub id: Seq<char>,
    pub secret: Seq<char>,
}

/// A blind signature observed for the ticket named by `id`.
#[derive(Clone, Debug, PartialEq, Eq)]
pub struct BlindedSignature {
    pub blind_sig: String,
    pub id: String,
}

/// What a [`BlindedSignature`] holds, as sequences of characters.
pub struct BlindedSignatureView {
    pub blind_sig: Seq<char>,
    pub id: Seq<char>,
}

/// A finalized ticket, ready to be redeemed.
#[derive(Clone, Debug, PartialEq, Eq)]
pub struct SignedTicket {
    pub msg: String,
    pub msg_randomizer: String,
    pub finalized_sig: String,
    pub id: String,
}

/// What a [`SignedTicket`] holds, as sequences of characters.
pub struct SignedTicketView {
    pub msg: Seq<char>,
    pub msg_randomizer: Seq<char>,
    pub finalized_sig: Seq<char>,
    pub id: Seq<char>,
}

/// Unsigned tickets with the blind signature found for each, index by index.
#[derive(Clone, Debug, PartialEq, Eq)]
pub struct FinalizeInput {
    pub unsigned_tickets: Vec<UnsignedTicket>,
    pub blind_signatures: Vec<BlindedSignature>,
}

/// What a [`FinalizeInput`] holds.
pub struct FinalizeInputView {
    pub unsigned_tickets: Seq<UnsignedTicketView>,
    pub blind_signatures: Seq<BlindedSignatureView>,
}

impl DeepView for UnsignedTicket {
    type V = UnsignedTicketView;

    open spec fn deep_view(&self) -> UnsignedTicketView {
        UnsignedTicketView {
            msg: self.msg@,
            blind_msg: self.blind_msg@,
            msg_randomizer: self.msg_randomizer@,
            id: self.id@,
            secret: self.secret@,
        }
    }
}

impl DeepView for BlindedSignature {
    type V = BlindedSignatureView;

    open spec fn deep_view(&self) -> BlindedSignatureView {
        BlindedSignatureView { blind_sig: self.blind_sig@, id: self.id@ }
    }
}

impl DeepView for SignedTicket {
    type V = SignedTicketView;

    open spec fn deep_view(&self) -> SignedTicketView {
        SignedTicketView {
            msg: self.msg@,
            msg_randomizer: self.msg_randomizer@,
            finalized_sig: self.finalized_sig@,
            id: self.id@,
        }
    }
}

impl DeepView for FinalizeInput {
    type V = FinalizeInputView;

    open spec fn deep_view(&self) -> FinalizeInputView {
        FinalizeInputView {
            unsigned_tickets: self.unsigned_tickets.deep_view(),
            blind_signatures: self.blind_signatures.deep_view(),
        }
    }
}

/// The identifier that `text` spells: its 32 decoded bytes, if it decodes to
/// exactly that many.
pub open spec fn id_value(text: Seq<char>) -> Option<Seq<u8>> {
    if decodable(text) && decoded(text).len() == ID_LEN {
        Some(decoded(text))
    } else {
        None
    }
}

/// Every signature of `input` stands at the index of the ticket it names.
pub open spec fn aligned(input: FinalizeInputView) -> bool {
    &&& input.unsigned_tickets.len() == input.blind_signatures.len()
    &&& forall|i: int|
        0 <= i < input.unsigned_tickets.len() ==> (#[trigger] input.blind_signatures[i]).id
            == input.unsigned_tickets[i].id
}

/// Reads the identifier that `text` spells.
pub fn parse_id(text: &str) -> (r: Option<Vec<u8>>)
    ensures
        r is Some <==> id_value(text@) is Some,
        r matches Some(bytes) ==> id_value(text@) == Some(bytes@),
{
    match decode(text) {
        Some(bytes) => {
            if bytes.len() == ID_LEN {
                Some(bytes)
            } else {
                None
            }
        },
        None => None,
    }
}

impl UnsignedTicket {
    /// A copy of this ticket.
    pub fn duplicate(&self) -> (r: UnsignedTicket)
        ensures
            r.deep_view() == self.deep_view(),
    {
        UnsignedTicket {
            msg: self.msg.clone(),
            blind_msg: self.blind_msg.clone(),
            msg_randomizer: self.msg_randomizer.clone(),
            id: self.id.clone(),
            secret: self.secret.clone(),
        }
    }

    /// The identifier of this ticket, if its `id` spells one.
    pub fn id_bytes(&self) -> (r: Option<Vec<u8>>)
        ensures
            r is Some <==> id_value(self.id@) is Some,
            r matches Some(bytes) ==> id_value(self.id@) == Some(bytes@),
    {
        parse_id(self.id.as_str())
    }
}

} // verus!
