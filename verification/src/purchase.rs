//! Buying signatures for a batch of tickets: what is sent, and what is paid.

use vstd::prelude::*;
use crate::amount::{limit, total_cost, Wei};
use crate::encoding::{decodable, decode, decoded};
use crate::ticket::{UnsignedTicket, UnsignedTicketView};

verus! {

/// Where the key that signs the transaction comes from.
#[derive(Clone, Debug, PartialEq, Eq)]
pub enum SignerSource {
    /// A private key given as text.
    PrivateKey(String),
    /// The path of an encrypted keystore file.
    Keystore(String),
}

/// Why no signer was chosen.
#[derive(Clone, Copy, Debug, PartialEq, Eq, Structural)]
pub enum SignerError {
    /// Neither a private key nor a keystore was given.
    Missing,
    /// Both a private key and a keystore were given.
    Ambiguous,
}

/// Why no purchase was prepared.
#[derive(Clone, Copy, Debug, PartialEq, Eq, Structural)]
pub enum PurchaseError {
    /// The blinded message of the ticket at this index is no hexadecimal text.
    BadBlindMessage(usize),
    /// The amount payable is 2^256 or more.
    Overflow,
}

/// One call of the gas station: the blinded messages of all tickets, in the
/// order of the tickets, and the value sent along.
#[derive(Clone, Debug, PartialEq, Eq)]
pub struct Purchase {
    pub blinded_messages: Vec<Vec<u8>>,
    pub value: Wei,
}

impl SignerError {
    /// What to tell the user.
    pub fn message(&self) -> (r: String)
        ensures
            r@ == match *self {
                SignerError::Missing => "Either private key or account path must be provided"@,
                SignerError::Ambiguous => "Only one of private key or account path can be provided"@,
            },
    {
        match self {
            SignerError::Missing => "Either private key or account path must be provided".to_string(),
            SignerError::Ambiguous => "Only one of private key or account path can be provided".to_string(),
        }
    }
}

/// Chooses the signer: exactly one of the two must be given.
pub fn choose_signer(private_key: Option<String>, account: Option<String>) -> (r: Result<
    SignerSource,
    SignerError,
>)
    ensures
        r == match (private_key, account) {
            (None, None) => Err::<SignerSource, SignerError>(SignerError::Missing),
            (Some(_), Some(_)) => Err(SignerError::Ambiguous),
            (Some(key), None) => Ok(SignerSource::PrivateKey(key)),
            (None, Some(path)) => Ok(SignerSource::Keystore(path)),
        },
{
    match (private_key, account) {
        (None, None) => Err(SignerError::Missing),
        (Some(_), Some(_)) => Err(SignerError::Ambiguous),
        (Some(key), None) => Ok(SignerSource::PrivateKey(key)),
        (None, Some(path)) => Ok(SignerSource::Keystore(path)),
    }
}

/// The blinded message of each ticket, as bytes.
pub open spec fn messages_of(tickets: Seq<UnsignedTicketView>) -> Seq<Seq<u8>> {
    Seq::new(tickets.len(), |i: int| decoded(tickets[i].blind_msg))
}

/// Ticket `i` is the first whose blinded message is no hexadecimal text.
pub open spec fn first_bad_message(tickets: Seq<UnsignedTicketView>, i: int) -> bool {
    &&& 0 <= i < tickets.len()
    &&& !decodable(tickets[i].blind_msg)
    &&& forall|k: int| 0 <= k < i ==> decodable((#[trigger] tickets[k]).blind_msg)
}

/// What the messages of a purchase hold, as sequences.
pub open spec fn message_views(messages: Seq<Vec<u8>>) -> Seq<Seq<u8>> {
    Seq::new(messages.len(), |i: int| messages[i]@)
}

/// What [`purchase`] answers.
pub open spec fn purchase_result(
    tickets: Seq<UnsignedTicketView>,
    cost_per_ticket: nat,
    shipping_cost: nat,
    r: Result<Purchase, PurchaseError>,
) -> bool {
    match r {
        Ok(p) => {
            &&& forall|k: int| 0 <= k < tickets.len() ==> decodable((#[trigger] tickets[k]).blind_msg)
            &&& message_views(p.blinded_messages@) == messages_of(tickets)
            &&& p.value@ == cost_per_ticket * tickets.len() + shipping_cost
        },
        Err(PurchaseError::BadBlindMessage(i)) => first_bad_message(tickets, i as int),
        Err(PurchaseError::Overflow) => {
            &&& forall|k: int| 0 <= k < tickets.len() ==> decodable((#[trigger] tickets[k]).blind_msg)
            &&& cost_per_ticket * tickets.len() + shipping_cost >= limit()
        },
    }
}

/// Prepares the purchase of signatures for `tickets`: every blinded message
/// goes into the one call, and the value is the cost of a ticket for each of
/// them plus the shipping cost, once.
pub fn purchase(tickets: &Vec<UnsignedTicket>, cost_per_ticket: Wei, shipping_cost: Wei) -> (r:
    Result<Purchase, PurchaseError>)
    ensures
        purchase_result(tickets.deep_view(), cost_per_ticket@, shipping_cost@, r),
{
    let ghost views = tickets.deep_view();
    let mut blinded_messages: Vec<Vec<u8>> = Vec::new();
    let mut i: usize = 0;
    while i < tickets.len()
        invariant
            i <= tickets@.len(),
            views == tickets.deep_view(),
            blinded_messages@.len() == i,
            forall|k: int| 0 <= k < i ==> decodable((#[trigger] views[k]).blind_msg),
            forall|k: int| 0 <= k < i ==> (#[trigger] blinded_messages@[k])@ == decoded(views[k].blind_msg),
        decreases tickets@.len() - i,
    {
        assert(views[i as int].blind_msg == tickets@[i as int].blind_msg@);
        match decode(tickets[i].blind_msg.as_str()) {
            Some(message) => {
                blinded_messages.push(message);
            },
            None => {
                return Err(PurchaseError::BadBlindMessage(i));
            },
        }
        i += 1;
    }
    assert(message_views(blinded_messages@) =~= messages_of(views));
    match total_cost(cost_per_ticket, shipping_cost, tickets.len()) {
        Some(value) => Ok(Purchase { blinded_messages, value }),
        None => Err(PurchaseError::Overflow),
    }
}

} // verus!
