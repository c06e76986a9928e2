//! Checking the signatures of finalized tickets.

use vstd::prelude::*;
use eth_stealth_gas_tickets::{CoordPubKeyError, CoordinatorPubKey};
use crate::key::{check_key, key_check, valid_key, KeyError};
use crate::ticket::{id_value, parse_id, SignedTicket, SignedTicketView};

verus! {

/// Why a set of signed tickets did not pass.
#[derive(Clone, Copy, Debug, PartialEq, Eq, Structural)]
pub enum VerifyError {
    /// The public key is no public key.
    InvalidKey(KeyError),
    /// The randomizer of the ticket at this index does not spell 32 bytes.
    BadRandomizer(usize),
    /// The signature of the ticket at this index does not hold under the key.
    InvalidSignature(usize),
}

/// Whether the ticket library accepts `ticket` under the public key `key`:
/// what `CoordinatorPubKey::verify_signed_tickets` answers for that one ticket.
pub uninterp spec fn valid_ticket(key: Seq<char>, ticket: SignedTicketView) -> bool;

/// The ticket can be handed to the ticket library, and passes there.
pub open spec fn ticket_passes(key: Seq<char>, ticket: SignedTicketView) -> bool {
    id_value(ticket.msg_randomizer) is Some && valid_ticket(key, ticket)
}

/// Every ticket of `tickets` passes under `key`.
pub open spec fn all_pass(key: Seq<char>, tickets: Seq<SignedTicketView>) -> bool {
    forall|i: int| 0 <= i < tickets.len() ==> ticket_passes(key, #[trigger] tickets[i])
}

/// Ticket `i` is the first of `tickets` that does not pass under `key`.
pub open spec fn first_failure(key: Seq<char>, tickets: Seq<SignedTicketView>, i: int) -> bool {
    &&& 0 <= i < tickets.len()
    &&& !ticket_passes(key, tickets[i])
    &&& forall|k: int| 0 <= k < i ==> ticket_passes(key, #[trigger] tickets[k])
}

/// What [`verify`] answers for `tickets` under the text `key`.
pub open spec fn verdict(
    key: Seq<char>,
    tickets: Seq<SignedTicketView>,
    r: Result<(), VerifyError>,
) -> bool {
    match r {
        Ok(()) => valid_key(key) && all_pass(key, tickets),
        Err(VerifyError::InvalidKey(e)) => key_check(key) == Err::<(), KeyError>(e),
        Err(VerifyError::BadRandomizer(i)) => {
            &&& valid_key(key)
            &&& first_failure(key, tickets, i as int)
            &&& id_value(tickets[i as int].msg_randomizer) is None
        },
        Err(VerifyError::InvalidSignature(i)) => {
            &&& valid_key(key)
            &&& first_failure(key, tickets, i as int)
            &&& id_value(tickets[i as int].msg_randomizer) is Some
        },
    }
}

/// Calls `CoordinatorPubKey::from_hex_string` on `key`, which takes any text
/// that is a public key, and `CoordinatorPubKey::verify_signed_tickets` on
/// the result, for the one ticket. That call reads the randomizer as 32
/// bytes. Its answer depends on the key and the ticket alone.
#[verifier::external_body]
fn verify_signed_ticket(key: &str, ticket: &SignedTicket) -> (r: Result<(), CoordPubKeyError>)
    requires
        valid_key(key@),
        id_value(ticket.msg_randomizer@) is Some,
    ensures
        r is Ok <==> valid_ticket(key@, ticket.deep_view()),
{
    let key = CoordinatorPubKey::from_hex_string(key)?;
    key.verify_signed_tickets(vec![eth_stealth_gas_tickets::SignedTicket {
        msg: ticket.msg.clone(),
        msg_randomizer: ticket.msg_randomizer.clone(),
        finalized_sig: ticket.finalized_sig.clone(),
        id: ticket.id.clone(),
    }])
}

/// Checks that every ticket of `tickets` carries a signature that holds under
/// the coordinator's public key `pubkey`, and names the first that does not.
pub fn verify(pubkey: &str, tickets: &Vec<SignedTicket>) -> (r: Result<(), VerifyError>)
    ensures
        verdict(pubkey@, tickets.deep_view(), r),
{
    match check_key(pubkey) {
        Err(e) => Err(VerifyError::InvalidKey(e)),
        Ok(()) => {
            let ghost views = tickets.deep_view();
            let mut i: usize = 0;
            while i < tickets.len()
                invariant
                    i <= tickets@.len(),
                    valid_key(pubkey@),
                    views == tickets.deep_view(),
                    forall|k: int| 0 <= k < i ==> ticket_passes(pubkey@, #[trigger] views[k]),
                decreases tickets@.len() - i,
            {
                let ticket = &tickets[i];
                assert(views[i as int] == ticket.deep_view());
                if parse_id(ticket.msg_randomizer.as_str()).is_none() {
                    return Err(VerifyError::BadRandomizer(i));
                }
                if verify_signed_ticket(pubkey, ticket).is_err() {
                    return Err(VerifyError::InvalidSignature(i));
                }
                i += 1;
            }
            Ok(())
        },
    }
}

} // verus!
