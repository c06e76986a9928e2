//! Turning blind signatures into the signatures of redeemable tickets.

use vstd::prelude::*;
use eth_stealth_gas_tickets::{CoordPubKeyError, CoordinatorPubKey};
use crate::fault::{fault_of, TicketFault};
use crate::key::{check_key, key_check, valid_key, KeyError};
use crate::scan::{correlation, SigningEventView};
use crate::ticket::{
    id_value, parse_id, BlindedSignature, BlindedSignatureView, FinalizeInput, FinalizeInputView,
    SignedTicket, SignedTicketView, UnsignedTicket, UnsignedTicketView,
};
use crate::verify::{all_pass, valid_ticket, verdict, VerifyError};

verus! {

/// Why no signed tickets were produced.
#[derive(Clone, Debug, PartialEq, Eq)]
pub enum FinalizeError {
    /// The public key is no public key.
    InvalidKey(KeyError),
    /// Tickets and signatures differ in number.
    LengthMismatch,
    /// The signature at this index names another ticket than the one there.
    IdMismatch(usize),
    /// The randomizer of the ticket at this index does not spell 32 bytes.
    BadRandomizer(usize),
    /// The ticket library failed.
    Library(TicketFault),
}

/// What the input must satisfy beyond the key: as many signatures as
/// tickets, each under the `id` of the ticket at its index, and every
/// randomizer 32 bytes. `Ok` where it does, else the first shortcoming.
pub open spec fn input_check(input: FinalizeInputView) -> Result<(), FinalizeError> {
    if input.unsigned_tickets.len() != input.blind_signatures.len() {
        Err(FinalizeError::LengthMismatch)
    } else if exists|i: int| first_mismatch(input, i) {
        Err(FinalizeError::IdMismatch((choose|i: int| first_mismatch(input, i)) as usize))
    } else if exists|i: int| first_bad_randomizer(input.unsigned_tickets, i) {
        Err(
            FinalizeError::BadRandomizer(
                (choose|i: int| first_bad_randomizer(input.unsigned_tickets, i)) as usize,
            ),
        )
    } else {
        Ok(())
    }
}

/// Index `i` is the first at which signature and ticket differ in `id`.
pub open spec fn first_mismatch(input: FinalizeInputView, i: int) -> bool {
    &&& 0 <= i < input.unsigned_tickets.len()
    &&& i < input.blind_signatures.len()
    &&& input.blind_signatures[i].id != input.unsigned_tickets[i].id
    &&& forall|k: int|
        0 <= k < i ==> (#[trigger] input.blind_signatures[k]).id == input.unsigned_tickets[k].id
}

/// Ticket `i` is the first whose randomizer does not spell 32 bytes.
pub open spec fn first_bad_randomizer(tickets: Seq<UnsignedTicketView>, i: int) -> bool {
    &&& 0 <= i < tickets.len()
    &&& id_value(tickets[i].msg_randomizer) is None
    &&& forall|k: int| 0 <= k < i ==> id_value((#[trigger] tickets[k]).msg_randomizer) is Some
}

/// Every randomizer of `tickets` spells 32 bytes.
pub open spec fn randomizers_ok(tickets: Seq<UnsignedTicketView>) -> bool {
    forall|i: int| 0 <= i < tickets.len() ==> id_value((#[trigger] tickets[i]).msg_randomizer) is Some
}

/// `signed` are the tickets of `input`, finalized: one for each ticket, with
/// its message and randomizer, under the `id` of its signature, and each
/// accepted by the ticket library under `key`.
pub open spec fn finalized(
    key: Seq<char>,
    input: FinalizeInputView,
    signed: Seq<SignedTicketView>,
) -> bool {
    &&& signed.len() == input.unsigned_tickets.len()
    &&& signed.len() == input.blind_signatures.len()
    &&& forall|i: int|
        0 <= i < signed.len() ==> {
            &&& (#[trigger] signed[i]).id == input.blind_signatures[i].id
            &&& signed[i].msg == input.unsigned_tickets[i].msg
            &&& signed[i].msg_randomizer == input.unsigned_tickets[i].msg_randomizer
            &&& valid_ticket(key, signed[i])
        }
}

/// What the ticket library makes of tickets and signatures under the public
/// key `key`: the answer of `CoordinatorPubKey::finalize_tickets`, the signed
/// tickets where it succeeds and `None` where it fails. The answer depends on
/// the key, the tickets and the signatures alone.
pub uninterp spec fn finalize_answer(
    key: Seq<char>,
    tickets: Seq<UnsignedTicketView>,
    signatures: Seq<BlindedSignatureView>,
) -> Option<Seq<SignedTicketView>>;

/// What [`finalize`] answers for `input` under the text `key`: the first
/// shortcoming of key or input where there is one, and else what the ticket
/// library makes of the input.
pub open spec fn outcome(
    key: Seq<char>,
    input: FinalizeInputView,
    r: Result<Vec<SignedTicket>, FinalizeError>,
) -> bool {
    match r {
        Ok(signed) => {
            &&& valid_key(key)
            &&& input_check(input) is Ok
            &&& finalize_answer(key, input.unsigned_tickets, input.blind_signatures) == Some(
                signed.deep_view(),
            )
            &&& finalized(key, input, signed.deep_view())
        },
        Err(FinalizeError::InvalidKey(e)) => key_check(key) == Err::<(), KeyError>(e),
        Err(FinalizeError::Library(_)) => {
            &&& valid_key(key)
            &&& input_check(input) is Ok
            &&& finalize_answer(key, input.unsigned_tickets, input.blind_signatures) is None
        },
        Err(e) => valid_key(key) && input_check(input) == Err::<(), FinalizeError>(e),
    }
}

/// Calls `CoordinatorPubKey::from_hex_string` on `key`, which takes any text
/// that is a public key, and `CoordinatorPubKey::finalize_tickets` on the
/// result. That call reads each randomizer as 32 bytes and draws nothing at
/// random, so that its answer has a name. Where it succeeds it returns one
/// signed ticket for each ticket, in order, with the message and randomizer
/// of the ticket and the `id` of the signature; it has checked each new
/// signature under the key as `verify_signed_tickets` does.
#[verifier::external_body]
fn finalize_tickets(key: &str, tickets: Vec<UnsignedTicket>, signatures: Vec<BlindedSignature>) -> (r:
    Result<Vec<SignedTicket>, CoordPubKeyError>)
    requires
        valid_key(key@),
        randomizers_ok(tickets.deep_view()),
    ensures
        match r {
            Ok(signed) => finalize_answer(key@, tickets.deep_view(), signatures.deep_view())
                == Some(signed.deep_view()),
            Err(_) => finalize_answer(key@, tickets.deep_view(), signatures.deep_view()) is None,
        },
        r matches Ok(signed) ==> finalized(
            key@,
            FinalizeInputView {
                unsigned_tickets: tickets.deep_view(),
                blind_signatures: signatures.deep_view(),
            },
            signed.deep_view(),
        ),
{
    let key = CoordinatorPubKey::from_hex_string(key)?;
    let tickets = tickets.into_iter().map(|t| eth_stealth_gas_tickets::UnsignedTicket {
        msg: t.msg, blind_msg: t.blind_msg, msg_randomizer: t.msg_randomizer, id: t.id, secret: t.secret,
    }).collect();
    let signatures = signatures.into_iter().map(|s| eth_stealth_gas_tickets::BlindedSignature {
        blind_sig: s.blind_sig, id: s.id,
    }).collect();
    let signed = key.finalize_tickets(tickets, signatures)?;
    Ok(signed.into_iter().map(|t| SignedTicket {
        msg: t.msg, msg_randomizer: t.msg_randomizer, finalized_sig: t.finalized_sig, id: t.id,
    }).collect())
}

/// Checks `input` as [`input_check`] says.
pub fn check_input(input: &FinalizeInput) -> (r: Result<(), FinalizeError>)
    ensures
        r == input_check(input.deep_view()),
{
    let ghost view = input.deep_view();
    let n = input.unsigned_tickets.len();
    if n != input.blind_signatures.len() {
        return Err(FinalizeError::LengthMismatch);
    }
    let mut i: usize = 0;
    while i < n
        invariant
            i <= n,
            n == view.unsigned_tickets.len(),
            n == view.blind_signatures.len(),
            view == input.deep_view(),
            forall|k: int|
                0 <= k < i ==> (#[trigger] view.blind_signatures[k]).id
                    == view.unsigned_tickets[k].id,
        decreases n - i,
    {
        assert(view.blind_signatures[i as int].id == input.blind_signatures@[i as int].id@);
        assert(view.unsigned_tickets[i as int].id == input.unsigned_tickets@[i as int].id@);
        if input.blind_signatures[i].id != input.unsigned_tickets[i].id {
            proof {
                assert(first_mismatch(view, i as int));
                let c = choose|c: int| first_mismatch(view, c);
                if c < i {
                    assert(view.blind_signatures[c].id == view.unsigned_tickets[c].id);
                } else if i < c {
                    assert(view.blind_signatures[i as int].id == view.unsigned_tickets[i as int].id);
                }
            }
            return Err(FinalizeError::IdMismatch(i));
        }
        i += 1;
    }
    proof {
        if exists|c: int| first_mismatch(view, c) {
            let c = choose|c: int| first_mismatch(view, c);
            assert(view.blind_signatures[c].id == view.unsigned_tickets[c].id);
        }
    }
    let mut j: usize = 0;
    while j < n
        invariant
            j <= n,
            n == view.unsigned_tickets.len(),
            n == view.blind_signatures.len(),
            view == input.deep_view(),
            !(exists|c: int| first_mismatch(view, c)),
            forall|k: int|
                0 <= k < j ==> id_value((#[trigger] view.unsigned_tickets[k]).msg_randomizer) is Some,
        decreases n - j,
    {
        assert(view.unsigned_tickets[j as int].msg_randomizer
            == input.unsigned_tickets@[j as int].msg_randomizer@);
        if parse_id(input.unsigned_tickets[j].msg_randomizer.as_str()).is_none() {
            proof {
                let tickets = view.unsigned_tickets;
                assert(first_bad_randomizer(tickets, j as int));
                let c = choose|c: int| first_bad_randomizer(tickets, c);
                if c < j {
                    assert(id_value(tickets[c].msg_randomizer) is Some);
                } else if j < c {
                    assert(id_value(tickets[j as int].msg_randomizer) is Some);
                }
            }
            return Err(FinalizeError::BadRandomizer(j));
        }
        j += 1;
    }
    proof {
        let tickets = view.unsigned_tickets;
        if exists|c: int| first_bad_randomizer(tickets, c) {
            let c = choose|c: int| first_bad_randomizer(tickets, c);
            assert(id_value(tickets[c].msg_randomizer) is Some);
        }
    }
    Ok(())
}

/// Finalizes the tickets of `input` under the coordinator's public key
/// `pubkey`: each blind signature becomes the signature of its ticket.
///
/// The input is refused, with the first reason, where the key is no key,
/// where signatures and tickets do not stand index by index, or where a
/// randomizer is malformed. Every ticket returned has been accepted under
/// the key.
pub fn finalize(pubkey: &str, input: FinalizeInput) -> (r: Result<Vec<SignedTicket>, FinalizeError>)
    ensures
        outcome(pubkey@, input.deep_view(), r),
{
    match check_key(pubkey) {
        Err(e) => Err(FinalizeError::InvalidKey(e)),
        Ok(()) => match check_input(&input) {
            Err(e) => Err(e),
            Ok(()) => {
                proof {
                    let tickets = input.deep_view().unsigned_tickets;
                    assert forall|i: int| 0 <= i < tickets.len() implies id_value(
                        (#[trigger] tickets[i]).msg_randomizer,
                    ) is Some by {
                        if id_value(tickets[i].msg_randomizer) is None {
                            lemma_some_bad_randomizer(tickets, i);
                        }
                    }
                }
                match finalize_tickets(pubkey, input.unsigned_tickets, input.blind_signatures) {
                    Ok(signed) => Ok(signed),
                    Err(e) => Err(FinalizeError::Library(fault_of(e))),
                }
            },
        },
    }
}

/// Where some randomizer is malformed, there is a first one that is.
pub proof fn lemma_some_bad_randomizer(tickets: Seq<UnsignedTicketView>, i: int)
    requires
        0 <= i < tickets.len(),
        id_value(tickets[i].msg_randomizer) is None,
    ensures
        exists|c: int| first_bad_randomizer(tickets, c),
    decreases i,
{
    if forall|k: int| 0 <= k < i ==> id_value((#[trigger] tickets[k]).msg_randomizer) is Some {
        assert(first_bad_randomizer(tickets, i));
    } else {
        let k = choose|k: int| 0 <= k < i && id_value((#[trigger] tickets[k]).msg_randomizer) is None;
        lemma_some_bad_randomizer(tickets, k);
    }
}

/// What a scan emits is never refused for the place of its signatures: it
/// holds as many signatures as tickets, and each signature under the `id` of
/// the ticket at its index.
pub proof fn lemma_scan_output_accepted(
    known: Seq<UnsignedTicketView>,
    events: Seq<SigningEventView>,
)
    ensures
        match input_check(correlation(known, events).input) {
            Ok(()) => true,
            Err(FinalizeError::BadRandomizer(_)) => true,
            Err(_) => false,
        },
{
    let input = correlation(known, events).input;
    if exists|i: int| first_mismatch(input, i) {
        let i = choose|i: int| first_mismatch(input, i);
        assert(input.blind_signatures[i].id == input.unsigned_tickets[i].id);
    }
}

/// Finalized tickets verify: whatever [`finalize`] returns for the outcome
/// of a scan passes [`crate::verify::verify`] under the same key.
pub proof fn lemma_round_trip(
    key: Seq<char>,
    known: Seq<UnsignedTicketView>,
    events: Seq<SigningEventView>,
    signed: Vec<SignedTicket>,
    answer: Result<(), VerifyError>,
)
    requires
        outcome(key, correlation(known, events).input, Ok(signed)),
        verdict(key, signed.deep_view(), answer),
    ensures
        answer is Ok,
        signed.deep_view().len() == correlation(known, events).input.unsigned_tickets.len(),
{
    lemma_finalized_pass(key, correlation(known, events).input, signed.deep_view());
    let tickets = signed.deep_view();
    match answer {
        Ok(()) => {},
        Err(VerifyError::InvalidKey(e)) => {},
        Err(VerifyError::BadRandomizer(i)) => {
            assert(crate::verify::ticket_passes(key, tickets[i as int]));
        },
        Err(VerifyError::InvalidSignature(i)) => {
            assert(crate::verify::ticket_passes(key, tickets[i as int]));
        },
    }
}

/// Tickets finalized from a well-formed input all pass under the key.
pub proof fn lemma_finalized_pass(
    key: Seq<char>,
    input: FinalizeInputView,
    signed: Seq<SignedTicketView>,
)
    requires
        input_check(input) is Ok,
        finalized(key, input, signed),
    ensures
        all_pass(key, signed),
{
    let tickets = input.unsigned_tickets;
    assert forall|i: int| 0 <= i < signed.len() implies crate::verify::ticket_passes(
        key,
        #[trigger] signed[i],
    ) by {
        if id_value(tickets[i].msg_randomizer) is None {
            lemma_some_bad_randomizer(tickets, i);
        }
    }
}

} // verus!
