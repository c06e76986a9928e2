//! Generating a batch of unsigned tickets.

use vstd::prelude::*;
use eth_stealth_gas_tickets::{CoordPubKeyError, CoordinatorPubKey};
use crate::fault::{fault_of, TicketFault};
use crate::key::{check_key, key_check, valid_key, KeyError};
use crate::index::{first_owner, lemma_owner_has_id, lemma_owner_present, ticket_keys, KnownIds};
use crate::ticket::{UnsignedTicket, UnsignedTicketView};

verus! {

/// Why no batch of tickets was generated.
#[derive(Clone, Debug, PartialEq, Eq)]
pub enum GenerateError {
    /// The public key is no public key.
    InvalidKey(KeyError),
    /// No ticket was asked for.
    NoTickets,
    /// The ticket library failed.
    Library(TicketFault),
    /// The batch holds another number of tickets than was asked for.
    WrongCount,
    /// The `id` of the ticket at this index spells no identifier.
    BadId(usize),
    /// The ticket at this index has the identifier of an earlier one.
    Collision(usize),
}

/// The `id` of every ticket spells an identifier, and no two tickets share one.
pub open spec fn distinct_ids(tickets: Seq<UnsignedTicketView>) -> bool {
    let keys = ticket_keys(tickets);
    &&& forall|i: int| 0 <= i < keys.len() ==> (#[trigger] keys[i]) is Some
    &&& forall|i: int, j: int| 0 <= i < j < keys.len() ==> #[trigger] keys[i] != #[trigger] keys[j]
}

/// `tickets` is a batch of `count` tickets with pairwise distinct identifiers.
pub open spec fn batch_of(tickets: Seq<UnsignedTicketView>, count: nat) -> bool {
    tickets.len() == count && distinct_ids(tickets)
}

/// Ticket `i` is the first whose `id` spells no identifier.
pub open spec fn first_bad_id(tickets: Seq<UnsignedTicketView>, i: int) -> bool {
    let keys = ticket_keys(tickets);
    &&& 0 <= i < keys.len()
    &&& keys[i] is None
    &&& forall|k: int| 0 <= k < i ==> (#[trigger] keys[k]) is Some
}

/// Ticket `i` is the first that has the identifier of an earlier ticket.
pub open spec fn first_collision(tickets: Seq<UnsignedTicketView>, i: int) -> bool {
    let keys = ticket_keys(tickets);
    &&& 0 <= i < keys.len()
    &&& exists|k: int| 0 <= k < i && #[trigger] keys[k] == keys[i]
    &&& forall|a: int, b: int| 0 <= a < b < i ==> #[trigger] keys[a] != #[trigger] keys[b]
}

/// What [`accept_batch`] makes of `tickets` where `count` were asked for.
pub open spec fn batch_verdict(
    tickets: Seq<UnsignedTicketView>,
    count: nat,
    r: Result<Vec<UnsignedTicket>, GenerateError>,
) -> bool {
    match r {
        Ok(batch) => batch.deep_view() == tickets && batch_of(tickets, count),
        Err(GenerateError::WrongCount) => tickets.len() != count,
        Err(GenerateError::BadId(i)) => tickets.len() == count && first_bad_id(tickets, i as int),
        Err(GenerateError::Collision(i)) => {
            &&& tickets.len() == count
            &&& forall|k: int| 0 <= k < tickets.len() ==> (#[trigger] ticket_keys(tickets)[k]) is Some
            &&& first_collision(tickets, i as int)
        },
        Err(_) => false,
    }
}

/// Accepts `tickets` as the answer to a request for `count` tickets: the
/// batch must hold that many, each with an identifier of its own.
pub fn accept_batch(tickets: Vec<UnsignedTicket>, count: usize) -> (r: Result<
    Vec<UnsignedTicket>,
    GenerateError,
>)
    ensures
        batch_verdict(tickets.deep_view(), count as nat, r),
{
    if tickets.len() != count {
        return Err(GenerateError::WrongCount);
    }
    let ghost views = tickets.deep_view();
    let ghost keys = ticket_keys(views);
    let ids = KnownIds::new(&tickets);
    let n = ids.len();
    let mut i: usize = 0;
    while i < n
        invariant
            i <= n,
            n == keys.len(),
            ids.keys() == keys,
            keys == ticket_keys(views),
            views == tickets.deep_view(),
            tickets@.len() == count,
            forall|k: int| 0 <= k < i ==> (#[trigger] keys[k]) is Some,
        decreases n - i,
    {
        if ids.id(i).is_none() {
            return Err(GenerateError::BadId(i));
        }
        i += 1;
    }
    let mut b: usize = 0;
    while b < n
        invariant
            b <= n,
            n == keys.len(),
            ids.keys() == keys,
            keys == ticket_keys(views),
            views == tickets.deep_view(),
            tickets@.len() == count,
            forall|k: int| 0 <= k < keys.len() ==> (#[trigger] keys[k]) is Some,
            forall|x: int, y: int| 0 <= x < y < b ==> #[trigger] keys[x] != #[trigger] keys[y],
        decreases n - b,
    {
        let ghost id = keys[b as int]->0;
        let first = match ids.id(b) {
            Some(bytes) => ids.find(bytes.as_slice()),
            None => None,
        };
        proof {
            lemma_owner_present(keys, b as int);
            lemma_owner_has_id(keys, id);
        }
        match first {
            Some(a) => {
                let ghost found = choose|c: int| first_owner(keys, id, c);
                assert(found == a);
                if a != b {
                    assert(a < b) by {
                        if b < a {
                            assert(keys[b as int] != Some(id));
                        }
                    }
                    assert(keys[a as int] == keys[b as int]);
                    assert(first_collision(views, b as int));
                    return Err(GenerateError::Collision(b));
                }
                assert forall|x: int| 0 <= x < b implies #[trigger] keys[x] != keys[b as int] by {
                    assert(keys[x] != Some(id));
                }
            },
            None => {},
        }
        b += 1;
    }
    Ok(tickets)
}

/// Calls `CoordinatorPubKey::from_hex_string` on `key`, which takes any text
/// that is a public key, and `CoordinatorPubKey::new_blind_tickets` on the
/// result, with the generator that `rand::thread_rng` gives. Where the call
/// succeeds it has made `count` tickets; which ones is left to chance.
#[verifier::external_body]
fn new_blind_tickets(key: &str, count: usize) -> (r: Result<Vec<UnsignedTicket>, CoordPubKeyError>)
    requires
        valid_key(key@),
    ensures
        r matches Ok(tickets) ==> tickets@.len() == count,
{
    let key = CoordinatorPubKey::from_hex_string(key)?;
    let made = key.new_blind_tickets(&mut rand::thread_rng(), count)?;
    Ok(made.into_iter().map(|t| UnsignedTicket {
        msg: t.msg,
        blind_msg: t.blind_msg,
        msg_randomizer: t.msg_randomizer,
        id: t.id,
        secret: t.secret,
    }).collect())
}

/// Generates `count` unsigned tickets for the coordinator whose public key
/// is `pubkey`.
///
/// A text that is no public key, or a request for no tickets, is refused
/// before anything is generated. On success the batch holds exactly `count`
/// tickets with pairwise distinct identifiers; nothing is returned of a batch
/// that falls short of that.
pub fn generate(pubkey: &str, count: usize) -> (r: Result<Vec<UnsignedTicket>, GenerateError>)
    ensures
        key_check(pubkey@) matches Err(e) ==> r == Err::<Vec<UnsignedTicket>, GenerateError>(
            GenerateError::InvalidKey(e),
        ),
        key_check(pubkey@) is Ok && count == 0 ==> r == Err::<Vec<UnsignedTicket>, GenerateError>(
            GenerateError::NoTickets,
        ),
        r matches Ok(tickets) ==> batch_of(tickets.deep_view(), count as nat),
        r matches Err(GenerateError::InvalidKey(e)) ==> key_check(pubkey@) == Err::<(), KeyError>(e),
        r matches Err(GenerateError::NoTickets) ==> key_check(pubkey@) is Ok && count == 0,
        !(r matches Err(GenerateError::WrongCount)),
{
    match check_key(pubkey) {
        Err(e) => Err(GenerateError::InvalidKey(e)),
        Ok(()) => {
            if count == 0 {
                Err(GenerateError::NoTickets)
            } else {
                match new_blind_tickets(pubkey, count) {
                    Err(e) => Err(GenerateError::Library(fault_of(e))),
                    Ok(tickets) => accept_batch(tickets, count),
                }
            }
        },
    }
}

} // verus!
