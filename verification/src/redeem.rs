//! Redeeming signed tickets with the coordinator.

use vstd::prelude::*;
use crate::address::Address;
use crate::amount::{amount_value, from_str, Wei};
use crate::text::{characters, string_of};
use crate::ticket::SignedTicket;

verus! {

/// An amount to be paid out to a receiver.
#[derive(Clone, Copy, Debug, PartialEq, Eq)]
pub struct Spend {
    pub amount: Wei,
    pub receiver: Address,
}

/// A spend as the user writes it, the amount as text.
#[derive(Clone, Debug, PartialEq, Eq)]
pub struct SpendInput {
    pub amount: String,
    pub receiver: Address,
}

/// What is sent to the coordinator: the tickets that pay, and the spends.
#[derive(Clone, Debug, PartialEq, Eq)]
pub struct SpendRequest {
    pub signatures: Vec<SignedTicket>,
    pub spends: Vec<Spend>,
}

/// Why no request was made.
#[derive(Clone, Copy, Debug, PartialEq, Eq, Structural)]
pub enum RedeemError {
    /// The amount of the spend at this index is no amount.
    BadAmount(usize),
}

/// What the coordinator answered.
#[derive(Clone, Debug, PartialEq, Eq)]
pub enum Redemption {
    /// The coordinator accepted the request; its answer.
    Accepted(String),
    /// The coordinator refused with this status; its explanation.
    Refused(u16, String),
}

/// Path of the redemption endpoint under the coordinator's address.
pub open spec fn redeem_path() -> Seq<char> {
    seq!['/', 'r', 'e', 'd', 'e', 'e', 'm']
}

/// A status that reports success: 200 to 299.
pub open spec fn is_success(status: u16) -> bool {
    200 <= status < 300
}

/// Spend `i` is the first whose amount is no amount.
pub open spec fn first_bad_amount(spends: Seq<SpendInput>, i: int) -> bool {
    &&& 0 <= i < spends.len()
    &&& amount_value(spends[i].amount@) is None
    &&& forall|k: int| 0 <= k < i ==> amount_value((#[trigger] spends[k]).amount@) is Some
}

/// `read` are the spends `written`, each amount read from its text.
pub open spec fn spends_read(written: Seq<SpendInput>, read: Seq<Spend>) -> bool {
    &&& read.len() == written.len()
    &&& forall|i: int|
        0 <= i < read.len() ==> {
            &&& amount_value(written[i].amount@) == Some((#[trigger] read[i]).amount@)
            &&& read[i].receiver == written[i].receiver
        }
}

/// Reads the amount of each spend.
pub fn read_spends(spends: &Vec<SpendInput>) -> (r: Result<Vec<Spend>, RedeemError>)
    ensures
        match r {
            Ok(read) => spends_read(spends@, read@),
            Err(RedeemError::BadAmount(i)) => first_bad_amount(spends@, i as int),
        },
{
    let mut read: Vec<Spend> = Vec::new();
    let mut i: usize = 0;
    while i < spends.len()
        invariant
            i <= spends@.len(),
            read@.len() == i,
            forall|k: int|
                0 <= k < i ==> {
                    &&& amount_value(spends@[k].amount@) == Some((#[trigger] read@[k]).amount@)
                    &&& read@[k].receiver == spends@[k].receiver
                },
            forall|k: int| 0 <= k < i ==> amount_value((#[trigger] spends@[k]).amount@) is Some,
        decreases spends@.len() - i,
    {
        match from_str(spends[i].amount.as_str()) {
            Some(amount) => {
                read.push(Spend { amount, receiver: spends[i].receiver });
            },
            None => {
                return Err(RedeemError::BadAmount(i));
            },
        }
        i += 1;
    }
    Ok(read)
}

/// Puts together the request that redeems `tickets` for `spends`.
pub fn redeem_request(tickets: Vec<SignedTicket>, spends: &Vec<SpendInput>) -> (r: Result<
    SpendRequest,
    RedeemError,
>)
    ensures
        match r {
            Ok(request) => request.signatures == tickets && spends_read(spends@, request.spends@),
            Err(RedeemError::BadAmount(i)) => first_bad_amount(spends@, i as int),
        },
{
    match read_spends(spends) {
        Ok(read) => Ok(SpendRequest { signatures: tickets, spends: read }),
        Err(e) => Err(e),
    }
}

/// The address of the redemption endpoint of the coordinator at `url`.
pub fn redeem_url(url: &str) -> (r: String)
    ensures
        r@ == url@ + redeem_path(),
{
    let mut text = characters(url);
    text.push('/');
    text.push('r');
    text.push('e');
    text.push('d');
    text.push('e');
    text.push('e');
    text.push('m');
    assert(text@ =~= url@ + redeem_path());
    string_of(&text)
}

/// Reads the coordinator's answer: a status from 200 to 299 accepts, any
/// other refuses. The body is kept word for word in either case.
pub fn read_response(status: u16, body: String) -> (r: Redemption)
    ensures
        r == if is_success(status) {
            Redemption::Accepted(body)
        } else {
            Redemption::Refused(status, body)
        },
{
    if 200 <= status && status < 300 {
        Redemption::Accepted(body)
    } else {
        Redemption::Refused(status, body)
    }
}

} // verus!
