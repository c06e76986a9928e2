//! What the gas station publishes, as lines to be shown.

use vstd::prelude::*;
use vstd::string::StringExecFns;
use crate::amount::{eth_text, u256_to_eth, Wei};
use crate::encoding::{encode_prefixed, encoded_prefixed};

verus! {

/// The lines that describe a gas station, in the order shown.
pub open spec fn report_lines(
    contract: Seq<char>,
    url: Seq<char>,
    ticket_cost: nat,
    shipping_cost: nat,
    pubkey: Seq<u8>,
) -> Seq<Seq<char>> {
    seq![
        "StealthGasStation contract: "@ + contract,
        "Coordinator URL: "@ + url,
        "Ticket Cost: "@ + eth_text(ticket_cost),
        "Shipping Cost: "@ + eth_text(shipping_cost),
        "Coordinator PubKey: "@ + encoded_prefixed(pubkey),
    ]
}

/// What the lines of a report hold, as sequences.
pub open spec fn line_views(lines: Seq<String>) -> Seq<Seq<char>> {
    Seq::new(lines.len(), |i: int| lines[i]@)
}

/// Describes a gas station: its address, its coordinator, the two costs in
/// ether, and the coordinator's public key in hexadecimal.
pub fn report(contract: &str, url: &str, ticket_cost: Wei, shipping_cost: Wei, pubkey: &[u8]) -> (r:
    Vec<String>)
    ensures
        line_views(r@) == report_lines(contract@, url@, ticket_cost@, shipping_cost@, pubkey@),
{
    let mut lines: Vec<String> = Vec::new();
    lines.push("StealthGasStation contract: ".to_string().concat(contract));
    lines.push("Coordinator URL: ".to_string().concat(url));
    lines.push("Ticket Cost: ".to_string().concat(u256_to_eth(ticket_cost).as_str()));
    lines.push("Shipping Cost: ".to_string().concat(u256_to_eth(shipping_cost).as_str()));
    lines.push("Coordinator PubKey: ".to_string().concat(encode_prefixed(pubkey).as_str()));
    assert(line_views(lines@) =~= report_lines(
        contract@,
        url@,
        ticket_cost@,
        shipping_cost@,
        pubkey@,
    ));
    lines
}

} // verus!
