//! Failures reported by the ticket library.

use vstd::prelude::*;
use eth_stealth_gas_tickets::CoordPubKeyError;

verus! {

/// `eth_stealth_gas_tickets::CoordPubKeyError`, the error of every call into
/// the ticket library. Nothing is known of a value but through [`fault_of`].
#[verifier::external_type_specification]
#[verifier::external_body]
pub struct ExCoordPubKeyError(CoordPubKeyError);

/// What the ticket library reports when one of its operations fails.
#[derive(Clone, Debug, PartialEq, Eq)]
pub enum TicketFault {
    /// A field is no hexadecimal text.
    InvalidHex(String),
    /// A message could not be blinded under the key.
    BlindingFailed(String),
    /// A blind signature could not be turned into a signature.
    FinalizationFailed(String),
    /// A signature does not hold under the key.
    VerificationFailed(String),
    /// Tickets and signatures differ in number.
    LengthMismatch,
    /// A signature names another ticket than the one at its index.
    IdMismatch,
}

/// Tells the variants of `eth_stealth_gas_tickets::CoordPubKeyError` apart and
/// moves the message of each into the variant of the same name.
#[verifier::external_body]
pub(crate) fn fault_of(error: CoordPubKeyError) -> (r: TicketFault) {
    match error {
        CoordPubKeyError::InvalidHex(m) => TicketFault::InvalidHex(m),
        CoordPubKeyError::BlindingFailed(m) => TicketFault::BlindingFailed(m),
        CoordPubKeyError::FinalizationFailed(m) => TicketFault::FinalizationFailed(m),
        CoordPubKeyError::VerificationFailed(m) => TicketFault::VerificationFailed(m),
        CoordPubKeyError::LengthMismatch => TicketFault::LengthMismatch,
        CoordPubKeyError::IdMismatch => TicketFault::IdMismatch,
    }
}

} // verus!
