//! The client side of blind gas tickets.
//!
//! A ticket is generated unsigned ([`generate`]), paid for on chain
//! ([`purchase`]), matched with the blind signature that the gas station
//! emitted for it ([`scan`]), finalized into a redeemable ticket
//! ([`finalize`]), checked ([`verify`]) and handed to the coordinator
//! ([`redeem`]). Each step is a function from what the step before left
//! behind: a step takes by reference what it leaves as it is, and by value
//! what it consumes.
//!
//! Nothing here reads or writes files, and nothing talks to a node or to the
//! coordinator. [`store`] and [`network`] hold the rules for where tickets
//! are kept and what a command falls back to.

pub mod address;
pub mod amount;
pub mod encoding;
pub mod fault;
pub mod finalize;
pub mod generate;
pub mod index;
pub mod key;
pub mod network;
pub mod params;
pub mod purchase;
pub mod redeem;
pub mod scan;
pub mod store;
pub mod text;
pub mod ticket;
pub mod verify;
