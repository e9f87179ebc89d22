//! Validation rules for the balances of a payment channel.
//!
//! A channel is backed by a fixed deposit and keeps, per participant, an
//! arbitrary-precision balance. Two verdicts are offered over snapshots of
//! those balances: whether a new snapshot is a legal successor of an earlier
//! one ([`is_valid_transition`]), and whether a counterparty's approved
//! snapshot corroborates enough of our own accounting ([`get_health`]).
//!
//! Every contract is stated over the mathematical content of its arguments:
//! the natural number held by a `BigUint` ([`amount::amount`]) and the finite
//! map from identifier to amount held by a [`BalanceMap`].

pub mod amount;
pub mod balances;
pub mod health;
pub mod total;
pub mod transition;

pub use balances::BalanceMap;
pub use health::get_health;
pub use transition::is_valid_transition;
