//! A reputation and Sybil-resistance state machine.
//!
//! Accounts attest to one another's validity with a confidence score,
//! network-relative aggregate statistics gate who may participate, and a
//! challenge/vote mechanism can ban accounts the network judges invalid.
//! The whole state is held as one explicitly owned value; every operation
//! is an atomic transition that either fully applies or returns one
//! discriminated error and leaves the state unchanged.

pub mod aggregates;
pub mod assoc;
pub mod graph;
pub mod laws;
pub mod store;
pub mod types;

pub use graph::SocialGraph;
pub use types::{AccountStats, Attestation, Challenge, Config, Error, NetworkTotals};
