//! A peer-to-peer escrow and settlement engine.
//!
//! Account holders deposit funds into a custodial ledger, list a portion as
//! `available` for sale at a declared price, and counterparties open buy
//! orders that run through a deterministic state machine
//! (`Init` -> `Processing` -> `Success`, or `Init` -> `Cancelled`) until the
//! funds move between the buyer's and the seller's balances.  A reputation
//! counter (up/down votes) attaches to each account.
//!
//! The ledger itself is held in memory; the host that supplies caller
//! identities, attached deposits and the nonce for transaction identifiers
//! hands them in as plain arguments.

pub mod ident;
pub mod laws;
pub mod ledger;
pub mod model;
pub mod types;
