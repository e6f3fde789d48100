//! A deterministic blackjack engine and the optimistic overlay that replays
//! not-yet-settled actions on top of the settled state.
//!
//! Every card comes from a generator seeded by the caller, so that running an
//! action again from the same state and the same seed gives the same state.

pub mod action;
pub mod api;
pub mod draw;
pub mod engine;
pub mod laws;
pub mod ledger;
pub mod model;
pub mod overlay;
pub mod prover;
pub mod request;
pub mod score;
pub mod session;
pub mod settlement;
pub mod table;
