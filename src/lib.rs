//! A weighted election and validator-rotation engine.
//!
//! Supporters pledge locked balance to candidates during a round; at the end
//! of each term the best-backed candidates become the validator set and the
//! locks that back them move from the election tag to the session tag.
pub mod ledger;
pub mod ranking;
pub mod elections;
pub mod council;
pub mod runtime;
pub mod laws;
