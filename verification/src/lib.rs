//! TTL vault backend and contract rules, verified with Verus.
//!
//! The library holds the rules of the vault service: vault search and
//! reports, templates and notification texts, reminder scheduling, the live
//! stream's decisions, TTL insurance records, and the contract rules for
//! beneficiary caps, floors, matching, ranking, vesting and proof
//! attestation.  Each public function states what it returns in its contract;
//! the `law_` proof functions state what holds across calls.
use vstd::prelude::*;

pub mod amounts;
pub mod analytics;
pub mod caps;
pub mod floors;
pub mod handlers;
pub mod insurance;
pub mod keyed_map;
pub mod matching;
pub mod models;
pub mod outside;
pub mod ranking;
pub mod reminders;
pub mod store;
pub mod str_map;
pub mod templates;
pub mod text;
pub mod vesting;
pub mod websocket;
pub mod zk_verifier;

verus! {
} // verus!
