//! Clan history tooling: extraction of roster, profile and clan-stat
//! payloads, reconciliation of roster snapshots against accumulated
//! membership history, and an in-memory relational harness for exercising
//! the reconciliation invariants.

pub mod classify;
pub mod domain;
pub mod extract;
pub mod laws;
pub mod payload;
pub mod scan;
pub mod schema;
pub mod store;
pub mod testing;
pub mod trial;
