//! Bulk addition of members to a messaging group: per-member retry decisions,
//! outcome classification, batch statistics, deduplicated ledgers and the
//! invite fallback.
pub mod text;
pub mod identity;
pub mod outcome;
pub mod retry;
pub mod batch;
pub mod ledger;
pub mod invite;
