//! A synchronization engine for a small hierarchical dataset: lists that
//! contain tasks, kept in a server-side store and reconciled against the
//! local copies of intermittently connected devices.
//!
//! The store keeps every row together with creation/update/soft-delete
//! timestamps (microseconds since the Unix epoch). Clients reconcile through
//! three operations: `Push` merges a batch of upserts and deletions into the
//! store atomically, `Pull` computes the incremental delta past a watermark,
//! and `FullSync` returns a fresh live snapshot. Conflicts resolve by
//! last-writer-wins over whole records; deletions are soft (tombstones), so
//! that removals can be reported to other devices.

pub mod accounts;
pub mod clock;
pub mod config;
pub mod errors;
pub mod ids;
pub mod laws;
pub mod lists;
pub mod pull;
pub mod push;
pub mod reconcile;
pub mod store;
pub mod tasks;
pub mod text;
