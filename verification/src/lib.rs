//! Tracks coarse balance buckets of address-owned coin objects across
//! checkpoints of ledger history.
//!
//! Each checkpoint supplies the snapshots of the objects it read (its inputs)
//! and the latest live snapshots of the objects it wrote. The change detector
//! classifies every touched coin into "no record", "insert a new bucket state"
//! or "delete the tracked state", producing at most one record per object id,
//! in object-id order. The ledger writer maps those records to rows and
//! appends them to an append-only changelog store with conflict-ignore
//! semantics, which makes reprocessing a checkpoint idempotent.

pub mod classify;
pub mod detect;
pub mod encoding;
pub mod model;
pub mod store;
