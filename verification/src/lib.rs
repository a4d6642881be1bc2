//! A point-of-sale transaction kernel: the canonical state of retail sale
//! transactions, kept durable through a write-ahead log.
//!
//! The kernel owns a registry of in-memory transactions addressed by opaque
//! 64-bit handles. Every state-changing operation first appends a record to
//! the write-ahead log and then applies that same record to the in-memory
//! model, so the registry is at all times exactly the state obtained by
//! replaying the log; recovery after a crash replays the log into a fresh
//! registry and provably reconstructs what was acknowledged.

pub mod codec;
pub mod currency;
pub mod laws;
pub mod line;
pub mod numfmt;
pub mod result;
pub mod store;
pub mod strutil;
pub mod terminal;
pub mod transaction;
pub mod wal;

use vstd::prelude::*;

verus! {

/// The reserved invalid transaction handle.
pub const PK_INVALID_HANDLE: u64 = 0;

} // verus!
