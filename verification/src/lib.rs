//! An append-only ledger of hash-sealed blocks.
//!
//! A chain of blocks batches encoded value-transfer records drawn from a
//! pending pool; each block is sealed by a proof-of-work search and linked to
//! its predecessor by that predecessor's content hash.

pub mod balance;
pub mod block;
pub mod chain;
pub mod transaction;
mod util;
pub mod wallet;
