//! A peer-to-peer node combining a Kademlia routing layer with a
//! proof-of-work blockchain used as an append-only event log, and an
//! auction application derived purely by replaying that log.
//!
//! The routing layer keeps bounded per-distance-class buckets with
//! liveness-gated eviction; the ledger carries signed, fee-bearing
//! transactions mined into proof-of-work blocks; and the auction engine is
//! a pure, total fold over the confirmed transactions. Each structure
//! states its invariant, and each operation its exact effect, as verified
//! contracts.

pub mod auction;
pub mod block;
pub mod blockchain;
pub mod bytes_util;
pub mod crypto;
pub mod handoff;
pub mod ids;
pub mod kbucket;
pub mod node;
pub mod pool;
pub mod pow;
pub mod routing_table;
pub mod service;
pub mod storage;
pub mod transaction;
