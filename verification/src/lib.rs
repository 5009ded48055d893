//! Core of a proof-of-stake ledger with an Ethereum bridge: the canonical
//! transaction codec, the two-phase transaction queue, proposal construction,
//! vote-extension aggregation, governance tallying and the bridge-pool
//! relayer recommender.
//!
//! Block-by-block I/O (the consensus transport, RPC clients, wallets) lives
//! outside this crate; everything here is deterministic logic over plain
//! values, specified by contracts.

pub mod bytes;
pub mod crypto;
pub mod tx;
pub mod dkg;
pub mod address;
pub mod vote_ext;
pub mod transaction;
pub mod queue;
pub mod voting;
pub mod shell;
pub mod storage;
pub mod strutil;
pub mod governance;
pub mod bridge_pool;
pub mod ibc;
pub mod sdk;
pub mod token;
