//! Relay server core: session registry, proof-of-work challenge engine,
//! binary wire codec and packet dispatcher for a UDP relay overlay.
//!
//! Nodes are identified by 20-byte ids; each established session gets a
//! dense numeric slot. The server answers directory queries (by id, by
//! slot, neighbourhood by Hamming distance) and forwards datagrams
//! between slots under a per-sender token-bucket rate limit.

pub mod bytes;
pub mod challenge;
pub mod codec;
pub mod error;
pub mod limits;
pub mod proto;
pub mod server;
pub mod session;
pub mod state;
