//! Building blocks for nodes of a message-passing distributed system:
//! message envelopes, request/response correlation, the spreading of
//! values by gossip, a grow-only counter and a replicated log with offsets
//! claimed by compare-and-swap.

pub mod claims;
pub mod counter;
pub mod echo;
pub mod fleet;
pub mod gossip;
pub mod log;
pub mod message;
pub mod names;
pub mod offsets;
pub mod poll;
pub mod rpc;
pub mod runtime;
pub mod send;
pub mod sets;
pub mod spread;
pub mod store;
pub mod text;
pub mod txn;
pub mod unique_ids;
