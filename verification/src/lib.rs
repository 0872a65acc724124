//! Query-targeting core for a Kademlia-style DHT lookup engine.
//!
//! Given an in-flight lookup for a node or a value, this crate decides which
//! protocol request to send to each contacted peer: a spread of target
//! distances in the XOR metric, centered on the peer's true log2 distance
//! from the lookup target. It also carries the query-scoped state: the lookup
//! intent, the completion callback, the unverified peer records gathered
//! mid-lookup, and the configured probe count.

pub mod error;
pub mod external;
pub mod kbucket;
pub mod node_id;
pub mod query_info;
pub mod rpc;
