//! Bodies of the protocol requests this core emits.

use vstd::prelude::*;
use crate::node_id::NodeId;

verus! {

/// The body of a protocol request built for one contacted peer.
#[derive(Clone, Debug)]
pub enum RequestBody {
    /// A node-lookup request: the distance levels to probe, each in
    /// `[0, 256]`.
    FindNode { distances: Vec<u64> },
    /// A value-lookup request: the key looked up, plus the distance levels
    /// to probe.
    FindValue { key: NodeId, distances: Vec<u64> },
}

} // verus!
