//! 256-bit node identifiers.

use vstd::prelude::*;

verus! {

/// A 256-bit identifier in the DHT key space, stored as 32 big-endian bytes.
#[derive(Clone, Copy, PartialEq, Eq, Hash, Debug)]
pub struct NodeId {
    raw: [u8; 32],
}

impl View for NodeId {
    type V = Seq<u8>;

    closed spec fn view(&self) -> Seq<u8> {
        self.raw@
    }
}

/// Every identifier views as exactly 32 bytes.
pub proof fn lemma_node_id_len(n: NodeId)
    ensures
        n@.len() == 32,
{
}

impl NodeId {
    /// Builds an identifier from its 32 raw bytes.
    pub fn new(raw_input: &[u8; 32]) -> (r: NodeId)
        ensures
            r@ == raw_input@,
    {
        NodeId { raw: *raw_input }
    }

    /// The raw bytes of the identifier.
    pub fn raw(&self) -> (r: [u8; 32])
        ensures
            r@ == self@,
    {
        self.raw
    }
}

} // verus!
