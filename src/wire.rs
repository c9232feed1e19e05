//! Version records as a read response carries them, before decoding.

use vstd::prelude::*;

verus! {

/// One (node id, counter) entry of a vector clock on the wire.
#[derive(Debug, Clone, PartialEq, Eq)]
pub struct WireClockEntry {
    pub node_id: String,
    pub counter: u64,
}

/// A vector clock on the wire: entries in no particular order, node ids
/// possibly repeated.
#[derive(Debug, Clone, PartialEq, Eq)]
pub struct WireVectorClock {
    pub entries: Vec<WireClockEntry>,
}

/// One version of a key's value as a read response carries it.
#[derive(Debug, Clone, PartialEq, Eq)]
pub struct WireVersion {
    pub value: String,
    pub vector_clock: Option<WireVectorClock>,
    pub timestamp: u64,
    pub writer_node_id: String,
}

impl WireVectorClock {
    /// The entries as (node id, counter) pairs, in wire order.
    pub open spec fn pairs(&self) -> Seq<(Seq<char>, u64)> {
        self.entries@.map_values(|e: WireClockEntry| (e.node_id@, e.counter))
    }
}

} // verus!
