//! The decoded version record.

use vstd::prelude::*;
use crate::clock::{clock_of, ClientVectorClock};
use crate::wire::WireVersion;

verus! {

/// One causal branch of a key's value: the payload, the vector clock its
/// writer had observed, the writer's timestamp and the writer's node id.
#[derive(Debug, Clone, PartialEq, Eq)]
pub struct ClientVersion {
    pub value: String,
    pub vector_clock: ClientVectorClock,
    pub timestamp: u64,
    pub writer_node_id: String,
}

/// The clock that a wire version's optional vector clock decodes to: the
/// empty map when it is absent.
pub open spec fn decoded_clock(wire: WireVersion) -> Map<Seq<char>, u64> {
    match wire.vector_clock {
        Some(c) => clock_of(c.pairs()),
        None => Map::empty(),
    }
}

impl ClientVersion {
    /// Decodes a version from the wire. An absent vector clock becomes the
    /// empty clock; of two clock entries for one node the later one wins.
    pub fn from_wire(wire: WireVersion) -> (r: Self)
        ensures
            r.value == wire.value,
            r.timestamp == wire.timestamp,
            r.writer_node_id == wire.writer_node_id,
            r.vector_clock.wf(),
            r.vector_clock@ == decoded_clock(wire),
    {
        let vector_clock = match wire.vector_clock {
            Some(c) => ClientVectorClock::from_wire(c),
            None => ClientVectorClock::new(),
        };
        ClientVersion {
            value: wire.value,
            vector_clock,
            timestamp: wire.timestamp,
            writer_node_id: wire.writer_node_id,
        }
    }
}

} // verus!
