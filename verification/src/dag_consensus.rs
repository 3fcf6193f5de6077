//! Vertices of the DAG as they travel between consensus peers.

use vstd::prelude::*;

verus! {

/// A DAG vertex in transferable form.
#[derive(Debug, Clone)]
pub struct SerializedVertex {
    /// Vertex id
    pub id: Vec<u8>,
    /// Parent vertex ids
    pub parents: Vec<Vec<u8>>,
    /// Payload
    pub payload: Vec<u8>,
    /// Timestamp
    pub timestamp: u64,
    /// Author
    pub author: Vec<u8>,
    /// Signature
    pub signature: Vec<u8>,
}

impl SerializedVertex {
    /// A vertex with the given id, parents, payload and timestamp, and no
    /// author or signature yet.
    pub fn new(id: Vec<u8>, parents: Vec<Vec<u8>>, payload: Vec<u8>, timestamp: u64) -> (r: SerializedVertex)
        ensures
            r.id == id,
            r.parents == parents,
            r.payload == payload,
            r.timestamp == timestamp,
            r.author@.len() == 0,
            r.signature@.len() == 0,
    {
        SerializedVertex { id, parents, payload, timestamp, author: Vec::new(), signature: Vec::new() }
    }
}

} // verus!
