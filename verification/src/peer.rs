//! Peer identities made of arbitrary bytes, and peer status.

use vstd::prelude::*;
use crate::clock::now_nanos;
use crate::types::NetworkAddress;

verus! {

/// Errors of peer operations.
#[derive(Debug, Clone, Copy, PartialEq, Eq, Structural)]
pub enum PeerError {
    /// The connection failed
    ConnectionFailed,
    /// The peer is unknown
    PeerNotFound,
    /// The peer address is invalid
    InvalidAddress,
    /// The handshake failed
    HandshakeFailed,
}

/// A peer identifier: arbitrary bytes.
#[derive(Debug, Clone, PartialEq, Eq, Hash)]
pub struct PeerId(pub Vec<u8>);

/// The 8 big-endian bytes of `t`.
pub open spec fn be_bytes(t: u64) -> Seq<u8> {
    Seq::new(8, |i: int| ((t >> (8 * (7 - i)) as u64) & 0xff) as u8)
}

impl PeerId {
    /// An identifier made of the current time in nanoseconds since the
    /// epoch, as 8 big-endian bytes.
    pub fn new() -> (r: PeerId)
        ensures
            exists|t: u64| #[trigger] be_bytes(t) == r.0@,
    {
        let t = now_nanos();
        let mut v: Vec<u8> = Vec::new();
        let mut i: u64 = 0;
        while i < 8
            invariant
                0 <= i <= 8,
                v@.len() == i,
                forall|k: int| 0 <= k < i ==> v@[k] == ((t >> (8 * (7 - k)) as u64) & 0xff) as u8,
            decreases 8 - i,
        {
            let shift: u64 = 8 * (7 - i);
            v.push(((t >> shift) & 0xff) as u8);
            i = i + 1;
        }
        assert(v@ =~= be_bytes(t));
        PeerId(v)
    }

    /// The identifier with the given bytes.
    pub fn from_bytes(bytes: Vec<u8>) -> (r: PeerId)
        ensures
            r.0@ == bytes@,
    {
        PeerId(bytes)
    }

    /// The identifier's bytes.
    pub fn as_bytes(&self) -> (r: &[u8])
        ensures
            r@ == self.0@,
    {
        self.0.as_slice()
    }
}

/// Connection status of a peer.
#[derive(Debug, Clone, Copy, PartialEq, Eq, Structural)]
pub enum PeerStatus {
    /// Connecting
    Connecting,
    /// Connected and handshake complete
    Connected,
    /// Connection lost
    Disconnected,
    /// Banned
    Banned,
}

/// A peer of the network.
#[derive(Debug, Clone)]
pub struct Peer {
    /// Identifier
    pub id: PeerId,
    /// Network address
    pub address: NetworkAddress,
    /// Connection status
    pub status: PeerStatus,
    /// Protocol version
    pub version: u32,
}

/// Operations on the peers of a node, for users of the library to implement.
pub trait PeerManager {
    /// Adds a peer reachable at `address`.
    fn add_peer(&mut self, address: NetworkAddress) -> Result<PeerId, PeerError>;

    /// Removes a peer.
    fn remove_peer(&mut self, peer_id: &PeerId) -> Result<(), PeerError>;

    /// Information about a peer.
    fn get_peer(&self, peer_id: &PeerId) -> Result<Peer, PeerError>;

    /// All connected peers.
    fn get_peers(&self) -> Vec<Peer>;

    /// Bans a peer.
    fn ban_peer(&mut self, peer_id: &PeerId) -> Result<(), PeerError>;

    /// Whether a peer is banned.
    fn is_banned(&self, peer_id: &PeerId) -> bool;
}

} // verus!
