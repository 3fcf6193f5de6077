//! Shared protocol types: priorities, errors, messages and connection status.

use vstd::prelude::*;
use crate::text::{decimal, push_decimal, string_push};

verus! {

/// Priority of a network message; higher priorities are served first.
#[derive(Debug, Clone, Copy, PartialEq, Eq, Structural)]
pub enum MessagePriority {
    /// Served before all others
    High,
    /// Default priority
    Normal,
    /// Served last
    Low,
}

/// Errors of the networking layer.
#[derive(Debug, Clone)]
pub enum NetworkError {
    /// A connection could not be established or was lost
    ConnectionError(String),
    /// A route could not be computed
    RoutingError(String),
    /// An encryption or decryption step failed
    EncryptionError(String),
    /// A message was malformed
    MessageError(String),
    /// Input failed validation
    ValidationError(String),
    /// Internal failure
    Internal(String),
    /// The DHT could not be bootstrapped
    BootstrapFailed,
    /// Content exceeds the configured size limit
    ContentTooLarge,
}

/// A message travelling through the network.
#[derive(Debug, Clone)]
pub struct NetworkMessage {
    /// Message identifier
    pub id: String,
    /// Sender identity bytes
    pub source: Vec<u8>,
    /// Recipient identity bytes
    pub destination: Vec<u8>,
    /// Message payload
    pub payload: Vec<u8>,
    /// Delivery priority
    pub priority: MessagePriority,
    /// Time to live, in seconds
    pub ttl_secs: u64,
}

/// State of a connection to a peer.
#[derive(Debug, Clone)]
pub enum ConnectionStatus {
    /// Connection attempt in progress
    Connecting,
    /// Connected
    Connected,
    /// Disconnected
    Disconnected,
    /// Connection failed for the given reason
    Failed(String),
}

impl ConnectionStatus {
    /// A copy of the status.
    pub fn duplicate(&self) -> (r: ConnectionStatus)
        ensures
            r == *self,
    {
        match self {
            ConnectionStatus::Connecting => ConnectionStatus::Connecting,
            ConnectionStatus::Connected => ConnectionStatus::Connected,
            ConnectionStatus::Disconnected => ConnectionStatus::Disconnected,
            ConnectionStatus::Failed(m) => ConnectionStatus::Failed(m.clone()),
        }
    }
}

/// Identity of a peer: 32 bytes.
#[derive(Debug, Clone, Copy, PartialEq, Eq, Hash)]
pub struct PeerId {
    /// The identity bytes
    pub bytes: [u8; 32],
}

impl PeerId {
    /// The peer with the given identity bytes.
    pub fn from_bytes(bytes: [u8; 32]) -> (r: PeerId)
        ensures
            r.bytes == bytes,
    {
        PeerId { bytes }
    }

    /// The identity bytes.
    pub fn to_bytes(&self) -> (r: [u8; 32])
        ensures
            r == self.bytes,
    {
        self.bytes
    }

    /// Whether both identities have the same bytes.
    pub fn same_as(&self, other: &PeerId) -> (r: bool)
        ensures
            r == (self.bytes@ == other.bytes@),
    {
        let mut i: usize = 0;
        while i < 32
            invariant
                0 <= i <= 32,
                forall|j: int| 0 <= j < i ==> self.bytes@[j] == other.bytes@[j],
            decreases 32 - i,
        {
            if self.bytes[i] != other.bytes[i] {
                return false;
            }
            i = i + 1;
        }
        assert(self.bytes@ =~= other.bytes@);
        true
    }

    /// A peer with random identity bytes.
    pub fn random() -> (r: PeerId) {
        PeerId { bytes: crate::entropy::random_array32() }
    }
}

/// A peer id made from bytes gives them back, and two ids made from bytes
/// are equal exactly when the bytes are.
pub proof fn law_peer_id_bytes_round_trip(a: [u8; 32], b: [u8; 32])
    ensures
        (PeerId { bytes: a }).bytes == a,
        (PeerId { bytes: a } == PeerId { bytes: b }) <==> a == b,
{
}

/// An IPv4 network address with a port.
#[derive(Debug, Clone, Copy, PartialEq, Eq, Hash)]
pub struct NetworkAddress {
    /// The four octets of the IPv4 address
    pub ip: [u8; 4],
    /// The port
    pub port: u16,
}

/// The text `a.b.c.d:port` of an IPv4 address and port.
pub open spec fn socket_text(ip: Seq<u8>, port: u16) -> Seq<char> {
    decimal(ip[0] as nat) + seq!['.'] + decimal(ip[1] as nat) + seq!['.'] + decimal(ip[2] as nat) + seq!['.']
        + decimal(ip[3] as nat) + seq![':'] + decimal(port as nat)
}

impl NetworkAddress {
    /// The address with octets `ip_parts` and the given port.
    pub fn new(ip_parts: [u8; 4], port: u16) -> (r: NetworkAddress)
        ensures
            r.ip == ip_parts,
            r.port == port,
    {
        NetworkAddress { ip: ip_parts, port }
    }

    /// The address as text, `a.b.c.d:port`.
    pub fn to_socket_addr(&self) -> (r: String)
        ensures
            r@ == socket_text(self.ip@, self.port),
    {
        let mut s = String::new();
        push_decimal(&mut s, self.ip[0] as u64);
        string_push(&mut s, '.');
        push_decimal(&mut s, self.ip[1] as u64);
        string_push(&mut s, '.');
        push_decimal(&mut s, self.ip[2] as u64);
        string_push(&mut s, '.');
        push_decimal(&mut s, self.ip[3] as u64);
        string_push(&mut s, ':');
        push_decimal(&mut s, self.port as u64);
        proof {
            assert(s@ =~= socket_text(self.ip@, self.port));
        }
        s
    }
}

} // verus!
