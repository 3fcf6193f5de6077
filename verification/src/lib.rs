//! Peer-to-peer networking core for the QuDAG protocol: verified message
//! chunking, circuit breaking, dark-domain resolution, DNS record validation,
//! Kademlia distance arithmetic, quantum-resistant key handling and the
//! connection bookkeeping around them.

pub mod assoc;
pub mod types;
pub mod security_analysis;
pub mod clock;
pub mod entropy;
pub mod text;
pub mod digest;
pub mod encoding;
pub mod compression;
pub mod lru_cache;
pub mod message_chunking;
pub mod circuit_breaker;
pub mod dark_resolver;
pub mod dns;
pub mod kademlia;
pub mod quantum_crypto;
pub mod peer;
pub mod metrics;
pub mod router;
pub mod routing;
pub mod signing;
pub mod message;
pub mod aead;
pub mod secure_channel;
pub mod connection;
pub mod nat_traversal;
pub mod discovery;
pub mod connection_pool;
pub mod dag_consensus;
pub mod traffic_cipher;

pub use circuit_breaker::{CircuitBreakerConfig, CircuitBreakerManager, CircuitState};
pub use dag_consensus::SerializedVertex;
pub use dark_resolver::{DarkAddress, DarkDomainRecord, DarkResolver, DarkResolverError};
pub use discovery::DiscoveryMethod;
pub use dns::{CloudflareConfig, DnsError, DnsManager, DnsRecord, RecordType};
pub use kademlia::{BootstrapConfig, ContentRoutingConfig, KademliaDHT};
pub use message::MessageEnvelope;
pub use metrics::LatencyMetrics;
pub use nat_traversal::{
    ConnectionType, ConnectionUpgradeManager, HolePunchCoordinator, HolePunchPhase, NatPmpClient, NatTraversalConfig,
    NatTraversalError, NatTraversalStats, NatType, PortMapping, PortMappingMethod, PortMappingProtocol, RelayConnection,
    RelayManager, RelayServer, UpgradeAttempt,
};
pub use quantum_crypto::{MlKemCiphertext, MlKemPublicKey, MlKemSecretKey, MlKemSecurityLevel, QuantumKeyExchange, SharedSecret};
pub use router::HopInfo;
pub use types::{ConnectionStatus, MessagePriority, NetworkAddress, NetworkError, NetworkMessage, PeerId};
