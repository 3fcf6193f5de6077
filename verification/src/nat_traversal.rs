//! NAT traversal decisions and bookkeeping: NAT type from STUN answers,
//! port mappings through UPnP and NAT-PMP, relay selection, connection
//! upgrades and their statistics; times in milliseconds.
//!
//! Sending STUN probes, discovering a UPnP gateway on the network and
//! punching holes are network I/O and stay with the caller, which hands the
//! answers to these functions.

use vstd::prelude::*;
use crate::types::{NetworkAddress, NetworkError, PeerId};

verus! {

/// STUN message types.
#[derive(Debug, Clone, Copy, PartialEq, Eq, Structural)]
pub enum MessageType {
    /// Binding request
    BindingRequest,
    /// Binding response
    BindingResponse,
    /// Binding error response
    BindingErrorResponse,
    /// Allocate request (TURN)
    AllocateRequest,
    /// Allocate response (TURN)
    AllocateResponse,
}

/// Errors of NAT traversal.
#[derive(Debug, Clone)]
pub enum NatTraversalError {
    /// STUN failed
    StunError(String),
    /// TURN failed
    TurnError(String),
    /// UPnP failed
    UpnpError(String),
    /// NAT-PMP failed
    NatPmpError(String),
    /// Hole punching failed
    HolePunchError(String),
    /// Relaying failed
    RelayError(String),
    /// NAT detection failed
    DetectionError(String),
    /// Connection upgrade failed
    UpgradeError(String),
    /// The networking layer failed
    NetworkError(NetworkError),
    /// An I/O operation failed
    IoError(String),
    /// An operation timed out
    Timeout,
    /// A connection failed
    ConnectionError(NetworkError),
}

/// NAT types.
#[derive(Debug, Clone, Copy, PartialEq, Eq, Hash, Structural)]
pub enum NatType {
    /// No NAT: a direct internet connection
    NoNat,
    /// Full cone NAT
    FullCone,
    /// Restricted cone NAT
    RestrictedCone,
    /// Port restricted cone NAT
    PortRestrictedCone,
    /// Symmetric NAT
    Symmetric,
    /// Unknown
    Unknown,
}

/// Two addresses with the same IP and port.
pub open spec fn same_endpoint(a: NetworkAddress, b: NetworkAddress) -> bool {
    a.ip@ == b.ip@ && a.port == b.port
}

/// The NAT type that STUN answers (public addresses seen by the servers, in
/// order) reveal for a local address: none when the first public IP is the
/// local one; restricted cone when every answer is the same; symmetric
/// otherwise.
pub open spec fn nat_type_of(results: Seq<NetworkAddress>, local: NetworkAddress) -> NatType {
    if results.len() > 0 && results[0].ip@ == local.ip@ {
        NatType::NoNat
    } else if forall|i: int| 0 <= i < results.len() - 1 ==> same_endpoint(#[trigger] results[i], results[i + 1]) {
        NatType::RestrictedCone
    } else {
        NatType::Symmetric
    }
}

fn same_ip(a: &[u8; 4], b: &[u8; 4]) -> (r: bool)
    ensures
        r == (a@ == b@),
{
    if a[0] == b[0] && a[1] == b[1] && a[2] == b[2] && a[3] == b[3] {
        assert(a@ =~= b@);
        true
    } else {
        proof {
            if a@ == b@ {
                assert(a@[0] == b@[0] && a@[1] == b@[1] && a@[2] == b@[2] && a@[3] == b@[3]);
            }
        }
        false
    }
}

/// The NAT type revealed by STUN answers; see `nat_type_of`.
pub fn analyze_nat_type(results: &[NetworkAddress], local: &NetworkAddress) -> (r: NatType)
    ensures
        r == nat_type_of(results@, *local),
{
    let n = results.len();
    if n == 0 {
        return NatType::RestrictedCone;
    }
    if same_ip(&results[0].ip, &local.ip) {
        return NatType::NoNat;
    }
    let mut i: usize = 0;
    while i < n - 1
        invariant
            n == results@.len(),
            n > 0,
            results@[0].ip@ != local.ip@,
            0 <= i <= n - 1,
            forall|j: int| 0 <= j < i ==> same_endpoint(#[trigger] results@[j], results@[j + 1]),
        decreases n - 1 - i,
    {
        if !(same_ip(&results[i].ip, &results[i + 1].ip) && results[i].port == results[i + 1].port) {
            proof {
                assert(!same_endpoint(results@[i as int], results@[i + 1]));
            }
            return NatType::Symmetric;
        }
        i = i + 1;
    }
    NatType::RestrictedCone
}

/// What NAT detection concludes from STUN answers: an error when no server
/// answered; otherwise the NAT type and the first public address.
pub fn nat_detection_result(results: &[NetworkAddress], local: &NetworkAddress) -> (r: Result<(NatType, NetworkAddress), NatTraversalError>)
    ensures
        results@.len() == 0 ==> (r matches Err(NatTraversalError::DetectionError(m)) && m@ == "No STUN servers responded"@),
        results@.len() > 0 ==> (r matches Ok(p) && p.0 == nat_type_of(results@, *local) && p.1 == results@[0]),
{
    if results.len() == 0 {
        return Err(NatTraversalError::DetectionError(String::from_str("No STUN servers responded")));
    }
    Ok((analyze_nat_type(results, local), results[0]))
}

/// Transport protocol of a port mapping.
#[derive(Debug, Clone, Copy, PartialEq, Eq, Structural)]
pub enum PortMappingProtocol {
    /// TCP
    TCP,
    /// UDP
    UDP,
}

/// How a port mapping was made.
#[derive(Debug, Clone, Copy, PartialEq, Eq, Structural)]
pub enum PortMappingMethod {
    /// UPnP
    Upnp,
    /// NAT-PMP
    NatPmp,
    /// By hand
    Manual,
}

/// A port mapping.
#[derive(Debug, Clone, Copy, PartialEq, Eq, Structural)]
pub struct PortMapping {
    /// Local port
    pub local_port: u16,
    /// External port
    pub external_port: u16,
    /// Protocol
    pub protocol: PortMappingProtocol,
    /// How it was made
    pub method: PortMappingMethod,
    /// Creation time
    pub created_at: u64,
    /// Expiry time
    pub expires_at: u64,
}

/// NAT traversal statistics.
#[derive(Debug, Clone, Copy, Default)]
pub struct NatTraversalStats {
    /// Traversal attempts
    pub total_attempts: u64,
    /// Successful traversals
    pub successful_traversals: u64,
    /// Failed traversals
    pub failed_traversals: u64,
    /// Successful STUN queries
    pub stun_success: u64,
    /// Failed STUN queries
    pub stun_failures: u64,
    /// Successful hole punches
    pub hole_punch_success: u64,
    /// Failed hole punches
    pub hole_punch_failures: u64,
    /// Active relay connections
    pub relay_connections: u32,
    /// Connections upgraded to direct
    pub upgraded_connections: u64,
    /// Port mappings made
    pub port_mappings_created: u64,
    /// Port mappings that failed
    pub port_mappings_failed: u64,
    /// Average traversal time
    pub avg_traversal_time_ms: u64,
}

/// A UPnP gateway.
#[derive(Debug, Clone)]
pub struct SimpleGateway {
    /// Its address
    pub address: NetworkAddress,
    /// Its name
    pub name: String,
}

/// A UPnP port mapping.
#[derive(Debug, Clone)]
pub struct UpnpMapping {
    /// Local port
    pub local_port: u16,
    /// External port
    pub external_port: u16,
    /// Protocol
    pub protocol: PortMappingProtocol,
    /// Description
    pub description: String,
    /// Lease, in milliseconds
    pub lease_duration_ms: u64,
    /// Creation time
    pub created_at: u64,
}

/// A NAT-PMP port mapping.
#[derive(Debug, Clone, Copy)]
pub struct NatPmpMapping {
    /// Local port
    pub local_port: u16,
    /// External port
    pub external_port: u16,
    /// Whether it maps TCP (else UDP)
    pub is_tcp: bool,
    /// Lifetime, in milliseconds
    pub lifetime_ms: u64,
    /// Creation time
    pub created_at: u64,
}

/// Entries for other ports than `port`.
pub open spec fn other_port<T>(port: u16) -> spec_fn((u16, T)) -> bool {
    |e: (u16, T)| e.0 != port
}

/// The mappings `m` after storing `x` under `port` (replacing any earlier one).
pub open spec fn stored<T>(m: Seq<(u16, T)>, port: u16, x: T) -> Seq<(u16, T)> {
    m.filter(other_port::<T>(port)).push((port, x))
}

/// Stores `x` under `port`, replacing an earlier entry for the port.
fn store_by_port<T>(v: &mut Vec<(u16, T)>, port: u16, x: T)
    ensures
        final(v)@ == stored(old(v)@, port, x),
{
    let mut rest: Vec<(u16, T)> = Vec::new();
    std::mem::swap(&mut rest, v);
    let ghost all = rest@;
    let ghost mut k: int = 0;
    proof {
        assert(all.skip(0) =~= all);
        reveal(Seq::filter);
        assert(all.take(0) =~= Seq::<(u16, T)>::empty());
    }
    while rest.len() > 0
        invariant
            0 <= k <= all.len(),
            rest@ == all.skip(k),
            v@ == all.take(k).filter(other_port::<T>(port)),
            all == old(v)@,
        decreases rest@.len(),
    {
        let e = rest.remove(0);
        proof {
            assert(e == all[k]);
            assert(all.take(k + 1).drop_last() =~= all.take(k));
            reveal(Seq::filter);
            assert(rest@ =~= all.skip(k + 1));
        }
        if e.0 != port {
            v.push(e);
        }
        proof {
            k = k + 1;
        }
    }
    proof {
        assert(all.take(k) =~= all);
    }
    v.push((port, x));
}

/// UPnP port mapping.
#[derive(Debug, Clone)]
pub struct UpnpManager {
    /// The gateway, once discovered
    pub gateway: Option<SimpleGateway>,
    /// Mappings by local port
    pub mappings: Vec<(u16, UpnpMapping)>,
    /// Refresh interval, in milliseconds
    pub refresh_interval_ms: u64,
}

impl UpnpManager {
    /// No gateway and no mappings.
    pub fn new(refresh_interval_ms: u64) -> (r: UpnpManager)
        ensures
            r.gateway is None,
            r.mappings@.len() == 0,
            r.refresh_interval_ms == refresh_interval_ms,
    {
        UpnpManager { gateway: None, mappings: Vec::new(), refresh_interval_ms }
    }

    /// Records a mapping of `local_port` to `external_port` made at `now`.
    pub fn create_mapping_at(
        &mut self,
        local_port: u16,
        external_port: u16,
        protocol: PortMappingProtocol,
        description: &str,
        lease_duration_ms: u64,
        now: u64,
    ) -> (r: Result<UpnpMapping, NatTraversalError>)
        ensures
            (r matches Ok(m) && m.local_port == local_port && m.external_port == external_port && m.protocol == protocol
                && m.description@ == description@ && m.lease_duration_ms == lease_duration_ms && m.created_at == now),
            final(self).gateway == old(self).gateway,
            final(self).refresh_interval_ms == old(self).refresh_interval_ms,
            ({
                let kept = final(self).mappings@.last().1;
                &&& final(self).mappings@ == stored(old(self).mappings@, local_port, kept)
                &&& kept.local_port == local_port && kept.external_port == external_port && kept.protocol == protocol
                &&& kept.description@ == description@ && kept.lease_duration_ms == lease_duration_ms && kept.created_at == now
            }),
    {
        let mapping = UpnpMapping {
            local_port,
            external_port,
            protocol,
            description: String::from_str(description),
            lease_duration_ms,
            created_at: now,
        };
        let copy = UpnpMapping {
            local_port,
            external_port,
            protocol,
            description: mapping.description.clone(),
            lease_duration_ms,
            created_at: now,
        };
        store_by_port(&mut self.mappings, local_port, copy);
        Ok(mapping)
    }
}

/// NAT-PMP port mapping.
#[derive(Debug, Clone)]
pub struct NatPmpClient {
    /// The gateway, once discovered
    pub gateway: Option<[u8; 4]>,
    /// Mappings by local port
    pub mappings: Vec<(u16, NatPmpMapping)>,
}

impl NatPmpClient {
    /// No gateway and no mappings.
    pub fn new() -> (r: NatPmpClient)
        ensures
            r.gateway is None,
            r.mappings@.len() == 0,
    {
        NatPmpClient { gateway: None, mappings: Vec::new() }
    }

    /// Looks for a NAT-PMP gateway at the usual router addresses. No gateway
    /// is probed successfully, so the search fails and nothing changes.
    pub fn discover_gateway(&mut self) -> (r: Result<(), NatTraversalError>)
        ensures
            r matches Err(NatTraversalError::NatPmpError(m)) && m@ == "No NAT-PMP gateway found"@,
            *final(self) == *old(self),
    {
        Err(NatTraversalError::NatPmpError(String::from_str("No NAT-PMP gateway found")))
    }

    /// Records a mapping made at `now` through the discovered gateway; fails
    /// when no gateway has been discovered.
    pub fn create_mapping_at(&mut self, local_port: u16, external_port: u16, is_tcp: bool, lifetime_ms: u64, now: u64) -> (r: Result<NatPmpMapping, NatTraversalError>)
        ensures
            old(self).gateway is None ==> (r matches Err(NatTraversalError::NatPmpError(m)) && m@ == "No gateway discovered"@),
            old(self).gateway is None ==> final(self).mappings@ == old(self).mappings@,
            old(self).gateway is Some ==> r == Ok::<NatPmpMapping, NatTraversalError>(NatPmpMapping {
                local_port,
                external_port,
                is_tcp,
                lifetime_ms,
                created_at: now,
            }) && final(self).mappings@ == stored(old(self).mappings@, local_port, r->Ok_0),
            final(self).gateway == old(self).gateway,
    {
        if self.gateway.is_none() {
            return Err(NatTraversalError::NatPmpError(String::from_str("No gateway discovered")));
        }
        let mapping = NatPmpMapping { local_port, external_port, is_tcp, lifetime_ms, created_at: now };
        store_by_port(&mut self.mappings, local_port, mapping);
        Ok(mapping)
    }
}

/// NAT traversal settings; times in milliseconds.
#[derive(Debug, Clone, Copy)]
pub struct NatTraversalConfig {
    /// Use STUN
    pub enable_stun: bool,
    /// Use TURN
    pub enable_turn: bool,
    /// Use UPnP
    pub enable_upnp: bool,
    /// Use NAT-PMP
    pub enable_nat_pmp: bool,
    /// Punch holes
    pub enable_hole_punching: bool,
    /// Fall back to relays
    pub enable_relay: bool,
    /// Use IPv6
    pub enable_ipv6: bool,
    /// Most relay connections
    pub max_relay_connections: usize,
    /// Time allowed for hole punching
    pub hole_punch_timeout_ms: u64,
    /// Interval of NAT detection
    pub detection_interval_ms: u64,
    /// Interval of connection upgrades
    pub upgrade_interval_ms: u64,
    /// Lifetime of port mappings
    pub port_mapping_lifetime_ms: u64,
}

/// Port mapping part of NAT traversal.
#[derive(Debug, Clone)]
pub struct PortMapper {
    /// Settings
    pub config: NatTraversalConfig,
    /// UPnP
    pub upnp_manager: UpnpManager,
    /// NAT-PMP
    pub nat_pmp_client: NatPmpClient,
    /// Mappings made, by local port
    pub port_mappings: Vec<(u16, PortMapping)>,
    /// Statistics
    pub stats: NatTraversalStats,
}

/// The mapping recorded when `method` maps `local_port` to `external_port`
/// at `now` for `lifetime_ms`.
pub open spec fn mapping_made(local_port: u16, external_port: u16, protocol: PortMappingProtocol, method: PortMappingMethod, now: u64, lifetime_ms: u64) -> PortMapping {
    PortMapping {
        local_port,
        external_port,
        protocol,
        method,
        created_at: now,
        expires_at: (now + lifetime_ms) as u64,
    }
}

impl PortMapper {
    /// Maps `local_port` at `now`: by UPnP when enabled (which records the
    /// mapping with the manager), else by NAT-PMP when enabled and a gateway
    /// is known; a mapping made is recorded and counted. When neither works
    /// the failure is counted and reported.
    pub fn create_port_mapping_at(&mut self, local_port: u16, external_port: u16, protocol: PortMappingProtocol, now: u64) -> (r: Result<PortMapping, NatTraversalError>)
        requires
            now + old(self).config.port_mapping_lifetime_ms <= u64::MAX,
            old(self).stats.port_mappings_created < u64::MAX,
            old(self).stats.port_mappings_failed < u64::MAX,
        ensures
            final(self).config == old(self).config,
            old(self).config.enable_upnp ==> r == Ok::<PortMapping, NatTraversalError>(
                mapping_made(local_port, external_port, protocol, PortMappingMethod::Upnp, now, old(self).config.port_mapping_lifetime_ms),
            ),
            !old(self).config.enable_upnp && old(self).config.enable_nat_pmp && old(self).nat_pmp_client.gateway is Some
                ==> r == Ok::<PortMapping, NatTraversalError>(
                mapping_made(local_port, external_port, protocol, PortMappingMethod::NatPmp, now, old(self).config.port_mapping_lifetime_ms),
            ),
            r is Ok ==> final(self).port_mappings@ == stored(old(self).port_mappings@, local_port, r->Ok_0)
                && final(self).stats.port_mappings_created == old(self).stats.port_mappings_created + 1
                && final(self).stats.port_mappings_failed == old(self).stats.port_mappings_failed,
            !old(self).config.enable_upnp && !(old(self).config.enable_nat_pmp && old(self).nat_pmp_client.gateway is Some) ==> {
                &&& (r matches Err(NatTraversalError::UpnpError(m)) && m@ == "All port mapping methods failed"@)
                &&& final(self).port_mappings@ == old(self).port_mappings@
                &&& final(self).stats.port_mappings_failed == old(self).stats.port_mappings_failed + 1
                &&& final(self).stats.port_mappings_created == old(self).stats.port_mappings_created
            },
    {
        let lifetime = self.config.port_mapping_lifetime_ms;
        if self.config.enable_upnp {
            match self.upnp_manager.create_mapping_at(local_port, external_port, protocol, "QuDAG P2P", lifetime, now) {
                Ok(mapping) => {
                    let pm = PortMapping {
                        local_port,
                        external_port: mapping.external_port,
                        protocol,
                        method: PortMappingMethod::Upnp,
                        created_at: now,
                        expires_at: now + mapping.lease_duration_ms,
                    };
                    store_by_port(&mut self.port_mappings, local_port, pm);
                    self.stats.port_mappings_created = self.stats.port_mappings_created + 1;
                    return Ok(pm);
                },
                Err(_) => {},
            }
        }
        if self.config.enable_nat_pmp {
            let is_tcp = match protocol {
                PortMappingProtocol::TCP => true,
                PortMappingProtocol::UDP => false,
            };
            match self.nat_pmp_client.create_mapping_at(local_port, external_port, is_tcp, lifetime, now) {
                Ok(mapping) => {
                    let pm = PortMapping {
                        local_port,
                        external_port: mapping.external_port,
                        protocol,
                        method: PortMappingMethod::NatPmp,
                        created_at: now,
                        expires_at: now + mapping.lifetime_ms,
                    };
                    store_by_port(&mut self.port_mappings, local_port, pm);
                    self.stats.port_mappings_created = self.stats.port_mappings_created + 1;
                    return Ok(pm);
                },
                Err(_) => {},
            }
        }
        self.stats.port_mappings_failed = self.stats.port_mappings_failed + 1;
        Err(NatTraversalError::UpnpError(String::from_str("All port mapping methods failed")))
    }
}

/// Phases of hole punching.
#[derive(Debug, Clone, Copy, PartialEq, Eq, Structural)]
pub enum HolePunchPhase {
    /// Gathering candidates
    GatheringCandidates,
    /// Exchanging candidates
    ExchangingCandidates,
    /// Probing candidate pairs
    Probing,
    /// Connected
    Connected,
    /// Failed
    Failed,
}

/// A hole punching attempt; times in milliseconds.
#[derive(Debug, Clone)]
pub struct HolePunchAttempt {
    /// Target peer
    pub peer_id: PeerId,
    /// Local candidate addresses
    pub local_candidates: Vec<NetworkAddress>,
    /// Remote candidate addresses
    pub remote_candidates: Vec<NetworkAddress>,
    /// Start time
    pub started_at: u64,
    /// Current phase
    pub phase: HolePunchPhase,
    /// Whether a probe got through
    pub succeeded: bool,
}

/// Every local candidate paired with every remote one, local-major.
pub open spec fn all_pairs(local: Seq<NetworkAddress>, remote: Seq<NetworkAddress>) -> Seq<(NetworkAddress, NetworkAddress)> {
    Seq::new(local.len() * remote.len(), |k: int| (local[k / remote.len() as int], remote[k % remote.len() as int]))
}

/// The attempts `a` with the attempt to `peer` in phase `phase` (and marked
/// successful when `success`); other attempts unchanged.
pub open spec fn attempts_marked(a: Seq<HolePunchAttempt>, b: Seq<HolePunchAttempt>, peer: PeerId, phase: HolePunchPhase, success: bool) -> bool {
    &&& b.len() == a.len()
    &&& forall|j: int| 0 <= j < a.len() ==> {
        let (x, y) = (a[j], #[trigger] b[j]);
        if x.peer_id.bytes@ == peer.bytes@ {
            y == (HolePunchAttempt { phase, succeeded: x.succeeded || success, ..x })
        } else {
            y == x
        }
    }
}

/// Hole punching attempts, one per peer.
#[derive(Debug, Clone)]
pub struct HolePunchCoordinator {
    /// Attempts in progress or done
    pub attempts: Vec<HolePunchAttempt>,
    /// Time allowed for an attempt, in milliseconds
    pub timeout_ms: u64,
}

impl HolePunchCoordinator {
    /// No attempts yet.
    pub fn new(timeout_ms: u64) -> (r: HolePunchCoordinator)
        ensures
            r.attempts@.len() == 0,
            r.timeout_ms == timeout_ms,
    {
        HolePunchCoordinator { attempts: Vec::new(), timeout_ms }
    }

    /// The candidate pairs to probe: each local candidate with each remote
    /// one, local-major.
    pub fn candidate_pairs(local: &[NetworkAddress], remote: &[NetworkAddress]) -> (r: Vec<(NetworkAddress, NetworkAddress)>)
        requires
            local@.len() * remote@.len() <= usize::MAX,
        ensures
            r@ == all_pairs(local@, remote@),
    {
        let mut out: Vec<(NetworkAddress, NetworkAddress)> = Vec::new();
        let n = remote.len();
        let mut i: usize = 0;
        while i < local.len()
            invariant
                0 <= i <= local@.len(),
                n == remote@.len(),
                local@.len() * remote@.len() <= usize::MAX,
                out@.len() == i * n,
                forall|k: int| 0 <= k < out@.len() ==> #[trigger] out@[k] == (local@[k / n as int], remote@[k % n as int]),
            decreases local@.len() - i,
        {
            let mut j: usize = 0;
            while j < n
                invariant
                    0 <= i < local@.len(),
                    0 <= j <= n,
                    n == remote@.len(),
                    local@.len() * remote@.len() <= usize::MAX,
                    out@.len() == i * n + j,
                    forall|k: int| 0 <= k < out@.len() ==> #[trigger] out@[k] == (local@[k / n as int], remote@[k % n as int]),
                decreases n - j,
            {
                proof {
                    assert((i + 1) * n <= local@.len() * n) by (nonlinear_arith)
                        requires
                            i + 1 <= local@.len(),
                    ;
                    assert(i * n + j < (i + 1) * n) by (nonlinear_arith)
                        requires
                            j < n,
                    ;
                    let k = i * n + j;
                    assert(k / n as int == i && k % n as int == j) by (nonlinear_arith)
                        requires
                            k == i * n + j,
                            0 <= j < n,
                            i >= 0,
                    ;
                }
                out.push((local[i], remote[j]));
                j = j + 1;
            }
            proof {
                assert(i * n + n == (i + 1) * n) by (nonlinear_arith);
            }
            i = i + 1;
        }
        proof {
            assert(out@ =~= all_pairs(local@, remote@));
        }
        out
    }

    /// Records at `now` an attempt to reach `peer` through the given
    /// candidates, in the probing phase, replacing an earlier one.
    pub fn begin_attempt_at(&mut self, peer: PeerId, local: Vec<NetworkAddress>, remote: Vec<NetworkAddress>, now: u64)
        ensures
            final(self).timeout_ms == old(self).timeout_ms,
            final(self).attempts@ == old(self).attempts@.filter(other_peer(peer)).push(HolePunchAttempt {
                peer_id: peer,
                local_candidates: local,
                remote_candidates: remote,
                started_at: now,
                phase: HolePunchPhase::Probing,
                succeeded: false,
            }),
    {
        let mut rest: Vec<HolePunchAttempt> = Vec::new();
        std::mem::swap(&mut rest, &mut self.attempts);
        let ghost all = rest@;
        let ghost mut k: int = 0;
        proof {
            assert(all.skip(0) =~= all);
            reveal(Seq::filter);
            assert(all.take(0) =~= Seq::<HolePunchAttempt>::empty());
        }
        while rest.len() > 0
            invariant
                0 <= k <= all.len(),
                rest@ == all.skip(k),
                self.attempts@ == all.take(k).filter(other_peer(peer)),
                all == old(self).attempts@,
                self.timeout_ms == old(self).timeout_ms,
            decreases rest@.len(),
        {
            let a = rest.remove(0);
            proof {
                assert(a == all[k]);
                assert(all.take(k + 1).drop_last() =~= all.take(k));
                reveal(Seq::filter);
                assert(rest@ =~= all.skip(k + 1));
            }
            if !a.peer_id.same_as(&peer) {
                self.attempts.push(a);
            }
            proof {
                k = k + 1;
            }
        }
        proof {
            assert(all.take(k) =~= all);
        }
        self.attempts.push(HolePunchAttempt {
            peer_id: peer,
            local_candidates: local,
            remote_candidates: remote,
            started_at: now,
            phase: HolePunchPhase::Probing,
            succeeded: false,
        });
    }

    fn mark(&mut self, peer: &PeerId, phase: HolePunchPhase, success: bool)
        ensures
            final(self).timeout_ms == old(self).timeout_ms,
            attempts_marked(old(self).attempts@, final(self).attempts@, *peer, phase, success),
    {
        let mut i: usize = 0;
        while i < self.attempts.len()
            invariant
                0 <= i <= self.attempts@.len(),
                self.timeout_ms == old(self).timeout_ms,
                self.attempts@.len() == old(self).attempts@.len(),
                forall|j: int| i <= j < self.attempts@.len() ==> #[trigger] self.attempts@[j] == old(self).attempts@[j],
                forall|j: int| 0 <= j < i ==> {
                    let (x, y) = (old(self).attempts@[j], #[trigger] self.attempts@[j]);
                    if x.peer_id.bytes@ == peer.bytes@ {
                        y == (HolePunchAttempt { phase, succeeded: x.succeeded || success, ..x })
                    } else {
                        y == x
                    }
                },
            decreases self.attempts@.len() - i,
        {
            if self.attempts[i].peer_id.same_as(peer) {
                let mut a = self.attempts.remove(i);
                a.phase = phase;
                a.succeeded = a.succeeded || success;
                self.attempts.insert(i, a);
            }
            i = i + 1;
        }
    }

    /// Marks the attempt to `peer` connected and successful.
    pub fn mark_success(&mut self, peer: &PeerId)
        ensures
            final(self).timeout_ms == old(self).timeout_ms,
            attempts_marked(old(self).attempts@, final(self).attempts@, *peer, HolePunchPhase::Connected, true),
    {
        self.mark(peer, HolePunchPhase::Connected, true)
    }

    /// Marks the attempt to `peer` failed.
    pub fn mark_failure(&mut self, peer: &PeerId)
        ensures
            final(self).timeout_ms == old(self).timeout_ms,
            attempts_marked(old(self).attempts@, final(self).attempts@, *peer, HolePunchPhase::Failed, false),
    {
        self.mark(peer, HolePunchPhase::Failed, false)
    }
}

/// Attempts to other peers than `peer`.
pub open spec fn other_peer(peer: PeerId) -> spec_fn(HolePunchAttempt) -> bool {
    |a: HolePunchAttempt| a.peer_id.bytes@ != peer.bytes@
}

/// A relay server; its load counts the connections relayed through it.
#[derive(Debug, Clone)]
pub struct RelayServer {
    /// Its peer id
    pub id: PeerId,
    /// Its multiaddress, as text
    pub address: String,
    /// Its capacity
    pub capacity: u32,
    /// Connections it relays
    pub load: u32,
    /// Whether it takes connections
    pub is_available: bool,
    /// Time of its last health check
    pub last_health_check: Option<u64>,
}

/// A relayed connection.
#[derive(Debug, Clone, Copy)]
pub struct RelayConnection {
    /// The relay
    pub relay_server: PeerId,
    /// The peer reached through it
    pub target_peer: PeerId,
    /// Connection identifier
    pub connection_id: u64,
    /// Time it was established
    pub established_at: u64,
    /// Bytes relayed
    pub bytes_relayed: u64,
    /// Whether it is active
    pub is_active: bool,
}

/// Relay statistics.
#[derive(Debug, Clone, Copy, Default)]
pub struct RelayStats {
    /// Connections established
    pub total_connections: u64,
    /// Connections active
    pub active_connections: u32,
    /// Bytes relayed
    pub bytes_relayed: u64,
    /// Failed attempts
    pub failed_attempts: u64,
}

/// Relays for peers that cannot be reached directly.
#[derive(Debug, Clone)]
pub struct RelayManager {
    /// Known relay servers
    pub relay_servers: Vec<RelayServer>,
    /// Relayed connections, one per target peer
    pub relay_connections: Vec<RelayConnection>,
    /// Statistics
    pub stats: RelayStats,
}

/// Index of the available server with the least load, the first of equals.
pub open spec fn least_loaded(servers: Seq<RelayServer>, i: int) -> bool {
    &&& 0 <= i < servers.len()
    &&& servers[i].is_available
    &&& forall|j: int| 0 <= j < servers.len() && (#[trigger] servers[j]).is_available ==> servers[i].load <= servers[j].load
    &&& forall|j: int| 0 <= j < i && (#[trigger] servers[j]).is_available ==> servers[i].load < servers[j].load
}

impl RelayManager {
    /// No servers and no connections.
    pub fn new() -> (r: RelayManager)
        ensures
            r.relay_servers@.len() == 0,
            r.relay_connections@.len() == 0,
            r.stats == (RelayStats { total_connections: 0, active_connections: 0, bytes_relayed: 0, failed_attempts: 0 }),
    {
        RelayManager {
            relay_servers: Vec::new(),
            relay_connections: Vec::new(),
            stats: RelayStats { total_connections: 0, active_connections: 0, bytes_relayed: 0, failed_attempts: 0 },
        }
    }

    /// Adds a relay server.
    pub fn add_relay_server(&mut self, server: RelayServer)
        ensures
            final(self).relay_servers@ == old(self).relay_servers@.push(server),
            final(self).relay_connections@ == old(self).relay_connections@,
    {
        self.relay_servers.push(server);
    }

    /// The available server with the least load (the first of equals), or
    /// `None` when none is available.
    pub fn select_relay_server(&self) -> (r: Option<usize>)
        ensures
            r matches Some(i) ==> least_loaded(self.relay_servers@, i as int),
            r is None ==> forall|j: int| 0 <= j < self.relay_servers@.len() ==> !(#[trigger] self.relay_servers@[j]).is_available,
    {
        let mut best: Option<usize> = None;
        let mut i: usize = 0;
        while i < self.relay_servers.len()
            invariant
                0 <= i <= self.relay_servers@.len(),
                best is None ==> forall|j: int| 0 <= j < i ==> !(#[trigger] self.relay_servers@[j]).is_available,
                best matches Some(b) ==> b < i && self.relay_servers@[b as int].is_available
                    && (forall|j: int| 0 <= j < i && (#[trigger] self.relay_servers@[j]).is_available
                        ==> self.relay_servers@[b as int].load <= self.relay_servers@[j].load)
                    && (forall|j: int| 0 <= j < b && (#[trigger] self.relay_servers@[j]).is_available
                        ==> self.relay_servers@[b as int].load < self.relay_servers@[j].load),
            decreases self.relay_servers@.len() - i,
        {
            if self.relay_servers[i].is_available {
                match best {
                    Some(b) => {
                        if self.relay_servers[i].load < self.relay_servers[b].load {
                            best = Some(i);
                        }
                    },
                    None => {
                        best = Some(i);
                    },
                }
            }
            i = i + 1;
        }
        best
    }

    /// Relays `target_peer` through the least loaded available server at
    /// `now`, with the given connection identifier: the server's load and the
    /// statistics grow and the connection replaces any earlier one to the
    /// peer. Fails when no server is available.
    pub fn establish_relay_at(&mut self, target_peer: PeerId, connection_id: u64, now: u64) -> (r: Result<RelayConnection, NatTraversalError>)
        requires
            old(self).stats.total_connections < u64::MAX,
            old(self).stats.active_connections < u32::MAX,
            forall|j: int| 0 <= j < old(self).relay_servers@.len() ==> (#[trigger] old(self).relay_servers@[j]).load < u32::MAX,
        ensures
            (forall|j: int| 0 <= j < old(self).relay_servers@.len() ==> !(#[trigger] old(self).relay_servers@[j]).is_available)
                ==> (r matches Err(NatTraversalError::RelayError(m)) && m@ == "No relay servers available"@),
            r is Err ==> final(self).relay_servers@ == old(self).relay_servers@,
            r is Ok ==> exists|i: int| #![trigger old(self).relay_servers@[i]] {
                &&& least_loaded(old(self).relay_servers@, i)
                &&& r->Ok_0 == (RelayConnection {
                    relay_server: old(self).relay_servers@[i].id,
                    target_peer,
                    connection_id,
                    established_at: now,
                    bytes_relayed: 0,
                    is_active: true,
                })
                &&& final(self).relay_servers@.len() == old(self).relay_servers@.len()
                &&& final(self).relay_servers@[i].load == old(self).relay_servers@[i].load + 1
                &&& final(self).stats.total_connections == old(self).stats.total_connections + 1
                &&& final(self).stats.active_connections == old(self).stats.active_connections + 1
                &&& final(self).relay_connections@.last() == r->Ok_0
            },
    {
        let idx = match self.select_relay_server() {
            Some(i) => i,
            None => {
                return Err(NatTraversalError::RelayError(String::from_str("No relay servers available")));
            },
        };
        let ghost old_servers = self.relay_servers@;
        let mut server = self.relay_servers.remove(idx);
        let relay_id = server.id;
        server.load = server.load + 1;
        self.relay_servers.insert(idx, server);
        proof {
            assert(self.relay_servers@[idx as int].load == old_servers[idx as int].load + 1);
            assert(self.relay_servers@.len() == old_servers.len());
            assert(relay_id == old_servers[idx as int].id);
        }
        let connection = RelayConnection {
            relay_server: relay_id,
            target_peer,
            connection_id,
            established_at: now,
            bytes_relayed: 0,
            is_active: true,
        };
        self.stats.total_connections = self.stats.total_connections + 1;
        self.stats.active_connections = self.stats.active_connections + 1;
        let ghost servers_now = self.relay_servers@;
        let ghost stats_now = self.stats;
        let mut i: usize = 0;
        while i < self.relay_connections.len()
            invariant
                0 <= i <= self.relay_connections@.len(),
                self.relay_servers@ == servers_now,
                self.stats == stats_now,
            decreases self.relay_connections@.len() - i,
        {
            if self.relay_connections[i].target_peer.same_as(&target_peer) {
                self.relay_connections.remove(i);
            } else {
                i = i + 1;
            }
        }
        self.relay_connections.push(connection);
        proof {
            assert(least_loaded(old_servers, idx as int));
            assert(old_servers[idx as int].id == relay_id);
        }
        Ok(connection)
    }

    /// Closes the relayed connection to `peer`, if any: it leaves the list
    /// and the active count drops.
    pub fn close_relay(&mut self, peer: &PeerId)
        ensures
            forall|j: int| 0 <= j < final(self).relay_connections@.len() ==> (#[trigger] final(self).relay_connections@[j]).target_peer.bytes@ != peer.bytes@,
            final(self).relay_servers@ == old(self).relay_servers@,
    {
        let mut i: usize = 0;
        while i < self.relay_connections.len()
            invariant
                0 <= i <= self.relay_connections@.len(),
                self.relay_servers@ == old(self).relay_servers@,
                forall|j: int| 0 <= j < i ==> (#[trigger] self.relay_connections@[j]).target_peer.bytes@ != peer.bytes@,
            decreases self.relay_connections@.len() - i,
        {
            if self.relay_connections[i].target_peer.same_as(peer) {
                let ghost before = self.relay_connections@;
                self.relay_connections.remove(i);
                self.stats.active_connections = self.stats.active_connections.wrapping_sub(1);
                proof {
                    assert forall|j: int| 0 <= j < i implies (#[trigger] self.relay_connections@[j]).target_peer.bytes@ != peer.bytes@ by {
                        assert(self.relay_connections@[j] == before[j]);
                    }
                }
            } else {
                i = i + 1;
            }
        }
    }
}

/// Kinds of connection to a peer.
#[derive(Debug, Clone, Copy, PartialEq, Eq, Structural)]
pub enum ConnectionType {
    /// Direct
    Direct,
    /// Through a relay
    Relay,
    /// Through a TURN relay
    Turn,
}

/// An attempt to upgrade a connection to direct.
#[derive(Debug, Clone, Copy)]
pub struct UpgradeAttempt {
    /// Target peer
    pub peer_id: PeerId,
    /// Its kind of connection
    pub current_type: ConnectionType,
    /// Attempts made
    pub attempt_count: u32,
    /// Time of the last attempt
    pub last_attempt: u64,
    /// Whether an attempt succeeded
    pub succeeded: bool,
}

/// What an upgrade request leads to.
#[derive(Debug, Clone, Copy, PartialEq, Eq, Structural)]
pub enum UpgradeStep {
    /// The connection is already direct
    AlreadyDirect,
    /// Try to connect directly now
    Attempt,
}

/// Upgrades of relayed connections to direct ones.
#[derive(Debug, Clone)]
pub struct ConnectionUpgradeManager {
    /// Attempts, one per peer
    pub upgrade_attempts: Vec<UpgradeAttempt>,
    /// Least time between attempts, in milliseconds
    pub upgrade_interval_ms: u64,
}

impl ConnectionUpgradeManager {
    /// No attempts yet.
    pub fn new(upgrade_interval_ms: u64) -> (r: ConnectionUpgradeManager)
        ensures
            r.upgrade_attempts@.len() == 0,
            r.upgrade_interval_ms == upgrade_interval_ms,
    {
        ConnectionUpgradeManager { upgrade_attempts: Vec::new(), upgrade_interval_ms }
    }

    /// Position of the attempt for `peer`.
    fn find(&self, peer: &PeerId) -> (r: Option<usize>)
        ensures
            r matches Some(i) ==> i < self.upgrade_attempts@.len() && self.upgrade_attempts@[i as int].peer_id.bytes@ == peer.bytes@,
            r is None ==> forall|j: int| 0 <= j < self.upgrade_attempts@.len() ==> (#[trigger] self.upgrade_attempts@[j]).peer_id.bytes@ != peer.bytes@,
    {
        let mut i: usize = 0;
        while i < self.upgrade_attempts.len()
            invariant
                0 <= i <= self.upgrade_attempts@.len(),
                forall|j: int| 0 <= j < i ==> (#[trigger] self.upgrade_attempts@[j]).peer_id.bytes@ != peer.bytes@,
            decreases self.upgrade_attempts@.len() - i,
        {
            if self.upgrade_attempts[i].peer_id.same_as(peer) {
                return Some(i);
            }
            i = i + 1;
        }
        None
    }

    /// Decides at `now` whether to try upgrading the connection to `peer`:
    /// a direct connection needs nothing. Otherwise the peer's attempt record
    /// is taken (or made, as last tried now); if less than the interval has
    /// passed since the last attempt it is too soon, else the attempt is
    /// counted and timed now.
    pub fn begin_upgrade_at(&mut self, peer: PeerId, current_type: ConnectionType, now: u64) -> (r: Result<UpgradeStep, NatTraversalError>)
        requires
            forall|j: int| 0 <= j < old(self).upgrade_attempts@.len() ==> (#[trigger] old(self).upgrade_attempts@[j]).attempt_count < u32::MAX,
        ensures
            final(self).upgrade_interval_ms == old(self).upgrade_interval_ms,
            current_type == ConnectionType::Direct ==> r == Ok::<UpgradeStep, NatTraversalError>(UpgradeStep::AlreadyDirect)
                && final(self).upgrade_attempts@ == old(self).upgrade_attempts@,
            current_type != ConnectionType::Direct && (forall|j: int| 0 <= j < old(self).upgrade_attempts@.len()
                ==> (#[trigger] old(self).upgrade_attempts@[j]).peer_id.bytes@ != peer.bytes@) ==> {
                &&& old(self).upgrade_interval_ms > 0 ==> (r matches Err(NatTraversalError::UpgradeError(m)) && m@ == "Too soon to retry"@)
                &&& old(self).upgrade_interval_ms == 0 ==> r == Ok::<UpgradeStep, NatTraversalError>(UpgradeStep::Attempt)
            },
            r matches Ok(UpgradeStep::Attempt) ==> exists|i: int| #![trigger final(self).upgrade_attempts@[i]]
                0 <= i < final(self).upgrade_attempts@.len() && final(self).upgrade_attempts@[i].peer_id.bytes@ == peer.bytes@
                    && final(self).upgrade_attempts@[i].last_attempt == now,
    {
        if current_type == ConnectionType::Direct {
            return Ok(UpgradeStep::AlreadyDirect);
        }
        let idx = match self.find(&peer) {
            Some(i) => i,
            None => {
                self.upgrade_attempts.push(UpgradeAttempt {
                    peer_id: peer,
                    current_type,
                    attempt_count: 0,
                    last_attempt: now,
                    succeeded: false,
                });
                self.upgrade_attempts.len() - 1
            },
        };
        let last = self.upgrade_attempts[idx].last_attempt;
        let waited: u64 = if now > last { now - last } else { 0 };
        if waited < self.upgrade_interval_ms {
            return Err(NatTraversalError::UpgradeError(String::from_str("Too soon to retry")));
        }
        let mut attempt = self.upgrade_attempts[idx];
        attempt.attempt_count = attempt.attempt_count + 1;
        attempt.last_attempt = now;
        self.upgrade_attempts.set(idx, attempt);
        proof {
            assert(self.upgrade_attempts@[idx as int].peer_id.bytes@ == peer.bytes@);
            assert(self.upgrade_attempts@[idx as int].last_attempt == now);
        }
        Ok(UpgradeStep::Attempt)
    }

    /// Records that the direct connection to `peer` succeeded.
    pub fn record_upgrade_success(&mut self, peer: &PeerId)
        ensures
            final(self).upgrade_attempts@.len() == old(self).upgrade_attempts@.len(),
            forall|j: int| 0 <= j < final(self).upgrade_attempts@.len() ==> {
                &&& (#[trigger] final(self).upgrade_attempts@[j]).peer_id == old(self).upgrade_attempts@[j].peer_id
                &&& final(self).upgrade_attempts@[j].succeeded == (old(self).upgrade_attempts@[j].succeeded
                    || old(self).upgrade_attempts@[j].peer_id.bytes@ == peer.bytes@)
            },
    {
        let mut i: usize = 0;
        while i < self.upgrade_attempts.len()
            invariant
                0 <= i <= self.upgrade_attempts@.len(),
                self.upgrade_attempts@.len() == old(self).upgrade_attempts@.len(),
                forall|j: int| 0 <= j < self.upgrade_attempts@.len() ==> (#[trigger] self.upgrade_attempts@[j]).peer_id == old(self).upgrade_attempts@[j].peer_id,
                forall|j: int| 0 <= j < i ==> (#[trigger] self.upgrade_attempts@[j]).succeeded == (old(self).upgrade_attempts@[j].succeeded
                    || old(self).upgrade_attempts@[j].peer_id.bytes@ == peer.bytes@),
                forall|j: int| i <= j < self.upgrade_attempts@.len() ==> (#[trigger] self.upgrade_attempts@[j]).succeeded == old(self).upgrade_attempts@[j].succeeded,
            decreases self.upgrade_attempts@.len() - i,
        {
            if self.upgrade_attempts[i].peer_id.same_as(peer) {
                let mut a = self.upgrade_attempts[i];
                a.succeeded = true;
                self.upgrade_attempts.set(i, a);
            }
            i = i + 1;
        }
    }
}

/// The ways of reaching a peer, in the order they are tried.
#[derive(Debug, Clone, Copy, PartialEq, Eq, Structural)]
pub enum TraversalStep {
    /// A direct connection
    Direct,
    /// Hole punching
    HolePunch,
    /// A relay (TURN, then the relay servers)
    Relay,
    /// Nothing is left to try
    GiveUp,
}

/// The way tried after `failed` failed: hole punching, when enabled, after
/// a direct connection; then a relay, when enabled; then nothing.
pub open spec fn traversal_after(config: NatTraversalConfig, failed: TraversalStep) -> TraversalStep {
    match failed {
        TraversalStep::Direct => if config.enable_hole_punching {
            TraversalStep::HolePunch
        } else if config.enable_relay {
            TraversalStep::Relay
        } else {
            TraversalStep::GiveUp
        },
        TraversalStep::HolePunch => if config.enable_relay { TraversalStep::Relay } else { TraversalStep::GiveUp },
        _ => TraversalStep::GiveUp,
    }
}

/// The way to try after `failed` failed; see `traversal_after`. A failed
/// hole punch is counted.
pub fn next_traversal_step(config: &NatTraversalConfig, stats: &mut NatTraversalStats, failed: TraversalStep) -> (r: TraversalStep)
    ensures
        r == traversal_after(*config, failed),
        failed == TraversalStep::HolePunch ==> *final(stats) == (NatTraversalStats {
            hole_punch_failures: old(stats).hole_punch_failures.wrapping_add(1),
            ..*old(stats)
        }),
        failed != TraversalStep::HolePunch ==> *final(stats) == *old(stats),
{
    match failed {
        TraversalStep::Direct => {
            if config.enable_hole_punching {
                TraversalStep::HolePunch
            } else if config.enable_relay {
                TraversalStep::Relay
            } else {
                TraversalStep::GiveUp
            }
        },
        TraversalStep::HolePunch => {
            stats.hole_punch_failures = stats.hole_punch_failures.wrapping_add(1);
            if config.enable_relay {
                TraversalStep::Relay
            } else {
                TraversalStep::GiveUp
            }
        },
        _ => TraversalStep::GiveUp,
    }
}

/// Counts a peer reached by `step`: a hole punch or a relay connection.
pub fn record_traversal_success(stats: &mut NatTraversalStats, step: TraversalStep)
    ensures
        step == TraversalStep::HolePunch ==> *final(stats) == (NatTraversalStats {
            hole_punch_success: old(stats).hole_punch_success.wrapping_add(1),
            ..*old(stats)
        }),
        step == TraversalStep::Relay ==> *final(stats) == (NatTraversalStats {
            relay_connections: old(stats).relay_connections.wrapping_add(1),
            ..*old(stats)
        }),
        step != TraversalStep::HolePunch && step != TraversalStep::Relay ==> *final(stats) == *old(stats),
{
    match step {
        TraversalStep::HolePunch => {
            stats.hole_punch_success = stats.hole_punch_success.wrapping_add(1);
        },
        TraversalStep::Relay => {
            stats.relay_connections = stats.relay_connections.wrapping_add(1);
        },
        _ => {},
    }
}

/// The error when no way reached the peer.
pub fn traversal_failed() -> (r: NatTraversalError)
    ensures
        r matches NatTraversalError::ConnectionError(NetworkError::ConnectionError(m)) && m@ == "All connection methods failed"@,
{
    NatTraversalError::ConnectionError(NetworkError::ConnectionError(String::from_str("All connection methods failed")))
}

/// Local candidates for hole punching: the public address when both its IP
/// and port are known, then, when the public IP is known, that IP with the
/// external port of each port mapping.
pub open spec fn local_candidates(public_ip: Option<[u8; 4]>, public_port: Option<u16>, mappings: Seq<PortMapping>) -> Seq<NetworkAddress> {
    let head = match (public_ip, public_port) {
        (Some(ip), Some(port)) => seq![NetworkAddress { ip, port }],
        _ => Seq::empty(),
    };
    let mapped = match public_ip {
        Some(ip) => mappings.map_values(|m: PortMapping| NetworkAddress { ip, port: m.external_port }),
        None => Seq::empty(),
    };
    head + mapped
}

/// Gathers the local candidates for hole punching; see `local_candidates`.
pub fn gather_local_candidates(public_ip: Option<[u8; 4]>, public_port: Option<u16>, mappings: &[PortMapping]) -> (r: Vec<NetworkAddress>)
    ensures
        r@ == local_candidates(public_ip, public_port, mappings@),
{
    let mut out: Vec<NetworkAddress> = Vec::new();
    match (public_ip, public_port) {
        (Some(ip), Some(port)) => out.push(NetworkAddress { ip, port }),
        _ => {},
    }
    let ghost head = out@;
    match public_ip {
        Some(ip) => {
            let mut i: usize = 0;
            while i < mappings.len()
                invariant
                    0 <= i <= mappings@.len(),
                    out@ == head + mappings@.take(i as int).map_values(|m: PortMapping| NetworkAddress { ip, port: m.external_port }),
                decreases mappings@.len() - i,
            {
                out.push(NetworkAddress { ip, port: mappings[i].external_port });
                assert(mappings@.take(i + 1).map_values(|m: PortMapping| NetworkAddress { ip, port: m.external_port })
                    =~= mappings@.take(i as int).map_values(|m: PortMapping| NetworkAddress { ip, port: m.external_port }).push(
                    NetworkAddress { ip, port: mappings@[i as int].external_port },
                ));
                i = i + 1;
            }
            assert(mappings@.take(i as int) =~= mappings@);
        },
        None => {
            assert(out@ =~= head + Seq::<NetworkAddress>::empty());
        },
    }
    out
}

/// Counts a relayed connection upgraded to a direct one: one more upgrade,
/// one relay connection less (both wrapping, as atomic counters do).
pub fn record_upgrade(stats: &mut NatTraversalStats)
    ensures
        *final(stats) == (NatTraversalStats {
            upgraded_connections: old(stats).upgraded_connections.wrapping_add(1),
            relay_connections: old(stats).relay_connections.wrapping_sub(1),
            ..*old(stats)
        }),
{
    stats.upgraded_connections = stats.upgraded_connections.wrapping_add(1);
    stats.relay_connections = stats.relay_connections.wrapping_sub(1);
}

proof fn lemma_chain_same(results: Seq<NetworkAddress>, j: int)
    requires
        forall|i: int| 0 <= i < results.len() - 1 ==> same_endpoint(#[trigger] results[i], results[i + 1]),
        0 <= j < results.len(),
    ensures
        results[j].ip@ == results[0].ip@,
        results[j].port == results[0].port,
    decreases j,
{
    if j > 0 {
        lemma_chain_same(results, j - 1);
        assert(same_endpoint(results[j - 1], results[j]));
    }
}

/// NAT classification by the public endpoints the STUN servers saw: no NAT
/// when the first public IP is the local one; otherwise symmetric as soon
/// as two answers differ in IP or in port, and restricted cone exactly when
/// every answer is the same IP and port.
pub proof fn law_nat_type_by_endpoints(results: Seq<NetworkAddress>, local: NetworkAddress)
    ensures
        results.len() == 0 ==> nat_type_of(results, local) == NatType::RestrictedCone,
        results.len() > 0 && results[0].ip@ == local.ip@ ==> nat_type_of(results, local) == NatType::NoNat,
        results.len() > 0 && results[0].ip@ != local.ip@ && (exists|i: int, j: int|
            0 <= i < results.len() && 0 <= j < results.len()
                && ((#[trigger] results[i]).ip@ != (#[trigger] results[j]).ip@ || results[i].port != results[j].port))
            ==> nat_type_of(results, local) == NatType::Symmetric,
        results.len() > 0 && results[0].ip@ != local.ip@ && (forall|i: int, j: int|
            0 <= i < results.len() && 0 <= j < results.len()
                ==> (#[trigger] results[i]).ip@ == (#[trigger] results[j]).ip@ && results[i].port == results[j].port)
            ==> nat_type_of(results, local) == NatType::RestrictedCone,
{
    if results.len() > 0 && results[0].ip@ != local.ip@ {
        if forall|i: int| 0 <= i < results.len() - 1 ==> same_endpoint(#[trigger] results[i], results[i + 1]) {
            assert forall|i: int, j: int| 0 <= i < results.len() && 0 <= j < results.len()
                implies (#[trigger] results[i]).ip@ == (#[trigger] results[j]).ip@ && results[i].port == results[j].port by {
                lemma_chain_same(results, i);
                lemma_chain_same(results, j);
            }
        }
        if forall|i: int, j: int| 0 <= i < results.len() && 0 <= j < results.len()
            ==> (#[trigger] results[i]).ip@ == (#[trigger] results[j]).ip@ && results[i].port == results[j].port {
            assert forall|i: int| 0 <= i < results.len() - 1 implies same_endpoint(#[trigger] results[i], results[i + 1]) by {
                assert(results[i].ip@ == results[i + 1].ip@ && results[i].port == results[i + 1].port);
            }
        }
    }
}

} // verus!
