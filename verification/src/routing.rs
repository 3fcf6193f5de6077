//! Routing vocabulary: errors, security and redundancy levels, load
//! balancing preferences, dark addressing settings and the per-peer circuit
//! state of the multi-path router.

use vstd::prelude::*;
use crate::text::{decimal, push_decimal};
use crate::types::PeerId;

verus! {

/// Errors of routing.
#[derive(Debug, Clone, PartialEq, Eq)]
pub enum RoutingError {
    /// No route to the destination
    NoRoute,
    /// The message exceeds the size limit
    MessageTooLarge { size: usize, limit: usize },
    /// A channel could not take the message
    ChannelError,
    /// A shadow address could not be used
    ShadowAddressError(String),
    /// The load balancer failed
    LoadBalancerError(String),
    /// No peers could be selected
    PeerSelectionError(String),
    /// Route optimization failed
    RouteOptimizationError(String),
    /// Dark addressing is not available
    DarkAddressingUnavailable,
    /// The circuit breaker of a peer is open
    CircuitBreakerOpen { peer_id: String },
    /// Every peer is overloaded
    AllPeersOverloaded,
    /// The geographic constraints cannot be met
    GeographicConstraintsUnsatisfied,
    /// The topology does not allow routing
    TopologyInsufficient,
}

impl RoutingError {
    /// Whether the error is `MessageTooLarge`.
    pub fn is_message_too_large(&self) -> (r: bool)
        ensures
            r == self is MessageTooLarge,
    {
        match self {
            RoutingError::MessageTooLarge { .. } => true,
            _ => false,
        }
    }

    /// The message of a `MessageTooLarge` error.
    pub fn too_large_message(size: usize, limit: usize) -> (r: String)
        ensures
            r@ == "Message too large: "@ + decimal(size as nat) + " bytes exceeds limit of "@ + decimal(limit as nat)
                + " bytes"@,
    {
        let mut s = String::from_str("Message too large: ");
        push_decimal(&mut s, size as u64);
        s.append(" bytes exceeds limit of ");
        push_decimal(&mut s, limit as u64);
        s.append(" bytes");
        s
    }
}

/// Security level of a routing path.
#[derive(Debug, Clone, Copy, PartialEq, Eq, PartialOrd, Ord, Structural)]
pub enum SecurityLevel {
    /// Standard encryption
    Basic,
    /// Quantum-resistant encryption
    Enhanced,
    /// Onion routing and dark addressing
    Maximum,
}

/// How routes share load.
#[derive(Debug, Clone, Copy, PartialEq, Eq, Structural)]
pub enum LoadBalancingPreference {
    /// Least loaded route
    LowLoad,
    /// Even spread over routes
    EvenDistribution,
    /// Weighted by peer capacity
    WeightedCapacity,
    /// Adapted to network conditions
    Adaptive,
}

/// Redundancy required of routes.
#[derive(Debug, Clone, Copy, PartialEq, Eq, Structural)]
pub enum RedundancyLevel {
    /// A single path (no redundancy)
    Single,
    /// A backup path
    Basic,
    /// Several disjoint paths
    High,
    /// A mesh of paths
    Maximum,
}

/// Number of paths of a redundancy level.
pub open spec fn paths_for(level: RedundancyLevel) -> nat {
    match level {
        RedundancyLevel::Single => 1,
        RedundancyLevel::Basic => 2,
        RedundancyLevel::High => 3,
        RedundancyLevel::Maximum => 5,
    }
}

impl RedundancyLevel {
    /// The number of paths the level requires: 1, 2, 3 or 5.
    pub fn path_count(&self) -> (r: usize)
        ensures
            r == paths_for(*self),
    {
        match self {
            RedundancyLevel::Single => 1,
            RedundancyLevel::Basic => 2,
            RedundancyLevel::High => 3,
            RedundancyLevel::Maximum => 5,
        }
    }
}

/// Dark addressing settings of the router.
#[derive(Debug, Clone, Copy)]
pub struct DarkAddressingConfig {
    /// Whether dark addressing is used
    pub enabled: bool,
    /// Time allowed to resolve a dark address, in milliseconds
    pub resolution_timeout_ms: u64,
    /// Resolution attempts
    pub max_resolution_attempts: usize,
    /// Whether resolved addresses are cached
    pub enable_caching: bool,
    /// Lifetime of cached addresses, in seconds
    pub cache_ttl_secs: u64,
}

impl Default for DarkAddressingConfig {
    /// Enabled, 10 s resolution timeout, 3 attempts, cached for 10 minutes.
    fn default() -> (r: Self)
        ensures
            r.enabled,
            r.resolution_timeout_ms == 10000,
            r.max_resolution_attempts == 3,
            r.enable_caching,
            r.cache_ttl_secs == 600,
    {
        DarkAddressingConfig {
            enabled: true,
            resolution_timeout_ms: 10000,
            max_resolution_attempts: 3,
            enable_caching: true,
            cache_ttl_secs: 600,
        }
    }
}

/// Circuit state of a peer in the router; times in milliseconds.
#[derive(Debug, Clone, Copy, PartialEq, Eq, Structural)]
pub enum CircuitBreakerState {
    /// Normal operation
    Closed,
    /// Failures detected
    Open { opened_at: u64, failure_count: usize },
    /// Testing recovery
    HalfOpen { test_count: usize, success_count: usize },
}

/// Where a message is to be routed.
#[derive(Debug, Clone)]
pub enum RouteTarget {
    /// A peer, named by the text of its id, with its circuit state if the
    /// router keeps one
    Peer { peer_text: String, breaker: Option<CircuitBreakerState> },
    /// A shadow address
    Shadow,
}

/// Whether a request to route a message of `size` bytes is admitted: above
/// `limit` it is too large; a peer whose circuit is open is refused; a
/// shadow address needs dark addressing.
pub open spec fn route_admitted(size: usize, limit: usize, target: RouteTarget, dark_enabled: bool) -> bool {
    &&& size <= limit
    &&& (target matches RouteTarget::Peer { breaker, .. } ==> !(breaker matches Some(CircuitBreakerState::Open { .. })))
    &&& (target is Shadow ==> dark_enabled)
}

/// Checks a routing request before paths are looked for: a message above
/// `limit` bytes is `MessageTooLarge`; a peer whose circuit is open is
/// `CircuitBreakerOpen` (with the peer's text); a shadow address while dark
/// addressing is off is `DarkAddressingUnavailable`.
pub fn admit_route(size: usize, limit: usize, target: &RouteTarget, dark_enabled: bool) -> (r: Result<(), RoutingError>)
    ensures
        r is Ok <==> route_admitted(size, limit, *target, dark_enabled),
        size > limit ==> r == Err::<(), RoutingError>(RoutingError::MessageTooLarge { size, limit }),
        size <= limit && !route_admitted(size, limit, *target, dark_enabled) ==> match *target {
            RouteTarget::Peer { peer_text, .. } => r matches Err(RoutingError::CircuitBreakerOpen { peer_id }) && peer_id@ == peer_text@,
            RouteTarget::Shadow => r == Err::<(), RoutingError>(RoutingError::DarkAddressingUnavailable),
        },
{
    if size > limit {
        return Err(RoutingError::MessageTooLarge { size, limit });
    }
    match target {
        RouteTarget::Peer { peer_text, breaker } => {
            match breaker {
                Some(CircuitBreakerState::Open { .. }) => Err(RoutingError::CircuitBreakerOpen { peer_id: peer_text.clone() }),
                _ => Ok(()),
            }
        },
        RouteTarget::Shadow => {
            if dark_enabled {
                Ok(())
            } else {
                Err(RoutingError::DarkAddressingUnavailable)
            }
        },
    }
}

/// The byte strings of `parts` joined in order.
pub open spec fn joined_hops(parts: Seq<Vec<u8>>) -> Seq<u8>
    decreases parts.len(),
{
    if parts.len() == 0 {
        seq![]
    } else {
        joined_hops(parts.drop_last()) + parts.last()@
    }
}

/// The 4 little-endian bytes of `n`.
pub open spec fn le32_bytes(n: u32) -> Seq<u8> {
    seq![(n % 256) as u8, (n / 256 % 256) as u8, (n / 65536 % 256) as u8, (n / 16777216 % 256) as u8]
}

/// A routed message: the number of hops (4 bytes, little-endian,
/// truncated to 32 bits), the bytes of each hop's id, then the message.
pub open spec fn routed_message(hops: Seq<Vec<u8>>, message: Seq<u8>) -> Seq<u8> {
    le32_bytes(hops.len() as u32) + joined_hops(hops) + message
}

fn push_slice(v: &mut Vec<u8>, b: &[u8])
    ensures
        final(v)@ == old(v)@ + b@,
{
    let mut i: usize = 0;
    while i < b.len()
        invariant
            0 <= i <= b@.len(),
            v@ == old(v)@ + b@.take(i as int),
        decreases b@.len() - i,
    {
        v.push(b[i]);
        i = i + 1;
        assert(v@ =~= old(v)@ + b@.take(i as int));
    }
    assert(b@.take(i as int) =~= b@);
}

/// Builds the routed form of `message` along the path `hops`; see `routed_message`.
pub fn build_routed_message(hops: &[Vec<u8>], message: &[u8]) -> (r: Vec<u8>)
    ensures
        r@ == routed_message(hops@, message@),
{
    let n: u32 = hops.len() as u32;
    let mut v: Vec<u8> = Vec::new();
    v.push((n % 256) as u8);
    v.push((n / 256 % 256) as u8);
    v.push((n / 65536 % 256) as u8);
    v.push((n / 16777216 % 256) as u8);
    assert(v@ =~= le32_bytes(n));
    let mut i: usize = 0;
    while i < hops.len()
        invariant
            0 <= i <= hops@.len(),
            n == hops@.len() as u32,
            v@ == le32_bytes(n) + joined_hops(hops@.take(i as int)),
        decreases hops@.len() - i,
    {
        proof {
            assert(hops@.take(i + 1).drop_last() =~= hops@.take(i as int));
        }
        push_slice(&mut v, hops[i].as_slice());
        i = i + 1;
        assert(v@ =~= le32_bytes(n) + joined_hops(hops@.take(i as int)));
    }
    assert(hops@.take(i as int) =~= hops@);
    push_slice(&mut v, message);
    v
}

/// `from` and `to` have the same identity bytes.
pub open spec fn same_peer(a: PeerId, b: PeerId) -> bool {
    a.bytes@ == b.bytes@
}

/// The direct connections between peers, listed by source peer: each
/// source once, each list without repeats and never empty.
#[derive(Debug, Clone)]
pub struct PeerTopology {
    /// Connections by source peer
    pub connections: Vec<(PeerId, Vec<PeerId>)>,
}

/// `after` has the connections of `before` and the one from `from` to `to`.
pub open spec fn connection_added(before: PeerTopology, after: PeerTopology, from: PeerId, to: PeerId) -> bool {
    forall|a: PeerId, b: PeerId| #[trigger] after.connected(a, b)
        <==> before.connected(a, b) || (same_peer(a, from) && same_peer(b, to))
}

/// `after` has the connections of `before` but the one from `from` to `to`.
pub open spec fn connection_removed(before: PeerTopology, after: PeerTopology, from: PeerId, to: PeerId) -> bool {
    forall|a: PeerId, b: PeerId| #[trigger] after.connected(a, b)
        <==> before.connected(a, b) && !(same_peer(a, from) && same_peer(b, to))
}

/// Removing a connection that was just added, and was not there before,
/// gives back the connections there were.
pub proof fn law_remove_undoes_add(t0: PeerTopology, t1: PeerTopology, t2: PeerTopology, from: PeerId, to: PeerId)
    requires
        connection_added(t0, t1, from, to),
        connection_removed(t1, t2, from, to),
        !t0.connected(from, to),
    ensures
        forall|a: PeerId, b: PeerId| #[trigger] t2.connected(a, b) <==> t0.connected(a, b),
{
    assert forall|a: PeerId, b: PeerId| #[trigger] t2.connected(a, b) <==> t0.connected(a, b) by {
        assert(t2.connected(a, b) <==> t1.connected(a, b) && !(same_peer(a, from) && same_peer(b, to)));
        assert(t1.connected(a, b) <==> t0.connected(a, b) || (same_peer(a, from) && same_peer(b, to)));
        if same_peer(a, from) && same_peer(b, to) && t0.connected(a, b) {
            let (i, k) = choose|i: int, k: int| 0 <= i < t0.connections@.len() && 0 <= k < t0.connections@[i].1@.len()
                && same_peer(#[trigger] t0.connections@[i].0, a) && same_peer(#[trigger] t0.connections@[i].1@[k], b);
            assert(same_peer(t0.connections@[i].0, from) && same_peer(t0.connections@[i].1@[k], to));
            assert(t0.connected(from, to));
        }
    }
}

/// Adding a connection twice is adding it once.
pub proof fn law_add_is_idempotent(t0: PeerTopology, t1: PeerTopology, t2: PeerTopology, from: PeerId, to: PeerId)
    requires
        connection_added(t0, t1, from, to),
        connection_added(t1, t2, from, to),
    ensures
        forall|a: PeerId, b: PeerId| #[trigger] t2.connected(a, b) <==> t1.connected(a, b),
{
    assert forall|a: PeerId, b: PeerId| #[trigger] t2.connected(a, b) <==> t1.connected(a, b) by {
        assert(t2.connected(a, b) <==> t1.connected(a, b) || (same_peer(a, from) && same_peer(b, to)));
        assert(t1.connected(a, b) <==> t0.connected(a, b) || (same_peer(a, from) && same_peer(b, to)));
    }
}

impl PeerTopology {
    /// Each source once, lists without repeats, no empty list.
    pub open spec fn wf(&self) -> bool {
        &&& forall|i: int, j: int| 0 <= i < j < self.connections@.len()
            ==> !same_peer((#[trigger] self.connections@[i]).0, (#[trigger] self.connections@[j]).0)
        &&& forall|i: int| 0 <= i < self.connections@.len() ==> (#[trigger] self.connections@[i]).1@.len() > 0
        &&& forall|i: int, a: int, b: int| 0 <= i < self.connections@.len() && 0 <= a < b < self.connections@[i].1@.len()
            ==> !same_peer(#[trigger] self.connections@[i].1@[a], #[trigger] self.connections@[i].1@[b])
    }

    /// Whether `from` is connected to `to`.
    pub open spec fn connected(&self, from: PeerId, to: PeerId) -> bool {
        exists|i: int, a: int| 0 <= i < self.connections@.len() && 0 <= a < self.connections@[i].1@.len()
            && same_peer(#[trigger] self.connections@[i].0, from) && same_peer(#[trigger] self.connections@[i].1@[a], to)
    }

    /// No connections.
    pub fn new() -> (r: PeerTopology)
        ensures
            r.wf(),
            forall|a: PeerId, b: PeerId| !#[trigger] r.connected(a, b),
    {
        PeerTopology { connections: Vec::new() }
    }

    fn find_source(&self, from: &PeerId) -> (r: Option<usize>)
        ensures
            r matches Some(i) ==> i < self.connections@.len() && same_peer(self.connections@[i as int].0, *from),
            r is None ==> forall|i: int| 0 <= i < self.connections@.len() ==> !same_peer(#[trigger] self.connections@[i].0, *from),
    {
        let mut i: usize = 0;
        while i < self.connections.len()
            invariant
                0 <= i <= self.connections@.len(),
                forall|j: int| 0 <= j < i ==> !same_peer(#[trigger] self.connections@[j].0, *from),
            decreases self.connections@.len() - i,
        {
            if self.connections[i].0.same_as(from) {
                return Some(i);
            }
            i = i + 1;
        }
        None
    }

    /// Forgets that `from` connects to `to`; a source left without
    /// connections is dropped.
    pub fn remove_peer_connection(&mut self, from: PeerId, to: PeerId)
        requires
            old(self).wf(),
        ensures
            final(self).wf(),
            connection_removed(*old(self), *final(self), from, to),
    {
        match self.find_source(&from) {
            Some(i) => {
                let ghost old_c = self.connections@;
                let (src, list) = self.connections.remove(i);
                let ghost before = list@;
                let mut kept: Vec<PeerId> = Vec::new();
                let mut k: usize = 0;
                while k < list.len()
                    invariant
                        0 <= k <= list@.len(),
                        list@ == before,
                        forall|a: int, b: int| 0 <= a < b < before.len() ==> !same_peer(#[trigger] before[a], #[trigger] before[b]),
                        forall|a: int, b: int| 0 <= a < b < kept@.len() ==> !same_peer(#[trigger] kept@[a], #[trigger] kept@[b]),
                        forall|p: PeerId| (exists|j: int| 0 <= j < kept@.len() && same_peer(#[trigger] kept@[j], p))
                            <==> (exists|j: int| 0 <= j < k && same_peer(#[trigger] before[j], p)) && !same_peer(p, to),
                        forall|j: int| 0 <= j < kept@.len() ==> exists|m: int| 0 <= m < k && #[trigger] kept@[j] == before[m],
                    decreases list@.len() - k,
                {
                    let p = list[k];
                    let ghost kept0 = kept@;
                    if !p.same_as(&to) {
                        proof {
                            assert forall|a: int| 0 <= a < kept0.len() implies !same_peer(#[trigger] kept0[a], p) by {
                                let m = choose|m: int| 0 <= m < k && kept0[a] == before[m];
                                assert(!same_peer(before[m], before[k as int]));
                            }
                        }
                        kept.push(p);
                        proof {
                            assert(kept@ == kept0.push(p));
                            assert forall|j: int| 0 <= j < kept@.len() implies exists|m: int| 0 <= m < k + 1 && #[trigger] kept@[j] == before[m] by {
                                if j == kept0.len() {
                                    assert(kept@[j] == before[k as int]);
                                } else {
                                    assert(kept@[j] == kept0[j]);
                                    let m = choose|m: int| 0 <= m < k && kept0[j] == before[m];
                                }
                            }
                            assert forall|q: PeerId| (exists|j: int| 0 <= j < kept@.len() && same_peer(#[trigger] kept@[j], q))
                                <==> (exists|j: int| 0 <= j < k + 1 && same_peer(#[trigger] before[j], q)) && !same_peer(q, to) by {
                                if exists|j: int| 0 <= j < kept@.len() && same_peer(#[trigger] kept@[j], q) {
                                    let j = choose|j: int| 0 <= j < kept@.len() && same_peer(#[trigger] kept@[j], q);
                                    if j == kept0.len() {
                                        assert(same_peer(before[k as int], q));
                                    } else {
                                        assert(kept@[j] == kept0[j]);
                                        assert(same_peer(kept0[j], q));
                                    }
                                }
                                if (exists|j: int| 0 <= j < k + 1 && same_peer(#[trigger] before[j], q)) && !same_peer(q, to) {
                                    let j = choose|j: int| 0 <= j < k + 1 && same_peer(#[trigger] before[j], q);
                                    if j == k as int {
                                        assert(same_peer(kept@[kept0.len() as int], q));
                                    } else {
                                        assert(same_peer(before[j], q));
                                        let jj = choose|jj: int| 0 <= jj < kept0.len() && same_peer(#[trigger] kept0[jj], q);
                                        assert(kept@[jj] == kept0[jj]);
                                        assert(same_peer(kept@[jj], q));
                                    }
                                }
                            }
                        }
                    } else {
                        proof {
                            assert forall|q: PeerId| (exists|j: int| 0 <= j < kept@.len() && same_peer(#[trigger] kept@[j], q))
                                <==> (exists|j: int| 0 <= j < k + 1 && same_peer(#[trigger] before[j], q)) && !same_peer(q, to) by {
                                if (exists|j: int| 0 <= j < k + 1 && same_peer(#[trigger] before[j], q)) && !same_peer(q, to) {
                                    let j = choose|j: int| 0 <= j < k + 1 && same_peer(#[trigger] before[j], q);
                                    assert(j != k as int);
                                    assert(same_peer(before[j], q));
                                }
                            }
                        }
                    }
                    k = k + 1;
                }
                if kept.len() > 0 {
                    self.connections.insert(i, (src, kept));
                } else {
                    proof {
                        assert forall|j: int| 0 <= j < before.len() implies same_peer(#[trigger] before[j], to) by {
                            let q = before[j];
                            if !same_peer(q, to) {
                                assert(same_peer(before[j], q));
                                assert(exists|jj: int| 0 <= jj < k && same_peer(#[trigger] before[jj], q));
                            }
                        }
                    }
                }
                proof {
                    let c = self.connections@;
                    assert forall|x: int, y: int| 0 <= x < y < c.len() implies !same_peer((#[trigger] c[x]).0, (#[trigger] c[y]).0) by {
                        if kept.len() > 0 {
                            if x != i as int && y != i as int {
                                assert(c[x] == old_c[x] && c[y] == old_c[y]);
                            } else if x == i as int {
                                assert(c[y] == old_c[y]);
                            } else {
                                assert(c[x] == old_c[x]);
                            }
                        } else {
                            let x2 = if x < i as int { x } else { x + 1 };
                            let y2 = if y < i as int { y } else { y + 1 };
                            assert(c[x] == old_c[x2] && c[y] == old_c[y2]);
                        }
                    }
                    assert forall|x: int| 0 <= x < c.len() implies (#[trigger] c[x]).1@.len() > 0 by {
                        if kept.len() > 0 {
                            if x != i as int {
                                assert(c[x] == old_c[x]);
                            }
                        } else {
                            let x2 = if x < i as int { x } else { x + 1 };
                            assert(c[x] == old_c[x2]);
                        }
                    }
                    assert forall|x: int, a: int, b: int| 0 <= x < c.len() && 0 <= a < b < c[x].1@.len()
                        implies !same_peer(#[trigger] c[x].1@[a], #[trigger] c[x].1@[b]) by {
                        if kept.len() > 0 {
                            if x != i as int {
                                assert(c[x] == old_c[x]);
                            }
                        } else {
                            let x2 = if x < i as int { x } else { x + 1 };
                            assert(c[x] == old_c[x2]);
                        }
                    }
                    assert forall|a: PeerId, b: PeerId| #[trigger] self.connected(a, b)
                        <==> old(self).connected(a, b) && !(same_peer(a, from) && same_peer(b, to)) by {
                        if self.connected(a, b) {
                            let (x, y) = choose|x: int, y: int| 0 <= x < c.len() && 0 <= y < c[x].1@.len()
                                && same_peer(#[trigger] c[x].0, a) && same_peer(#[trigger] c[x].1@[y], b);
                            if kept.len() > 0 && x == i as int {
                                assert(exists|j: int| 0 <= j < kept@.len() && same_peer(#[trigger] kept@[j], b));
                                let j = choose|j: int| 0 <= j < k && same_peer(#[trigger] before[j], b);
                                assert(same_peer(old_c[x].0, a) && same_peer(old_c[x].1@[j], b));
                            } else {
                                let x2 = if kept.len() > 0 || x < i as int { x } else { x + 1 };
                                assert(c[x] == old_c[x2]);
                                assert(same_peer(old_c[x2].0, a) && same_peer(old_c[x2].1@[y], b));
                                assert(!same_peer(a, from)) by {
                                    if same_peer(a, from) {
                                        assert(same_peer(old_c[x2].0, old_c[i as int].0));
                                    }
                                }
                            }
                        }
                        if old(self).connected(a, b) && !(same_peer(a, from) && same_peer(b, to)) {
                            let (x, y) = choose|x: int, y: int| 0 <= x < old_c.len() && 0 <= y < old_c[x].1@.len()
                                && same_peer(#[trigger] old_c[x].0, a) && same_peer(#[trigger] old_c[x].1@[y], b);
                            if x == i as int {
                                assert(same_peer(a, from));
                                assert(!same_peer(b, to));
                                assert(exists|jj: int| 0 <= jj < k && same_peer(#[trigger] before[jj], b));
                                assert(kept.len() > 0);
                                let j = choose|j: int| 0 <= j < kept@.len() && same_peer(#[trigger] kept@[j], b);
                                assert(same_peer(c[x].0, a) && same_peer(c[x].1@[j], b));
                            } else {
                                let x1 = if kept.len() > 0 || x < i as int { x } else { x - 1 };
                                assert(c[x1] == old_c[x]);
                                assert(same_peer(c[x1].0, a) && same_peer(c[x1].1@[y], b));
                            }
                        }
                    }
                }
            },
            None => {
                proof {
                    assert forall|a: PeerId, b: PeerId| #[trigger] self.connected(a, b)
                        <==> old(self).connected(a, b) && !(same_peer(a, from) && same_peer(b, to)) by {
                        if old(self).connected(a, b) && same_peer(a, from) {
                            let c = self.connections@;
                            let (x, y) = choose|x: int, y: int| 0 <= x < c.len() && 0 <= y < c[x].1@.len()
                                && same_peer(#[trigger] c[x].0, a) && same_peer(#[trigger] c[x].1@[y], b);
                            assert(same_peer(c[x].0, from));
                        }
                    }
                }
            },
        }
    }

    /// Records that `from` connects to `to`.
    pub fn add_peer_connection(&mut self, from: PeerId, to: PeerId)
        requires
            old(self).wf(),
        ensures
            final(self).wf(),
            connection_added(*old(self), *final(self), from, to),
    {
        match self.find_source(&from) {
            Some(i) => {
                let ghost old_c = self.connections@;
                let (src, mut list) = self.connections.remove(i);
                let mut present = false;
                let mut k: usize = 0;
                while k < list.len()
                    invariant
                        0 <= k <= list@.len(),
                        !present ==> forall|j: int| 0 <= j < k ==> !same_peer(#[trigger] list@[j], to),
                        present ==> exists|j: int| 0 <= j < list@.len() && same_peer(#[trigger] list@[j], to),
                    decreases list@.len() - k,
                {
                    if list[k].same_as(&to) {
                        present = true;
                    }
                    k = k + 1;
                }
                let ghost before = list@;
                if !present {
                    list.push(to);
                }
                self.connections.insert(i, (src, list));
                proof {
                    let c = self.connections@;
                    assert forall|x: int| 0 <= x < c.len() && x != i as int implies #[trigger] c[x] == old_c[x] by {}
                    assert forall|a: PeerId, b: PeerId| #[trigger] self.connected(a, b)
                        <==> old(self).connected(a, b) || (same_peer(a, from) && same_peer(b, to)) by {
                        if self.connected(a, b) {
                            let (x, y) = choose|x: int, y: int| 0 <= x < c.len() && 0 <= y < c[x].1@.len()
                                && same_peer(#[trigger] c[x].0, a) && same_peer(#[trigger] c[x].1@[y], b);
                            if x != i as int {
                                assert(same_peer(old_c[x].0, a) && same_peer(old_c[x].1@[y], b));
                            } else if y < before.len() {
                                assert(same_peer(old_c[x].0, a) && same_peer(old_c[x].1@[y], b));
                            }
                        }
                        if old(self).connected(a, b) {
                            let (x, y) = choose|x: int, y: int| 0 <= x < old_c.len() && 0 <= y < old_c[x].1@.len()
                                && same_peer(#[trigger] old_c[x].0, a) && same_peer(#[trigger] old_c[x].1@[y], b);
                            if x == i as int {
                                assert(c[x].1@[y] == old_c[x].1@[y]);
                            }
                            assert(same_peer(c[x].0, a) && same_peer(c[x].1@[y], b));
                        }
                        if same_peer(a, from) && same_peer(b, to) {
                            if present {
                                let j = choose|j: int| 0 <= j < before.len() && same_peer(#[trigger] before[j], to);
                                assert(same_peer(c[i as int].1@[j], b));
                            } else {
                                assert(same_peer(c[i as int].1@[before.len() as int], b));
                            }
                            assert(same_peer(c[i as int].0, a));
                        }
                    }
                }
            },
            None => {
                let mut list: Vec<PeerId> = Vec::new();
                list.push(to);
                let ghost old_c = self.connections@;
                self.connections.push((from, list));
                proof {
                    let c = self.connections@;
                    assert forall|a: PeerId, b: PeerId| #[trigger] self.connected(a, b)
                        <==> old(self).connected(a, b) || (same_peer(a, from) && same_peer(b, to)) by {
                        if self.connected(a, b) {
                            let (x, y) = choose|x: int, y: int| 0 <= x < c.len() && 0 <= y < c[x].1@.len()
                                && same_peer(#[trigger] c[x].0, a) && same_peer(#[trigger] c[x].1@[y], b);
                            if x < old_c.len() {
                                assert(same_peer(old_c[x].0, a) && same_peer(old_c[x].1@[y], b));
                            }
                        }
                        if old(self).connected(a, b) {
                            let (x, y) = choose|x: int, y: int| 0 <= x < old_c.len() && 0 <= y < old_c[x].1@.len()
                                && same_peer(#[trigger] old_c[x].0, a) && same_peer(#[trigger] old_c[x].1@[y], b);
                            assert(same_peer(c[x].0, a) && same_peer(c[x].1@[y], b));
                        }
                        if same_peer(a, from) && same_peer(b, to) {
                            assert(same_peer(c[old_c.len() as int].0, a) && same_peer(c[old_c.len() as int].1@[0], b));
                        }
                    }
                }
            },
        }
    }
}

} // verus!
