//! Peer discovery vocabulary: discovery methods, DHT and dark resolver
//! settings, geographic preferences, peer capabilities, error and alert
//! categories, and the circuit state that connection attempts drive.
//!
//! Reputation and quality scores are floating-point and stay with the
//! networking front end; times here are integers in milliseconds.

use vstd::prelude::*;
use crate::types::{NetworkAddress, PeerId};

verus! {

/// How a peer was discovered.
#[derive(Debug, PartialEq, Eq)]
pub enum DiscoveryMethod {
    /// Kademlia DHT
    Kademlia,
    /// Static list
    Static,
    /// mDNS on the local network
    Mdns,
    /// Bootstrap nodes
    Bootstrap,
    /// Dark addressing
    DarkAddress,
    /// DNS
    DNS,
    /// Gossip
    Gossip,
    /// Several methods combined
    Hybrid(Vec<DiscoveryMethod>),
}

/// Kademlia settings; times in milliseconds.
#[derive(Debug, Clone, Copy)]
pub struct DHTConfig {
    /// Bucket size (K)
    pub bucket_size: usize,
    /// Parallel lookups (alpha)
    pub alpha: usize,
    /// Replication factor
    pub replication_factor: usize,
    /// Key space size in bits
    pub key_space_bits: usize,
    /// Time allowed for bootstrapping
    pub bootstrap_timeout_ms: u64,
    /// Refresh interval
    pub refresh_interval_ms: u64,
    /// Whether records are republished
    pub enable_republishing: bool,
}

impl Default for DHTConfig {
    /// K = 20, alpha = 3, replication 20, 256-bit keys, 30 s bootstrap,
    /// hourly refresh, republishing on.
    fn default() -> (r: Self)
        ensures
            r.bucket_size == 20,
            r.alpha == 3,
            r.replication_factor == 20,
            r.key_space_bits == 256,
            r.bootstrap_timeout_ms == 30000,
            r.refresh_interval_ms == 3600000,
            r.enable_republishing,
    {
        DHTConfig {
            bucket_size: 20,
            alpha: 3,
            replication_factor: 20,
            key_space_bits: 256,
            bootstrap_timeout_ms: 30000,
            refresh_interval_ms: 3600000,
            enable_republishing: true,
        }
    }
}

/// Dark resolver settings.
#[derive(Debug, Clone)]
pub struct DarkResolverConfig {
    /// Largest cache
    pub max_cache_size: usize,
    /// Lifetime of cache entries, in milliseconds
    pub cache_ttl_ms: u64,
    /// Whether resolution is distributed
    pub enable_distributed: bool,
    /// Fallback DNS servers
    pub fallback_dns: Vec<String>,
    /// Resolution attempts
    pub max_resolution_attempts: usize,
}

impl Default for DarkResolverConfig {
    /// 10000 entries for an hour, distributed, falling back to 8.8.8.8 and
    /// 1.1.1.1, 3 attempts.
    fn default() -> (r: Self)
        ensures
            r.max_cache_size == 10000,
            r.cache_ttl_ms == 3600000,
            r.enable_distributed,
            r.fallback_dns@.len() == 2,
            r.fallback_dns@[0]@ == "8.8.8.8"@,
            r.fallback_dns@[1]@ == "1.1.1.1"@,
            r.max_resolution_attempts == 3,
    {
        let mut dns: Vec<String> = Vec::new();
        dns.push(String::from_str("8.8.8.8"));
        dns.push(String::from_str("1.1.1.1"));
        DarkResolverConfig {
            max_cache_size: 10000,
            cache_ttl_ms: 3600000,
            enable_distributed: true,
            fallback_dns: dns,
            max_resolution_attempts: 3,
        }
    }
}

/// Load balancing algorithms of peer selection.
#[derive(Debug, Clone, Copy, PartialEq, Eq, Structural)]
pub enum LoadBalancingAlgorithm {
    /// In turn
    RoundRobin,
    /// In turn, by weight
    WeightedRoundRobin,
    /// Fewest connections
    LeastConnections,
    /// Fastest response
    LeastResponseTime,
    /// At random
    Random,
    /// Consistent hashing
    ConsistentHashing,
    /// By resources
    ResourceBased,
}

/// Geographic preferences of peer selection.
#[derive(Debug, Clone)]
pub struct GeoPreferences {
    /// Prefer local peers
    pub prefer_local: bool,
    /// Latency under which a peer counts as local, in milliseconds
    pub local_latency_threshold_ms: u64,
    /// Preferred regions (ISO country codes)
    pub preferred_regions: Vec<String>,
    /// Avoided regions
    pub avoided_regions: Vec<String>,
    /// Spread peers over regions
    pub enable_geo_diversity: bool,
}

impl Default for GeoPreferences {
    /// Local peers (under 100 ms) preferred, no region lists, diversity on.
    fn default() -> (r: Self)
        ensures
            r.prefer_local,
            r.local_latency_threshold_ms == 100,
            r.preferred_regions@.len() == 0,
            r.avoided_regions@.len() == 0,
            r.enable_geo_diversity,
    {
        GeoPreferences {
            prefer_local: true,
            local_latency_threshold_ms: 100,
            preferred_regions: Vec::new(),
            avoided_regions: Vec::new(),
            enable_geo_diversity: true,
        }
    }
}

/// What a peer supports.
#[derive(Debug, Clone, Default)]
pub struct PeerCapabilities {
    /// Protocol versions
    pub protocol_versions: Vec<String>,
    /// Most concurrent connections
    pub max_concurrent_connections: Option<usize>,
    /// Message types
    pub supported_message_types: Vec<String>,
    /// Dark addressing
    pub supports_dark_addressing: bool,
    /// Onion routing
    pub supports_onion_routing: bool,
    /// DHT participation
    pub participates_in_dht: bool,
    /// Relaying
    pub can_relay: bool,
    /// Storage
    pub provides_storage: bool,
    /// Bandwidth, in bits per second
    pub bandwidth_capacity: Option<u64>,
}

/// Circuit state of a discovered peer; times in milliseconds.
#[derive(Debug, Clone, Copy, PartialEq, Eq, Structural)]
pub enum CircuitBreakerState {
    /// Attempts pass
    Closed,
    /// Attempts are held back
    Open { opened_at: u64, failure_count: usize },
    /// Testing recovery
    HalfOpen { test_requests: usize, successful_tests: usize },
}

/// The circuit state after a connection attempt at `now`, when
/// `attempts` attempts (this one included) have been made. A success closes
/// the circuit, except that a half-open circuit needs 3 successful tests;
/// a failure opens a closed circuit from the fifth attempt on, and reopens a
/// half-open one.
pub open spec fn state_after_attempt(state: CircuitBreakerState, success: bool, attempts: u64, now: u64) -> CircuitBreakerState {
    if success {
        match state {
            CircuitBreakerState::HalfOpen { successful_tests, .. } => if successful_tests + 1 >= 3 {
                CircuitBreakerState::Closed
            } else {
                CircuitBreakerState::HalfOpen { test_requests: 0, successful_tests: (successful_tests + 1) as usize }
            },
            _ => CircuitBreakerState::Closed,
        }
    } else {
        match state {
            CircuitBreakerState::Closed => if attempts >= 5 {
                CircuitBreakerState::Open { opened_at: now, failure_count: attempts as usize }
            } else {
                CircuitBreakerState::Closed
            },
            CircuitBreakerState::HalfOpen { .. } => CircuitBreakerState::Open { opened_at: now, failure_count: attempts as usize },
            _ => state,
        }
    }
}

/// The circuit state after a connection attempt; see `state_after_attempt`.
pub fn next_circuit_state(state: CircuitBreakerState, success: bool, attempts: u64, now: u64) -> (r: CircuitBreakerState)
    requires
        state matches CircuitBreakerState::HalfOpen { successful_tests, .. } ==> successful_tests < usize::MAX,
    ensures
        r == state_after_attempt(state, success, attempts, now),
{
    if success {
        match state {
            CircuitBreakerState::HalfOpen { successful_tests, .. } => {
                let n = successful_tests + 1;
                if n >= 3 {
                    CircuitBreakerState::Closed
                } else {
                    CircuitBreakerState::HalfOpen { test_requests: 0, successful_tests: n }
                }
            },
            _ => CircuitBreakerState::Closed,
        }
    } else {
        match state {
            CircuitBreakerState::Closed => {
                if attempts >= 5 {
                    CircuitBreakerState::Open { opened_at: now, failure_count: attempts as usize }
                } else {
                    CircuitBreakerState::Closed
                }
            },
            CircuitBreakerState::HalfOpen { .. } => CircuitBreakerState::Open { opened_at: now, failure_count: attempts as usize },
            _ => state,
        }
    }
}

/// `s` is one of the strings of `v`.
pub open spec fn lists(v: Seq<String>, s: String) -> bool {
    exists|i: int| 0 <= i < v.len() && #[trigger] v[i]@ == s@
}

/// Every required capability is among the peer's message types or
/// protocol versions.
pub open spec fn capable(required: Seq<String>, caps: PeerCapabilities) -> bool {
    forall|i: int| 0 <= i < required.len() ==> lists(caps.supported_message_types@, #[trigger] required[i])
        || lists(caps.protocol_versions@, required[i])
}

fn contains_string(v: &Vec<String>, s: &String) -> (r: bool)
    ensures
        r == lists(v@, *s),
{
    let mut i: usize = 0;
    while i < v.len()
        invariant
            0 <= i <= v@.len(),
            forall|j: int| 0 <= j < i ==> (#[trigger] v@[j])@ != s@,
        decreases v@.len() - i,
    {
        if v[i] == *s {
            return true;
        }
        i = i + 1;
    }
    false
}

/// Whether a peer offers every required capability (as a message type or a
/// protocol version); no requirement is always met.
pub fn meets_capability_requirements(required: &[String], caps: &PeerCapabilities) -> (r: bool)
    ensures
        r == capable(required@, *caps),
{
    let mut i: usize = 0;
    while i < required.len()
        invariant
            0 <= i <= required@.len(),
            forall|j: int| 0 <= j < i ==> lists(caps.supported_message_types@, #[trigger] required@[j])
                || lists(caps.protocol_versions@, required@[j]),
        decreases required@.len() - i,
    {
        let req = &required[i];
        if !contains_string(&caps.supported_message_types, req) && !contains_string(&caps.protocol_versions, req) {
            return false;
        }
        i = i + 1;
    }
    true
}

/// Time from `from` to `now` (none where the clock went back).
pub open spec fn waited(from: u64, now: u64) -> u64 {
    if now > from { (now - from) as u64 } else { 0 }
}

/// Back-off after `attempts` attempts, in milliseconds: `attempts^2 * 30` s.
pub open spec fn backoff_ms(attempts: u32) -> int {
    attempts * attempts * 30000
}

/// Whether a connection to a peer may be attempted at `now`: not
/// blacklisted; an open circuit has been open for at least 60 s; a half-open
/// circuit has fewer than 3 test requests; the reputation and connection
/// quality pass their thresholds; and after more than 3 attempts, the
/// back-off since the last one has passed.
pub open spec fn attempt_allowed(
    blacklisted: bool,
    state: CircuitBreakerState,
    reputation_ok: bool,
    quality_ok: bool,
    attempts: u32,
    last_attempt: Option<u64>,
    now: u64,
) -> bool {
    &&& !blacklisted
    &&& (state matches CircuitBreakerState::Open { opened_at, .. } ==> waited(opened_at, now) >= 60000)
    &&& (state matches CircuitBreakerState::HalfOpen { test_requests, .. } ==> test_requests < 3)
    &&& reputation_ok
    &&& (attempts > 3 && last_attempt is Some ==> waited(last_attempt->0, now) >= backoff_ms(attempts))
    &&& quality_ok
}

/// Decides whether to attempt a connection at `now`; see `attempt_allowed`.
/// `reputation_ok` says whether the reputation reaches the configured
/// minimum score, `quality_ok` whether the overall connection quality is at
/// least 0.3.
pub fn should_attempt_connection_at(
    blacklisted: bool,
    state: CircuitBreakerState,
    reputation_ok: bool,
    quality_ok: bool,
    attempts: u32,
    last_attempt: Option<u64>,
    now: u64,
) -> (r: bool)
    ensures
        r == attempt_allowed(blacklisted, state, reputation_ok, quality_ok, attempts, last_attempt, now),
{
    if blacklisted {
        return false;
    }
    match state {
        CircuitBreakerState::Open { opened_at, .. } => {
            let w: u64 = if now > opened_at { now - opened_at } else { 0 };
            if w < 60000 {
                return false;
            }
        },
        CircuitBreakerState::HalfOpen { test_requests, .. } => {
            if test_requests >= 3 {
                return false;
            }
        },
        CircuitBreakerState::Closed => {},
    }
    if !reputation_ok {
        return false;
    }
    if attempts > 3 {
        match last_attempt {
            Some(last) => {
                let w: u64 = if now > last { now - last } else { 0 };
                let a = attempts as u128;
                proof {
                    assert(a * a <= 0xffff_ffffu128 * 0xffff_ffffu128) by (nonlinear_arith)
                        requires
                            a <= 0xffff_ffffu128,
                    ;
                }
                let backoff: u128 = a * a * 30000;
                if (w as u128) < backoff {
                    return false;
                }
            },
            None => {},
        }
    }
    quality_ok
}

/// Categories of discovery errors.
#[derive(Debug, Clone, Copy, PartialEq, Eq, Structural)]
pub enum DiscoveryErrorCategory {
    /// Network connectivity
    NetworkError,
    /// Configuration
    ConfigurationError,
    /// Resource exhaustion
    ResourceError,
    /// Protocol violations
    ProtocolError,
    /// Security
    SecurityError,
    /// Timeouts
    TimeoutError,
    /// Dark addressing
    DarkAddressingError,
    /// DHT
    DHTError,
}

/// Alert severities, least severe first.
#[derive(Debug, Clone, Copy, PartialEq, Eq, PartialOrd, Ord, Structural)]
pub enum AlertSeverity {
    /// Information
    Info,
    /// Warning
    Warning,
    /// Error
    Error,
    /// Needs immediate attention
    Critical,
}

/// Alert categories.
#[derive(Debug, Clone, Copy, PartialEq, Eq, Structural)]
pub enum AlertCategory {
    /// Performance
    Performance,
    /// Connectivity
    Connectivity,
    /// Security
    Security,
    /// Resources
    Resource,
    /// Configuration
    Configuration,
}

/// A peer of `items`, chosen by `rand::seq::SliceRandom::choose` with the
/// thread-local generator `rand::thread_rng`: none exactly when `items` is
/// empty. Which peer comes back is left to chance.
#[verifier::external_body]
fn random_choice(items: &[PeerId]) -> (r: Option<PeerId>)
    ensures
        r is None <==> items@.len() == 0,
        r matches Some(p) ==> exists|k: int| 0 <= k < items@.len() && items@[k] == p,
{
    rand::seq::SliceRandom::choose(items, &mut rand::thread_rng()).copied()
}

/// Longest response-time history kept per peer.
pub const RESPONSE_HISTORY: usize = 10;

/// Connections recorded for the peer with identity bytes `p`: the first
/// entry for it, or 0.
pub open spec fn connections_recorded(counts: Seq<(PeerId, usize)>, p: Seq<u8>) -> nat
    decreases counts.len(),
{
    if counts.len() == 0 {
        0
    } else if counts[0].0.bytes@ == p {
        counts[0].1 as nat
    } else {
        connections_recorded(counts.drop_first(), p)
    }
}

/// Response-time history of the peer with identity bytes `p`: that of its
/// first entry, or none.
pub open spec fn history_of(times: Seq<(PeerId, Vec<u64>)>, p: Seq<u8>) -> Option<Seq<u64>>
    decreases times.len(),
{
    if times.len() == 0 {
        None
    } else if times[0].0.bytes@ == p {
        Some(times[0].1@)
    } else {
        history_of(times.drop_first(), p)
    }
}

/// Ordering key of the least-response-time choice: the latest response
/// time in milliseconds, or the largest `u128` for a peer never timed.
pub open spec fn response_key(times: Seq<(PeerId, Vec<u64>)>, p: Seq<u8>) -> nat {
    match history_of(times, p) {
        Some(h) => if h.len() > 0 { h.last() as nat } else { u128::MAX as nat },
        None => u128::MAX as nat,
    }
}

/// Whether `k` is the first position of a smallest key in `s`.
pub open spec fn first_min(s: Seq<PeerId>, key: spec_fn(PeerId) -> nat, k: int) -> bool {
    &&& 0 <= k < s.len()
    &&& forall|j: int| 0 <= j < s.len() ==> key(s[k]) <= key(#[trigger] s[j])
    &&& forall|j: int| 0 <= j < k ==> key(s[k]) < key(#[trigger] s[j])
}

/// Spreads connections over peers.
#[derive(Debug)]
pub struct LoadBalancer {
    /// Choice rule
    pub algorithm: LoadBalancingAlgorithm,
    /// Position of the next round-robin choice
    pub round_robin_index: usize,
    /// Connections per peer
    pub connection_counts: Vec<(PeerId, usize)>,
    /// Latest response times per peer in milliseconds, oldest first, at most
    /// `RESPONSE_HISTORY`
    pub response_times: Vec<(PeerId, Vec<u64>)>,
}

impl LoadBalancer {
    /// A balancer with the given rule and nothing recorded.
    pub fn new(algorithm: LoadBalancingAlgorithm) -> (r: LoadBalancer)
        ensures
            r.algorithm == algorithm,
            r.round_robin_index == 0,
            r.connection_counts@.len() == 0,
            r.response_times@.len() == 0,
    {
        LoadBalancer { algorithm, round_robin_index: 0, connection_counts: Vec::new(), response_times: Vec::new() }
    }

    /// Connections recorded for `peer`.
    pub fn connections_of(&self, peer: &PeerId) -> (r: usize)
        ensures
            r == connections_recorded(self.connection_counts@, peer.bytes@),
    {
        let mut i: usize = 0;
        assert(self.connection_counts@.skip(0) =~= self.connection_counts@);
        while i < self.connection_counts.len()
            invariant
                0 <= i <= self.connection_counts@.len(),
                connections_recorded(self.connection_counts@, peer.bytes@)
                    == connections_recorded(self.connection_counts@.skip(i as int), peer.bytes@),
            decreases self.connection_counts@.len() - i,
        {
            assert(self.connection_counts@.skip(i as int).drop_first() =~= self.connection_counts@.skip(i + 1));
            if self.connection_counts[i].0.same_as(peer) {
                return self.connection_counts[i].1;
            }
            i = i + 1;
        }
        0
    }

    /// Ordering key of `peer` for the least-response-time choice; see
    /// `response_key`.
    pub fn response_key_of(&self, peer: &PeerId) -> (r: u128)
        ensures
            r == response_key(self.response_times@, peer.bytes@),
    {
        let mut i: usize = 0;
        assert(self.response_times@.skip(0) =~= self.response_times@);
        while i < self.response_times.len()
            invariant
                0 <= i <= self.response_times@.len(),
                history_of(self.response_times@, peer.bytes@) == history_of(self.response_times@.skip(i as int), peer.bytes@),
            decreases self.response_times@.len() - i,
        {
            assert(self.response_times@.skip(i as int).drop_first() =~= self.response_times@.skip(i + 1));
            if self.response_times[i].0.same_as(peer) {
                let h = &self.response_times[i].1;
                if h.len() > 0 {
                    return h[h.len() - 1] as u128;
                }
                return u128::MAX;
            }
            i = i + 1;
        }
        u128::MAX
    }

    /// Position of the first peer of `available` with the fewest recorded
    /// connections.
    fn least_connections(&self, available: &[PeerId]) -> (k: usize)
        requires
            available@.len() > 0,
        ensures
            first_min(available@, |p: PeerId| connections_recorded(self.connection_counts@, p.bytes@), k as int),
    {
        let ghost key = |p: PeerId| connections_recorded(self.connection_counts@, p.bytes@);
        let mut best: usize = 0;
        let mut best_key = self.connections_of(&available[0]);
        let mut i: usize = 1;
        while i < available.len()
            invariant
                1 <= i <= available@.len(),
                key == (|p: PeerId| connections_recorded(self.connection_counts@, p.bytes@)),
                best < i,
                best_key == key(available@[best as int]),
                forall|j: int| 0 <= j < i ==> key(available@[best as int]) <= key(#[trigger] available@[j]),
                forall|j: int| 0 <= j < best ==> key(available@[best as int]) < key(#[trigger] available@[j]),
            decreases available@.len() - i,
        {
            let c = self.connections_of(&available[i]);
            if c < best_key {
                best = i;
                best_key = c;
            }
            i = i + 1;
        }
        best
    }

    /// Position of the first peer of `available` with the smallest
    /// response-time key.
    fn least_response_time(&self, available: &[PeerId]) -> (k: usize)
        requires
            available@.len() > 0,
        ensures
            first_min(available@, |p: PeerId| response_key(self.response_times@, p.bytes@), k as int),
    {
        let ghost key = |p: PeerId| response_key(self.response_times@, p.bytes@);
        let mut best: usize = 0;
        let mut best_key = self.response_key_of(&available[0]);
        let mut i: usize = 1;
        while i < available.len()
            invariant
                1 <= i <= available@.len(),
                key == (|p: PeerId| response_key(self.response_times@, p.bytes@)),
                best < i,
                best_key == key(available@[best as int]),
                forall|j: int| 0 <= j < i ==> key(available@[best as int]) <= key(#[trigger] available@[j]),
                forall|j: int| 0 <= j < best ==> key(available@[best as int]) < key(#[trigger] available@[j]),
            decreases available@.len() - i,
        {
            let c = self.response_key_of(&available[i]);
            if c < best_key {
                best = i;
                best_key = c;
            }
            i = i + 1;
        }
        best
    }

    /// Chooses a peer of `available` (none when it is empty) by the rule:
    /// round robin takes the one at the rotating position and advances it;
    /// least connections and least response time take the first with the
    /// smallest recorded count or latest response time (an untimed peer
    /// last); random and weighted round robin (every weight being one) take
    /// one at random; the other rules take the first.
    pub fn select_peer(&mut self, available: &[PeerId]) -> (r: Option<PeerId>)
        ensures
            available@.len() == 0 ==> r is None && *final(self) == *old(self),
            final(self).algorithm == old(self).algorithm,
            final(self).connection_counts == old(self).connection_counts,
            final(self).response_times == old(self).response_times,
            available@.len() > 0 ==> match old(self).algorithm {
                LoadBalancingAlgorithm::RoundRobin => {
                    &&& r == Some(available@[(old(self).round_robin_index as int) % (available@.len() as int)])
                    &&& final(self).round_robin_index == ((old(self).round_robin_index as int) + 1) % (available@.len() as int)
                },
                LoadBalancingAlgorithm::LeastConnections => {
                    &&& exists|k: int| first_min(available@, |p: PeerId| connections_recorded(old(self).connection_counts@, p.bytes@), k)
                        && r == Some(available@[k])
                    &&& final(self).round_robin_index == old(self).round_robin_index
                },
                LoadBalancingAlgorithm::LeastResponseTime => {
                    &&& exists|k: int| first_min(available@, |p: PeerId| response_key(old(self).response_times@, p.bytes@), k)
                        && r == Some(available@[k])
                    &&& final(self).round_robin_index == old(self).round_robin_index
                },
                LoadBalancingAlgorithm::Random | LoadBalancingAlgorithm::WeightedRoundRobin => {
                    &&& exists|k: int| 0 <= k < available@.len() && r == Some(available@[k])
                    &&& final(self).round_robin_index == old(self).round_robin_index
                },
                _ => {
                    &&& r == Some(available@[0])
                    &&& final(self).round_robin_index == old(self).round_robin_index
                },
            },
    {
        if available.len() == 0 {
            return None;
        }
        match self.algorithm {
            LoadBalancingAlgorithm::RoundRobin => {
                let n = available.len();
                let peer = available[self.round_robin_index % n];
                self.round_robin_index = (self.round_robin_index % n + 1) % n;
                proof {
                    let i = old(self).round_robin_index as int;
                    let m = n as int;
                    assert((i % m + 1) % m == (i + 1) % m) by (nonlinear_arith)
                        requires m > 0, i >= 0;
                }
                Some(peer)
            },
            LoadBalancingAlgorithm::LeastConnections => {
                let k = self.least_connections(available);
                Some(available[k])
            },
            LoadBalancingAlgorithm::LeastResponseTime => {
                let k = self.least_response_time(available);
                Some(available[k])
            },
            LoadBalancingAlgorithm::Random | LoadBalancingAlgorithm::WeightedRoundRobin => random_choice(available),
            _ => Some(available[0]),
        }
    }

    /// Records `connections` for `peer` and, when given, one more response
    /// time (the oldest dropped beyond `RESPONSE_HISTORY`).
    pub fn update_metrics(&mut self, peer: PeerId, connections: usize, response_time: Option<u64>)
        ensures
            final(self).algorithm == old(self).algorithm,
            final(self).round_robin_index == old(self).round_robin_index,
            connections_recorded(final(self).connection_counts@, peer.bytes@) == connections,
            forall|q: Seq<u8>| q != peer.bytes@ ==> #[trigger] connections_recorded(final(self).connection_counts@, q)
                == connections_recorded(old(self).connection_counts@, q),
            response_time is None ==> final(self).response_times == old(self).response_times,
            response_time matches Some(t) ==> {
                let before = match history_of(old(self).response_times@, peer.bytes@) {
                    Some(h) => h,
                    None => Seq::<u64>::empty(),
                };
                let after = if before.len() + 1 > RESPONSE_HISTORY { before.push(t).drop_first() } else { before.push(t) };
                &&& history_of(final(self).response_times@, peer.bytes@) == Some(after)
                &&& forall|q: Seq<u8>| q != peer.bytes@ ==> #[trigger] history_of(final(self).response_times@, q)
                    == history_of(old(self).response_times@, q)
            },
    {
        self.set_connections(peer, connections);
        match response_time {
            Some(t) => self.push_response_time(peer, t),
            None => {},
        }
    }

    fn set_connections(&mut self, peer: PeerId, connections: usize)
        ensures
            final(self).algorithm == old(self).algorithm,
            final(self).round_robin_index == old(self).round_robin_index,
            final(self).response_times == old(self).response_times,
            connections_recorded(final(self).connection_counts@, peer.bytes@) == connections,
            forall|q: Seq<u8>| q != peer.bytes@ ==> #[trigger] connections_recorded(final(self).connection_counts@, q)
                == connections_recorded(old(self).connection_counts@, q),
    {
        let ghost s = self.connection_counts@;
        let mut i: usize = 0;
        while i < self.connection_counts.len()
            invariant
                0 <= i <= s.len(),
                self.connection_counts@ == s,
                s == old(self).connection_counts@,
                self.algorithm == old(self).algorithm,
                self.round_robin_index == old(self).round_robin_index,
                self.response_times == old(self).response_times,
                forall|j: int| 0 <= j < i ==> (#[trigger] s[j]).0.bytes@ != peer.bytes@,
            decreases s.len() - i,
        {
            if self.connection_counts[i].0.same_as(&peer) {
                self.connection_counts.set(i, (peer, connections));
                proof {
                    lemma_recorded_set(s, i as int, peer, connections);
                }
                return;
            }
            i = i + 1;
        }
        self.connection_counts.push((peer, connections));
        proof {
            lemma_recorded_push_absent(s, peer, connections);
        }
    }

    fn push_response_time(&mut self, peer: PeerId, t: u64)
        ensures
            final(self).algorithm == old(self).algorithm,
            final(self).round_robin_index == old(self).round_robin_index,
            final(self).connection_counts == old(self).connection_counts,
            ({
                let before = match history_of(old(self).response_times@, peer.bytes@) {
                    Some(h) => h,
                    None => Seq::<u64>::empty(),
                };
                let after = if before.len() + 1 > RESPONSE_HISTORY { before.push(t).drop_first() } else { before.push(t) };
                &&& history_of(final(self).response_times@, peer.bytes@) == Some(after)
                &&& forall|q: Seq<u8>| q != peer.bytes@ ==> #[trigger] history_of(final(self).response_times@, q)
                    == history_of(old(self).response_times@, q)
            }),
    {
        let ghost s = self.response_times@;
        let mut i: usize = 0;
        while i < self.response_times.len()
            invariant
                0 <= i <= s.len(),
                self.response_times@ == s,
                s == old(self).response_times@,
                self.algorithm == old(self).algorithm,
                self.round_robin_index == old(self).round_robin_index,
                self.connection_counts == old(self).connection_counts,
                forall|j: int| 0 <= j < i ==> (#[trigger] s[j]).0.bytes@ != peer.bytes@,
            decreases s.len() - i,
        {
            if self.response_times[i].0.same_as(&peer) {
                let (_, mut h) = self.response_times.remove(i);
                let ghost h0 = h@;
                h.push(t);
                if h.len() > RESPONSE_HISTORY {
                    h.remove(0);
                }
                self.response_times.insert(i, (peer, h));
                proof {
                    assert(self.response_times@ =~= s.update(i as int, (peer, self.response_times@[i as int].1)));
                    lemma_history_set(s, i as int, peer, self.response_times@[i as int].1);
                    assert(history_of(s, peer.bytes@) == Some(h0)) by {
                        lemma_history_at(s, i as int, peer.bytes@);
                    }
                }
                return;
            }
            i = i + 1;
        }
        let mut h: Vec<u64> = Vec::new();
        h.push(t);
        self.response_times.push((peer, h));
        proof {
            lemma_history_push_absent(s, (peer, h));
            lemma_history_none(s, peer.bytes@);
            assert(Seq::<u64>::empty().push(t) =~= h@);
        }
    }
}

proof fn lemma_recorded_set(s: Seq<(PeerId, usize)>, i: int, peer: PeerId, c: usize)
    requires
        0 <= i < s.len(),
        s[i].0.bytes@ == peer.bytes@,
        forall|j: int| 0 <= j < i ==> (#[trigger] s[j]).0.bytes@ != peer.bytes@,
    ensures
        connections_recorded(s.update(i, (peer, c)), peer.bytes@) == c,
        forall|q: Seq<u8>| q != peer.bytes@ ==> #[trigger] connections_recorded(s.update(i, (peer, c)), q)
            == connections_recorded(s, q),
    decreases s.len(),
{
    let t = s.update(i, (peer, c));
    if i > 0 {
        assert(t.drop_first() =~= s.drop_first().update(i - 1, (peer, c)));
        assert forall|j: int| 0 <= j < i - 1 implies (#[trigger] s.drop_first()[j]).0.bytes@ != peer.bytes@ by {
            assert(s[j + 1].0.bytes@ != peer.bytes@);
        }
        lemma_recorded_set(s.drop_first(), i - 1, peer, c);
        assert(s[0].0.bytes@ != peer.bytes@);
        assert forall|q: Seq<u8>| q != peer.bytes@ implies #[trigger] connections_recorded(t, q) == connections_recorded(s, q) by {
            assert(connections_recorded(s.drop_first().update(i - 1, (peer, c)), q) == connections_recorded(s.drop_first(), q));
        }
    } else {
        assert(t.drop_first() =~= s.drop_first());
    }
}

proof fn lemma_recorded_push_absent(s: Seq<(PeerId, usize)>, peer: PeerId, c: usize)
    requires
        forall|j: int| 0 <= j < s.len() ==> (#[trigger] s[j]).0.bytes@ != peer.bytes@,
    ensures
        connections_recorded(s.push((peer, c)), peer.bytes@) == c,
        forall|q: Seq<u8>| q != peer.bytes@ ==> #[trigger] connections_recorded(s.push((peer, c)), q)
            == connections_recorded(s, q),
    decreases s.len(),
{
    let t = s.push((peer, c));
    if s.len() > 0 {
        assert(t.drop_first() =~= s.drop_first().push((peer, c)));
        assert forall|j: int| 0 <= j < s.len() - 1 implies (#[trigger] s.drop_first()[j]).0.bytes@ != peer.bytes@ by {
            assert(s[j + 1].0.bytes@ != peer.bytes@);
        }
        lemma_recorded_push_absent(s.drop_first(), peer, c);
        assert(s[0].0.bytes@ != peer.bytes@);
        assert forall|q: Seq<u8>| q != peer.bytes@ implies #[trigger] connections_recorded(t, q) == connections_recorded(s, q) by {
            assert(connections_recorded(s.drop_first().push((peer, c)), q) == connections_recorded(s.drop_first(), q));
        }
    } else {
        assert(t.drop_first() =~= Seq::<(PeerId, usize)>::empty());
        assert forall|q: Seq<u8>| q != peer.bytes@ implies #[trigger] connections_recorded(t, q) == connections_recorded(s, q) by {
            assert(connections_recorded(t.drop_first(), q) == 0);
        }
    }
}

proof fn lemma_history_at(s: Seq<(PeerId, Vec<u64>)>, i: int, p: Seq<u8>)
    requires
        0 <= i < s.len(),
        s[i].0.bytes@ == p,
        forall|j: int| 0 <= j < i ==> (#[trigger] s[j]).0.bytes@ != p,
    ensures
        history_of(s, p) == Some(s[i].1@),
    decreases s.len(),
{
    if i > 0 {
        assert forall|j: int| 0 <= j < i - 1 implies (#[trigger] s.drop_first()[j]).0.bytes@ != p by {
            assert(s[j + 1].0.bytes@ != p);
        }
        lemma_history_at(s.drop_first(), i - 1, p);
        assert(s[0].0.bytes@ != p);
    }
}

proof fn lemma_history_set(s: Seq<(PeerId, Vec<u64>)>, i: int, peer: PeerId, h: Vec<u64>)
    requires
        0 <= i < s.len(),
        s[i].0.bytes@ == peer.bytes@,
        forall|j: int| 0 <= j < i ==> (#[trigger] s[j]).0.bytes@ != peer.bytes@,
    ensures
        history_of(s.update(i, (peer, h)), peer.bytes@) == Some(h@),
        forall|q: Seq<u8>| q != peer.bytes@ ==> #[trigger] history_of(s.update(i, (peer, h)), q) == history_of(s, q),
    decreases s.len(),
{
    let t = s.update(i, (peer, h));
    if i > 0 {
        assert(t.drop_first() =~= s.drop_first().update(i - 1, (peer, h)));
        assert forall|j: int| 0 <= j < i - 1 implies (#[trigger] s.drop_first()[j]).0.bytes@ != peer.bytes@ by {
            assert(s[j + 1].0.bytes@ != peer.bytes@);
        }
        lemma_history_set(s.drop_first(), i - 1, peer, h);
        assert(s[0].0.bytes@ != peer.bytes@);
        assert forall|q: Seq<u8>| q != peer.bytes@ implies #[trigger] history_of(t, q) == history_of(s, q) by {
            assert(history_of(s.drop_first().update(i - 1, (peer, h)), q) == history_of(s.drop_first(), q));
        }
    } else {
        assert(t.drop_first() =~= s.drop_first());
    }
}

proof fn lemma_history_none(s: Seq<(PeerId, Vec<u64>)>, p: Seq<u8>)
    requires
        forall|j: int| 0 <= j < s.len() ==> (#[trigger] s[j]).0.bytes@ != p,
    ensures
        history_of(s, p) is None,
    decreases s.len(),
{
    if s.len() > 0 {
        assert forall|j: int| 0 <= j < s.len() - 1 implies (#[trigger] s.drop_first()[j]).0.bytes@ != p by {
            assert(s[j + 1].0.bytes@ != p);
        }
        lemma_history_none(s.drop_first(), p);
        assert(s[0].0.bytes@ != p);
    }
}

proof fn lemma_history_push_absent(s: Seq<(PeerId, Vec<u64>)>, e: (PeerId, Vec<u64>))
    requires
        forall|j: int| 0 <= j < s.len() ==> (#[trigger] s[j]).0.bytes@ != e.0.bytes@,
    ensures
        history_of(s.push(e), e.0.bytes@) == Some(e.1@),
        forall|q: Seq<u8>| q != e.0.bytes@ ==> #[trigger] history_of(s.push(e), q) == history_of(s, q),
    decreases s.len(),
{
    let t = s.push(e);
    if s.len() > 0 {
        assert(t.drop_first() =~= s.drop_first().push(e));
        assert forall|j: int| 0 <= j < s.len() - 1 implies (#[trigger] s.drop_first()[j]).0.bytes@ != e.0.bytes@ by {
            assert(s[j + 1].0.bytes@ != e.0.bytes@);
        }
        lemma_history_push_absent(s.drop_first(), e);
        assert(s[0].0.bytes@ != e.0.bytes@);
        assert forall|q: Seq<u8>| q != e.0.bytes@ implies #[trigger] history_of(t, q) == history_of(s, q) by {
            assert(history_of(s.drop_first().push(e), q) == history_of(s.drop_first(), q));
        }
    } else {
        assert(t.drop_first() =~= Seq::<(PeerId, Vec<u64>)>::empty());
        assert forall|q: Seq<u8>| q != e.0.bytes@ implies #[trigger] history_of(t, q) == history_of(s, q) by {
            assert(history_of(t.drop_first(), q) is None);
        }
    }
}

/// Whether `a` and `b` are the same address and port.
pub open spec fn same_endpoint(a: NetworkAddress, b: NetworkAddress) -> bool {
    a.ip@ == b.ip@ && a.port == b.port
}

/// Whether `s` holds the endpoint `a`.
pub open spec fn holds_endpoint(s: Seq<NetworkAddress>, a: NetworkAddress) -> bool {
    exists|k: int| 0 <= k < s.len() && same_endpoint(#[trigger] s[k], a)
}

/// The bootstrap nodes of `nodes` tried in order when `tried` were tried
/// before: each node not tried yet, once.
pub open spec fn newly_tried(nodes: Seq<NetworkAddress>, tried: Seq<NetworkAddress>) -> Seq<NetworkAddress>
    decreases nodes.len(),
{
    if nodes.len() == 0 {
        Seq::empty()
    } else if holds_endpoint(tried, nodes[0]) {
        newly_tried(nodes.drop_first(), tried)
    } else {
        seq![nodes[0]] + newly_tried(nodes.drop_first(), tried.push(nodes[0]))
    }
}

/// Most peers found by one round of DHT discovery.
pub const DISCOVERY_BATCH: usize = 5;

/// How many peers one round of DHT discovery looks for: none when `current`
/// has reached `max_peers`, else what is missing, at most `DISCOVERY_BATCH`.
pub fn discovery_quota(current: usize, max_peers: usize) -> (r: usize)
    ensures
        current >= max_peers ==> r == 0,
        current < max_peers ==> r == if max_peers - current < DISCOVERY_BATCH { max_peers - current } else { DISCOVERY_BATCH as int },
{
    if current >= max_peers {
        0
    } else if max_peers - current < DISCOVERY_BATCH {
        max_peers - current
    } else {
        DISCOVERY_BATCH
    }
}

/// Whether `a` and `b` are the same address and port.
pub fn same_endpoint_exec(a: &NetworkAddress, b: &NetworkAddress) -> (r: bool)
    ensures
        r == same_endpoint(*a, *b),
{
    let mut i: usize = 0;
    while i < 4
        invariant
            0 <= i <= 4,
            forall|j: int| 0 <= j < i ==> a.ip@[j] == b.ip@[j],
        decreases 4 - i,
    {
        if a.ip[i] != b.ip[i] {
            return false;
        }
        i = i + 1;
    }
    assert(a.ip@ =~= b.ip@);
    a.port == b.port
}

fn holds_endpoint_exec(s: &Vec<NetworkAddress>, a: &NetworkAddress) -> (r: bool)
    ensures
        r == holds_endpoint(s@, *a),
{
    let mut k: usize = 0;
    while k < s.len()
        invariant
            0 <= k <= s@.len(),
            forall|j: int| 0 <= j < k ==> !same_endpoint(#[trigger] s@[j], *a),
        decreases s@.len() - k,
    {
        if same_endpoint_exec(&s[k], a) {
            return true;
        }
        k = k + 1;
    }
    false
}

/// The bookkeeping of peer discovery: which bootstrap nodes were tried,
/// the static peers and whether discovery runs. The discovered peers, with
/// their floating-point reputations, are kept by the networking front end.
#[derive(Debug)]
pub struct KademliaPeerDiscovery {
    /// Bootstrap nodes
    pub bootstrap_nodes: Vec<NetworkAddress>,
    /// Most peers to discover
    pub max_peers: usize,
    /// Seconds between discovery rounds
    pub interval_secs: u64,
    /// Static peers, each once
    pub static_peers: Vec<NetworkAddress>,
    /// Whether bootstrapping is done
    pub bootstrap_completed: bool,
    /// Whether discovery runs
    pub discovery_active: bool,
    /// Bootstrap nodes already tried
    pub bootstrap_tried: Vec<NetworkAddress>,
}

impl KademliaPeerDiscovery {
    /// Discovery from the given bootstrap nodes, neither started nor
    /// bootstrapped.
    pub fn new(bootstrap_nodes: Vec<NetworkAddress>, max_peers: usize, interval_secs: u64) -> (r: KademliaPeerDiscovery)
        ensures
            r.bootstrap_nodes@ == bootstrap_nodes@,
            r.max_peers == max_peers,
            r.interval_secs == interval_secs,
            r.static_peers@.len() == 0,
            !r.bootstrap_completed,
            !r.discovery_active,
            r.bootstrap_tried@.len() == 0,
    {
        KademliaPeerDiscovery {
            bootstrap_nodes,
            max_peers,
            interval_secs,
            static_peers: Vec::new(),
            bootstrap_completed: false,
            discovery_active: false,
            bootstrap_tried: Vec::new(),
        }
    }

    /// Marks discovery as running; whether it was stopped before (then the
    /// caller bootstraps and starts the discovery rounds).
    pub fn start(&mut self) -> (r: bool)
        ensures
            r == !old(self).discovery_active,
            final(self).discovery_active,
            final(self).bootstrap_completed == old(self).bootstrap_completed,
            final(self).bootstrap_tried == old(self).bootstrap_tried,
            final(self).static_peers == old(self).static_peers,
    {
        if self.discovery_active {
            return false;
        }
        self.discovery_active = true;
        true
    }

    /// Marks discovery as stopped.
    pub fn stop(&mut self)
        ensures
            !final(self).discovery_active,
            final(self).bootstrap_completed == old(self).bootstrap_completed,
            final(self).bootstrap_tried == old(self).bootstrap_tried,
            final(self).static_peers == old(self).static_peers,
    {
        self.discovery_active = false;
    }

    /// Bootstraps: unless done before, tries each bootstrap node not tried
    /// yet, in order, and is done. Returns the nodes tried now, for which
    /// the caller records a discovered peer.
    pub fn bootstrap(&mut self) -> (r: Vec<NetworkAddress>)
        ensures
            old(self).bootstrap_completed ==> r@.len() == 0 && *final(self) == *old(self),
            !old(self).bootstrap_completed ==> {
                &&& r@ == newly_tried(old(self).bootstrap_nodes@, old(self).bootstrap_tried@)
                &&& final(self).bootstrap_tried@ == old(self).bootstrap_tried@ + r@
                &&& final(self).bootstrap_completed
            },
            final(self).bootstrap_nodes == old(self).bootstrap_nodes,
            final(self).discovery_active == old(self).discovery_active,
            final(self).static_peers == old(self).static_peers,
    {
        let mut added: Vec<NetworkAddress> = Vec::new();
        if self.bootstrap_completed {
            return added;
        }
        let ghost nodes = self.bootstrap_nodes@;
        let ghost t0 = self.bootstrap_tried@;
        let mut i: usize = 0;
        assert(nodes.skip(0) =~= nodes);
        assert(Seq::<NetworkAddress>::empty() + newly_tried(nodes, t0) =~= newly_tried(nodes, t0));
        assert(t0 + Seq::<NetworkAddress>::empty() =~= t0);
        while i < self.bootstrap_nodes.len()
            invariant
                0 <= i <= nodes.len(),
                nodes == self.bootstrap_nodes@,
                nodes == old(self).bootstrap_nodes@,
                t0 == old(self).bootstrap_tried@,
                !self.bootstrap_completed,
                self.bootstrap_nodes == old(self).bootstrap_nodes,
                self.discovery_active == old(self).discovery_active,
                self.static_peers == old(self).static_peers,
                self.bootstrap_tried@ == t0 + added@,
                added@ + newly_tried(nodes.skip(i as int), self.bootstrap_tried@) == newly_tried(nodes, t0),
            decreases nodes.len() - i,
        {
            let node = self.bootstrap_nodes[i];
            let ghost rest = nodes.skip(i as int);
            assert(rest[0] == node);
            assert(rest.drop_first() =~= nodes.skip(i + 1));
            if !holds_endpoint_exec(&self.bootstrap_tried, &node) {
                let ghost before = self.bootstrap_tried@;
                self.bootstrap_tried.push(node);
                let ghost a0 = added@;
                added.push(node);
                assert(added@ + newly_tried(nodes.skip(i + 1), self.bootstrap_tried@)
                    =~= a0 + (seq![node] + newly_tried(nodes.skip(i + 1), before.push(node))));
                assert(self.bootstrap_tried@ =~= t0 + added@);
            }
            i = i + 1;
        }
        assert(nodes.skip(i as int) =~= Seq::<NetworkAddress>::empty());
        assert(added@ + Seq::<NetworkAddress>::empty() =~= added@);
        self.bootstrap_completed = true;
        added
    }

    /// Adds a static peer, once.
    pub fn add_static_peer(&mut self, address: NetworkAddress)
        ensures
            holds_endpoint(old(self).static_peers@, address) ==> final(self).static_peers == old(self).static_peers,
            !holds_endpoint(old(self).static_peers@, address) ==> final(self).static_peers@ == old(self).static_peers@.push(address),
            final(self).bootstrap_completed == old(self).bootstrap_completed,
            final(self).bootstrap_tried == old(self).bootstrap_tried,
            final(self).discovery_active == old(self).discovery_active,
    {
        if !holds_endpoint_exec(&self.static_peers, &address) {
            self.static_peers.push(address);
        }
    }
}

/// A half-open circuit admits test attempts while fewer than 3 have been
/// made: for a peer that is not blacklisted, whose reputation and
/// connection quality pass and with no back-off pending, an attempt is
/// allowed exactly when `test_requests < 3`.
pub proof fn law_half_open_attempts_below_three(
    test_requests: usize,
    successful_tests: usize,
    attempts: u32,
    last_attempt: Option<u64>,
    now: u64,
)
    requires
        attempts > 3 && last_attempt is Some ==> waited(last_attempt->0, now) >= backoff_ms(attempts),
    ensures
        attempt_allowed(
            false,
            CircuitBreakerState::HalfOpen { test_requests, successful_tests },
            true,
            true,
            attempts,
            last_attempt,
            now,
        ) == (test_requests < 3),
        attempt_allowed(
            true,
            CircuitBreakerState::HalfOpen { test_requests, successful_tests },
            true,
            true,
            attempts,
            last_attempt,
            now,
        ) == false,
{
}

/// The whole rule for attempting a connection, case by case: never to a
/// blacklisted peer, nor when the reputation or the connection quality
/// fails; a closed circuit allows it; an open one once 60 000 ms have passed
/// since it opened; a half-open one while fewer than 3 test requests were
/// made; and after more than 3 attempts, only once `attempts^2 * 30 000` ms
/// have passed since the last one.
pub proof fn law_attempt_rule(
    blacklisted: bool,
    state: CircuitBreakerState,
    reputation_ok: bool,
    quality_ok: bool,
    attempts: u32,
    last_attempt: Option<u64>,
    now: u64,
)
    ensures
        attempt_allowed(blacklisted, state, reputation_ok, quality_ok, attempts, last_attempt, now) <==> {
            &&& !blacklisted
            &&& reputation_ok
            &&& quality_ok
            &&& match state {
                CircuitBreakerState::Closed => true,
                CircuitBreakerState::Open { opened_at, .. } => now >= opened_at && now - opened_at >= 60000,
                CircuitBreakerState::HalfOpen { test_requests, .. } => test_requests < 3,
            }
            &&& (attempts > 3 && last_attempt is Some) ==> (now >= last_attempt->0 && now - last_attempt->0
                >= attempts * attempts * 30000)
        },
{
    if attempts > 3 && last_attempt is Some {
        let a = attempts as int;
        assert(a * a * 30000 > 0) by (nonlinear_arith)
            requires
                a > 3,
        ;
    }
}

} // verus!
