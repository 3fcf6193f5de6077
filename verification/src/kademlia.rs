//! Kademlia DHT bookkeeping: XOR distances between peer ids, bucket
//! indices, network-size estimates, partition detection, bootstrap
//! progress and query metrics.
//!
//! Peers are identified by the bytes of their ids. Reputation scoring works
//! on floating-point scores and stays with the networking front end.

use vstd::prelude::*;
use crate::types::{NetworkAddress, NetworkError};
use crate::text::{decimal, push_decimal};
use crate::digest::sha256_hash;

verus! {

/// Largest record that can be stored (1 MiB).
pub const MAX_RECORD_SIZE: usize = 1048576;

/// Most provider records kept per key.
pub const MAX_PROVIDERS_PER_KEY: usize = 20;

/// Lifetime of a record, in seconds (24 h).
pub const DEFAULT_RECORD_TTL_SECS: u64 = 86400;

/// Number of buckets for 160-bit keys.
pub const BUCKET_COUNT: u8 = 160;

/// Bootstrap node configuration.
#[derive(Debug, Clone)]
pub struct BootstrapConfig {
    /// Bootstrap nodes: peer id bytes and address
    pub nodes: Vec<(Vec<u8>, NetworkAddress)>,
    /// Time allowed for bootstrapping, in milliseconds
    pub timeout_ms: u64,
    /// Connections needed for a successful bootstrap
    pub min_connections: usize,
    /// Whether to bootstrap again periodically
    pub periodic_bootstrap: bool,
    /// Interval of periodic bootstraps, in milliseconds
    pub bootstrap_interval_ms: u64,
}

impl Default for BootstrapConfig {
    /// No nodes, 30 s timeout, 3 connections, hourly periodic bootstrap.
    fn default() -> (r: Self)
        ensures
            r.nodes@.len() == 0,
            r.timeout_ms == 30000,
            r.min_connections == 3,
            r.periodic_bootstrap,
            r.bootstrap_interval_ms == 3600000,
    {
        BootstrapConfig {
            nodes: Vec::new(),
            timeout_ms: 30000,
            min_connections: 3,
            periodic_bootstrap: true,
            bootstrap_interval_ms: 3600000,
        }
    }
}

/// Content routing configuration.
#[derive(Debug, Clone, Copy)]
pub struct ContentRoutingConfig {
    /// Whether content routing is on
    pub enabled: bool,
    /// Lifetime of provider records, in seconds
    pub provider_ttl_secs: u64,
    /// Replication factor
    pub replication_factor: usize,
    /// Whether content is republished
    pub auto_republish: bool,
    /// Republish interval, in seconds
    pub republish_interval_secs: u64,
    /// Largest content stored
    pub max_content_size: usize,
}

impl Default for ContentRoutingConfig {
    /// Enabled, 24 h provider TTL, replication 20, republished every 12 h,
    /// content up to `MAX_RECORD_SIZE`.
    fn default() -> (r: Self)
        ensures
            r.enabled,
            r.provider_ttl_secs == 86400,
            r.replication_factor == 20,
            r.auto_republish,
            r.republish_interval_secs == 43200,
            r.max_content_size == MAX_RECORD_SIZE,
    {
        ContentRoutingConfig {
            enabled: true,
            provider_ttl_secs: 86400,
            replication_factor: 20,
            auto_republish: true,
            republish_interval_secs: 43200,
            max_content_size: MAX_RECORD_SIZE,
        }
    }
}

/// Progress of bootstrapping; times in milliseconds.
#[derive(Debug, Clone, PartialEq, Eq)]
pub enum BootstrapState {
    /// Not started
    NotStarted,
    /// Started and waiting for connections
    InProgress { start_time: u64, connected_nodes: usize, attempted_nodes: usize },
    /// Enough nodes connected
    Completed { completion_time: u64, connected_nodes: usize, duration: u64 },
    /// Too few nodes connected in time
    Failed { failure_time: u64, reason: String, attempted_nodes: usize },
}

/// DHT performance counters; times in nanoseconds.
#[derive(Debug, Clone, Copy)]
pub struct DHTMetrics {
    /// Queries started
    pub total_queries: u64,
    /// Queries that succeeded
    pub successful_queries: u64,
    /// Queries that failed
    pub failed_queries: u64,
    /// Running average of query times
    pub avg_query_time_ns: u64,
    /// Records stored
    pub records_stored: u64,
    /// Provider announcements
    pub providers_announced: u64,
    /// Bootstrap attempts
    pub bootstrap_attempts: u64,
    /// Successful bootstraps
    pub successful_bootstraps: u64,
    /// Size of the routing table
    pub routing_table_size: usize,
    /// Estimated size of the network
    pub network_size_estimate: usize,
}

impl DHTMetrics {
    /// All counters zero.
    pub open spec fn spec_zero() -> DHTMetrics {
        DHTMetrics {
            total_queries: 0,
            successful_queries: 0,
            failed_queries: 0,
            avg_query_time_ns: 0,
            records_stored: 0,
            providers_announced: 0,
            bootstrap_attempts: 0,
            successful_bootstraps: 0,
            routing_table_size: 0,
            network_size_estimate: 0,
        }
    }
}

impl Default for DHTMetrics {
    fn default() -> (r: Self)
        ensures
            r == DHTMetrics::spec_zero(),
    {
        DHTMetrics {
            total_queries: 0,
            successful_queries: 0,
            failed_queries: 0,
            avg_query_time_ns: 0,
            records_stored: 0,
            providers_announced: 0,
            bootstrap_attempts: 0,
            successful_bootstraps: 0,
            routing_table_size: 0,
            network_size_estimate: 0,
        }
    }
}

/// Number of leading zero bits of a byte.
pub open spec fn byte_leading_zeros(x: u8) -> nat {
    if x >= 128 { 0 }
    else if x >= 64 { 1 }
    else if x >= 32 { 2 }
    else if x >= 16 { 3 }
    else if x >= 8 { 4 }
    else if x >= 4 { 5 }
    else if x >= 2 { 6 }
    else if x >= 1 { 7 }
    else { 8 }
}

/// Leading zero bits of the XOR of two ids, over their common length: the
/// number of leading bits in which they agree.
pub open spec fn xor_prefix_zeros(a: Seq<u8>, b: Seq<u8>) -> nat
    decreases a.len(),
{
    if a.len() == 0 || b.len() == 0 {
        0
    } else if a[0] ^ b[0] == 0 {
        8 + xor_prefix_zeros(a.drop_first(), b.drop_first())
    } else {
        byte_leading_zeros(a[0] ^ b[0])
    }
}

/// Sum of the distances from `local` to each of `peers`.
pub open spec fn distance_sum(local: Seq<u8>, peers: Seq<Vec<u8>>) -> nat
    decreases peers.len(),
{
    if peers.len() == 0 {
        0
    } else {
        distance_sum(local, peers.drop_last()) + xor_prefix_zeros(local, peers.last()@)
    }
}

/// `2^e`.
pub open spec fn pow2(e: nat) -> nat
    decreases e,
{
    if e == 0 { 1 } else { 2 * pow2((e - 1) as nat) }
}

/// The network size estimated from the distances to the closest peers:
/// 1 without peers, else 2 to the power of the average distance, capped at 31.
pub open spec fn network_size_estimate(local: Seq<u8>, peers: Seq<Vec<u8>>) -> nat {
    if peers.len() == 0 {
        1
    } else {
        let avg = distance_sum(local, peers) / peers.len();
        pow2(if avg < 31 { avg } else { 31 })
    }
}

fn leading_zeros_u8(x: u8) -> (r: u32)
    ensures
        r == byte_leading_zeros(x),
{
    if x >= 128 { 0 }
    else if x >= 64 { 1 }
    else if x >= 32 { 2 }
    else if x >= 16 { 3 }
    else if x >= 8 { 4 }
    else if x >= 4 { 5 }
    else if x >= 2 { 6 }
    else if x >= 1 { 7 }
    else { 8 }
}

proof fn lemma_xor_skip(a: Seq<u8>, b: Seq<u8>, i: int)
    requires
        0 <= i < a.len(),
        i < b.len(),
    ensures
        a.skip(i)[0] == a[i],
        b.skip(i)[0] == b[i],
        a.skip(i).drop_first() == a.skip(i + 1),
        b.skip(i).drop_first() == b.skip(i + 1),
{
    assert(a.skip(i).drop_first() =~= a.skip(i + 1));
    assert(b.skip(i).drop_first() =~= b.skip(i + 1));
}

/// Leading zero bits of the XOR of two peer ids; see `xor_prefix_zeros`.
pub fn calculate_xor_distance(peer1: &[u8], peer2: &[u8]) -> (r: u32)
    requires
        8 * peer1@.len() <= u32::MAX || 8 * peer2@.len() <= u32::MAX,
    ensures
        r == xor_prefix_zeros(peer1@, peer2@),
{
    let n = if peer1.len() < peer2.len() { peer1.len() } else { peer2.len() };
    let mut zeros: u32 = 0;
    let mut i: usize = 0;
    assert(peer1@.skip(0) =~= peer1@ && peer2@.skip(0) =~= peer2@);
    while i < n
        invariant
            n <= peer1@.len(),
            n <= peer2@.len(),
            n == peer1@.len() || n == peer2@.len(),
            8 * n <= u32::MAX,
            0 <= i <= n,
            zeros == 8 * i,
            xor_prefix_zeros(peer1@, peer2@) == zeros + xor_prefix_zeros(peer1@.skip(i as int), peer2@.skip(i as int)),
        decreases n - i,
    {
        proof {
            lemma_xor_skip(peer1@, peer2@, i as int);
        }
        let x = peer1[i] ^ peer2[i];
        if x == 0 {
            zeros = zeros + 8;
        } else {
            return zeros + leading_zeros_u8(x);
        }
        i = i + 1;
    }
    proof {
        assert(peer1@.skip(i as int).len() == 0 || peer2@.skip(i as int).len() == 0);
    }
    zeros
}

/// XOR distance is symmetric: the leading bits in which two ids agree do not
/// depend on which is named first.
pub proof fn law_xor_distance_symmetric(a: Seq<u8>, b: Seq<u8>)
    ensures
        xor_prefix_zeros(a, b) == xor_prefix_zeros(b, a),
    decreases a.len(),
{
    if a.len() > 0 && b.len() > 0 {
        let (x, y) = (a[0], b[0]);
        assert(x ^ y == y ^ x) by (bit_vector);
        law_xor_distance_symmetric(a.drop_first(), b.drop_first());
    }
}

/// An id agrees with itself in all of its bits.
pub proof fn law_xor_distance_to_self(a: Seq<u8>)
    ensures
        xor_prefix_zeros(a, a) == 8 * a.len(),
    decreases a.len(),
{
    if a.len() > 0 {
        let x = a[0];
        assert(x ^ x == 0) by (bit_vector);
        law_xor_distance_to_self(a.drop_first());
    }
}

/// Bucket of a peer at XOR distance `distance` (leading zero bits) from the
/// local id, for 160-bit keys.
pub fn get_bucket_index(distance: u32) -> (r: u8)
    requires
        distance <= 159,
    ensures
        r == 159 - distance,
{
    (159 - distance) as u8
}

/// Estimate of the network size from the closest peers; see
/// `network_size_estimate`.
pub fn estimate_network_size(local: &[u8], closest_peers: &[Vec<u8>]) -> (r: usize)
    requires
        8 * local@.len() <= u32::MAX,
        distance_sum(local@, closest_peers@) <= u32::MAX,
        closest_peers@.len() <= u32::MAX,
    ensures
        r == network_size_estimate(local@, closest_peers@),
{
    if closest_peers.len() == 0 {
        return 1;
    }
    let mut sum: u32 = 0;
    let mut i: usize = 0;
    while i < closest_peers.len()
        invariant
            8 * local@.len() <= u32::MAX,
            distance_sum(local@, closest_peers@) <= u32::MAX,
            0 <= i <= closest_peers@.len(),
            sum == distance_sum(local@, closest_peers@.take(i as int)),
        decreases closest_peers@.len() - i,
    {
        proof {
            assert(closest_peers@.take(i + 1).drop_last() =~= closest_peers@.take(i as int));
            lemma_distance_sum_prefix(local@, closest_peers@, i + 1);
        }
        let d = calculate_xor_distance(local, closest_peers[i].as_slice());
        sum = sum + d;
        i = i + 1;
    }
    proof {
        assert(closest_peers@.take(i as int) =~= closest_peers@);
    }
    let avg = sum / (closest_peers.len() as u32);
    let e = if avg < 31 { avg } else { 31 };
    let mut p: usize = 1;
    let mut k: u32 = 0;
    while k < e
        invariant
            e <= 31,
            0 <= k <= e,
            p == pow2(k as nat),
            pow2(k as nat) <= 0x8000_0000,
        decreases e - k,
    {
        proof {
            lemma_pow2_bound((k + 1) as nat);
        }
        p = p * 2;
        k = k + 1;
    }
    p
}

proof fn lemma_pow2_bound(k: nat)
    requires
        k <= 31,
    ensures
        pow2(k) <= 0x8000_0000,
    decreases 31 - k,
{
    if k < 31 {
        lemma_pow2_bound(k + 1);
        assert(pow2(k + 1) == 2 * pow2(k));
    } else {
        reveal_with_fuel(pow2, 32);
        assert(pow2(31) == 0x8000_0000);
    }
}

proof fn lemma_distance_sum_prefix(local: Seq<u8>, peers: Seq<Vec<u8>>, n: int)
    requires
        0 <= n <= peers.len(),
    ensures
        distance_sum(local, peers.take(n)) <= distance_sum(local, peers),
    decreases peers.len(),
{
    if n < peers.len() {
        lemma_distance_sum_prefix(local, peers.drop_last(), n);
        assert(peers.drop_last().take(n) =~= peers.take(n));
    } else {
        assert(peers.take(n) =~= peers);
    }
}

/// What a bootstrap attempt leads to.
#[derive(Debug, Clone, Copy, PartialEq, Eq, Structural)]
pub enum BootstrapStep {
    /// The DHT is already bootstrapped
    AlreadyBootstrapped,
    /// A bootstrap is already running
    AlreadyInProgress,
    /// Enough bootstrap nodes: bootstrapping completed
    Completed { peers_discovered: usize, attempted: usize },
    /// Too few nodes (or no time allowed): once the timeout has passed the
    /// bootstrap fails, see `KademliaDHT::fail_bootstrap_at`
    WaitThenFail { connected: usize, attempted: usize, timeout_ms: u64 },
}

/// What a finished DHT query gave, as the networking layer reports it.
#[derive(Debug, Clone)]
pub enum QueryOutcome {
    /// A provider search ended (with or without providers)
    ProvidersFound,
    /// A record was stored
    RecordStored,
    /// A record was found
    RecordFound,
    /// A record search ended without a record
    RecordMissing,
    /// A bootstrap query reached a node
    BootstrapAnswered,
    /// The closest peers, with the bucket distance of each
    ClosestPeers { peers: Vec<Vec<u8>>, bucket_distances: Vec<u32> },
    /// The query failed
    Failed,
}

/// A suspected network partition.
#[derive(Debug, Clone)]
pub struct PartitionInfo {
    /// Detection time, in milliseconds
    pub detected_at: u64,
    /// Buckets without recent successful queries, in increasing order
    pub affected_buckets: Vec<u8>,
    /// Estimated size of the partition
    pub estimated_size: usize,
    /// Whether it has healed
    pub recovered: bool,
}

/// Detection of network partitions from the last successful query per bucket.
#[derive(Debug, Clone)]
pub struct PartitionDetector {
    /// Last successful query time per bucket (one slot per bucket)
    pub last_successful_queries: Vec<Option<u64>>,
    /// Silence after which a bucket is suspect, in milliseconds
    pub detection_threshold_ms: u64,
    /// Partitions detected so far
    pub detected_partitions: Vec<PartitionInfo>,
}

/// Whether a bucket last heard from at `last` has been silent at `now` for
/// longer than `threshold` (no time passes when the clock went back).
pub open spec fn stale(last: Option<u64>, now: u64, threshold: u64) -> bool {
    match last {
        Some(t) => (if now > t { now - t } else { 0 }) > threshold,
        None => false,
    }
}

/// `buckets` lists, in increasing order, exactly the stale buckets of `last`.
pub open spec fn lists_stale_buckets(buckets: Seq<u8>, last: Seq<Option<u64>>, now: u64, threshold: u64) -> bool {
    &&& forall|i: int, j: int| 0 <= i < j < buckets.len() ==> (#[trigger] buckets[i]) < (#[trigger] buckets[j])
    &&& forall|i: int| 0 <= i < buckets.len() ==> (#[trigger] buckets[i]) < last.len() && stale(last[buckets[i] as int], now, threshold)
    &&& forall|b: int| 0 <= b < last.len() && stale(#[trigger] last[b], now, threshold) ==> buckets.contains(b as u8)
}

/// One hour (in milliseconds) before `now`, or 0.
pub open spec fn hour_before(now: u64) -> u64 {
    if now > 3600000 { (now - 3600000) as u64 } else { 0 }
}

/// Partitions kept by maintenance: detected after `cutoff`, or not recovered.
pub open spec fn partition_kept(cutoff: u64) -> spec_fn(PartitionInfo) -> bool {
    |p: PartitionInfo| p.detected_at > cutoff || !p.recovered
}

/// The Kademlia DHT state of the local node.
pub struct KademliaDHT {
    /// Bytes of the local peer id
    pub local_peer_id: Vec<u8>,
    /// Bootstrap configuration
    pub bootstrap_config: BootstrapConfig,
    /// Content routing configuration
    pub content_config: ContentRoutingConfig,
    /// Bootstrap progress
    pub bootstrap_state: BootstrapState,
    /// Performance counters
    pub metrics: DHTMetrics,
    /// Partition detection
    pub partition_detector: PartitionDetector,
}

/// The text `Only {connected} of {min} required nodes connected`.
pub open spec fn shortfall_text(connected: nat, min: nat) -> Seq<char> {
    "Only "@ + decimal(connected) + " of "@ + decimal(min) + " required nodes connected"@
}

/// `(a + b) / 2`, rounded down.
pub open spec fn mean2(a: u64, b: u64) -> u64 {
    ((a + b) / 2) as u64
}

fn mean_of(a: u64, b: u64) -> (r: u64)
    ensures
        r == mean2(a, b),
{
    let s: u128 = a as u128 + b as u128;
    (s / 2) as u64
}

/// Message of the DHT operations that the networking layer does not offer.
pub open spec fn unsupported_text() -> Seq<char> {
    "Kademlia functionality not implemented for libp2p 0.53"@
}

fn unsupported() -> (r: NetworkError)
    ensures
        r matches NetworkError::Internal(m) && m@ == unsupported_text(),
{
    NetworkError::Internal(String::from_str("Kademlia functionality not implemented for libp2p 0.53"))
}

/// The bytes of `a` followed by those of `b`.
pub fn concat_bytes(a: &[u8], b: &[u8]) -> (r: Vec<u8>)
    ensures
        r@ == a@ + b@,
{
    let mut v: Vec<u8> = Vec::new();
    let mut i: usize = 0;
    while i < a.len()
        invariant
            0 <= i <= a@.len(),
            v@ == a@.take(i as int),
        decreases a@.len() - i,
    {
        v.push(a[i]);
        i = i + 1;
        assert(v@ =~= a@.take(i as int));
    }
    let mut j: usize = 0;
    assert(a@.take(i as int) =~= a@);
    while j < b.len()
        invariant
            0 <= j <= b@.len(),
            v@ == a@ + b@.take(j as int),
        decreases b@.len() - j,
    {
        v.push(b[j]);
        j = j + 1;
        assert(v@ =~= a@ + b@.take(j as int));
    }
    assert(b@.take(j as int) =~= b@);
    v
}

impl KademliaDHT {
    /// Partition detection has one slot per bucket.
    pub open spec fn wf(&self) -> bool {
        self.partition_detector.last_successful_queries@.len() == BUCKET_COUNT
    }

    /// A DHT that has not bootstrapped, with zero counters and a 5-minute
    /// partition threshold.
    pub fn new(local_peer_id: Vec<u8>, bootstrap_config: BootstrapConfig, content_config: ContentRoutingConfig) -> (r: KademliaDHT)
        ensures
            r.wf(),
            r.local_peer_id == local_peer_id,
            r.bootstrap_config.nodes == bootstrap_config.nodes,
            r.bootstrap_config.timeout_ms == bootstrap_config.timeout_ms,
            r.bootstrap_config.min_connections == bootstrap_config.min_connections,
            r.content_config == content_config,
            r.bootstrap_state == BootstrapState::NotStarted,
            r.metrics == DHTMetrics::spec_zero(),
            r.partition_detector.detection_threshold_ms == 300000,
            r.partition_detector.detected_partitions@.len() == 0,
            forall|b: int| 0 <= b < BUCKET_COUNT ==> (#[trigger] r.partition_detector.last_successful_queries@[b]) is None,
    {
        let mut last: Vec<Option<u64>> = Vec::new();
        let mut i: u8 = 0;
        while i < BUCKET_COUNT
            invariant
                0 <= i <= BUCKET_COUNT,
                last@.len() == i,
                forall|b: int| 0 <= b < i ==> (#[trigger] last@[b]) is None,
            decreases BUCKET_COUNT - i,
        {
            last.push(None);
            i = i + 1;
        }
        KademliaDHT {
            local_peer_id,
            bootstrap_config,
            content_config,
            bootstrap_state: BootstrapState::NotStarted,
            metrics: DHTMetrics::default(),
            partition_detector: PartitionDetector {
                last_successful_queries: last,
                detection_threshold_ms: 300000,
                detected_partitions: Vec::new(),
            },
        }
    }

    /// Starts bootstrapping at `now` (milliseconds). Nothing happens when the
    /// DHT is bootstrapped or a bootstrap is running. Otherwise every
    /// configured node is attempted and counted as connected: when they are
    /// at least `min_connections` and the timeout is not zero, the bootstrap
    /// completes at once; else it stays in progress until the timeout has
    /// passed and then fails.
    pub fn bootstrap_at(&mut self, now: u64) -> (r: BootstrapStep)
        requires
            !(old(self).bootstrap_state is Completed) && !(old(self).bootstrap_state is InProgress) ==> {
                &&& old(self).metrics.bootstrap_attempts < u64::MAX
                &&& old(self).metrics.successful_bootstraps < u64::MAX
            },
        ensures
            final(self).wf() == old(self).wf(),
            final(self).local_peer_id == old(self).local_peer_id,
            final(self).partition_detector.last_successful_queries == old(self).partition_detector.last_successful_queries,
            old(self).bootstrap_state is Completed ==> r == BootstrapStep::AlreadyBootstrapped
                && final(self).bootstrap_state == old(self).bootstrap_state && final(self).metrics == old(self).metrics,
            old(self).bootstrap_state is InProgress ==> r == BootstrapStep::AlreadyInProgress
                && final(self).bootstrap_state == old(self).bootstrap_state && final(self).metrics == old(self).metrics,
            !(old(self).bootstrap_state is Completed) && !(old(self).bootstrap_state is InProgress) ==> {
                let n = old(self).bootstrap_config.nodes@.len();
                &&& final(self).metrics.bootstrap_attempts == old(self).metrics.bootstrap_attempts + 1
                &&& (old(self).bootstrap_config.timeout_ms > 0 && n >= old(self).bootstrap_config.min_connections) ==> {
                    &&& r == (BootstrapStep::Completed { peers_discovered: n as usize, attempted: n as usize })
                    &&& final(self).bootstrap_state == (BootstrapState::Completed {
                        completion_time: now,
                        connected_nodes: n as usize,
                        duration: 0,
                    })
                    &&& final(self).metrics == (DHTMetrics {
                        bootstrap_attempts: (old(self).metrics.bootstrap_attempts + 1) as u64,
                        successful_bootstraps: (old(self).metrics.successful_bootstraps + 1) as u64,
                        ..old(self).metrics
                    })
                }
                &&& !(old(self).bootstrap_config.timeout_ms > 0 && n >= old(self).bootstrap_config.min_connections) ==> {
                    &&& r == (BootstrapStep::WaitThenFail {
                        connected: n as usize,
                        attempted: n as usize,
                        timeout_ms: old(self).bootstrap_config.timeout_ms,
                    })
                    &&& final(self).bootstrap_state == (BootstrapState::InProgress {
                        start_time: now,
                        connected_nodes: 0,
                        attempted_nodes: 0,
                    })
                    &&& final(self).metrics == (DHTMetrics {
                        bootstrap_attempts: (old(self).metrics.bootstrap_attempts + 1) as u64,
                        ..old(self).metrics
                    })
                }
            },
    {
        match self.bootstrap_state {
            BootstrapState::Completed { .. } => {
                return BootstrapStep::AlreadyBootstrapped;
            },
            BootstrapState::InProgress { .. } => {
                return BootstrapStep::AlreadyInProgress;
            },
            _ => {},
        }
        self.bootstrap_state = BootstrapState::InProgress { start_time: now, connected_nodes: 0, attempted_nodes: 0 };
        self.metrics.bootstrap_attempts = self.metrics.bootstrap_attempts + 1;
        let n = self.bootstrap_config.nodes.len();
        if self.bootstrap_config.timeout_ms > 0 && n >= self.bootstrap_config.min_connections {
            self.bootstrap_state = BootstrapState::Completed { completion_time: now, connected_nodes: n, duration: 0 };
            self.metrics.successful_bootstraps = self.metrics.successful_bootstraps + 1;
            BootstrapStep::Completed { peers_discovered: n, attempted: n }
        } else {
            BootstrapStep::WaitThenFail { connected: n, attempted: n, timeout_ms: self.bootstrap_config.timeout_ms }
        }
    }

    /// Records at `now` that a bootstrap failed with only `connected` of the
    /// required nodes after attempting `attempted`.
    pub fn fail_bootstrap_at(&mut self, now: u64, connected: usize, attempted: usize) -> (r: NetworkError)
        ensures
            r == NetworkError::BootstrapFailed,
            final(self).bootstrap_state matches BootstrapState::Failed { failure_time, reason, attempted_nodes }
                && failure_time == now && attempted_nodes == attempted
                && reason@ == shortfall_text(connected as nat, old(self).bootstrap_config.min_connections as nat),
            final(self).metrics == old(self).metrics,
            final(self).local_peer_id == old(self).local_peer_id,
            final(self).partition_detector.last_successful_queries == old(self).partition_detector.last_successful_queries,
    {
        let mut reason = String::from_str("Only ");
        push_decimal(&mut reason, connected as u64);
        reason.append(" of ");
        push_decimal(&mut reason, self.bootstrap_config.min_connections as u64);
        reason.append(" required nodes connected");
        proof {
            assert(reason@ =~= shortfall_text(connected as nat, self.bootstrap_config.min_connections as nat));
        }
        self.bootstrap_state = BootstrapState::Failed { failure_time: now, reason, attempted_nodes: attempted };
        NetworkError::BootstrapFailed
    }

    /// Counts one more connected node of a running bootstrap.
    pub fn handle_bootstrap_result(&mut self)
        requires
            old(self).bootstrap_state matches BootstrapState::InProgress { connected_nodes, .. } ==> connected_nodes < usize::MAX,
        ensures
            old(self).bootstrap_state matches BootstrapState::InProgress { start_time, connected_nodes, attempted_nodes }
                ==> final(self).bootstrap_state == (BootstrapState::InProgress {
                    start_time,
                    connected_nodes: (connected_nodes + 1) as usize,
                    attempted_nodes,
                }),
            !(old(self).bootstrap_state is InProgress) ==> final(self).bootstrap_state == old(self).bootstrap_state,
            final(self).metrics == old(self).metrics,
            final(self).local_peer_id == old(self).local_peer_id,
            final(self).partition_detector.last_successful_queries == old(self).partition_detector.last_successful_queries,
            final(self).partition_detector == old(self).partition_detector,
    {
        match self.bootstrap_state {
            BootstrapState::InProgress { start_time, connected_nodes, attempted_nodes } => {
                self.bootstrap_state = BootstrapState::InProgress {
                    start_time,
                    connected_nodes: connected_nodes + 1,
                    attempted_nodes,
                };
            },
            _ => {},
        }
    }

    /// Whether bootstrapping has completed.
    pub fn is_bootstrapped(&self) -> (r: bool)
        ensures
            r == self.bootstrap_state is Completed,
    {
        match self.bootstrap_state {
            BootstrapState::Completed { .. } => true,
            _ => false,
        }
    }

    /// Size of the routing table; the routing table is not tracked, so 0.
    pub fn routing_table_size(&self) -> (r: usize)
        ensures
            r == 0,
    {
        0
    }

    /// The performance counters.
    pub fn get_metrics(&self) -> (r: DHTMetrics)
        ensures
            r == self.metrics,
    {
        self.metrics
    }

    /// Counts a successful query of `duration_ns` into the metrics.
    pub fn record_query_success(&mut self, duration_ns: u64)
        requires
            old(self).metrics.successful_queries < u64::MAX,
        ensures
            final(self).metrics == (DHTMetrics {
                successful_queries: (old(self).metrics.successful_queries + 1) as u64,
                avg_query_time_ns: mean2(old(self).metrics.avg_query_time_ns, duration_ns),
                ..old(self).metrics
            }),
            final(self).bootstrap_state == old(self).bootstrap_state,
            final(self).local_peer_id == old(self).local_peer_id,
            final(self).partition_detector.last_successful_queries == old(self).partition_detector.last_successful_queries,
            final(self).partition_detector == old(self).partition_detector,
    {
        self.metrics.successful_queries = self.metrics.successful_queries + 1;
        self.metrics.avg_query_time_ns = mean_of(self.metrics.avg_query_time_ns, duration_ns);
    }

    /// Counts a successful store of a record taking `duration_ns`.
    pub fn handle_record_stored(&mut self, duration_ns: u64)
        requires
            old(self).metrics.successful_queries < u64::MAX,
            old(self).metrics.records_stored < u64::MAX,
        ensures
            final(self).metrics == (DHTMetrics {
                successful_queries: (old(self).metrics.successful_queries + 1) as u64,
                records_stored: (old(self).metrics.records_stored + 1) as u64,
                avg_query_time_ns: mean2(old(self).metrics.avg_query_time_ns, duration_ns),
                ..old(self).metrics
            }),
            final(self).bootstrap_state == old(self).bootstrap_state,
            final(self).local_peer_id == old(self).local_peer_id,
            final(self).partition_detector.last_successful_queries == old(self).partition_detector.last_successful_queries,
            final(self).partition_detector == old(self).partition_detector,
    {
        self.metrics.records_stored = self.metrics.records_stored + 1;
        self.record_query_success(duration_ns);
    }

    /// Counts a failed query.
    pub fn record_query_failure(&mut self)
        requires
            old(self).metrics.failed_queries < u64::MAX,
        ensures
            final(self).metrics == (DHTMetrics {
                failed_queries: (old(self).metrics.failed_queries + 1) as u64,
                ..old(self).metrics
            }),
            final(self).bootstrap_state == old(self).bootstrap_state,
            final(self).local_peer_id == old(self).local_peer_id,
            final(self).partition_detector.last_successful_queries == old(self).partition_detector.last_successful_queries,
            final(self).partition_detector == old(self).partition_detector,
    {
        self.metrics.failed_queries = self.metrics.failed_queries + 1;
    }

    /// Takes in the outcome of a finished query that took `duration_ns`, at
    /// `now`: successful searches and stores count as successful queries
    /// and update the average query time, a stored record is counted, a
    /// missing record or a failure counts as a failed query, a bootstrap
    /// answer counts a connected node, and the closest peers give the
    /// network size estimate and a partition check.
    pub fn handle_query_result_at(&mut self, outcome: QueryOutcome, duration_ns: u64, now: u64)
        requires
            old(self).wf(),
            old(self).metrics.successful_queries < u64::MAX,
            old(self).metrics.failed_queries < u64::MAX,
            old(self).metrics.records_stored < u64::MAX,
            old(self).bootstrap_state matches BootstrapState::InProgress { connected_nodes, .. } ==> connected_nodes < usize::MAX,
            outcome matches QueryOutcome::ClosestPeers { peers, bucket_distances } ==> {
                &&& 8 * old(self).local_peer_id@.len() <= u32::MAX
                &&& distance_sum(old(self).local_peer_id@, peers@) <= u32::MAX
                &&& peers@.len() <= u32::MAX
                &&& forall|i: int| 0 <= i < bucket_distances@.len() ==> #[trigger] bucket_distances@[i] <= 159
            },
        ensures
            final(self).wf(),
            final(self).local_peer_id == old(self).local_peer_id,
            (outcome is ProvidersFound || outcome is RecordFound) ==> final(self).metrics == (DHTMetrics {
                successful_queries: (old(self).metrics.successful_queries + 1) as u64,
                avg_query_time_ns: mean2(old(self).metrics.avg_query_time_ns, duration_ns),
                ..old(self).metrics
            }),
            outcome is RecordStored ==> final(self).metrics == (DHTMetrics {
                successful_queries: (old(self).metrics.successful_queries + 1) as u64,
                records_stored: (old(self).metrics.records_stored + 1) as u64,
                avg_query_time_ns: mean2(old(self).metrics.avg_query_time_ns, duration_ns),
                ..old(self).metrics
            }),
            (outcome is RecordMissing || outcome is Failed) ==> final(self).metrics == (DHTMetrics {
                failed_queries: (old(self).metrics.failed_queries + 1) as u64,
                ..old(self).metrics
            }),
            !(outcome is BootstrapAnswered) ==> final(self).bootstrap_state == old(self).bootstrap_state,
            outcome is BootstrapAnswered ==> final(self).metrics == old(self).metrics && {
                &&& old(self).bootstrap_state matches BootstrapState::InProgress { start_time, connected_nodes, attempted_nodes }
                    ==> final(self).bootstrap_state == (BootstrapState::InProgress {
                        start_time,
                        connected_nodes: (connected_nodes + 1) as usize,
                        attempted_nodes,
                    })
                &&& !(old(self).bootstrap_state is InProgress) ==> final(self).bootstrap_state == old(self).bootstrap_state
            },
            outcome matches QueryOutcome::ClosestPeers { peers, bucket_distances } ==> {
                &&& final(self).metrics == (DHTMetrics {
                    network_size_estimate: network_size_estimate(old(self).local_peer_id@, peers@) as usize,
                    ..old(self).metrics
                })
                &&& forall|b: int| 0 <= b < BUCKET_COUNT ==> #[trigger] final(self).partition_detector.last_successful_queries@[b]
                    == if (exists|i: int| 0 <= i < bucket_distances@.len() && 159 - bucket_distances@[i] == b) {
                        Some(now)
                    } else {
                        old(self).partition_detector.last_successful_queries@[b]
                    }
                &&& ({
                    let last = final(self).partition_detector.last_successful_queries@;
                    let th = old(self).partition_detector.detection_threshold_ms;
                    let old_p = old(self).partition_detector.detected_partitions@;
                    let new_p = final(self).partition_detector.detected_partitions@;
                    if exists|b: int| 0 <= b < BUCKET_COUNT && stale(#[trigger] last[b], now, th) {
                        &&& new_p.len() == old_p.len() + 1
                        &&& new_p.drop_last() == old_p
                        &&& new_p.last().detected_at == now
                        &&& !new_p.last().recovered
                        &&& lists_stale_buckets(new_p.last().affected_buckets@, last, now, th)
                    } else {
                        new_p == old_p
                    }
                })
            },
            !(outcome is ClosestPeers) ==> final(self).partition_detector == old(self).partition_detector,
    {
        match outcome {
            QueryOutcome::ProvidersFound => self.record_query_success(duration_ns),
            QueryOutcome::RecordStored => self.handle_record_stored(duration_ns),
            QueryOutcome::RecordFound => self.record_query_success(duration_ns),
            QueryOutcome::RecordMissing => self.record_query_failure(),
            QueryOutcome::BootstrapAnswered => self.handle_bootstrap_result(),
            QueryOutcome::ClosestPeers { peers, bucket_distances } => {
                let size = estimate_network_size(self.local_peer_id.as_slice(), peers.as_slice());
                self.metrics.network_size_estimate = size;
                self.check_network_partition_at(bucket_distances.as_slice(), now);
            },
            QueryOutcome::Failed => self.record_query_failure(),
        }
    }

    /// Records that the peers at the given distances answered at `now`, and
    /// appends a partition report listing the buckets silent for longer than
    /// the threshold, if there are any.
    pub fn check_network_partition_at(&mut self, peer_distances: &[u32], now: u64)
        requires
            old(self).wf(),
            forall|i: int| 0 <= i < peer_distances@.len() ==> #[trigger] peer_distances@[i] <= 159,
        ensures
            final(self).wf(),
            final(self).bootstrap_state == old(self).bootstrap_state,
            final(self).metrics == old(self).metrics,
            final(self).local_peer_id == old(self).local_peer_id,
            final(self).partition_detector.detection_threshold_ms == old(self).partition_detector.detection_threshold_ms,
            forall|b: int| 0 <= b < BUCKET_COUNT ==> #[trigger] final(self).partition_detector.last_successful_queries@[b]
                == if (exists|i: int| 0 <= i < peer_distances@.len() && 159 - peer_distances@[i] == b) {
                    Some(now)
                } else {
                    old(self).partition_detector.last_successful_queries@[b]
                },
            ({
                let last = final(self).partition_detector.last_successful_queries@;
                let th = old(self).partition_detector.detection_threshold_ms;
                let old_p = old(self).partition_detector.detected_partitions@;
                let new_p = final(self).partition_detector.detected_partitions@;
                if exists|b: int| 0 <= b < BUCKET_COUNT && stale(#[trigger] last[b], now, th) {
                    &&& new_p.len() == old_p.len() + 1
                    &&& new_p.drop_last() == old_p
                    &&& new_p.last().detected_at == now
                    &&& new_p.last().estimated_size == 0
                    &&& !new_p.last().recovered
                    &&& lists_stale_buckets(new_p.last().affected_buckets@, last, now, th)
                } else {
                    new_p == old_p
                }
            }),
    {
        let mut i: usize = 0;
        while i < peer_distances.len()
            invariant
                self.partition_detector.last_successful_queries@.len() == BUCKET_COUNT,
                forall|k: int| 0 <= k < peer_distances@.len() ==> #[trigger] peer_distances@[k] <= 159,
                0 <= i <= peer_distances@.len(),
                self.bootstrap_state == old(self).bootstrap_state,
                self.metrics == old(self).metrics,
                self.local_peer_id == old(self).local_peer_id,
                self.partition_detector.detection_threshold_ms == old(self).partition_detector.detection_threshold_ms,
                self.partition_detector.detected_partitions == old(self).partition_detector.detected_partitions,
                forall|b: int| 0 <= b < BUCKET_COUNT ==> #[trigger] self.partition_detector.last_successful_queries@[b]
                    == if (exists|k: int| 0 <= k < i && 159 - peer_distances@[k] == b) {
                        Some(now)
                    } else {
                        old(self).partition_detector.last_successful_queries@[b]
                    },
            decreases peer_distances@.len() - i,
        {
            let bucket = get_bucket_index(peer_distances[i]);
            let ghost before = self.partition_detector.last_successful_queries@;
            self.partition_detector.last_successful_queries.set(bucket as usize, Some(now));
            proof {
                assert forall|b: int| 0 <= b < BUCKET_COUNT implies #[trigger] self.partition_detector.last_successful_queries@[b]
                    == if (exists|k: int| 0 <= k < i + 1 && 159 - peer_distances@[k] == b) {
                        Some(now)
                    } else {
                        old(self).partition_detector.last_successful_queries@[b]
                    } by {
                    if b == bucket as int {
                        assert(0 <= i < i + 1 && 159 - peer_distances@[i as int] == b);
                    } else {
                        assert(before[b] == self.partition_detector.last_successful_queries@[b]);
                        if (exists|k: int| 0 <= k < i + 1 && 159 - peer_distances@[k] == b) {
                            let k = choose|k: int| 0 <= k < i + 1 && 159 - peer_distances@[k] == b;
                            assert(k != i);
                        }
                    }
                }
            }
            i = i + 1;
        }
        let th = self.partition_detector.detection_threshold_ms;
        let mut affected: Vec<u8> = Vec::new();
        let mut b: u8 = 0;
        while b < BUCKET_COUNT
            invariant
                self.partition_detector.last_successful_queries@.len() == BUCKET_COUNT,
                0 <= b <= BUCKET_COUNT,
                forall|x: int, y: int| 0 <= x < y < affected@.len() ==> (#[trigger] affected@[x]) < (#[trigger] affected@[y]),
                forall|x: int| 0 <= x < affected@.len() ==> (#[trigger] affected@[x]) < b
                    && stale(self.partition_detector.last_successful_queries@[affected@[x] as int], now, th),
                forall|c: int| 0 <= c < b && stale(#[trigger] self.partition_detector.last_successful_queries@[c], now, th)
                    ==> affected@.contains(c as u8),
            decreases BUCKET_COUNT - b,
        {
            let is_stale = match self.partition_detector.last_successful_queries[b as usize] {
                Some(t) => {
                    let elapsed: u64 = if now > t { now - t } else { 0 };
                    elapsed > th
                },
                None => false,
            };
            if is_stale {
                let ghost a0 = affected@;
                affected.push(b);
                proof {
                    assert forall|c: int| 0 <= c < b + 1 && stale(#[trigger] self.partition_detector.last_successful_queries@[c], now, th)
                        implies affected@.contains(c as u8) by {
                        if c == b as int {
                            assert(affected@[affected@.len() - 1] == b);
                        } else {
                            let x = choose|x: int| 0 <= x < a0.len() && a0[x] == c as u8;
                            assert(affected@[x] == c as u8);
                        }
                    }
                }
            } else {
                proof {
                    assert forall|c: int| 0 <= c < b + 1 && stale(#[trigger] self.partition_detector.last_successful_queries@[c], now, th)
                        implies affected@.contains(c as u8) by {
                        assert(c != b as int);
                    }
                }
            }
            b = b + 1;
        }
        if affected.len() > 0 {
            let ghost aff = affected@;
            proof {
                let last = self.partition_detector.last_successful_queries@;
                assert(0 <= aff[0] < BUCKET_COUNT && stale(last[aff[0] as int], now, th));
            }
            self.partition_detector.detected_partitions.push(PartitionInfo {
                detected_at: now,
                affected_buckets: affected,
                estimated_size: 0,
                recovered: false,
            });
            proof {
                let p = self.partition_detector.detected_partitions@;
                assert(p.drop_last() =~= old(self).partition_detector.detected_partitions@);
            }
        } else {
            proof {
                let last = self.partition_detector.last_successful_queries@;
                assert forall|c: int| 0 <= c < BUCKET_COUNT implies !stale(#[trigger] last[c], now, th) by {
                    if stale(last[c], now, th) {
                        assert(affected@.contains(c as u8));
                    }
                }
            }
        }
    }

    /// Periodic maintenance at `now` (milliseconds): forgets recovered
    /// partitions detected more than an hour ago and refreshes the routing
    /// table size.
    pub fn perform_maintenance_at(&mut self, now: u64)
        requires
            old(self).wf(),
        ensures
            final(self).wf(),
            final(self).bootstrap_state == old(self).bootstrap_state,
            final(self).local_peer_id == old(self).local_peer_id,
            final(self).metrics == (DHTMetrics { routing_table_size: 0, ..old(self).metrics }),
            final(self).partition_detector.last_successful_queries == old(self).partition_detector.last_successful_queries,
            final(self).partition_detector.detection_threshold_ms == old(self).partition_detector.detection_threshold_ms,
            final(self).partition_detector.detected_partitions@
                == old(self).partition_detector.detected_partitions@.filter(partition_kept(hour_before(now))),
    {
        let cutoff: u64 = if now > 3600000 { now - 3600000 } else { 0 };
        let mut rest: Vec<PartitionInfo> = Vec::new();
        std::mem::swap(&mut rest, &mut self.partition_detector.detected_partitions);
        let ghost all = rest@;
        let mut kept: Vec<PartitionInfo> = Vec::new();
        let ghost mut k: int = 0;
        proof {
            assert(all.skip(0) =~= all);
            reveal(Seq::filter);
            assert(all.take(0) =~= Seq::<PartitionInfo>::empty());
        }
        while rest.len() > 0
            invariant
                0 <= k <= all.len(),
                rest@ == all.skip(k),
                kept@ == all.take(k).filter(partition_kept(cutoff)),
                cutoff == hour_before(now),
            decreases rest@.len(),
        {
            let p = rest.remove(0);
            proof {
                assert(p == all[k]);
                assert(all.take(k + 1).drop_last() =~= all.take(k));
                assert(all.take(k + 1).last() == all[k]);
                reveal(Seq::filter);
                assert(rest@ =~= all.skip(k + 1));
            }
            if p.detected_at > cutoff || !p.recovered {
                kept.push(p);
            }
            proof {
                k = k + 1;
            }
        }
        proof {
            assert(all.take(k) =~= all);
        }
        self.partition_detector.detected_partitions = kept;
        self.metrics.routing_table_size = self.routing_table_size();
    }

    /// Stores `value` under `key`: content above the size limit is refused
    /// (`ContentTooLarge`); otherwise the networking layer does not offer
    /// record storage, which is reported as an internal error.
    pub fn store_record(&mut self, key: Vec<u8>, value: Vec<u8>) -> (r: Result<(), NetworkError>)
        ensures
            value@.len() > old(self).content_config.max_content_size ==> r == Err::<(), NetworkError>(NetworkError::ContentTooLarge),
            value@.len() <= old(self).content_config.max_content_size ==> (r matches Err(NetworkError::Internal(m)) && m@ == unsupported_text()),
            final(self).metrics == old(self).metrics,
            final(self).bootstrap_state == old(self).bootstrap_state,
    {
        if value.len() > self.content_config.max_content_size {
            return Err(NetworkError::ContentTooLarge);
        }
        Err(unsupported())
    }

    /// Looks up the record of `key`; not offered by the networking layer.
    pub fn get_record(&mut self, key: Vec<u8>) -> (r: Result<(), NetworkError>)
        ensures
            r matches Err(NetworkError::Internal(m)) && m@ == unsupported_text(),
            final(self).metrics == old(self).metrics,
    {
        Err(unsupported())
    }

    /// Announces the node as a provider of `key`; not offered by the
    /// networking layer.
    pub fn provide(&mut self, key: Vec<u8>) -> (r: Result<(), NetworkError>)
        ensures
            r matches Err(NetworkError::Internal(m)) && m@ == unsupported_text(),
            final(self).metrics == old(self).metrics,
    {
        Err(unsupported())
    }

    /// Finds the providers of `key`; not offered by the networking layer.
    pub fn find_providers(&mut self, key: Vec<u8>) -> (r: Result<(), NetworkError>)
        ensures
            r matches Err(NetworkError::Internal(m)) && m@ == unsupported_text(),
            final(self).metrics == old(self).metrics,
    {
        Err(unsupported())
    }

    /// Stores the peer id bytes under the SHA-256 hash of a shadow address's
    /// view key followed by its spend key; see `store_record`.
    pub fn store_dark_address(&mut self, view_key: &[u8], spend_key: &[u8], peer_id: Vec<u8>) -> (r: Result<(), NetworkError>)
        ensures
            peer_id@.len() > old(self).content_config.max_content_size ==> r == Err::<(), NetworkError>(NetworkError::ContentTooLarge),
            peer_id@.len() <= old(self).content_config.max_content_size ==> (r matches Err(NetworkError::Internal(m)) && m@ == unsupported_text()),
            final(self).metrics == old(self).metrics,
            final(self).bootstrap_state == old(self).bootstrap_state,
    {
        let key = sha256_hash(concat_bytes(view_key, spend_key).as_slice());
        self.store_record(key, peer_id)
    }

    /// Looks up the peer of a shadow address; see `get_record`.
    pub fn find_dark_address(&mut self, view_key: &[u8], spend_key: &[u8]) -> (r: Result<(), NetworkError>)
        ensures
            r matches Err(NetworkError::Internal(m)) && m@ == unsupported_text(),
            final(self).metrics == old(self).metrics,
    {
        let key = sha256_hash(concat_bytes(view_key, spend_key).as_slice());
        self.get_record(key)
    }
}

/// The leading zero bits of a nonzero byte place it between two powers of
/// two: `2^(7 - d) <= x < 2^(8 - d)` for `d = byte_leading_zeros(x)`; and a
/// zero byte has all 8 bits zero.
pub proof fn law_byte_leading_zeros_bounds(x: u8)
    ensures
        x == 0 ==> byte_leading_zeros(x) == 8,
        x != 0 ==> byte_leading_zeros(x) <= 7 && pow2((7 - byte_leading_zeros(x)) as nat) <= x
            && x < pow2((8 - byte_leading_zeros(x)) as nat),
{
    reveal_with_fuel(pow2, 9);
}

/// The distance between two one-byte ids that differ is the number of
/// leading zero bits of their XOR: the `d` with
/// `2^(7 - d) <= a ^ b < 2^(8 - d)`; equal ids are 8 bits apart.
pub proof fn law_one_byte_xor_distance(a: u8, b: u8)
    ensures
        a == b ==> xor_prefix_zeros(seq![a], seq![b]) == 8,
        a != b ==> ({
            let d = xor_prefix_zeros(seq![a], seq![b]);
            &&& d <= 7
            &&& pow2((7 - d) as nat) <= (a ^ b)
            &&& (a ^ b) < pow2((8 - d) as nat)
        }),
{
    let x = a ^ b;
    assert((a ^ b) == 0 <==> a == b) by (bit_vector);
    assert(seq![a].drop_first() =~= Seq::<u8>::empty());
    assert(seq![b].drop_first() =~= Seq::<u8>::empty());
    assert(xor_prefix_zeros(Seq::<u8>::empty(), Seq::<u8>::empty()) == 0);
    law_byte_leading_zeros_bounds(x);
}

/// Two ids of the same length that agree on their first `k` bytes and
/// differ in byte `k` are `8 * k` plus the leading zero bits of the XOR of
/// byte `k` apart.
pub proof fn law_xor_distance_first_difference(a: Seq<u8>, b: Seq<u8>, k: int)
    requires
        a.len() == b.len(),
        0 <= k < a.len(),
        forall|i: int| 0 <= i < k ==> a[i] == b[i],
        a[k] != b[k],
    ensures
        xor_prefix_zeros(a, b) == 8 * k + byte_leading_zeros(a[k] ^ b[k]),
    decreases k,
{
    let (x, y) = (a[0], b[0]);
    if k == 0 {
        assert((x ^ y) == 0 <==> x == y) by (bit_vector);
    } else {
        assert(x == y);
        assert((x ^ y) == 0 <==> x == y) by (bit_vector);
        assert forall|i: int| 0 <= i < k - 1 implies a.drop_first()[i] == b.drop_first()[i] by {
            assert(a[i + 1] == b[i + 1]);
        }
        law_xor_distance_first_difference(a.drop_first(), b.drop_first(), k - 1);
    }
}

} // verus!
