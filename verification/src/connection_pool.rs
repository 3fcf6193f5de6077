//! A pool of connections per peer: idle connections are handed out again
//! while they are fresh, unused for long and healthy; each peer may have at
//! most `max_size` connections checked out at once.
//!
//! Times are milliseconds on a monotone clock, passed to the `_at` methods.
//! The quality score of a connection is a floating-point value kept by the
//! connection manager; the pool sees only whether it is above one half.

use vstd::prelude::*;
use crate::connection::WarmingState;
use crate::types::{NetworkError, PeerId};

verus! {

/// Pool settings; times in milliseconds.
#[derive(Debug, Clone, Copy)]
pub struct PoolConfig {
    /// Most connections in the pool
    pub max_size: usize,
    /// Fewest connections to keep
    pub min_size: usize,
    /// Idle time after which a connection is dropped
    pub idle_timeout_ms: u64,
    /// Age after which a connection is dropped
    pub max_lifetime_ms: u64,
    /// Interval of health checks
    pub health_check_interval_ms: u64,
    /// Time allowed to acquire a connection
    pub acquire_timeout_ms: u64,
    /// Whether new connections are warmed
    pub enable_warming: bool,
    /// Whether connections are validated when checked out
    pub validate_on_checkout: bool,
    /// Uses after which a connection is retired
    pub max_reuse_count: u64,
}

impl Default for PoolConfig {
    /// 10 to 100 connections, 5 minutes idle, 1 hour lifetime, health checks
    /// every 30 s, 10 s to acquire, warming and validation on, 1000 uses.
    fn default() -> (r: Self)
        ensures
            r.max_size == 100,
            r.min_size == 10,
            r.idle_timeout_ms == 300000,
            r.max_lifetime_ms == 3600000,
            r.health_check_interval_ms == 30000,
            r.acquire_timeout_ms == 10000,
            r.enable_warming,
            r.validate_on_checkout,
            r.max_reuse_count == 1000,
    {
        PoolConfig {
            max_size: 100,
            min_size: 10,
            idle_timeout_ms: 300000,
            max_lifetime_ms: 3600000,
            health_check_interval_ms: 30000,
            acquire_timeout_ms: 10000,
            enable_warming: true,
            validate_on_checkout: true,
            max_reuse_count: 1000,
        }
    }
}

/// Time elapsed from `from` to `now` (none where the clock went back).
pub open spec fn age(from: u64, now: u64) -> u64 {
    if now > from { (now - from) as u64 } else { 0 }
}

/// Whether a pooled connection may still be used at `now`: not older than
/// its lifetime, not idle longer than the idle timeout, used fewer times
/// than the reuse limit, and healthy.
pub open spec fn usable(config: PoolConfig, created_at: u64, last_used: u64, usage_count: u64, healthy: bool, now: u64) -> bool {
    &&& age(created_at, now) <= config.max_lifetime_ms
    &&& age(last_used, now) <= config.idle_timeout_ms
    &&& usage_count < config.max_reuse_count
    &&& healthy
}

/// Whether a pooled connection may still be used at `now`; see `usable`.
pub fn is_connection_valid_at(config: &PoolConfig, created_at: u64, last_used: u64, usage_count: u64, healthy: bool, now: u64) -> (r: bool)
    ensures
        r == usable(*config, created_at, last_used, usage_count, healthy, now),
{
    let lived: u64 = if now > created_at { now - created_at } else { 0 };
    if lived > config.max_lifetime_ms {
        return false;
    }
    let idle: u64 = if now > last_used { now - last_used } else { 0 };
    if idle > config.idle_timeout_ms {
        return false;
    }
    if usage_count >= config.max_reuse_count {
        return false;
    }
    healthy
}

/// Whether a released connection is kept: it is still usable and the pool
/// holds fewer than its maximum.
pub fn should_keep_connection_at(config: &PoolConfig, created_at: u64, last_used: u64, usage_count: u64, healthy: bool, total: usize, now: u64) -> (r: bool)
    ensures
        r == (usable(*config, created_at, last_used, usage_count, healthy, now) && total < config.max_size),
{
    is_connection_valid_at(config, created_at, last_used, usage_count, healthy, now) && total < config.max_size
}

/// Idle time after which a connection's info no longer counts as healthy,
/// in milliseconds (five minutes).
pub const HEALTH_IDLE_LIMIT_MS: u64 = 300000;

/// A connection held by the pool.
#[derive(Debug)]
pub struct PooledConnection {
    /// When the connection was established
    pub created_at: u64,
    /// When the connection was last handed out or returned
    pub last_used: u64,
    /// How many times the connection was handed out
    pub usage_count: u64,
    /// Last activity seen on the connection
    pub last_activity: u64,
    /// Whether the connection's quality score is above one half
    pub quality_ok: bool,
    /// Most concurrent streams
    pub max_streams: u32,
    /// Streams currently open
    pub active_streams: u32,
    /// Warming state
    pub warming_state: WarmingState,
}

impl PooledConnection {
    /// Healthy at `now`: good quality and activity within the last five
    /// minutes.
    pub open spec fn healthy_at(self, now: u64) -> bool {
        self.quality_ok && age(self.last_activity, now) < HEALTH_IDLE_LIMIT_MS
    }

    /// May be handed out at `now` under `config`; see `usable`.
    pub open spec fn usable_at(self, config: PoolConfig, now: u64) -> bool {
        usable(config, self.created_at, self.last_used, self.usage_count, self.healthy_at(now), now)
    }

    /// Whether the connection is healthy at `now`.
    pub fn is_healthy_at(&self, now: u64) -> (r: bool)
        ensures
            r == self.healthy_at(now),
    {
        let idle: u64 = if now > self.last_activity { now - self.last_activity } else { 0 };
        self.quality_ok && idle < HEALTH_IDLE_LIMIT_MS
    }

    /// Whether the connection may be handed out at `now`.
    pub fn is_usable_at(&self, config: &PoolConfig, now: u64) -> (r: bool)
        ensures
            r == self.usable_at(*config, now),
    {
        let healthy = self.is_healthy_at(now);
        is_connection_valid_at(config, self.created_at, self.last_used, self.usage_count, healthy, now)
    }
}

/// A connection established at `now`, never used, of full quality, warm if
/// warming is enabled.
pub open spec fn fresh_connection(now: u64, warm: bool) -> PooledConnection {
    PooledConnection {
        created_at: now,
        last_used: now,
        usage_count: 0,
        last_activity: now,
        quality_ok: true,
        max_streams: 100,
        active_streams: 0,
        warming_state: if warm { WarmingState::Warm } else { WarmingState::Cold },
    }
}

/// Establishes a connection at `now`; see `fresh_connection`.
pub fn create_connection_at(now: u64, warm: bool) -> (r: PooledConnection)
    ensures
        r == fresh_connection(now, warm),
{
    PooledConnection {
        created_at: now,
        last_used: now,
        usage_count: 0,
        last_activity: now,
        quality_ok: true,
        max_streams: 100,
        active_streams: 0,
        warming_state: if warm { WarmingState::Warm } else { WarmingState::Cold },
    }
}

/// `c` handed out at `now`: marked used then, with one more use.
pub open spec fn handed_out(c: PooledConnection, now: u64) -> PooledConnection {
    PooledConnection { last_used: now, usage_count: (c.usage_count + 1) as u64, ..c }
}

/// A checkout: the lease number and the peer it was made for.
#[derive(Debug, Clone, Copy)]
pub struct Lease {
    /// Lease number
    pub id: u64,
    /// Peer of the checked-out connection
    pub peer: PeerId,
}

/// A connection handed out by the pool, with the number of its lease.
#[derive(Debug)]
pub struct Checkout {
    /// Lease number, to be given back on release
    pub lease: u64,
    /// The connection
    pub connection: PooledConnection,
}

/// Pool statistics.
#[derive(Debug, Clone, Copy)]
pub struct PoolStats {
    /// Connections created
    pub total_created: u64,
    /// Connections destroyed
    pub total_destroyed: u64,
    /// Connections in the pool, idle or checked out
    pub current_size: usize,
    /// Idle connections
    pub available: usize,
    /// Checked-out connections
    pub active: usize,
    /// Successful acquisitions
    pub acquisitions: u64,
    /// Connections returned to the pool
    pub releases: u64,
    /// Acquisitions that found no connection in time
    pub failed_acquisitions: u64,
    /// Acquisitions refused because the peer's checkouts were exhausted
    pub timeouts: u64,
}

/// Statistics with every count zero.
pub open spec fn zero_stats() -> PoolStats {
    PoolStats {
        total_created: 0,
        total_destroyed: 0,
        current_size: 0,
        available: 0,
        active: 0,
        acquisitions: 0,
        releases: 0,
        failed_acquisitions: 0,
        timeouts: 0,
    }
}

impl Default for PoolStats {
    /// All counts zero.
    fn default() -> (r: Self)
        ensures
            r == zero_stats(),
    {
        PoolStats {
            total_created: 0,
            total_destroyed: 0,
            current_size: 0,
            available: 0,
            active: 0,
            acquisitions: 0,
            releases: 0,
            failed_acquisitions: 0,
            timeouts: 0,
        }
    }
}

/// Number of idle connections of the peer with identity bytes `p`.
pub open spec fn idle_of(s: Seq<(PeerId, PooledConnection)>, p: Seq<u8>) -> nat
    decreases s.len(),
{
    if s.len() == 0 {
        0
    } else {
        idle_of(s.drop_last(), p) + if s.last().0.bytes@ == p { 1nat } else { 0nat }
    }
}

/// Number of checkouts of the peer with identity bytes `p`.
pub open spec fn leases_of(s: Seq<Lease>, p: Seq<u8>) -> nat
    decreases s.len(),
{
    if s.len() == 0 {
        0
    } else {
        leases_of(s.drop_last(), p) + if s.last().peer.bytes@ == p { 1nat } else { 0nat }
    }
}

/// The idle connections left, and the connection handed out, when the peer
/// with identity bytes `p` asks at `now`: its idle connections are taken
/// in order; those no longer usable are dropped, and the first usable one
/// is handed out. Other peers' connections stay as they are.
pub open spec fn checkout(s: Seq<(PeerId, PooledConnection)>, p: Seq<u8>, config: PoolConfig, now: u64) -> (Seq<(PeerId, PooledConnection)>, Option<PooledConnection>)
    decreases s.len(),
{
    if s.len() == 0 {
        (s, None)
    } else {
        let rest = checkout(s.drop_first(), p, config, now);
        if s[0].0.bytes@ == p {
            if s[0].1.usable_at(config, now) {
                (s.drop_first(), Some(s[0].1))
            } else {
                rest
            }
        } else {
            (seq![s[0]] + rest.0, rest.1)
        }
    }
}

/// When no connection is handed out, none of the peer's idle connections
/// is left.
pub proof fn lemma_checkout_none_clears(s: Seq<(PeerId, PooledConnection)>, p: Seq<u8>, config: PoolConfig, now: u64)
    ensures
        checkout(s, p, config, now).1 is None ==> forall|i: int| 0 <= i < checkout(s, p, config, now).0.len() ==> (#[trigger] checkout(s, p, config, now).0[i]).0.bytes@ != p,
    decreases s.len(),
{
    if s.len() > 0 {
        lemma_checkout_none_clears(s.drop_first(), p, config, now);
        let rest = checkout(s.drop_first(), p, config, now);
        if s[0].0.bytes@ != p && rest.1 is None {
            let out = seq![s[0]] + rest.0;
            assert forall|i: int| 0 <= i < out.len() implies (#[trigger] out[i]).0.bytes@ != p by {
                if i > 0 {
                    assert(out[i] == rest.0[i - 1]);
                }
            }
        }
    }
}

/// A connection handed out by `checkout` is usable.
pub proof fn lemma_checkout_some_usable(s: Seq<(PeerId, PooledConnection)>, p: Seq<u8>, config: PoolConfig, now: u64)
    ensures
        checkout(s, p, config, now).1 matches Some(c) ==> c.usable_at(config, now),
    decreases s.len(),
{
    if s.len() > 0 {
        lemma_checkout_some_usable(s.drop_first(), p, config, now);
    }
}

/// Whether `k` is the first position of a lease numbered `id` in `s`.
pub open spec fn first_lease(s: Seq<Lease>, id: u64, k: int) -> bool {
    &&& 0 <= k < s.len()
    &&& s[k].id == id
    &&& forall|j: int| 0 <= j < k ==> (#[trigger] s[j]).id != id
}

/// The checkouts left when lease `id` is returned: its first occurrence
/// removed, if there is one.
pub open spec fn without_lease(s: Seq<Lease>, id: u64) -> Seq<Lease> {
    if exists|k: int| first_lease(s, id, k) {
        s.remove(choose|k: int| first_lease(s, id, k))
    } else {
        s
    }
}

/// The idle connections still usable at `now`.
pub open spec fn live_connections(s: Seq<(PeerId, PooledConnection)>, config: PoolConfig, now: u64) -> Seq<(PeerId, PooledConnection)> {
    s.filter(|e: (PeerId, PooledConnection)| e.1.usable_at(config, now))
}

/// The peers of the idle connections `s`, each once, in the order of their
/// first idle connection.
pub open spec fn distinct_peers(s: Seq<(PeerId, PooledConnection)>) -> Seq<PeerId>
    decreases s.len(),
{
    if s.len() == 0 {
        Seq::empty()
    } else {
        let d = distinct_peers(s.drop_last());
        if exists|j: int| 0 <= j < s.len() - 1 && (#[trigger] s[j]).0.bytes@ == s.last().0.bytes@ {
            d
        } else {
            d.push(s.last().0)
        }
    }
}

/// Whether one of the first `i` idle connections of `s` belongs to the peer
/// with identity bytes `x`.
pub open spec fn seen_before(s: Seq<(PeerId, PooledConnection)>, i: int, x: Seq<u8>) -> bool {
    exists|j: int| 0 <= j < i && (#[trigger] s[j]).0.bytes@ == x
}

/// Whether `peers` lists the peer with identity bytes `x`.
pub open spec fn listed(peers: Seq<PeerId>, x: Seq<u8>) -> bool {
    exists|k: int| 0 <= k < peers.len() && (#[trigger] peers[k]).bytes@ == x
}

/// `n` copies of `c` for each peer of `peers`, peer by peer.
pub open spec fn refill(peers: Seq<PeerId>, n: nat, c: PooledConnection) -> Seq<(PeerId, PooledConnection)>
    decreases peers.len(),
{
    if peers.len() == 0 {
        Seq::empty()
    } else {
        refill(peers.drop_last(), n, c) + Seq::new(n, |_i: int| (peers.last(), c))
    }
}

/// The idle connections after the pool is brought up to its minimum size at
/// `now`, `s` being idle and `checked_out` connections checked out: when
/// they are fewer than `min_size`, each peer with an idle connection gets
/// as many new connections as are missing.
pub open spec fn topped_up(s: Seq<(PeerId, PooledConnection)>, checked_out: nat, config: PoolConfig, now: u64) -> Seq<(PeerId, PooledConnection)> {
    if s.len() + checked_out < config.min_size {
        s + refill(distinct_peers(s), (config.min_size - s.len() - checked_out) as nat, fresh_connection(now, config.enable_warming))
    } else {
        s
    }
}

/// Appending a checkout adds one to its peer's count only.
pub proof fn lemma_leases_push(s: Seq<Lease>, l: Lease, p: Seq<u8>)
    ensures
        leases_of(s.push(l), p) == leases_of(s, p) + if l.peer.bytes@ == p { 1nat } else { 0nat },
{
    assert(s.push(l).drop_last() =~= s);
}

/// Removing a checkout never raises a peer's count.
pub proof fn lemma_leases_remove(s: Seq<Lease>, k: int, p: Seq<u8>)
    requires
        0 <= k < s.len(),
    ensures
        leases_of(s.remove(k), p) <= leases_of(s, p),
    decreases s.len(),
{
    if k == s.len() - 1 {
        assert(s.remove(k) =~= s.drop_last());
    } else {
        lemma_leases_remove(s.drop_last(), k, p);
        assert(s.remove(k) =~= s.drop_last().remove(k).push(s.last()));
        lemma_leases_push(s.drop_last().remove(k), s.last(), p);
    }
}

/// A usable connection returned by the peer with identity bytes `p`, which
/// has no other usable idle connection, is the one handed out to it next;
/// the other idle connections are left as a checkout without it would
/// leave them.
pub proof fn law_returned_connection_is_reused(
    s: Seq<(PeerId, PooledConnection)>,
    peer: PeerId,
    c: PooledConnection,
    config: PoolConfig,
    now: u64,
)
    requires
        checkout(s, peer.bytes@, config, now).1 is None,
        c.usable_at(config, now),
    ensures
        checkout(s.push((peer, c)), peer.bytes@, config, now).1 == Some(c),
        checkout(s.push((peer, c)), peer.bytes@, config, now).0 == checkout(s, peer.bytes@, config, now).0,
    decreases s.len(),
{
    let t = s.push((peer, c));
    if s.len() == 0 {
        assert(t.drop_first() =~= Seq::<(PeerId, PooledConnection)>::empty());
    } else {
        assert(t.drop_first() =~= s.drop_first().push((peer, c)));
        law_returned_connection_is_reused(s.drop_first(), peer, c, config, now);
    }
}

/// The connection pool.
pub struct ConnectionPool {
    /// Settings
    pub config: PoolConfig,
    /// Idle connections with their peers, in the order they became idle;
    /// each peer's queue is its subsequence
    pub available: Vec<(PeerId, PooledConnection)>,
    /// Checkouts not yet returned
    pub active: Vec<Lease>,
    /// Number of the next lease
    pub next_lease: u64,
    /// Whether the pool was shut down
    pub shut_down: bool,
    /// Counters
    pub stats: PoolStats,
}

/// The text of the error `r` carries, if it is a connection error.
pub open spec fn connection_error(r: NetworkError, text: Seq<char>) -> bool {
    r matches NetworkError::ConnectionError(m) && m@ == text
}

impl ConnectionPool {
    /// No peer has more than `max_size` connections checked out.
    pub open spec fn checkouts_within_limit(self) -> bool {
        forall|p: Seq<u8>| #[trigger] leases_of(self.active@, p) <= self.config.max_size
    }

    /// An empty pool with the given settings.
    pub fn new(config: PoolConfig) -> (r: ConnectionPool)
        ensures
            r.config == config,
            r.available@.len() == 0,
            r.active@.len() == 0,
            r.next_lease == 0,
            !r.shut_down,
            r.stats == zero_stats(),
            r.checkouts_within_limit(),
    {
        ConnectionPool {
            config,
            available: Vec::new(),
            active: Vec::new(),
            next_lease: 0,
            shut_down: false,
            stats: PoolStats::default(),
        }
    }

    /// Number of checkouts of `peer`.
    fn count_leases(&self, peer: &PeerId) -> (r: usize)
        ensures
            r == leases_of(self.active@, peer.bytes@),
    {
        let mut n: usize = 0;
        let mut i: usize = 0;
        while i < self.active.len()
            invariant
                0 <= i <= self.active@.len(),
                n == leases_of(self.active@.take(i as int), peer.bytes@),
                n <= i,
            decreases self.active@.len() - i,
        {
            assert(self.active@.take(i + 1).drop_last() =~= self.active@.take(i as int));
            if self.active[i].peer.same_as(peer) {
                n = n + 1;
            }
            i = i + 1;
        }
        assert(self.active@.take(i as int) =~= self.active@);
        n
    }

    /// Number of idle connections of `peer`.
    fn count_idle(&self, peer: &PeerId) -> (r: usize)
        ensures
            r == idle_of(self.available@, peer.bytes@),
    {
        let mut n: usize = 0;
        let mut i: usize = 0;
        while i < self.available.len()
            invariant
                0 <= i <= self.available@.len(),
                n == idle_of(self.available@.take(i as int), peer.bytes@),
                n <= i,
            decreases self.available@.len() - i,
        {
            assert(self.available@.take(i + 1).drop_last() =~= self.available@.take(i as int));
            if self.available[i].0.same_as(peer) {
                n = n + 1;
            }
            i = i + 1;
        }
        assert(self.available@.take(i as int) =~= self.available@);
        n
    }

    /// Connections of `peer`, idle or checked out (saturating at the
    /// largest `usize`).
    pub fn get_peer_connection_count(&self, peer: &PeerId) -> (r: usize)
        ensures
            r == if idle_of(self.available@, peer.bytes@) + leases_of(self.active@, peer.bytes@) > usize::MAX {
                usize::MAX as nat
            } else {
                idle_of(self.available@, peer.bytes@) + leases_of(self.active@, peer.bytes@)
            },
    {
        self.count_idle(peer).saturating_add(self.count_leases(peer))
    }

    /// Connections of all peers, idle or checked out (saturating at the
    /// largest `usize`).
    pub fn get_total_connection_count(&self) -> (r: usize)
        ensures
            r == if self.available@.len() + self.active@.len() > usize::MAX {
                usize::MAX as nat
            } else {
                self.available@.len() + self.active@.len()
            },
    {
        self.available.len().saturating_add(self.active.len())
    }

    /// Takes the first usable idle connection of `peer`, dropping the
    /// unusable ones before it; see `checkout`.
    fn take_idle(&mut self, peer: &PeerId, now: u64) -> (r: Option<PooledConnection>)
        ensures
            final(self).available@ == checkout(old(self).available@, peer.bytes@, old(self).config, now).0,
            r == checkout(old(self).available@, peer.bytes@, old(self).config, now).1,
            final(self).config == old(self).config,
            final(self).active == old(self).active,
            final(self).next_lease == old(self).next_lease,
            final(self).shut_down == old(self).shut_down,
            final(self).stats == old(self).stats,
    {
        let ghost s0 = self.available@;
        let ghost p = peer.bytes@;
        let mut i: usize = 0;
        assert(s0.skip(0) =~= s0);
        assert(s0.take(0) + checkout(s0, p, self.config, now).0 =~= checkout(s0, p, self.config, now).0);
        while i < self.available.len()
            invariant
                0 <= i <= self.available@.len(),
                p == peer.bytes@,
                s0 == old(self).available@,
                self.config == old(self).config,
                self.active == old(self).active,
                self.next_lease == old(self).next_lease,
                self.shut_down == old(self).shut_down,
                self.stats == old(self).stats,
                checkout(s0, p, self.config, now).0 =~= self.available@.take(i as int) + checkout(self.available@.skip(i as int), p, self.config, now).0,
                checkout(s0, p, self.config, now).1 == checkout(self.available@.skip(i as int), p, self.config, now).1,
            decreases self.available@.len() - i,
        {
            let ghost cur = self.available@;
            assert(cur.skip(i as int).drop_first() =~= cur.skip(i + 1));
            assert(cur.skip(i as int)[0] == cur[i as int]);
            if self.available[i].0.same_as(peer) {
                if self.available[i].1.is_usable_at(&self.config, now) {
                    let (_, c) = self.available.remove(i);
                    assert(self.available@ =~= cur.take(i as int) + cur.skip(i + 1));
                    return Some(c);
                } else {
                    self.available.remove(i);
                    assert(self.available@.take(i as int) =~= cur.take(i as int));
                    assert(self.available@.skip(i as int) =~= cur.skip(i + 1));
                }
            } else {
                assert(cur.take(i + 1) =~= cur.take(i as int).push(cur[i as int]));
                assert(cur.take(i as int) + (seq![cur[i as int]] + checkout(cur.skip(i + 1), p, self.config, now).0)
                    =~= cur.take(i + 1) + checkout(cur.skip(i + 1), p, self.config, now).0);
                i = i + 1;
            }
        }
        assert(self.available@.skip(i as int) =~= Seq::<(PeerId, PooledConnection)>::empty());
        assert(self.available@.take(i as int) + Seq::<(PeerId, PooledConnection)>::empty() =~= self.available@);
        None
    }

    /// Ends lease `id`; see `without_lease`.
    fn end_lease(&mut self, id: u64)
        ensures
            final(self).active@ == without_lease(old(self).active@, id),
            final(self).available == old(self).available,
            final(self).config == old(self).config,
            final(self).next_lease == old(self).next_lease,
            final(self).shut_down == old(self).shut_down,
            final(self).stats == old(self).stats,
    {
        let ghost s = self.active@;
        let mut i: usize = 0;
        while i < self.active.len()
            invariant
                0 <= i <= self.active@.len(),
                self.active@ == s,
                s == old(self).active@,
                self.available == old(self).available,
                self.config == old(self).config,
                self.next_lease == old(self).next_lease,
                self.shut_down == old(self).shut_down,
                self.stats == old(self).stats,
                forall|j: int| 0 <= j < i ==> (#[trigger] s[j]).id != id,
            decreases self.active@.len() - i,
        {
            if self.active[i].id == id {
                proof {
                    assert(first_lease(s, id, i as int));
                    let k = choose|k: int| first_lease(s, id, k);
                    assert(k == i as int) by {
                        if k < i as int {
                            assert(s[k].id != id);
                        } else if k > i as int {
                            assert(s[i as int].id != id);
                        }
                    }
                }
                self.active.remove(i);
                return;
            }
            i = i + 1;
        }
        assert(!exists|k: int| first_lease(s, id, k)) by {
            if exists|k: int| first_lease(s, id, k) {
                let k = choose|k: int| first_lease(s, id, k);
                assert(s[k].id != id);
            }
        }
    }

    /// Returns `connection`, checked out under lease `lease` for `peer`, at
    /// `now`. A shut-down pool drops it. Otherwise the lease ends and the
    /// connection, marked used at `now`, goes back to the end of the idle
    /// connections if it is still usable and the pool (counting it as
    /// checked out) holds fewer than `max_size`; else it is destroyed.
    pub fn release_at(&mut self, peer: PeerId, lease: u64, connection: PooledConnection, now: u64)
        ensures
            old(self).shut_down ==> *final(self) == *old(self),
            !old(self).shut_down ==> {
                let c = PooledConnection { last_used: now, ..connection };
                let keep = c.usable_at(old(self).config, now) && old(self).available@.len() + old(self).active@.len() < old(self).config.max_size;
                &&& final(self).active@ == without_lease(old(self).active@, lease)
                &&& keep ==> final(self).available@ == old(self).available@.push((peer, c))
                    && final(self).stats == (PoolStats { releases: old(self).stats.releases.wrapping_add(1), ..old(self).stats })
                &&& !keep ==> final(self).available@ == old(self).available@
                    && final(self).stats == (PoolStats { total_destroyed: old(self).stats.total_destroyed.wrapping_add(1), ..old(self).stats })
                &&& final(self).config == old(self).config
                &&& final(self).next_lease == old(self).next_lease
                &&& final(self).shut_down == old(self).shut_down
            },
            old(self).checkouts_within_limit() ==> final(self).checkouts_within_limit(),
    {
        if self.shut_down {
            return;
        }
        let mut c = connection;
        c.last_used = now;
        let total = self.available.len().saturating_add(self.active.len());
        let healthy = c.is_healthy_at(now);
        let keep = should_keep_connection_at(&self.config, c.created_at, c.last_used, c.usage_count, healthy, total, now);
        self.end_lease(lease);
        proof {
            let a = old(self).active@;
            assert forall|p: Seq<u8>| old(self).checkouts_within_limit() implies #[trigger] leases_of(self.active@, p) <= self.config.max_size by {
                assert(leases_of(a, p) <= self.config.max_size);
                if exists|k: int| first_lease(a, lease, k) {
                    lemma_leases_remove(a, choose|k: int| first_lease(a, lease, k), p);
                }
            }
        }
        if keep {
            self.available.push((peer, c));
            self.stats.releases = self.stats.releases.wrapping_add(1);
        } else {
            self.stats.total_destroyed = self.stats.total_destroyed.wrapping_add(1);
        }
    }

    /// Destroys the idle connections no longer usable at `now` (counted).
    pub fn cleanup_expired_at(&mut self, now: u64)
        ensures
            final(self).available@ == live_connections(old(self).available@, old(self).config, now),
            final(self).stats == (PoolStats {
                total_destroyed: old(self).stats.total_destroyed.wrapping_add(
                    (old(self).available@.len() - final(self).available@.len()) as u64,
                ),
                ..old(self).stats
            }),
            final(self).active == old(self).active,
            final(self).config == old(self).config,
            final(self).next_lease == old(self).next_lease,
            final(self).shut_down == old(self).shut_down,
    {
        let ghost s0 = self.available@;
        let ghost pred = |e: (PeerId, PooledConnection)| e.1.usable_at(self.config, now);
        let mut i: usize = 0;
        let mut removed: usize = 0;
        assert(s0.len() == self.available.len());
        assert(s0.skip(0) =~= s0);
        assert(s0.take(0) + s0.filter(pred) =~= s0.filter(pred));
        while i < self.available.len()
            invariant
                0 <= i <= self.available@.len(),
                s0 == old(self).available@,
                pred == (|e: (PeerId, PooledConnection)| e.1.usable_at(self.config, now)),
                self.config == old(self).config,
                self.active == old(self).active,
                self.next_lease == old(self).next_lease,
                self.shut_down == old(self).shut_down,
                self.stats == old(self).stats,
                s0.filter(pred) == self.available@.take(i as int) + self.available@.skip(i as int).filter(pred),
                removed + self.available@.len() == s0.len(),
                s0.len() <= usize::MAX,
            decreases self.available@.len() - i,
        {
            let ghost cur = self.available@;
            assert(cur.skip(i as int) =~= seq![cur[i as int]] + cur.skip(i + 1));
            proof {
                cur.skip(i + 1).lemma_filter_prepend(cur[i as int], pred);
            }
            if self.available[i].1.is_usable_at(&self.config, now) {
                assert(cur.take(i + 1) =~= cur.take(i as int) + seq![cur[i as int]]);
                assert(cur.take(i as int) + (seq![cur[i as int]] + cur.skip(i + 1).filter(pred))
                    =~= cur.take(i + 1) + cur.skip(i + 1).filter(pred));
                i = i + 1;
            } else {
                self.available.remove(i);
                removed = removed + 1;
                assert(self.available@.take(i as int) =~= cur.take(i as int));
                assert(self.available@.skip(i as int) =~= cur.skip(i + 1));
                assert(Seq::<(PeerId, PooledConnection)>::empty() + cur.skip(i + 1).filter(pred) =~= cur.skip(i + 1).filter(pred));
            }
        }
        assert(self.available@.skip(i as int) =~= Seq::<(PeerId, PooledConnection)>::empty());
        assert(self.available@.skip(i as int).filter(pred) =~= Seq::<(PeerId, PooledConnection)>::empty()) by {
            reveal(Seq::filter);
        }
        assert(self.available@.take(i as int) =~= self.available@);
        self.stats.total_destroyed = self.stats.total_destroyed.wrapping_add(removed as u64);
    }

    /// Whether some connection of `peers` belongs to the peer `p`.
    fn has_peer(peers: &Vec<PeerId>, p: &PeerId) -> (r: bool)
        ensures
            r == exists|k: int| 0 <= k < peers@.len() && (#[trigger] peers@[k]).bytes@ == p.bytes@,
    {
        let mut k: usize = 0;
        while k < peers.len()
            invariant
                0 <= k <= peers@.len(),
                forall|j: int| 0 <= j < k ==> (#[trigger] peers@[j]).bytes@ != p.bytes@,
            decreases peers@.len() - k,
        {
            if peers[k].same_as(p) {
                return true;
            }
            k = k + 1;
        }
        false
    }

    /// The peers with idle connections; see `distinct_peers`.
    fn idle_peers(&self) -> (r: Vec<PeerId>)
        ensures
            r@ == distinct_peers(self.available@),
    {
        let ghost s = self.available@;
        let mut peers: Vec<PeerId> = Vec::new();
        let mut i: usize = 0;
        while i < self.available.len()
            invariant
                0 <= i <= s.len(),
                s == self.available@,
                peers@ == distinct_peers(s.take(i as int)),
                forall|x: Seq<u8>| #![trigger seen_before(s, i as int, x)] #![trigger listed(peers@, x)]
                    seen_before(s, i as int, x) <==> listed(peers@, x),
            decreases s.len() - i,
        {
            let ghost t = s.take(i + 1);
            assert(t.drop_last() =~= s.take(i as int));
            assert(t.last() == s[i as int]);
            assert forall|j: int| 0 <= j < t.len() - 1 implies #[trigger] t[j] == s[j] by {}
            let present = Self::has_peer(&peers, &self.available[i].0);
            let ghost before = peers@;
            if !present {
                peers.push(self.available[i].0);
            }
            assert forall|x: Seq<u8>| #![trigger seen_before(s, i + 1, x)] #![trigger listed(peers@, x)]
                seen_before(s, i + 1, x) <==> listed(peers@, x) by {
                if seen_before(s, i + 1, x) {
                    let j = choose|j: int| 0 <= j < i + 1 && (#[trigger] s[j]).0.bytes@ == x;
                    if j < i {
                        assert(seen_before(s, i as int, x));
                        assert(listed(before, x));
                        let k = choose|k: int| 0 <= k < before.len() && (#[trigger] before[k]).bytes@ == x;
                        assert(peers@[k] == before[k]);
                    } else if present {
                        let k = choose|k: int| 0 <= k < before.len() && (#[trigger] before[k]).bytes@ == s[i as int].0.bytes@;
                        assert(peers@[k] == before[k]);
                    } else {
                        assert(peers@[before.len() as int].bytes@ == x);
                    }
                }
                if listed(peers@, x) {
                    let k = choose|k: int| 0 <= k < peers@.len() && (#[trigger] peers@[k]).bytes@ == x;
                    if k < before.len() {
                        assert(before[k] == peers@[k]);
                        assert(listed(before, x));
                        assert(seen_before(s, i as int, x));
                        let j = choose|j: int| 0 <= j < i && (#[trigger] s[j]).0.bytes@ == x;
                        assert(s[j].0.bytes@ == x);
                    } else {
                        assert(s[i as int].0.bytes@ == x);
                    }
                }
            }
            assert(present <==> exists|j: int| 0 <= j < t.len() - 1 && (#[trigger] t[j]).0.bytes@ == t.last().0.bytes@) by {
                if present {
                    assert(listed(before, s[i as int].0.bytes@));
                    assert(seen_before(s, i as int, s[i as int].0.bytes@));
                    let j = choose|j: int| 0 <= j < i && (#[trigger] s[j]).0.bytes@ == s[i as int].0.bytes@;
                    assert(t[j] == s[j]);
                }
                if exists|j: int| 0 <= j < t.len() - 1 && (#[trigger] t[j]).0.bytes@ == t.last().0.bytes@ {
                    let j = choose|j: int| 0 <= j < t.len() - 1 && (#[trigger] t[j]).0.bytes@ == t.last().0.bytes@;
                    assert(t[j] == s[j]);
                    assert(s[j].0.bytes@ == s[i as int].0.bytes@);
                    assert(seen_before(s, i as int, s[i as int].0.bytes@));
                    assert(listed(before, s[i as int].0.bytes@));
                }
            }
            i = i + 1;
        }
        assert(s.take(i as int) =~= s);
        peers
    }

    /// Brings the pool up to its minimum size at `now`; see `topped_up`.
    /// Each connection made is counted as created.
    pub fn maintain_minimum_size_at(&mut self, now: u64)
        ensures
            final(self).available@ == topped_up(old(self).available@, old(self).active@.len(), old(self).config, now),
            final(self).stats == (PoolStats {
                total_created: old(self).stats.total_created.wrapping_add(
                    (final(self).available@.len() - old(self).available@.len()) as u64,
                ),
                ..old(self).stats
            }),
            final(self).active == old(self).active,
            final(self).config == old(self).config,
            final(self).next_lease == old(self).next_lease,
            final(self).shut_down == old(self).shut_down,
    {
        let total = self.available.len().saturating_add(self.active.len());
        if total >= self.config.min_size {
            return;
        }
        let needed = self.config.min_size - total;
        let peers = self.idle_peers();
        let ghost a0 = self.available@;
        let ghost c = fresh_connection(now, self.config.enable_warming);
        let start_len = self.available.len();
        let mut k: usize = 0;
        assert(peers@.take(0) =~= Seq::<PeerId>::empty());
        assert(a0 + refill(peers@.take(0), needed as nat, c) =~= a0);
        while k < peers.len()
            invariant
                0 <= k <= peers@.len(),
                a0 == old(self).available@,
                c == fresh_connection(now, self.config.enable_warming),
                self.available@ == a0 + refill(peers@.take(k as int), needed as nat, c),
                start_len == a0.len(),
                self.config == old(self).config,
                self.active == old(self).active,
                self.next_lease == old(self).next_lease,
                self.shut_down == old(self).shut_down,
                self.stats == old(self).stats,
            decreases peers@.len() - k,
        {
            let ghost before = self.available@;
            let mut m: usize = 0;
            assert(before + Seq::new(0, |_i: int| (peers@[k as int], c)) =~= before);
            while m < needed
                invariant
                    0 <= m <= needed,
                    k < peers@.len(),
                    c == fresh_connection(now, self.config.enable_warming),
                    self.available@ == before + Seq::new(m as nat, |_i: int| (peers@[k as int], c)),
                    self.config == old(self).config,
                    self.active == old(self).active,
                    self.next_lease == old(self).next_lease,
                    self.shut_down == old(self).shut_down,
                    self.stats == old(self).stats,
                decreases needed - m,
            {
                let conn = create_connection_at(now, self.config.enable_warming);
                self.available.push((peers[k], conn));
                assert(Seq::new((m + 1) as nat, |_i: int| (peers@[k as int], c))
                    =~= Seq::new(m as nat, |_i: int| (peers@[k as int], c)).push((peers@[k as int], c)));
                m = m + 1;
            }
            assert(peers@.take(k + 1).drop_last() =~= peers@.take(k as int));
            assert(peers@.take(k + 1).last() == peers@[k as int]);
            assert(a0 + refill(peers@.take(k + 1), needed as nat, c)
                =~= a0 + refill(peers@.take(k as int), needed as nat, c) + Seq::new(needed as nat, |_i: int| (peers@[k as int], c)));
            k = k + 1;
        }
        assert(peers@.take(k as int) =~= peers@);
        let made = self.available.len() - start_len;
        self.stats.total_created = self.stats.total_created.wrapping_add(made as u64);
    }

    /// Records the current sizes in the statistics.
    pub fn update_pool_stats(&mut self)
        ensures
            final(self).stats == (PoolStats {
                current_size: final(self).stats.current_size,
                available: final(self).stats.available,
                active: final(self).stats.active,
                ..old(self).stats
            }),
            final(self).stats.current_size == if old(self).available@.len() + old(self).active@.len() > usize::MAX {
                usize::MAX as nat
            } else {
                old(self).available@.len() + old(self).active@.len()
            },
            final(self).stats.available == old(self).available@.len(),
            final(self).stats.active == old(self).active@.len(),
            final(self).available == old(self).available,
            final(self).active == old(self).active,
            final(self).config == old(self).config,
            final(self).next_lease == old(self).next_lease,
            final(self).shut_down == old(self).shut_down,
    {
        self.stats.current_size = self.get_total_connection_count();
        self.stats.available = self.available.len();
        self.stats.active = self.active.len();
    }

    /// The statistics, with the current sizes.
    pub fn get_stats(&self) -> (r: PoolStats)
        ensures
            r == (PoolStats { current_size: r.current_size, available: r.available, active: r.active, ..self.stats }),
            r.current_size == if self.available@.len() + self.active@.len() > usize::MAX {
                usize::MAX as nat
            } else {
                self.available@.len() + self.active@.len()
            },
            r.available == self.available@.len(),
            r.active == self.active@.len(),
    {
        PoolStats {
            current_size: self.get_total_connection_count(),
            available: self.available.len(),
            active: self.active.len(),
            ..self.stats
        }
    }

    /// One round of maintenance at `now`: expired idle connections are
    /// destroyed, the pool is brought up to its minimum size and the sizes
    /// are recorded.
    pub fn run_maintenance_at(&mut self, now: u64)
        ensures
            final(self).available@ == topped_up(
                live_connections(old(self).available@, old(self).config, now),
                old(self).active@.len(),
                old(self).config,
                now,
            ),
            final(self).stats.total_destroyed == old(self).stats.total_destroyed.wrapping_add(
                (old(self).available@.len() - live_connections(old(self).available@, old(self).config, now).len()) as u64,
            ),
            final(self).stats.total_created == old(self).stats.total_created.wrapping_add(
                (final(self).available@.len() - live_connections(old(self).available@, old(self).config, now).len()) as u64,
            ),
            final(self).stats.available == final(self).available@.len(),
            final(self).stats.active == final(self).active@.len(),
            final(self).active == old(self).active,
            final(self).config == old(self).config,
            final(self).next_lease == old(self).next_lease,
            final(self).shut_down == old(self).shut_down,
    {
        self.cleanup_expired_at(now);
        self.maintain_minimum_size_at(now);
        self.update_pool_stats();
    }

    /// Shuts the pool down: every connection, idle or checked out, is
    /// destroyed (counted) and forgotten, and further requests are refused.
    pub fn shutdown(&mut self)
        ensures
            final(self).shut_down,
            final(self).available@.len() == 0,
            final(self).active@.len() == 0,
            final(self).stats == (PoolStats {
                total_destroyed: old(self).stats.total_destroyed.wrapping_add(old(self).available@.len() as u64).wrapping_add(
                    old(self).active@.len() as u64,
                ),
                ..old(self).stats
            }),
            final(self).config == old(self).config,
            final(self).next_lease == old(self).next_lease,
    {
        self.shut_down = true;
        self.stats.total_destroyed = self.stats.total_destroyed.wrapping_add(self.available.len() as u64).wrapping_add(
            self.active.len() as u64,
        );
        self.available.clear();
        self.active.clear();
    }

    /// Hands out a connection to `peer` at `now`.
    ///
    /// A shut-down pool refuses. A peer whose checkouts have reached
    /// `max_size` is refused with a timeout (counted). Otherwise the peer's
    /// first usable idle connection is handed out, dropping the unusable ones
    /// before it (see `checkout`); when none is left, a new connection is
    /// created (counted). Either way it is marked used at `now`, gains one
    /// use, and is checked out under the next lease number.
    pub fn acquire_at(&mut self, peer: PeerId, now: u64) -> (r: Result<Checkout, NetworkError>)
        ensures
            old(self).shut_down ==> (r matches Err(e) && connection_error(e, "Pool is shutting down"@)) && *final(self) == *old(self),
            !old(self).shut_down && leases_of(old(self).active@, peer.bytes@) >= old(self).config.max_size ==> {
                &&& r matches Err(e) && connection_error(e, "Connection acquisition timeout"@)
                &&& final(self).available == old(self).available
                &&& final(self).active == old(self).active
                &&& final(self).next_lease == old(self).next_lease
                &&& final(self).stats == (PoolStats { timeouts: old(self).stats.timeouts.wrapping_add(1), ..old(self).stats })
            },
            !old(self).shut_down && leases_of(old(self).active@, peer.bytes@) < old(self).config.max_size ==> {
                let (rest, found) = checkout(old(self).available@, peer.bytes@, old(self).config, now);
                let conn = match found {
                    Some(c) => c,
                    None => fresh_connection(now, old(self).config.enable_warming),
                };
                &&& r matches Ok(co) && co.lease == old(self).next_lease && co.connection == handed_out(conn, now)
                &&& final(self).available@ == rest
                &&& found is None ==> forall|i: int| 0 <= i < rest.len() ==> (#[trigger] rest[i]).0.bytes@ != peer.bytes@
                &&& final(self).active@ == old(self).active@.push(Lease { id: old(self).next_lease, peer })
                &&& final(self).next_lease == old(self).next_lease.wrapping_add(1)
                &&& final(self).stats == (PoolStats {
                    acquisitions: old(self).stats.acquisitions.wrapping_add(1),
                    total_created: if found is None {
                        old(self).stats.total_created.wrapping_add(1)
                    } else {
                        old(self).stats.total_created
                    },
                    ..old(self).stats
                })
            },
            final(self).config == old(self).config,
            final(self).shut_down == old(self).shut_down,
            old(self).checkouts_within_limit() ==> final(self).checkouts_within_limit(),
    {
        if self.shut_down {
            return Err(NetworkError::ConnectionError(String::from_str("Pool is shutting down")));
        }
        if self.count_leases(&peer) >= self.config.max_size {
            self.stats.timeouts = self.stats.timeouts.wrapping_add(1);
            return Err(NetworkError::ConnectionError(String::from_str("Connection acquisition timeout")));
        }
        let found = self.take_idle(&peer, now);
        proof {
            lemma_checkout_some_usable(old(self).available@, peer.bytes@, old(self).config, now);
            lemma_checkout_none_clears(old(self).available@, peer.bytes@, old(self).config, now);
        }
        let mut conn = match found {
            Some(c) => c,
            None => {
                self.stats.total_created = self.stats.total_created.wrapping_add(1);
                create_connection_at(now, self.config.enable_warming)
            },
        };
        conn.last_used = now;
        conn.usage_count = conn.usage_count + 1;
        let lease = self.next_lease;
        self.next_lease = self.next_lease.wrapping_add(1);
        let ghost before = self.active@;
        self.active.push(Lease { id: lease, peer });
        proof {
            assert forall|p: Seq<u8>| old(self).checkouts_within_limit() implies #[trigger] leases_of(self.active@, p) <= self.config.max_size by {
                lemma_leases_push(before, Lease { id: lease, peer }, p);
                assert(leases_of(before, p) <= self.config.max_size);
            }
        }
        self.stats.acquisitions = self.stats.acquisitions.wrapping_add(1);
        Ok(Checkout { lease, connection: conn })
    }
}

} // verus!
