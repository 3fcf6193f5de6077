//! Connection management vocabulary and bookkeeping: per-peer circuit
//! breakers, stream multiplexing, connection limits, and the statistics of
//! health checks, retries, warming and load balancing.
//!
//! Quality scores, retry jitter and weighted load balancing work on
//! floating-point numbers and stay with the networking front end; times here
//! are integers in milliseconds.

use vstd::prelude::*;
use crate::types::{ConnectionStatus, PeerId};

verus! {

/// Health statistics of the connections.
#[derive(Debug, Clone, Copy, Default)]
pub struct HealthStatistics {
    /// Health checks performed
    pub total_checks: u64,
    /// Healthy connections found
    pub healthy_count: u64,
    /// Unhealthy connections found
    pub unhealthy_count: u64,
    /// Successful recoveries
    pub successful_recoveries: u64,
    /// Average recovery time
    pub avg_recovery_time_ms: u64,
}

/// Information about an unhealthy connection.
#[derive(Debug, Clone)]
pub struct UnhealthyConnectionInfo {
    /// Since when it is unhealthy
    pub unhealthy_since: u64,
    /// Recovery attempts so far
    pub recovery_attempts: u32,
    /// Time of the last recovery attempt
    pub last_recovery_attempt: Option<u64>,
    /// Why it is unhealthy
    pub reason: String,
}

/// Tracking of unhealthy connections.
#[derive(Debug, Clone)]
pub struct ConnectionHealthTracker {
    /// Interval between health checks
    pub check_interval_ms: u64,
    /// Time of the last health check
    pub last_check: Option<u64>,
    /// Unhealthy connections by peer
    pub unhealthy_connections: Vec<(PeerId, UnhealthyConnectionInfo)>,
    /// Statistics
    pub health_stats: HealthStatistics,
}

impl Default for ConnectionHealthTracker {
    /// Checks every 30 s; nothing tracked yet.
    fn default() -> (r: Self)
        ensures
            r.check_interval_ms == 30000,
            r.last_check is None,
            r.unhealthy_connections@.len() == 0,
    {
        ConnectionHealthTracker {
            check_interval_ms: 30000,
            last_check: None,
            unhealthy_connections: Vec::new(),
            health_stats: HealthStatistics {
                total_checks: 0,
                healthy_count: 0,
                unhealthy_count: 0,
                successful_recoveries: 0,
                avg_recovery_time_ms: 0,
            },
        }
    }
}

/// States of a connection's circuit breaker.
#[derive(Debug, Clone, Copy, PartialEq, Eq, Structural)]
pub enum CircuitBreakerState {
    /// Requests pass
    Closed,
    /// Requests are refused
    Open,
    /// Requests pass while recovery is tested
    HalfOpen,
}

/// Circuit breaker of one peer's connections.
#[derive(Debug, Clone, Copy)]
pub struct CircuitBreaker {
    /// Current state
    pub state: CircuitBreakerState,
    /// Consecutive failures that open the circuit
    pub failure_threshold: u32,
    /// Failures counted
    pub failure_count: u32,
    /// Time the circuit opened
    pub opened_at: Option<u64>,
    /// Time an open circuit waits before testing recovery
    pub timeout_ms: u64,
    /// Successes in half-open state that close the circuit
    pub success_threshold: u32,
    /// Successes counted in half-open state
    pub success_count: u32,
}

impl Default for CircuitBreaker {
    /// Closed; opens after 5 failures, tests recovery after 60 s and closes
    /// after 3 successes.
    fn default() -> (r: Self)
        ensures
            r.state == CircuitBreakerState::Closed,
            r.failure_threshold == 5,
            r.failure_count == 0,
            r.opened_at is None,
            r.timeout_ms == 60000,
            r.success_threshold == 3,
            r.success_count == 0,
    {
        CircuitBreaker {
            state: CircuitBreakerState::Closed,
            failure_threshold: 5,
            failure_count: 0,
            opened_at: None,
            timeout_ms: 60000,
            success_threshold: 3,
            success_count: 0,
        }
    }
}

/// Time elapsed from `from` to `now` (none where the clock went back).
pub open spec fn since(from: u64, now: u64) -> u64 {
    if now > from { (now - from) as u64 } else { 0 }
}

impl CircuitBreaker {
    /// Whether a request may pass at `now`. An open circuit whose timeout has
    /// passed turns half-open (successes counted from zero) and lets the
    /// request pass; otherwise it refuses. Closed and half-open circuits let
    /// requests pass.
    pub fn allow_request_at(&mut self, now: u64) -> (r: bool)
        ensures
            old(self).state == CircuitBreakerState::Closed ==> r && *final(self) == *old(self),
            old(self).state == CircuitBreakerState::HalfOpen ==> r && *final(self) == *old(self),
            old(self).state == CircuitBreakerState::Open ==> {
                let due = old(self).opened_at matches Some(t) && since(t, now) >= old(self).timeout_ms;
                &&& r == due
                &&& due ==> *final(self) == (CircuitBreaker {
                    state: CircuitBreakerState::HalfOpen,
                    success_count: 0,
                    ..*old(self)
                })
                &&& !due ==> *final(self) == *old(self)
            },
    {
        match self.state {
            CircuitBreakerState::Closed => true,
            CircuitBreakerState::Open => {
                match self.opened_at {
                    Some(opened_at) => {
                        let waited: u64 = if now > opened_at { now - opened_at } else { 0 };
                        if waited >= self.timeout_ms {
                            self.state = CircuitBreakerState::HalfOpen;
                            self.success_count = 0;
                            true
                        } else {
                            false
                        }
                    },
                    None => false,
                }
            },
            CircuitBreakerState::HalfOpen => true,
        }
    }

    /// Records the outcome of a request at `now`. Closed: a success clears
    /// the failures; a failure is counted and, at the threshold, opens the
    /// circuit. Half-open: successes are counted and, at their threshold,
    /// close the circuit (clearing the failures); a failure reopens it and
    /// is counted. An open circuit ignores outcomes.
    pub fn record_result_at(&mut self, success: bool, now: u64)
        requires
            old(self).failure_count < u32::MAX,
            old(self).success_count < u32::MAX,
        ensures
            final(self).failure_threshold == old(self).failure_threshold,
            final(self).success_threshold == old(self).success_threshold,
            final(self).timeout_ms == old(self).timeout_ms,
            old(self).state == CircuitBreakerState::Open ==> *final(self) == *old(self),
            old(self).state == CircuitBreakerState::Closed && success ==> *final(self) == (CircuitBreaker {
                failure_count: 0,
                ..*old(self)
            }),
            old(self).state == CircuitBreakerState::Closed && !success ==> {
                let f = (old(self).failure_count + 1) as u32;
                &&& f >= old(self).failure_threshold ==> *final(self) == (CircuitBreaker {
                    state: CircuitBreakerState::Open,
                    failure_count: f,
                    opened_at: Some(now),
                    ..*old(self)
                })
                &&& f < old(self).failure_threshold ==> *final(self) == (CircuitBreaker { failure_count: f, ..*old(self) })
            },
            old(self).state == CircuitBreakerState::HalfOpen && success ==> {
                let s = (old(self).success_count + 1) as u32;
                &&& s >= old(self).success_threshold ==> *final(self) == (CircuitBreaker {
                    state: CircuitBreakerState::Closed,
                    success_count: s,
                    failure_count: 0,
                    ..*old(self)
                })
                &&& s < old(self).success_threshold ==> *final(self) == (CircuitBreaker { success_count: s, ..*old(self) })
            },
            old(self).state == CircuitBreakerState::HalfOpen && !success ==> *final(self) == (CircuitBreaker {
                state: CircuitBreakerState::Open,
                opened_at: Some(now),
                failure_count: (old(self).failure_count + 1) as u32,
                ..*old(self)
            }),
    {
        match self.state {
            CircuitBreakerState::Closed => {
                if success {
                    self.failure_count = 0;
                } else {
                    self.failure_count = self.failure_count + 1;
                    if self.failure_count >= self.failure_threshold {
                        self.state = CircuitBreakerState::Open;
                        self.opened_at = Some(now);
                    }
                }
            },
            CircuitBreakerState::HalfOpen => {
                if success {
                    self.success_count = self.success_count + 1;
                    if self.success_count >= self.success_threshold {
                        self.state = CircuitBreakerState::Closed;
                        self.failure_count = 0;
                    }
                } else {
                    self.state = CircuitBreakerState::Open;
                    self.opened_at = Some(now);
                    self.failure_count = self.failure_count + 1;
                }
            },
            CircuitBreakerState::Open => {},
        }
    }
}

/// Warming state of a peer's connections.
#[derive(Debug, Clone, PartialEq, Eq)]
pub enum WarmingState {
    /// Not warmed
    Cold,
    /// Warming up
    Warming,
    /// Warm and ready
    Warm,
    /// Warming failed for the given reason
    FailedToWarm(String),
}

impl WarmingState {
    /// A copy of the state.
    pub fn duplicate(&self) -> (r: WarmingState)
        ensures
            r == *self,
    {
        match self {
            WarmingState::Cold => WarmingState::Cold,
            WarmingState::Warming => WarmingState::Warming,
            WarmingState::Warm => WarmingState::Warm,
            WarmingState::FailedToWarm(m) => WarmingState::FailedToWarm(m.clone()),
        }
    }
}

/// Stream identifier.
#[derive(Debug, Clone, Copy, PartialEq, Eq, Hash, PartialOrd, Ord, Structural)]
pub struct StreamId(pub u64);

/// Stream priority, most urgent first.
#[derive(Debug, Clone, Copy, PartialEq, Eq, PartialOrd, Ord, Structural)]
pub enum Priority {
    /// Most urgent
    Critical,
    /// Urgent
    High,
    /// Default
    Normal,
    /// Least urgent
    Low,
}

/// State of a stream.
#[derive(Debug, Clone, PartialEq, Eq)]
pub enum StreamState {
    /// Opening
    Opening,
    /// Active
    Active,
    /// Closed on our side
    HalfClosedLocal,
    /// Closed on the remote side
    HalfClosedRemote,
    /// Closed
    Closed,
    /// Failed with the given reason
    Error(String),
}

/// A stream of a multiplexed connection; times in milliseconds.
#[derive(Debug, Clone)]
pub struct StreamInfo {
    /// Identifier
    pub id: StreamId,
    /// Priority
    pub priority: Priority,
    /// State
    pub state: StreamState,
    /// Creation time
    pub created_at: u64,
    /// Time of the last activity
    pub last_activity: u64,
    /// Bytes sent and received
    pub bytes_transferred: u64,
}

/// The streams of one peer's connection.
#[derive(Debug, Clone)]
pub struct MultiplexedStreams {
    /// The peer
    pub peer: PeerId,
    /// Its open streams
    pub streams: Vec<StreamInfo>,
    /// Identifier of the next stream
    pub next_stream_id: u64,
}

/// Streams over the connections to peers.
#[derive(Debug, Clone)]
pub struct ConnectionMultiplexer {
    /// Connections, one entry per peer
    pub connections: Vec<MultiplexedStreams>,
    /// Which peer each stream runs to
    pub stream_routes: Vec<(StreamId, PeerId)>,
    /// Streams waiting by priority, each in opening order
    pub priority_queue: Vec<(Priority, Vec<StreamId>)>,
    /// Most streams per connection
    pub max_streams_per_connection: u32,
    /// Stream timeout
    pub stream_timeout_ms: u64,
}

/// Errors of the multiplexer, as the networking layer reports them.
pub open spec fn connection_error(r: Result<StreamId, crate::types::NetworkError>, text: Seq<char>) -> bool {
    r matches Err(crate::types::NetworkError::ConnectionError(m)) && m@ == text
}

/// The queue of streams waiting at priority `p`: that of its first entry,
/// or none.
pub open spec fn queue_of(pq: Seq<(Priority, Vec<StreamId>)>, p: Priority) -> Option<Seq<StreamId>>
    decreases pq.len(),
{
    if pq.len() == 0 {
        None
    } else if pq[0].0 == p {
        Some(pq[0].1@)
    } else {
        queue_of(pq.drop_first(), p)
    }
}

proof fn lemma_queue_at(s: Seq<(Priority, Vec<StreamId>)>, i: int, p: Priority)
    requires
        0 <= i < s.len(),
        s[i].0 == p,
        forall|j: int| 0 <= j < i ==> (#[trigger] s[j]).0 != p,
    ensures
        queue_of(s, p) == Some(s[i].1@),
    decreases s.len(),
{
    if i > 0 {
        assert forall|j: int| 0 <= j < i - 1 implies (#[trigger] s.drop_first()[j]).0 != p by {
            assert(s[j + 1].0 != p);
        }
        lemma_queue_at(s.drop_first(), i - 1, p);
        assert(s[0].0 != p);
    }
}

proof fn lemma_queue_set(s: Seq<(Priority, Vec<StreamId>)>, i: int, p: Priority, v: Vec<StreamId>)
    requires
        0 <= i < s.len(),
        s[i].0 == p,
        forall|j: int| 0 <= j < i ==> (#[trigger] s[j]).0 != p,
    ensures
        queue_of(s.update(i, (p, v)), p) == Some(v@),
        forall|q: Priority| q != p ==> #[trigger] queue_of(s.update(i, (p, v)), q) == queue_of(s, q),
    decreases s.len(),
{
    let t = s.update(i, (p, v));
    if i > 0 {
        assert(t.drop_first() =~= s.drop_first().update(i - 1, (p, v)));
        assert forall|j: int| 0 <= j < i - 1 implies (#[trigger] s.drop_first()[j]).0 != p by {
            assert(s[j + 1].0 != p);
        }
        lemma_queue_set(s.drop_first(), i - 1, p, v);
        assert(s[0].0 != p);
        assert forall|q: Priority| q != p implies #[trigger] queue_of(t, q) == queue_of(s, q) by {
            assert(queue_of(s.drop_first().update(i - 1, (p, v)), q) == queue_of(s.drop_first(), q));
        }
    } else {
        assert(t.drop_first() =~= s.drop_first());
    }
}

proof fn lemma_queue_none(s: Seq<(Priority, Vec<StreamId>)>, p: Priority)
    requires
        forall|j: int| 0 <= j < s.len() ==> (#[trigger] s[j]).0 != p,
    ensures
        queue_of(s, p) is None,
    decreases s.len(),
{
    if s.len() > 0 {
        assert forall|j: int| 0 <= j < s.len() - 1 implies (#[trigger] s.drop_first()[j]).0 != p by {
            assert(s[j + 1].0 != p);
        }
        lemma_queue_none(s.drop_first(), p);
        assert(s[0].0 != p);
    }
}

proof fn lemma_queue_push_absent(s: Seq<(Priority, Vec<StreamId>)>, e: (Priority, Vec<StreamId>))
    requires
        forall|j: int| 0 <= j < s.len() ==> (#[trigger] s[j]).0 != e.0,
    ensures
        queue_of(s.push(e), e.0) == Some(e.1@),
        forall|q: Priority| q != e.0 ==> #[trigger] queue_of(s.push(e), q) == queue_of(s, q),
    decreases s.len(),
{
    let t = s.push(e);
    if s.len() > 0 {
        assert(t.drop_first() =~= s.drop_first().push(e));
        assert forall|j: int| 0 <= j < s.len() - 1 implies (#[trigger] s.drop_first()[j]).0 != e.0 by {
            assert(s[j + 1].0 != e.0);
        }
        lemma_queue_push_absent(s.drop_first(), e);
        assert(s[0].0 != e.0);
        assert forall|q: Priority| q != e.0 implies #[trigger] queue_of(t, q) == queue_of(s, q) by {
            assert(queue_of(s.drop_first().push(e), q) == queue_of(s.drop_first(), q));
        }
    } else {
        assert(t.drop_first() =~= Seq::<(Priority, Vec<StreamId>)>::empty());
        assert forall|q: Priority| q != e.0 implies #[trigger] queue_of(t, q) == queue_of(s, q) by {
            assert(queue_of(t.drop_first(), q) is None);
        }
    }
}

impl ConnectionMultiplexer {
    /// A multiplexer without connections.
    pub fn new(max_streams_per_connection: u32, stream_timeout_ms: u64) -> (r: ConnectionMultiplexer)
        ensures
            r.connections@.len() == 0,
            r.stream_routes@.len() == 0,
            r.priority_queue@.len() == 0,
            r.max_streams_per_connection == max_streams_per_connection,
            r.stream_timeout_ms == stream_timeout_ms,
    {
        ConnectionMultiplexer {
            connections: Vec::new(),
            stream_routes: Vec::new(),
            priority_queue: Vec::new(),
            max_streams_per_connection,
            stream_timeout_ms,
        }
    }

    /// Index of the connection to `peer`.
    pub fn find_connection(&self, peer: &PeerId) -> (r: Option<usize>)
        ensures
            r matches Some(i) ==> i < self.connections@.len() && self.connections@[i as int].peer.bytes@ == peer.bytes@,
            r is None ==> forall|i: int| 0 <= i < self.connections@.len() ==> (#[trigger] self.connections@[i]).peer.bytes@ != peer.bytes@,
    {
        let mut i: usize = 0;
        while i < self.connections.len()
            invariant
                0 <= i <= self.connections@.len(),
                forall|j: int| 0 <= j < i ==> (#[trigger] self.connections@[j]).peer.bytes@ != peer.bytes@,
            decreases self.connections@.len() - i,
        {
            if self.connections[i].peer.same_as(peer) {
                return Some(i);
            }
            i = i + 1;
        }
        None
    }

    /// Adds a connection to `peer` without streams, numbering streams from 0.
    pub fn add_connection(&mut self, peer: PeerId)
        ensures
            final(self).connections@ == old(self).connections@.push(MultiplexedStreams {
                peer,
                streams: final(self).connections@.last().streams,
                next_stream_id: 0,
            }),
            final(self).connections@.last().streams@.len() == 0,
            final(self).stream_routes == old(self).stream_routes,
            final(self).priority_queue == old(self).priority_queue,
            final(self).max_streams_per_connection == old(self).max_streams_per_connection,
    {
        self.connections.push(MultiplexedStreams { peer, streams: Vec::new(), next_stream_id: 0 });
    }

    /// Opens a stream of the given priority to `peer` at `now`: refused when
    /// there is no connection to the peer ("Connection not found") or it has
    /// the maximum number of streams ("Maximum streams reached"); otherwise
    /// the stream gets the connection's next identifier, starts opening, is
    /// routed to the peer and queued at its priority.
    pub fn open_stream_at(&mut self, peer: PeerId, priority: Priority, now: u64) -> (r: Result<StreamId, crate::types::NetworkError>)
        requires
            forall|i: int| 0 <= i < old(self).connections@.len() ==> (#[trigger] old(self).connections@[i]).next_stream_id < u64::MAX,
        ensures
            final(self).max_streams_per_connection == old(self).max_streams_per_connection,
            (forall|i: int| 0 <= i < old(self).connections@.len() ==> (#[trigger] old(self).connections@[i]).peer.bytes@ != peer.bytes@)
                ==> connection_error(r, "Connection not found"@),
            r is Err ==> final(self).connections@ == old(self).connections@ && final(self).stream_routes@ == old(self).stream_routes@,
            r matches Ok(id) ==> exists|i: int| #![trigger old(self).connections@[i]] {
                &&& 0 <= i < old(self).connections@.len()
                &&& old(self).connections@[i].peer.bytes@ == peer.bytes@
                &&& old(self).connections@[i].streams@.len() < old(self).max_streams_per_connection
                &&& id == StreamId(old(self).connections@[i].next_stream_id)
                &&& final(self).connections@[i].next_stream_id == old(self).connections@[i].next_stream_id + 1
                &&& final(self).connections@[i].streams@ == old(self).connections@[i].streams@.push(StreamInfo {
                    id,
                    priority,
                    state: StreamState::Opening,
                    created_at: now,
                    last_activity: now,
                    bytes_transferred: 0,
                })
                &&& final(self).connections@.len() == old(self).connections@.len()
                &&& forall|j: int| 0 <= j < old(self).connections@.len() && j != i ==> #[trigger] final(self).connections@[j] == old(self).connections@[j]
                &&& final(self).stream_routes@ == old(self).stream_routes@.push((id, peer))
            },
            r is Err && (exists|i: int| 0 <= i < old(self).connections@.len() && (#[trigger] old(self).connections@[i]).peer.bytes@ == peer.bytes@)
                ==> connection_error(r, "Maximum streams reached"@),
    {
        let idx = match self.find_connection(&peer) {
            Some(i) => i,
            None => {
                return Err(crate::types::NetworkError::ConnectionError(String::from_str("Connection not found")));
            },
        };
        if self.connections[idx].streams.len() >= self.max_streams_per_connection as usize {
            return Err(crate::types::NetworkError::ConnectionError(String::from_str("Maximum streams reached")));
        }
        let ghost old_conns = self.connections@;
        let mut conn = self.connections.remove(idx);
        let id = StreamId(conn.next_stream_id);
        conn.next_stream_id = conn.next_stream_id + 1;
        conn.streams.push(StreamInfo {
            id,
            priority,
            state: StreamState::Opening,
            created_at: now,
            last_activity: now,
            bytes_transferred: 0,
        });
        self.connections.insert(idx, conn);
        proof {
            assert forall|j: int| 0 <= j < old_conns.len() && j != idx as int implies #[trigger] self.connections@[j] == old_conns[j] by {
                if j < idx as int {
                    assert(self.connections@[j] == old_conns.remove(idx as int)[j]);
                } else {
                    assert(self.connections@[j] == old_conns.remove(idx as int)[j - 1]);
                }
            }
        }
        self.stream_routes.push((id, peer));
        self.enqueue_stream(priority, id);
        Ok(id)
    }

    /// Queues `id` at the back of the queue of `priority` (a new queue when
    /// there is none); the other queues stay as they are.
    fn enqueue_stream(&mut self, priority: Priority, id: StreamId)
        ensures
            final(self).connections == old(self).connections,
            final(self).stream_routes == old(self).stream_routes,
            final(self).max_streams_per_connection == old(self).max_streams_per_connection,
            queue_of(final(self).priority_queue@, priority) == Some(
                match queue_of(old(self).priority_queue@, priority) {
                    Some(q) => q,
                    None => Seq::<StreamId>::empty(),
                }.push(id),
            ),
            forall|p: Priority| p != priority ==> #[trigger] queue_of(final(self).priority_queue@, p)
                == queue_of(old(self).priority_queue@, p),
    {
        let ghost s = self.priority_queue@;
        let mut i: usize = 0;
        while i < self.priority_queue.len()
            invariant
                0 <= i <= s.len(),
                self.priority_queue@ == s,
                s == old(self).priority_queue@,
                self.connections == old(self).connections,
                self.stream_routes == old(self).stream_routes,
                self.max_streams_per_connection == old(self).max_streams_per_connection,
                forall|j: int| 0 <= j < i ==> (#[trigger] s[j]).0 != priority,
            decreases self.priority_queue@.len() - i,
        {
            if self.priority_queue[i].0 == priority {
                let (p, mut q) = self.priority_queue.remove(i);
                let ghost q0 = q@;
                q.push(id);
                self.priority_queue.insert(i, (p, q));
                proof {
                    assert(self.priority_queue@ =~= s.update(i as int, (priority, self.priority_queue@[i as int].1)));
                    lemma_queue_set(s, i as int, priority, self.priority_queue@[i as int].1);
                    lemma_queue_at(s, i as int, priority);
                }
                return;
            }
            i = i + 1;
        }
        let mut q: Vec<StreamId> = Vec::new();
        q.push(id);
        self.priority_queue.push((priority, q));
        proof {
            lemma_queue_push_absent(s, (priority, q));
            lemma_queue_none(s, priority);
            assert(Seq::<StreamId>::empty().push(id) =~= q@);
        }
    }

    /// Closes a stream: refused when it is not routed ("Stream not found");
    /// otherwise its route is dropped and, where its peer still has a
    /// connection, the stream is removed from it.
    pub fn close_stream(&mut self, stream_id: StreamId) -> (r: Result<(), crate::types::NetworkError>)
        ensures
            (forall|i: int| 0 <= i < old(self).stream_routes@.len() ==> (#[trigger] old(self).stream_routes@[i]).0 != stream_id)
                ==> (r matches Err(crate::types::NetworkError::ConnectionError(m)) && m@ == "Stream not found"@)
                && final(self).stream_routes@ == old(self).stream_routes@,
            (exists|i: int| 0 <= i < old(self).stream_routes@.len() && (#[trigger] old(self).stream_routes@[i]).0 == stream_id)
                ==> r is Ok,
            final(self).connections@.len() == old(self).connections@.len(),
            r is Ok ==> exists|i: int| #![trigger old(self).stream_routes@[i]] {
                &&& 0 <= i < old(self).stream_routes@.len()
                &&& old(self).stream_routes@[i].0 == stream_id
                &&& forall|j: int| 0 <= j < i ==> (#[trigger] old(self).stream_routes@[j]).0 != stream_id
                &&& final(self).stream_routes@ == old(self).stream_routes@.remove(i)
            },
    {
        let mut i: usize = 0;
        while i < self.stream_routes.len()
            invariant
                0 <= i <= self.stream_routes@.len(),
                self.stream_routes == old(self).stream_routes,
                self.connections == old(self).connections,
                forall|j: int| 0 <= j < i ==> (#[trigger] self.stream_routes@[j]).0 != stream_id,
            decreases self.stream_routes@.len() - i,
        {
            if self.stream_routes[i].0 == stream_id {
                let (_, peer) = self.stream_routes.remove(i);
                match self.find_connection(&peer) {
                    Some(c) => {
                        let mut conn = self.connections.remove(c);
                        remove_stream(&mut conn.streams, stream_id);
                        self.connections.insert(c, conn);
                    },
                    None => {},
                }
                return Ok(());
            }
            i = i + 1;
        }
        Err(crate::types::NetworkError::ConnectionError(String::from_str("Stream not found")))
    }
}

/// Removes the streams with identifier `id`.
fn remove_stream(streams: &mut Vec<StreamInfo>, id: StreamId)
    ensures
        final(streams)@ == old(streams)@.filter(|s: StreamInfo| s.id != id),
{
    let mut rest: Vec<StreamInfo> = Vec::new();
    std::mem::swap(&mut rest, streams);
    let ghost all = rest@;
    let ghost mut k: int = 0;
    proof {
        assert(all.skip(0) =~= all);
        reveal(Seq::filter);
        assert(all.take(0) =~= Seq::<StreamInfo>::empty());
    }
    while rest.len() > 0
        invariant
            0 <= k <= all.len(),
            rest@ == all.skip(k),
            streams@ == all.take(k).filter(|s: StreamInfo| s.id != id),
            all == old(streams)@,
        decreases rest@.len(),
    {
        let s = rest.remove(0);
        proof {
            assert(s == all[k]);
            assert(all.take(k + 1).drop_last() =~= all.take(k));
            reveal(Seq::filter);
            assert(rest@ =~= all.skip(k + 1));
        }
        if s.id.0 != id.0 {
            streams.push(s);
        }
        proof {
            k = k + 1;
        }
    }
    proof {
        assert(all.take(k) =~= all);
    }
}

/// Statistics of retried operations.
#[derive(Debug, Clone, Copy, Default)]
pub struct RetryStats {
    /// Operations run
    pub total_attempts: u64,
    /// Operations that succeeded
    pub successful_retries: u64,
    /// Operations that failed after their last attempt
    pub failed_retries: u64,
    /// Average duration
    pub avg_retry_duration_ms: u64,
}

/// What follows an attempt of a retried operation.
#[derive(Debug, Clone, Copy, PartialEq, Eq, Structural)]
pub enum RetryStep {
    /// The attempt succeeded: its value is handed back
    Succeeded,
    /// The attempt failed and no retry is left: its error is handed back
    GaveUp,
    /// The attempt failed: wait about `backoff_ms` (before jitter), then try again
    RetryAfter { backoff_ms: u64 },
}

/// Progress of one retried operation: failed attempts so far and the
/// current backoff.
#[derive(Debug, Clone, Copy, PartialEq, Eq, Structural)]
pub struct RetryProgress {
    /// Failed attempts so far
    pub attempt: u32,
    /// Backoff before the next attempt, in milliseconds
    pub backoff_ms: u64,
}

impl RetryProgress {
    /// No attempt yet; the backoff starts at `initial_backoff_ms`.
    pub fn start(initial_backoff_ms: u64) -> (r: RetryProgress)
        ensures
            r == (RetryProgress { attempt: 0, backoff_ms: initial_backoff_ms }),
    {
        RetryProgress { attempt: 0, backoff_ms: initial_backoff_ms }
    }

    /// Takes in the outcome of an attempt, allowing `max_retries` attempts in
    /// all: a success is counted and ends the operation; a failure is
    /// counted as an attempt, and either ends it (the attempts reach
    /// `max_retries`, counted as a failed operation) or asks for a retry
    /// after the current backoff.
    pub fn after_attempt(&mut self, succeeded: bool, max_retries: u32, stats: &mut RetryStats) -> (r: RetryStep)
        requires
            old(self).attempt < u32::MAX,
            old(stats).total_attempts < u64::MAX,
            old(stats).successful_retries < u64::MAX,
            old(stats).failed_retries < u64::MAX,
        ensures
            succeeded ==> r == RetryStep::Succeeded && *final(self) == *old(self) && *final(stats) == (RetryStats {
                total_attempts: (old(stats).total_attempts + 1) as u64,
                successful_retries: (old(stats).successful_retries + 1) as u64,
                ..*old(stats)
            }),
            !succeeded ==> final(self).attempt == old(self).attempt + 1 && final(self).backoff_ms == old(self).backoff_ms,
            !succeeded && old(self).attempt + 1 >= max_retries ==> r == RetryStep::GaveUp && *final(stats) == (RetryStats {
                total_attempts: (old(stats).total_attempts + 1) as u64,
                failed_retries: (old(stats).failed_retries + 1) as u64,
                ..*old(stats)
            }),
            !succeeded && old(self).attempt + 1 < max_retries ==> r == (RetryStep::RetryAfter { backoff_ms: old(self).backoff_ms })
                && *final(stats) == *old(stats),
    {
        if succeeded {
            stats.total_attempts = stats.total_attempts + 1;
            stats.successful_retries = stats.successful_retries + 1;
            return RetryStep::Succeeded;
        }
        self.attempt = self.attempt + 1;
        if self.attempt >= max_retries {
            stats.total_attempts = stats.total_attempts + 1;
            stats.failed_retries = stats.failed_retries + 1;
            RetryStep::GaveUp
        } else {
            RetryStep::RetryAfter { backoff_ms: self.backoff_ms }
        }
    }

    /// The backoff after a retry: the grown backoff `grown_ms` (the current
    /// one times the configured multiplier), capped at `max_backoff_ms`.
    pub fn grow_backoff(&mut self, grown_ms: u64, max_backoff_ms: u64)
        ensures
            final(self).attempt == old(self).attempt,
            final(self).backoff_ms == if grown_ms < max_backoff_ms { grown_ms } else { max_backoff_ms },
    {
        self.backoff_ms = if grown_ms < max_backoff_ms { grown_ms } else { max_backoff_ms };
    }
}

/// How requests are spread over connections.
#[derive(Debug, Clone, Copy, PartialEq, Eq, Structural)]
pub enum LoadBalancingStrategy {
    /// In turn
    RoundRobin,
    /// Fewest connections
    LeastConnections,
    /// In turn, by weight
    WeightedRoundRobin,
    /// Best response time
    ResponseTime,
    /// Least utilized
    ResourceUtilization,
}

/// Statistics of load balancing; times in milliseconds.
#[derive(Debug, Clone)]
pub struct LoadBalancingStats {
    /// Requests distributed
    pub total_requests: u64,
    /// Requests per peer
    pub peer_distribution: Vec<(PeerId, u64)>,
    /// Average response time per peer
    pub avg_response_times: Vec<(PeerId, u64)>,
}

/// The peer that round robin picks for request number `counter`.
pub fn select_round_robin(peers: &[PeerId], counter: u64) -> (r: Option<PeerId>)
    ensures
        peers@.len() == 0 ==> r is None,
        peers@.len() > 0 ==> r == Some(peers@[(counter as int) % (peers@.len() as int)]),
{
    if peers.len() == 0 {
        return None;
    }
    let n = peers.len() as u64;
    let idx = (counter % n) as usize;
    Some(peers[idx])
}

/// The known average response time of `peer` in `times`, if any (the first entry).
pub open spec fn known_time(times: Seq<(PeerId, u64)>, peer: PeerId) -> Option<u64>
    decreases times.len(),
{
    if times.len() == 0 {
        None
    } else if times[0].0.bytes@ == peer.bytes@ {
        Some(times[0].1)
    } else {
        known_time(times.drop_first(), peer)
    }
}

fn lookup_time(times: &Vec<(PeerId, u64)>, peer: &PeerId) -> (r: Option<u64>)
    ensures
        r == known_time(times@, *peer),
{
    let mut i: usize = 0;
    assert(times@.skip(0) =~= times@);
    while i < times.len()
        invariant
            0 <= i <= times@.len(),
            known_time(times@, *peer) == known_time(times@.skip(i as int), *peer),
        decreases times@.len() - i,
    {
        let ghost s = times@.skip(i as int);
        assert(s.drop_first() =~= times@.skip(i + 1));
        if times[i].0.same_as(peer) {
            return Some(times[i].1);
        }
        i = i + 1;
    }
    assert(times@.skip(i as int) =~= Seq::<(PeerId, u64)>::empty());
    None
}

/// Picks, among non-empty `peers`, the first with the smallest known
/// average response time; the first peer when none is known.
pub fn select_best_response_time(peers: &[PeerId], stats: &LoadBalancingStats) -> (r: PeerId)
    requires
        peers@.len() > 0,
    ensures
        exists|i: int| 0 <= i < peers@.len() && r == peers@[i],
        (forall|i: int| 0 <= i < peers@.len() ==> known_time(stats.avg_response_times@, #[trigger] peers@[i]) is None) ==> r == peers@[0],
        known_time(stats.avg_response_times@, r) matches Some(t) ==> forall|i: int| 0 <= i < peers@.len()
            ==> (known_time(stats.avg_response_times@, #[trigger] peers@[i]) matches Some(u) ==> t <= u),
{
    let mut best = peers[0];
    let mut best_time: Option<u64> = None;
    let mut i: usize = 0;
    while i < peers.len()
        invariant
            0 <= i <= peers@.len(),
            peers@.len() > 0,
            exists|j: int| 0 <= j < peers@.len() && best == peers@[j],
            best_time == known_time(stats.avg_response_times@, best) || (best_time is None && best == peers@[0]),
            best_time is None ==> best == peers@[0] && forall|j: int| 0 <= j < i ==> known_time(stats.avg_response_times@, #[trigger] peers@[j]) is None,
            best_time matches Some(t) ==> known_time(stats.avg_response_times@, best) == Some(t) && forall|j: int| 0 <= j < i
                ==> (known_time(stats.avg_response_times@, #[trigger] peers@[j]) matches Some(u) ==> t <= u),
        decreases peers@.len() - i,
    {
        let p = peers[i];
        match lookup_time(&stats.avg_response_times, &p) {
            Some(t) => {
                let better = match best_time {
                    Some(b) => t < b,
                    None => true,
                };
                if better {
                    best = p;
                    best_time = Some(t);
                }
            },
            None => {},
        }
        i = i + 1;
    }
    best
}

/// The distribution `d` after one more request to `p`: its count grows by
/// one (wrapping), or it enters with a count of one.
pub open spec fn bumped(d: Seq<(PeerId, u64)>, p: PeerId) -> Seq<(PeerId, u64)> {
    if exists|i: int| 0 <= i < d.len() && (#[trigger] d[i]).0.bytes@ == p.bytes@ {
        let i = choose|i: int| 0 <= i < d.len() && (#[trigger] d[i]).0.bytes@ == p.bytes@;
        d.update(i, (d[i].0, d[i].1.wrapping_add(1)))
    } else {
        d.push((p, 1))
    }
}

/// Each peer appears at most once in a distribution.
pub open spec fn peers_distinct(d: Seq<(PeerId, u64)>) -> bool {
    forall|i: int, j: int| 0 <= i < j < d.len() ==> (#[trigger] d[i]).0.bytes@ != (#[trigger] d[j]).0.bytes@
}

/// The peer that a strategy picks among `peers` (non-empty): round robin
/// takes the one at `counter` (modulo their number); weighted round robin
/// takes `weighted`, the outcome of the weighted draw; response time takes
/// the fastest known; the other strategies take the first.
pub open spec fn strategy_pick(
    strategy: LoadBalancingStrategy,
    peers: Seq<PeerId>,
    counter: u64,
    weighted: PeerId,
    times: Seq<(PeerId, u64)>,
    fastest: PeerId,
) -> PeerId {
    match strategy {
        LoadBalancingStrategy::RoundRobin => peers[(counter as int) % (peers.len() as int)],
        LoadBalancingStrategy::WeightedRoundRobin => weighted,
        LoadBalancingStrategy::ResponseTime => fastest,
        _ => peers[0],
    }
}

/// Load balancing over the peers of a request; the weights of weighted
/// round robin are floating-point and drawn by the caller.
#[derive(Debug, Clone)]
pub struct LoadBalancer {
    /// Strategy
    pub strategy: LoadBalancingStrategy,
    /// Requests balanced by round robin so far (wrapping)
    pub round_robin_counter: u64,
    /// Statistics
    pub stats: LoadBalancingStats,
}

impl LoadBalancer {
    /// A balancer with the given strategy and empty statistics.
    pub fn new(strategy: LoadBalancingStrategy) -> (r: LoadBalancer)
        ensures
            r.strategy == strategy,
            r.round_robin_counter == 0,
            r.stats.total_requests == 0,
            r.stats.peer_distribution@.len() == 0,
            r.stats.avg_response_times@.len() == 0,
    {
        LoadBalancer {
            strategy,
            round_robin_counter: 0,
            stats: LoadBalancingStats { total_requests: 0, peer_distribution: Vec::new(), avg_response_times: Vec::new() },
        }
    }

    fn count_request(&mut self, p: PeerId)
        requires
            peers_distinct(old(self).stats.peer_distribution@),
        ensures
            final(self).stats.peer_distribution@ == bumped(old(self).stats.peer_distribution@, p),
            peers_distinct(final(self).stats.peer_distribution@),
            final(self).stats.total_requests == old(self).stats.total_requests.wrapping_add(1),
            final(self).stats.avg_response_times == old(self).stats.avg_response_times,
            final(self).strategy == old(self).strategy,
            final(self).round_robin_counter == old(self).round_robin_counter,
    {
        self.stats.total_requests = self.stats.total_requests.wrapping_add(1);
        let ghost d = self.stats.peer_distribution@;
        let mut i: usize = 0;
        while i < self.stats.peer_distribution.len()
            invariant
                0 <= i <= d.len(),
                self.stats.peer_distribution@ == d,
                d == old(self).stats.peer_distribution@,
                peers_distinct(d),
                forall|j: int| 0 <= j < i ==> (#[trigger] d[j]).0.bytes@ != p.bytes@,
                self.stats.total_requests == old(self).stats.total_requests.wrapping_add(1),
                self.stats.avg_response_times == old(self).stats.avg_response_times,
                self.strategy == old(self).strategy,
                self.round_robin_counter == old(self).round_robin_counter,
            decreases d.len() - i,
        {
            if self.stats.peer_distribution[i].0.same_as(&p) {
                let (q, c) = self.stats.peer_distribution[i];
                self.stats.peer_distribution.set(i, (q, c.wrapping_add(1)));
                proof {
                    let k = choose|k: int| 0 <= k < d.len() && (#[trigger] d[k]).0.bytes@ == p.bytes@;
                    if k != i as int {
                        if k < i as int {
                            assert(d[k].0.bytes@ != p.bytes@);
                        } else {
                            assert(d[i as int].0.bytes@ != d[k].0.bytes@);
                        }
                    }
                    assert(self.stats.peer_distribution@ =~= bumped(d, p));
                }
                return;
            }
            i = i + 1;
        }
        self.stats.peer_distribution.push((p, 1));
        proof {
            assert(self.stats.peer_distribution@ =~= bumped(d, p));
        }
    }

    /// Picks the peer for a request among `available` by the strategy (see
    /// `strategy_pick`; `weighted` is the outcome of the weighted draw over
    /// `available`) and counts the request for it; round robin advances its
    /// counter. Without peers there is no pick and nothing changes.
    pub fn select_connection(&mut self, available: &[PeerId], weighted: PeerId) -> (r: Option<PeerId>)
        requires
            peers_distinct(old(self).stats.peer_distribution@),
        ensures
            peers_distinct(final(self).stats.peer_distribution@),
            final(self).strategy == old(self).strategy,
            available@.len() == 0 ==> r is None && *final(self) == *old(self),
            available@.len() > 0 ==> exists|fastest: PeerId| {
                &&& (#[trigger] strategy_pick(old(self).strategy, available@, old(self).round_robin_counter, weighted,
                    old(self).stats.avg_response_times@, fastest)) == r->0
                &&& r is Some
                &&& old(self).strategy == LoadBalancingStrategy::ResponseTime ==> {
                    &&& exists|i: int| 0 <= i < available@.len() && fastest == available@[i]
                    &&& (forall|i: int| 0 <= i < available@.len() ==> known_time(old(self).stats.avg_response_times@, #[trigger] available@[i]) is None)
                        ==> fastest == available@[0]
                    &&& known_time(old(self).stats.avg_response_times@, fastest) matches Some(t) ==> forall|i: int| 0 <= i < available@.len()
                        ==> (known_time(old(self).stats.avg_response_times@, #[trigger] available@[i]) matches Some(u) ==> t <= u)
                }
                &&& final(self).stats.peer_distribution@ == bumped(old(self).stats.peer_distribution@, r->0)
                &&& final(self).stats.total_requests == old(self).stats.total_requests.wrapping_add(1)
                &&& final(self).round_robin_counter == if old(self).strategy == LoadBalancingStrategy::RoundRobin {
                    old(self).round_robin_counter.wrapping_add(1)
                } else {
                    old(self).round_robin_counter
                }
            },
    {
        if available.len() == 0 {
            return None;
        }
        let selected = match self.strategy {
            LoadBalancingStrategy::RoundRobin => {
                let c = self.round_robin_counter;
                self.round_robin_counter = self.round_robin_counter.wrapping_add(1);
                match select_round_robin(available, c) {
                    Some(p) => p,
                    None => available[0],
                }
            },
            LoadBalancingStrategy::WeightedRoundRobin => weighted,
            LoadBalancingStrategy::ResponseTime => select_best_response_time(available, &self.stats),
            _ => available[0],
        };
        let ghost fastest = if self.strategy == LoadBalancingStrategy::ResponseTime { selected } else { available@[0] };
        self.count_request(selected);
        proof {
            assert(strategy_pick(old(self).strategy, available@, old(self).round_robin_counter, weighted,
                old(self).stats.avg_response_times@, fastest) == selected);
        }
        Some(selected)
    }
}

/// Kinds of health check.
#[derive(Debug, Clone, Copy, PartialEq, Eq, Structural)]
pub enum HealthCheckType {
    /// Ping
    Ping,
    /// Application-level
    Application,
    /// Custom
    Custom,
}

/// Health check configuration; times in milliseconds.
#[derive(Debug, Clone, Copy)]
pub struct HealthCheckConfig {
    /// Interval between checks
    pub interval_ms: u64,
    /// Time allowed for a check
    pub timeout_ms: u64,
    /// Failures after which a connection is unhealthy
    pub failure_threshold: u32,
    /// Successes after which it has recovered
    pub recovery_threshold: u32,
    /// Kind of check
    pub check_type: HealthCheckType,
}

impl Default for HealthCheckConfig {
    /// Ping every 30 s with a 5 s timeout; 3 failures, 2 recoveries.
    fn default() -> (r: Self)
        ensures
            r.interval_ms == 30000,
            r.timeout_ms == 5000,
            r.failure_threshold == 3,
            r.recovery_threshold == 2,
            r.check_type == HealthCheckType::Ping,
    {
        HealthCheckConfig {
            interval_ms: 30000,
            timeout_ms: 5000,
            failure_threshold: 3,
            recovery_threshold: 2,
            check_type: HealthCheckType::Ping,
        }
    }
}

/// Scheduled health checks per peer; times in milliseconds.
#[derive(Debug, Clone)]
pub struct HealthCheckScheduler {
    /// Time of each peer's next check
    pub scheduled_checks: Vec<(PeerId, u64)>,
    /// Each peer's check interval
    pub check_intervals: Vec<(PeerId, u64)>,
}

/// Statistics of health checks.
#[derive(Debug, Clone, Copy, Default)]
pub struct HealthStats {
    /// Checks performed
    pub total_checks: u64,
    /// Checks that succeeded
    pub successful_checks: u64,
    /// Checks that failed
    pub failed_checks: u64,
    /// Average response time
    pub avg_response_time_ms: u64,
}

/// Statistics of connection warming.
#[derive(Debug, Clone, Copy, Default)]
pub struct WarmingStats {
    /// Warming attempts
    pub total_attempts: u64,
    /// Successful warmings
    pub successful_warmings: u64,
    /// Failed warmings
    pub failed_warmings: u64,
    /// Average warming time
    pub avg_warming_time_ms: u64,
}

/// Connection limits; times in milliseconds.
#[derive(Debug, Clone, Copy)]
pub struct ConnectionLimits {
    /// Most connections in all
    pub max_total: usize,
    /// Most connections per peer
    pub max_per_peer: usize,
    /// Most idle connections
    pub max_idle: usize,
    /// Time allowed to connect
    pub connection_timeout_ms: u64,
    /// Time after which an idle connection is closed
    pub idle_timeout_ms: u64,
}

impl Default for ConnectionLimits {
    /// 1000 in all, 10 per peer, 100 idle, 30 s to connect, 5 minutes idle.
    fn default() -> (r: Self)
        ensures
            r.max_total == 1000,
            r.max_per_peer == 10,
            r.max_idle == 100,
            r.connection_timeout_ms == 30000,
            r.idle_timeout_ms == 300000,
    {
        ConnectionLimits {
            max_total: 1000,
            max_per_peer: 10,
            max_idle: 100,
            connection_timeout_ms: 30000,
            idle_timeout_ms: 300000,
        }
    }
}

/// The ping health check.
#[derive(Debug, Clone, Copy)]
pub struct PingHealthCheck {
    /// Time allowed for a ping, in milliseconds
    pub timeout_ms: u64,
}

impl Default for PingHealthCheck {
    /// A 5 s timeout.
    fn default() -> (r: Self)
        ensures
            r.timeout_ms == 5000,
    {
        PingHealthCheck { timeout_ms: 5000 }
    }
}

/// Overall connection statistics.
#[derive(Debug, Clone)]
pub struct ConnectionStatistics {
    /// Connections
    pub total_connections: usize,
    /// Healthy connections
    pub active_connections: usize,
    /// Pooled connections
    pub pooled_connections: usize,
    /// Health check statistics
    pub health_stats: HealthStats,
    /// Retry statistics
    pub retry_stats: RetryStats,
    /// Warming statistics
    pub warming_stats: WarmingStats,
    /// Load balancing statistics
    pub load_balancing_stats: LoadBalancingStats,
}

/// What a request to connect to a peer leads to.
#[derive(Debug, Clone, Copy, PartialEq, Eq, Structural)]
pub enum ConnectDecision {
    /// The peer's circuit breaker refuses the request
    BreakerOpen,
    /// The pooled connection to the peer is fresh and healthy, and the limit
    /// is not reached: it is reused
    ReusePooled,
    /// The connection limit is reached: the request is ignored (it succeeds
    /// without a connection); the pooled connection, stale or unhealthy, is
    /// dropped first when `drop_pooled`
    MaxConnections { drop_pooled: bool },
    /// A new connection is made; the pooled connection, stale or unhealthy,
    /// is dropped first when `drop_pooled`
    Establish { drop_pooled: bool },
}

/// The decision on a request to connect at `now`: refused when the
/// circuit breaker does not allow it; else ignored when `connections` has
/// reached `max_connections` (a stale or unhealthy pooled connection, given
/// as its last use and its health, is dropped); else the pooled connection
/// is reused when used less than `pool_timeout_ms` ago and healthy; else
/// (dropping the pooled one) a new connection is made.
pub open spec fn connect_decision(
    breaker_allows: bool,
    pooled: Option<(u64, bool)>,
    pool_timeout_ms: u64,
    connections: usize,
    max_connections: usize,
    now: u64,
) -> ConnectDecision {
    let reusable = pooled matches Some((last_used, healthy)) && since(last_used, now) < pool_timeout_ms && healthy;
    if !breaker_allows {
        ConnectDecision::BreakerOpen
    } else if connections >= max_connections {
        ConnectDecision::MaxConnections { drop_pooled: pooled is Some && !reusable }
    } else if reusable {
        ConnectDecision::ReusePooled
    } else {
        ConnectDecision::Establish { drop_pooled: pooled is Some }
    }
}

/// Decides a request to connect; see `connect_decision`.
pub fn decide_connect_at(
    breaker_allows: bool,
    pooled: Option<(u64, bool)>,
    pool_timeout_ms: u64,
    connections: usize,
    max_connections: usize,
    now: u64,
) -> (r: ConnectDecision)
    ensures
        r == connect_decision(breaker_allows, pooled, pool_timeout_ms, connections, max_connections, now),
{
    if !breaker_allows {
        return ConnectDecision::BreakerOpen;
    }
    let reusable = match pooled {
        Some((last_used, healthy)) => {
            let idle: u64 = if now > last_used { now - last_used } else { 0 };
            idle < pool_timeout_ms && healthy
        },
        None => false,
    };
    if connections >= max_connections {
        ConnectDecision::MaxConnections { drop_pooled: pooled.is_some() && !reusable }
    } else if reusable {
        ConnectDecision::ReusePooled
    } else {
        ConnectDecision::Establish { drop_pooled: pooled.is_some() }
    }
}

/// The error of a refused request to connect, if the decision refuses:
/// only an open circuit breaker refuses.
pub fn connect_refusal(d: ConnectDecision) -> (r: Option<crate::types::NetworkError>)
    ensures
        d == ConnectDecision::BreakerOpen ==> (r matches Some(crate::types::NetworkError::ConnectionError(m))
            && m@ == "Circuit breaker is open for this peer"@),
        d != ConnectDecision::BreakerOpen ==> r is None,
{
    match d {
        ConnectDecision::BreakerOpen => Some(crate::types::NetworkError::ConnectionError(
            String::from_str("Circuit breaker is open for this peer"),
        )),
        _ => None,
    }
}

/// The entries of `s` for peers other than `p`, in order.
pub open spec fn without_peer<V>(s: Seq<(PeerId, V)>, p: PeerId) -> Seq<(PeerId, V)> {
    s.filter(|e: (PeerId, V)| e.0.bytes@ != p.bytes@)
}

/// `s` with the entry of `p` set to `v`: any earlier entry of `p` goes, and
/// the new one comes last.
pub open spec fn with_peer<V>(s: Seq<(PeerId, V)>, p: PeerId, v: V) -> Seq<(PeerId, V)> {
    without_peer(s, p).push((p, v))
}

/// The pooled connections of `pool` used less than `timeout_ms` before `now`.
pub open spec fn fresh_pool(pool: Seq<(PeerId, (ConnectionStatus, u64))>, now: u64, timeout_ms: u64) -> Seq<(PeerId, (ConnectionStatus, u64))> {
    pool.filter(|e: (PeerId, (ConnectionStatus, u64))| since(e.1.1, now) < timeout_ms)
}

/// The entry of `p` in `s`, if any (the first).
pub open spec fn entry_of<V>(s: Seq<(PeerId, V)>, p: PeerId) -> Option<V> {
    let f = s.filter(|e: (PeerId, V)| e.0.bytes@ == p.bytes@);
    if f.len() == 0 { None } else { Some(f[0].1) }
}

/// Drops the entries of `p`, keeping the order of the others.
fn drop_peer<V>(s: &mut Vec<(PeerId, V)>, p: &PeerId) -> (found: bool)
    ensures
        final(s)@ == without_peer(old(s)@, *p),
        found == exists|i: int| 0 <= i < old(s)@.len() && (#[trigger] old(s)@[i]).0.bytes@ == p.bytes@,
{
    let mut rest: Vec<(PeerId, V)> = Vec::new();
    std::mem::swap(&mut rest, s);
    let ghost all = rest@;
    let ghost mut k: int = 0;
    let mut found = false;
    proof {
        assert(all.skip(0) =~= all);
        reveal(Seq::filter);
        assert(all.take(0) =~= Seq::<(PeerId, V)>::empty());
    }
    while rest.len() > 0
        invariant
            0 <= k <= all.len(),
            rest@ == all.skip(k),
            s@ == all.take(k).filter(|e: (PeerId, V)| e.0.bytes@ != p.bytes@),
            all == old(s)@,
            found == exists|i: int| 0 <= i < k && (#[trigger] all[i]).0.bytes@ == p.bytes@,
        decreases rest@.len(),
    {
        let e = rest.remove(0);
        proof {
            assert(e == all[k]);
            assert(all.take(k + 1).drop_last() =~= all.take(k));
            reveal(Seq::filter);
            assert(rest@ =~= all.skip(k + 1));
        }
        if e.0.same_as(p) {
            found = true;
        } else {
            s.push(e);
        }
        proof {
            k = k + 1;
        }
    }
    proof {
        assert(all.take(k) =~= all);
    }
    found
}

/// Active connections, by peer, and recently closed healthy connections
/// kept for reuse.
pub struct ConnectionTable {
    /// Most connections kept at once
    pub max_connections: usize,
    /// How long a pooled connection stays reusable, in milliseconds
    pub pool_timeout_ms: u64,
    /// Status of each connected peer
    pub connections: Vec<(PeerId, ConnectionStatus)>,
    /// Status and time of last use of each pooled connection
    pub pool: Vec<(PeerId, (ConnectionStatus, u64))>,
}

impl ConnectionTable {
    /// No connections and an empty pool.
    pub fn new(max_connections: usize, pool_timeout_ms: u64) -> (r: ConnectionTable)
        ensures
            r.max_connections == max_connections,
            r.pool_timeout_ms == pool_timeout_ms,
            r.connections@.len() == 0,
            r.pool@.len() == 0,
    {
        ConnectionTable { max_connections, pool_timeout_ms, connections: Vec::new(), pool: Vec::new() }
    }

    /// Handles a request to connect to `peer` at `now`, given whether its
    /// circuit breaker allows it and whether its pooled connection (if any)
    /// is healthy; see `connect_decision`. A reused connection is made
    /// active again with its pooled status; a new one is made active as
    /// connecting; a dropped pooled connection leaves the pool. The number
    /// of active connections never grows past `max_connections`.
    pub fn connect_at(&mut self, peer: PeerId, breaker_allows: bool, pooled_healthy: bool, now: u64) -> (r: ConnectDecision)
        ensures
            final(self).max_connections == old(self).max_connections,
            final(self).pool_timeout_ms == old(self).pool_timeout_ms,
            r == connect_decision(
                breaker_allows,
                match entry_of(old(self).pool@, peer) {
                    Some(e) => Some((e.1, pooled_healthy)),
                    None => None,
                },
                old(self).pool_timeout_ms,
                old(self).connections@.len() as usize,
                old(self).max_connections,
                now,
            ),
            r == ConnectDecision::ReusePooled ==> final(self).connections@ == with_peer(
                old(self).connections@,
                peer,
                entry_of(old(self).pool@, peer)->Some_0.0,
            ) && final(self).pool@ == old(self).pool@,
            r matches ConnectDecision::Establish { drop_pooled } ==> final(self).connections@ == with_peer(
                old(self).connections@,
                peer,
                ConnectionStatus::Connecting,
            ) && (drop_pooled ==> final(self).pool@ == without_peer(old(self).pool@, peer)) && (!drop_pooled
                ==> final(self).pool@ == old(self).pool@),
            r matches ConnectDecision::MaxConnections { drop_pooled } ==> final(self).connections@ == old(self).connections@
                && (drop_pooled ==> final(self).pool@ == without_peer(old(self).pool@, peer)) && (!drop_pooled
                ==> final(self).pool@ == old(self).pool@),
            r == ConnectDecision::BreakerOpen ==> final(self).connections@ == old(self).connections@ && final(self).pool@
                == old(self).pool@,
            old(self).connections@.len() <= old(self).max_connections ==> final(self).connections@.len()
                <= final(self).max_connections,
    {
        let pooled_entry = self.pooled_status(&peer);
        let pooled: Option<(u64, bool)> = match pooled_entry {
            Some((_, used)) => Some((used, pooled_healthy)),
            None => None,
        };
        let d = decide_connect_at(breaker_allows, pooled, self.pool_timeout_ms, self.connections.len(), self.max_connections, now);
        let ghost old_conns = self.connections@;
        match d {
            ConnectDecision::ReusePooled => {
                let status = match pooled_entry {
                    Some((st, _)) => st,
                    None => ConnectionStatus::Connecting,
                };
                drop_peer(&mut self.connections, &peer);
                self.connections.push((peer, status));
                proof {
                    old_conns.lemma_filter_len(|e: (PeerId, ConnectionStatus)| e.0.bytes@ != peer.bytes@);
                }
            },
            ConnectDecision::Establish { drop_pooled } => {
                if drop_pooled {
                    drop_peer(&mut self.pool, &peer);
                }
                drop_peer(&mut self.connections, &peer);
                self.connections.push((peer, ConnectionStatus::Connecting));
                proof {
                    old_conns.lemma_filter_len(|e: (PeerId, ConnectionStatus)| e.0.bytes@ != peer.bytes@);
                }
            },
            ConnectDecision::MaxConnections { drop_pooled } => {
                if drop_pooled {
                    drop_peer(&mut self.pool, &peer);
                }
            },
            ConnectDecision::BreakerOpen => {},
        }
        d
    }

    /// The status and last use of the pooled connection of `peer`, if any.
    pub fn pooled_status(&self, peer: &PeerId) -> (r: Option<(ConnectionStatus, u64)>)
        ensures
            r == entry_of(self.pool@, *peer),
    {
        match first_entry(&self.pool, peer) {
            Some(i) => {
                let st = self.pool[i].1.0.duplicate();
                Some((st, self.pool[i].1.1))
            },
            None => None,
        }
    }

    /// The status of the connection to `peer`, if it is active.
    pub fn get_status(&self, peer: &PeerId) -> (r: Option<ConnectionStatus>)
        ensures
            r == entry_of(self.connections@, *peer),
    {
        match first_entry(&self.connections, peer) {
            Some(i) => Some(self.connections[i].1.duplicate()),
            None => None,
        }
    }

    /// Number of active connections.
    pub fn connection_count(&self) -> (r: usize)
        ensures
            r == self.connections@.len(),
    {
        self.connections.len()
    }

    /// Sets the status of `peer`'s connection, making it active if it was
    /// not.
    pub fn update_status(&mut self, peer: PeerId, status: ConnectionStatus)
        ensures
            final(self).connections@ == with_peer(old(self).connections@, peer, status),
            final(self).pool@ == old(self).pool@,
            final(self).max_connections == old(self).max_connections,
            final(self).pool_timeout_ms == old(self).pool_timeout_ms,
    {
        drop_peer(&mut self.connections, &peer);
        self.connections.push((peer, status));
    }

    /// Closes the connection to `peer` at `now`: it leaves the active
    /// connections and, when it was active and is `healthy`, is pooled with
    /// its status and `now` as its last use; then pooled connections not
    /// used within the pool timeout are forgotten.
    pub fn disconnect_at(&mut self, peer: &PeerId, healthy: bool, now: u64)
        ensures
            final(self).connections@ == without_peer(old(self).connections@, *peer),
            final(self).max_connections == old(self).max_connections,
            final(self).pool_timeout_ms == old(self).pool_timeout_ms,
            final(self).pool@ == fresh_pool(
                if healthy && entry_of(old(self).connections@, *peer) is Some {
                    with_peer(old(self).pool@, *peer, (entry_of(old(self).connections@, *peer)->Some_0, now))
                } else {
                    old(self).pool@
                },
                now,
                old(self).pool_timeout_ms,
            ),
            final(self).connections@.len() <= old(self).connections@.len(),
    {
        let st = self.get_status(peer);
        let ghost old_conns = self.connections@;
        drop_peer(&mut self.connections, peer);
        proof {
            old_conns.lemma_filter_len(|e: (PeerId, ConnectionStatus)| e.0.bytes@ != peer.bytes@);
        }
        if healthy {
            match st {
                Some(status) => {
                    drop_peer(&mut self.pool, peer);
                    self.pool.push((*peer, (status, now)));
                },
                None => {},
            }
        }
        retain_fresh(&mut self.pool, now, self.pool_timeout_ms);
    }
}

/// The first entry of `p` in `s`, if any.
fn first_entry<V>(s: &Vec<(PeerId, V)>, p: &PeerId) -> (r: Option<usize>)
    ensures
        r is None <==> entry_of(s@, *p) is None,
        r matches Some(i) ==> i < s@.len() && entry_of(s@, *p) == Some(s@[i as int].1),
{
    let ghost f = |e: (PeerId, V)| e.0.bytes@ == p.bytes@;
    let mut i: usize = 0;
    proof {
        reveal(Seq::filter);
        assert(s@.take(0) =~= Seq::<(PeerId, V)>::empty());
    }
    while i < s.len()
        invariant
            0 <= i <= s@.len(),
            s@.take(i as int).filter(f).len() == 0,
            f == (|e: (PeerId, V)| e.0.bytes@ == p.bytes@),
        decreases s@.len() - i,
    {
        proof {
            assert(s@.take(i + 1).drop_last() =~= s@.take(i as int));
            reveal(Seq::filter);
        }
        if s[i].0.same_as(p) {
            proof {
                lemma_filter_after_prefix(s@, i as int, f);
            }
            return Some(i);
        }
        i = i + 1;
    }
    proof {
        assert(s@.take(i as int) =~= s@);
    }
    None
}

/// Keeps the pooled connections used less than `timeout_ms` before `now`.
fn retain_fresh(pool: &mut Vec<(PeerId, (ConnectionStatus, u64))>, now: u64, timeout_ms: u64)
    ensures
        final(pool)@ == fresh_pool(old(pool)@, now, timeout_ms),
{
    let mut rest: Vec<(PeerId, (ConnectionStatus, u64))> = Vec::new();
    std::mem::swap(&mut rest, pool);
    let ghost all = rest@;
    let ghost f = |e: (PeerId, (ConnectionStatus, u64))| since(e.1.1, now) < timeout_ms;
    let ghost mut k: int = 0;
    proof {
        assert(all.skip(0) =~= all);
        reveal(Seq::filter);
        assert(all.take(0) =~= Seq::<(PeerId, (ConnectionStatus, u64))>::empty());
    }
    while rest.len() > 0
        invariant
            0 <= k <= all.len(),
            rest@ == all.skip(k),
            pool@ == all.take(k).filter(f),
            all == old(pool)@,
            f == (|e: (PeerId, (ConnectionStatus, u64))| since(e.1.1, now) < timeout_ms),
        decreases rest@.len(),
    {
        let e = rest.remove(0);
        proof {
            assert(e == all[k]);
            assert(all.take(k + 1).drop_last() =~= all.take(k));
            reveal(Seq::filter);
            assert(rest@ =~= all.skip(k + 1));
        }
        let idle: u64 = if now > e.1.1 { now - e.1.1 } else { 0 };
        if idle < timeout_ms {
            pool.push(e);
        }
        proof {
            k = k + 1;
        }
    }
    proof {
        assert(all.take(k) =~= all);
    }
}

/// When the first `i` entries fail `f` and entry `i` passes, entry `i` is the
/// first entry of the filter.
proof fn lemma_filter_after_prefix<A>(s: Seq<A>, i: int, f: spec_fn(A) -> bool)
    requires
        0 <= i < s.len(),
        s.take(i).filter(f).len() == 0,
        f(s[i]),
    ensures
        s.filter(f).len() > 0,
        s.filter(f)[0] == s[i],
    decreases s.len(),
{
    reveal(Seq::filter);
    if i == s.len() - 1 {
        assert(s.drop_last() =~= s.take(i));
        assert(s.filter(f) == s.take(i).filter(f).push(s[i]));
    } else {
        assert(s.drop_last().take(i) =~= s.take(i));
        lemma_filter_after_prefix(s.drop_last(), i, f);
        assert(s.drop_last()[i] == s[i]);
        if f(s.last()) {
            assert(s.filter(f) == s.drop_last().filter(f).push(s.last()));
        } else {
            assert(s.filter(f) == s.drop_last().filter(f));
        }
    }
}

/// `(avg * n + sample) / (n + 1)`, rounded down: a running average of `n`
/// samples updated with one more.
pub open spec fn running_average(avg: u64, n: nat, sample: u64) -> u64 {
    ((avg * n + sample) / ((n + 1) as int)) as u64
}

fn running_average_of(avg: u64, n: u64, sample: u64) -> (r: u64)
    ensures
        r == running_average(avg, n as nat, sample),
{
    let a = avg as u128;
    let m = n as u128;
    proof {
        assert(a * m <= 0xffff_ffff_ffff_ffffu128 * 0xffff_ffff_ffff_ffffu128) by (nonlinear_arith)
            requires
                a <= 0xffff_ffff_ffff_ffffu128,
                m <= 0xffff_ffff_ffff_ffffu128,
        ;
    }
    let total: u128 = a * m + sample as u128;
    let q: u128 = total / (m + 1);
    proof {
        let ai = avg as int;
        let mi = n as int;
        let si = sample as int;
        let mx: int = if ai > si { ai } else { si };
        assert(ai * mi + si <= mx * (mi + 1)) by (nonlinear_arith)
            requires
                0 <= ai <= mx,
                0 <= si <= mx,
                mi >= 0,
        ;
        assert((ai * mi + si) / (mi + 1) <= mx) by (nonlinear_arith)
            requires
                0 <= ai * mi + si <= mx * (mi + 1),
                mi >= 0,
        ;
    }
    q as u64
}

/// Connection warming configuration; times in milliseconds.
#[derive(Debug, Clone, Copy)]
pub struct WarmingConfig {
    /// Whether connections are warmed
    pub enabled: bool,
    /// Smallest pool to keep
    pub min_pool_size: usize,
    /// Time allowed for warming
    pub warming_timeout_ms: u64,
    /// Retries of a failed warming
    pub warming_retries: u32,
}

/// The warming state of each peer and the warming statistics.
#[derive(Debug)]
pub struct WarmingManager {
    /// Configuration
    pub config: WarmingConfig,
    /// State of each peer that was warmed
    pub warming_states: Vec<(PeerId, WarmingState)>,
    /// Statistics
    pub stats: WarmingStats,
}

impl WarmingManager {
    /// No peer warmed yet.
    pub fn new(config: WarmingConfig) -> (r: WarmingManager)
        ensures
            r.config == config,
            r.warming_states@.len() == 0,
            r.stats == (WarmingStats { total_attempts: 0, successful_warmings: 0, failed_warmings: 0, avg_warming_time_ms: 0 }),
    {
        WarmingManager {
            config,
            warming_states: Vec::new(),
            stats: WarmingStats { total_attempts: 0, successful_warmings: 0, failed_warmings: 0, avg_warming_time_ms: 0 },
        }
    }

    /// Starts warming `peer`: `false` (and nothing changes) when warming is
    /// off, else the peer is marked as warming.
    pub fn begin_warming(&mut self, peer: PeerId) -> (r: bool)
        ensures
            r == old(self).config.enabled,
            final(self).config == old(self).config,
            final(self).stats == old(self).stats,
            r ==> final(self).warming_states@ == with_peer(old(self).warming_states@, peer, WarmingState::Warming),
            !r ==> final(self).warming_states@ == old(self).warming_states@,
    {
        if !self.config.enabled {
            return false;
        }
        drop_peer(&mut self.warming_states, &peer);
        self.warming_states.push((peer, WarmingState::Warming));
        true
    }

    /// Ends the warming of `peer`, which took `warming_ms`: on success the
    /// peer is warm and the success is counted into the average warming
    /// time; on failure it failed to warm (`Warming timeout`) and the
    /// failure is counted, with a connection error.
    pub fn finish_warming(&mut self, peer: PeerId, succeeded: bool, warming_ms: u64) -> (r: Result<(), crate::types::NetworkError>)
        requires
            old(self).stats.total_attempts < u64::MAX,
            old(self).stats.successful_warmings < u64::MAX,
            old(self).stats.failed_warmings < u64::MAX,
        ensures
            final(self).config == old(self).config,
            final(self).stats.total_attempts == old(self).stats.total_attempts + 1,
            succeeded ==> {
                &&& r is Ok
                &&& final(self).warming_states@ == with_peer(old(self).warming_states@, peer, WarmingState::Warm)
                &&& final(self).stats.successful_warmings == old(self).stats.successful_warmings + 1
                &&& final(self).stats.failed_warmings == old(self).stats.failed_warmings
                &&& final(self).stats.avg_warming_time_ms == running_average(
                    old(self).stats.avg_warming_time_ms,
                    (old(self).stats.successful_warmings + 1) as nat,
                    warming_ms,
                )
            },
            !succeeded ==> {
                &&& r matches Err(crate::types::NetworkError::ConnectionError(m)) && m@ == "Connection warming failed"@
                &&& final(self).warming_states@.len() > 0
                &&& final(self).warming_states@.drop_last() == without_peer(old(self).warming_states@, peer)
                &&& final(self).warming_states@.last().0 == peer
                &&& final(self).warming_states@.last().1 matches WarmingState::FailedToWarm(m) && m@ == "Warming timeout"@
                &&& final(self).stats.failed_warmings == old(self).stats.failed_warmings + 1
                &&& final(self).stats.successful_warmings == old(self).stats.successful_warmings
                &&& final(self).stats.avg_warming_time_ms == old(self).stats.avg_warming_time_ms
            },
    {
        self.stats.total_attempts = self.stats.total_attempts + 1;
        drop_peer(&mut self.warming_states, &peer);
        if succeeded {
            self.warming_states.push((peer, WarmingState::Warm));
            self.stats.successful_warmings = self.stats.successful_warmings + 1;
            self.stats.avg_warming_time_ms = running_average_of(
                self.stats.avg_warming_time_ms,
                self.stats.successful_warmings,
                warming_ms,
            );
            Ok(())
        } else {
            self.warming_states.push((peer, WarmingState::FailedToWarm(String::from_str("Warming timeout"))));
            self.stats.failed_warmings = self.stats.failed_warmings + 1;
            Err(crate::types::NetworkError::ConnectionError(String::from_str("Connection warming failed")))
        }
    }

    /// The warming state of `peer`; `Cold` when it was never warmed.
    pub fn get_warming_state(&self, peer: &PeerId) -> (r: WarmingState)
        ensures
            r == match entry_of(self.warming_states@, *peer) {
                Some(st) => st,
                None => WarmingState::Cold,
            },
    {
        match first_entry(&self.warming_states, peer) {
            Some(i) => self.warming_states[i].1.duplicate(),
            None => WarmingState::Cold,
        }
    }
}

/// The outcome of a health check; times in milliseconds.
#[derive(Debug, Clone)]
pub struct HealthCheckResult {
    /// When the check was made
    pub timestamp_ms: u64,
    /// Whether it succeeded
    pub success: bool,
    /// How long it took
    pub response_time_ms: u64,
    /// Why it failed
    pub error: Option<String>,
}

impl PingHealthCheck {
    /// The result of a ping made at `now` that took `response_ms`: it
    /// succeeds when the connection is healthy and the ping came back
    /// (`answered`), and otherwise fails with `Ping timeout`.
    pub fn check_at(&self, connection_healthy: bool, answered: bool, response_ms: u64, now: u64) -> (r: HealthCheckResult)
        ensures
            r.timestamp_ms == now,
            r.response_time_ms == response_ms,
            r.success == (connection_healthy && answered),
            r.success ==> r.error is None,
            !r.success ==> (r.error matches Some(m) && m@ == "Ping timeout"@),
    {
        let success = connection_healthy && answered;
        let error = if success { None } else { Some(String::from_str("Ping timeout")) };
        HealthCheckResult { timestamp_ms: now, success, response_time_ms: response_ms, error }
    }
}

/// Health checks: the schedule of each monitored peer, the latest result of
/// each checked peer, and the statistics.
#[derive(Debug)]
pub struct HealthMonitor {
    /// Configuration
    pub config: HealthCheckConfig,
    /// Latest result of each checked peer
    pub results: Vec<(PeerId, HealthCheckResult)>,
    /// Schedule
    pub scheduler: HealthCheckScheduler,
    /// Statistics
    pub stats: HealthStats,
}

impl HealthMonitor {
    /// Nothing monitored yet.
    pub fn new(config: HealthCheckConfig) -> (r: HealthMonitor)
        ensures
            r.config == config,
            r.results@.len() == 0,
            r.scheduler.scheduled_checks@.len() == 0,
            r.scheduler.check_intervals@.len() == 0,
            r.stats == (HealthStats { total_checks: 0, successful_checks: 0, failed_checks: 0, avg_response_time_ms: 0 }),
    {
        HealthMonitor {
            config,
            results: Vec::new(),
            scheduler: HealthCheckScheduler { scheduled_checks: Vec::new(), check_intervals: Vec::new() },
            stats: HealthStats { total_checks: 0, successful_checks: 0, failed_checks: 0, avg_response_time_ms: 0 },
        }
    }

    /// Starts monitoring `peer` at `now`: its next check is one interval
    /// away, and its interval is the configured one.
    pub fn start_monitoring_at(&mut self, peer: PeerId, now: u64)
        requires
            now + old(self).config.interval_ms <= u64::MAX,
        ensures
            final(self).config == old(self).config,
            final(self).results@ == old(self).results@,
            final(self).stats == old(self).stats,
            final(self).scheduler.scheduled_checks@ == with_peer(
                old(self).scheduler.scheduled_checks@,
                peer,
                (now + old(self).config.interval_ms) as u64,
            ),
            final(self).scheduler.check_intervals@ == with_peer(
                old(self).scheduler.check_intervals@,
                peer,
                old(self).config.interval_ms,
            ),
    {
        let next = now + self.config.interval_ms;
        drop_peer(&mut self.scheduler.scheduled_checks, &peer);
        self.scheduler.scheduled_checks.push((peer, next));
        drop_peer(&mut self.scheduler.check_intervals, &peer);
        self.scheduler.check_intervals.push((peer, self.config.interval_ms));
    }

    /// Records the result of a check of `peer`: it becomes the peer's latest
    /// result, and the statistics count it and fold its response time into
    /// the average.
    pub fn record_check(&mut self, peer: PeerId, result: HealthCheckResult)
        requires
            old(self).stats.total_checks < u64::MAX,
            old(self).stats.successful_checks < u64::MAX,
            old(self).stats.failed_checks < u64::MAX,
        ensures
            final(self).config == old(self).config,
            final(self).scheduler == old(self).scheduler,
            final(self).results@ == with_peer(old(self).results@, peer, result),
            final(self).stats.total_checks == old(self).stats.total_checks + 1,
            result.success ==> final(self).stats.successful_checks == old(self).stats.successful_checks + 1
                && final(self).stats.failed_checks == old(self).stats.failed_checks,
            !result.success ==> final(self).stats.failed_checks == old(self).stats.failed_checks + 1
                && final(self).stats.successful_checks == old(self).stats.successful_checks,
            final(self).stats.avg_response_time_ms == running_average(
                old(self).stats.avg_response_time_ms,
                (old(self).stats.total_checks + 1) as nat,
                result.response_time_ms,
            ),
    {
        let success = result.success;
        let rt = result.response_time_ms;
        drop_peer(&mut self.results, &peer);
        self.results.push((peer, result));
        self.stats.total_checks = self.stats.total_checks + 1;
        if success {
            self.stats.successful_checks = self.stats.successful_checks + 1;
        } else {
            self.stats.failed_checks = self.stats.failed_checks + 1;
        }
        self.stats.avg_response_time_ms = running_average_of(self.stats.avg_response_time_ms, self.stats.total_checks, rt);
    }

    /// The latest result of `peer`, if it was checked.
    pub fn get_health_result(&self, peer: &PeerId) -> (r: Option<&HealthCheckResult>)
        ensures
            r matches Some(x) ==> entry_of(self.results@, *peer) == Some(*x),
            r is None <==> entry_of(self.results@, *peer) is None,
    {
        match first_entry(&self.results, peer) {
            Some(i) => Some(&self.results[i].1),
            None => None,
        }
    }
}

impl ConnectionTable {
    /// Sets the limits: the most connections becomes `limits.max_total`
    /// (active connections beyond it stay until they close).
    pub fn set_connection_limits(&mut self, limits: ConnectionLimits)
        ensures
            final(self).max_connections == limits.max_total,
            final(self).pool_timeout_ms == old(self).pool_timeout_ms,
            final(self).connections@ == old(self).connections@,
            final(self).pool@ == old(self).pool@,
    {
        self.max_connections = limits.max_total;
    }
}

/// Attempts at recovering a connection before giving up.
pub const RECOVERY_ATTEMPTS: u32 = 5;

/// `2^e`.
pub open spec fn power_of_two(e: nat) -> nat
    decreases e,
{
    if e == 0 { 1 } else { 2 * power_of_two((e - 1) as nat) }
}

/// After the `failures`-th failed recovery attempt (counting from one):
/// `None` to give up, once `RECOVERY_ATTEMPTS` attempts have failed, else
/// the wait before the next attempt, `100 * 2^failures` milliseconds.
pub fn recovery_backoff(failures: u32) -> (r: Option<u64>)
    requires
        failures >= 1,
    ensures
        failures >= RECOVERY_ATTEMPTS ==> r is None,
        failures < RECOVERY_ATTEMPTS ==> r == Some((100 * power_of_two(failures as nat)) as u64),
{
    if failures >= RECOVERY_ATTEMPTS {
        return None;
    }
    let mut wait: u64 = 100;
    let mut k: u32 = 0;
    while k < failures
        invariant
            0 <= k <= failures < RECOVERY_ATTEMPTS,
            wait == 100 * power_of_two(k as nat),
            wait <= 1600,
        decreases failures - k,
    {
        wait = wait * 2;
        k = k + 1;
        proof {
            assert(power_of_two(k as nat) == 2 * power_of_two((k - 1) as nat));
            assert(k <= 4);
            reveal_with_fuel(power_of_two, 5);
        }
    }
    Some(wait)
}

/// Whether a connection needs attention: it failed, it is disconnected, or
/// it is not healthy.
pub fn needs_recovery(status: &crate::types::ConnectionStatus, healthy: bool) -> (r: bool)
    ensures
        r == (status is Failed || status is Disconnected || !healthy),
{
    match status {
        crate::types::ConnectionStatus::Failed(_) => true,
        crate::types::ConnectionStatus::Disconnected => true,
        _ => !healthy,
    }
}

} // verus!
