//! Per-peer circuit breakers with a time-based sliding window of outcomes.
//!
//! Time is passed explicitly as nanoseconds on a monotone clock; the methods
//! without an `_at` suffix read the system clock and delegate.

use vstd::prelude::*;
use crate::clock::now_nanos;
use crate::types::PeerId;

verus! {

/// Circuit breaker state.
#[derive(Debug, Clone, Copy, PartialEq, Eq, Structural)]
pub enum CircuitState {
    /// Requests are allowed
    Closed,
    /// Requests are blocked
    Open,
    /// A limited number of trial requests is allowed
    HalfOpen,
}

/// Circuit breaker configuration.
#[derive(Debug, Clone, Copy)]
pub struct CircuitBreakerConfig {
    /// Consecutive failures that trigger a failure-rate check
    pub failure_threshold: u32,
    /// Consecutive half-open successes that close the circuit
    pub success_threshold: u32,
    /// Time an open circuit waits before half-opening, in nanoseconds
    pub timeout_ns: u64,
    /// Failure rate, in thousandths, at or above which the circuit opens
    pub failure_rate_threshold_permille: u32,
    /// Minimum number of requests in the window for the rate to count
    pub min_requests: u32,
    /// Length of the rolling window, in nanoseconds
    pub window_ns: u64,
    /// Maximum concurrent half-open requests
    pub half_open_max_requests: u32,
}

/// One second, in nanoseconds.
pub const NANOS_PER_SEC: u64 = 1_000_000_000;

impl CircuitBreakerConfig {
    /// The default configuration: 5 failures, 3 successes, 60 s timeout,
    /// 50% failure rate, 10 requests, 60 s window, 1 half-open request.
    pub open spec fn spec_default() -> CircuitBreakerConfig {
        CircuitBreakerConfig {
            failure_threshold: 5,
            success_threshold: 3,
            timeout_ns: 60_000_000_000,
            failure_rate_threshold_permille: 500,
            min_requests: 10,
            window_ns: 60_000_000_000,
            half_open_max_requests: 1,
        }
    }
}

impl Default for CircuitBreakerConfig {
    fn default() -> (r: Self)
        ensures
            r == CircuitBreakerConfig::spec_default(),
    {
        CircuitBreakerConfig {
            failure_threshold: 5,
            success_threshold: 3,
            timeout_ns: 60 * NANOS_PER_SEC,
            failure_rate_threshold_permille: 500,
            min_requests: 10,
            window_ns: 60 * NANOS_PER_SEC,
            half_open_max_requests: 1,
        }
    }
}

/// Circuit breaker statistics.
#[derive(Debug, Clone, Copy)]
pub struct CircuitBreakerStats {
    /// Total recorded outcomes
    pub total_requests: u64,
    /// Recorded successes
    pub successful_requests: u64,
    /// Recorded failures
    pub failed_requests: u64,
    /// Requests rejected while open or saturated half-open
    pub rejected_requests: u64,
    /// Failures currently in the rolling window
    pub window_failures: u64,
    /// Outcomes currently in the rolling window
    pub window_requests: u64,
    /// Number of state changes
    pub state_changes: u64,
    /// Time of the last state change
    pub last_state_change: Option<u64>,
    /// Time spent closed, in nanoseconds
    pub time_in_closed: u64,
    /// Time spent open, in nanoseconds
    pub time_in_open: u64,
    /// Time spent half-open, in nanoseconds
    pub time_in_half_open: u64,
}

impl CircuitBreakerStats {
    /// All counters zero, no state change seen.
    pub open spec fn spec_zero() -> CircuitBreakerStats {
        CircuitBreakerStats {
            total_requests: 0,
            successful_requests: 0,
            failed_requests: 0,
            rejected_requests: 0,
            window_failures: 0,
            window_requests: 0,
            state_changes: 0,
            last_state_change: None,
            time_in_closed: 0,
            time_in_open: 0,
            time_in_half_open: 0,
        }
    }

    /// Zeroed statistics.
    pub fn zero() -> (r: Self)
        ensures
            r == CircuitBreakerStats::spec_zero(),
    {
        CircuitBreakerStats {
            total_requests: 0,
            successful_requests: 0,
            failed_requests: 0,
            rejected_requests: 0,
            window_failures: 0,
            window_requests: 0,
            state_changes: 0,
            last_state_change: None,
            time_in_closed: 0,
            time_in_open: 0,
            time_in_half_open: 0,
        }
    }
}

/// Number of outcomes in `s` whose success flag is `success`.
pub open spec fn count_outcomes(s: Seq<(u64, bool)>, success: bool) -> nat
    decreases s.len(),
{
    if s.len() == 0 {
        0
    } else {
        count_outcomes(s.drop_last(), success) + if s.last().1 == success {
            1nat
        } else {
            0nat
        }
    }
}

/// Counting outcomes distributes over concatenation.
pub proof fn lemma_count_concat(a: Seq<(u64, bool)>, b: Seq<(u64, bool)>, success: bool)
    ensures
        count_outcomes(a + b, success) == count_outcomes(a, success) + count_outcomes(b, success),
    decreases b.len(),
{
    if b.len() == 0 {
        assert(a + b =~= a);
    } else {
        lemma_count_concat(a, b.drop_last(), success);
        assert((a + b).drop_last() =~= a + b.drop_last());
    }
}

/// A count never exceeds the length.
pub proof fn lemma_count_le_len(s: Seq<(u64, bool)>, success: bool)
    ensures
        count_outcomes(s, success) <= s.len(),
    decreases s.len(),
{
    if s.len() > 0 {
        lemma_count_le_len(s.drop_last(), success);
    }
}

/// Successes and failures together are all outcomes.
pub proof fn lemma_count_total(s: Seq<(u64, bool)>)
    ensures
        count_outcomes(s, true) + count_outcomes(s, false) == s.len(),
    decreases s.len(),
{
    if s.len() > 0 {
        lemma_count_total(s.drop_last());
    }
}

/// Whether `failures` out of `total` reaches the rate `permille / 1000`
/// (an empty window has rate zero).
pub open spec fn rate_reaches(failures: nat, total: nat, permille: nat) -> bool {
    if total == 0 {
        permille == 0
    } else {
        failures * 1000 >= permille * total
    }
}

/// Outcomes in non-decreasing order of time.
pub open spec fn time_sorted(s: Seq<(u64, bool)>) -> bool {
    forall|i: int, j: int| 0 <= i <= j < s.len() ==> (#[trigger] s[i]).0 <= (#[trigger] s[j]).0
}

/// `kept` is the suffix of `s` made of exactly the outcomes at or after `cutoff`.
pub open spec fn keeps_exactly_recent(s: Seq<(u64, bool)>, kept: Seq<(u64, bool)>, cutoff: int) -> bool {
    &&& kept.len() <= s.len()
    &&& kept == s.skip(s.len() - kept.len())
    &&& forall|i: int| 0 <= i < s.len() ==> ((#[trigger] s[i]).0 >= cutoff <==> i >= s.len() - kept.len())
}

/// Cleaning a window whose outcomes are in time order keeps exactly the
/// outcomes recorded at or after the cutoff, in their order, and the
/// successes and failures left add up to the outcomes left.
pub proof fn law_cleanup_keeps_exactly_recent(s: Seq<(u64, bool)>, kept: Seq<(u64, bool)>, cutoff: int)
    requires
        time_sorted(s),
        SlidingWindow::drops_stale_prefix(s, kept, cutoff),
    ensures
        keeps_exactly_recent(s, kept, cutoff),
        time_sorted(kept),
        count_outcomes(kept, true) + count_outcomes(kept, false) == kept.len(),
{
    let k = choose|k: int|
        0 <= k <= s.len() && kept == s.skip(k) && (forall|i: int| 0 <= i < k ==> (#[trigger] s[i]).0 < cutoff)
            && (k < s.len() ==> s[k].0 >= cutoff);
    assert(s.len() - kept.len() == k);
    assert forall|i: int| 0 <= i < s.len() implies ((#[trigger] s[i]).0 >= cutoff <==> i >= s.len() - kept.len()) by {
        if i >= k {
            assert(s[k].0 <= s[i].0);
        }
    }
    assert forall|i: int, j: int| 0 <= i <= j < kept.len() implies (#[trigger] kept[i]).0 <= (#[trigger] kept[j]).0 by {
        assert(kept[i] == s[i + k]);
        assert(kept[j] == s[j + k]);
    }
    lemma_count_total(kept);
}

/// Time-based sliding window of request outcomes `(time, success)`.
#[derive(Debug, Clone)]
pub struct SlidingWindow {
    /// Window length, in nanoseconds
    pub duration_ns: u64,
    /// Outcomes in arrival order
    pub outcomes: Vec<(u64, bool)>,
    /// Successes in `outcomes`
    pub success_count: usize,
    /// Failures in `outcomes`
    pub failure_count: usize,
}

impl SlidingWindow {
    /// The counters agree with the recorded outcomes.
    pub open spec fn wf(&self) -> bool {
        &&& self.success_count == count_outcomes(self.outcomes@, true)
        &&& self.failure_count == count_outcomes(self.outcomes@, false)
    }

    /// Start of the window at time `now`.
    pub open spec fn cutoff(&self, now: u64) -> int {
        if now >= self.duration_ns {
            now - self.duration_ns
        } else {
            0
        }
    }

    /// `kept` is `s` without its longest prefix of outcomes older than `cutoff`.
    pub open spec fn drops_stale_prefix(s: Seq<(u64, bool)>, kept: Seq<(u64, bool)>, cutoff: int) -> bool {
        exists|k: int|
            0 <= k <= s.len() && kept == s.skip(k) && (forall|i: int| 0 <= i < k ==> (#[trigger] s[i]).0 < cutoff)
                && (k < s.len() ==> s[k].0 >= cutoff)
    }

    /// An empty window of the given length.
    pub fn new(duration_ns: u64) -> (r: Self)
        ensures
            r.wf(),
            r.duration_ns == duration_ns,
            r.outcomes@.len() == 0,
    {
        SlidingWindow { duration_ns, outcomes: Vec::new(), success_count: 0, failure_count: 0 }
    }

    /// Records an outcome at time `now`, then drops outcomes older than the window.
    pub fn record(&mut self, success: bool, now: u64)
        requires
            old(self).wf(),
        ensures
            final(self).wf(),
            final(self).duration_ns == old(self).duration_ns,
            SlidingWindow::drops_stale_prefix(
                old(self).outcomes@.push((now, success)),
                final(self).outcomes@,
                old(self).cutoff(now),
            ),
            time_sorted(old(self).outcomes@) && (forall|i: int|
                0 <= i < old(self).outcomes@.len() ==> (#[trigger] old(self).outcomes@[i]).0 <= now)
                ==> time_sorted(final(self).outcomes@),
    {
        self.outcomes.push((now, success));
        let _n = self.outcomes.len();
        proof {
            let s0 = old(self).outcomes@;
            assert(self.outcomes@.drop_last() =~= s0);
            lemma_count_le_len(self.outcomes@, success);
            if time_sorted(s0) && (forall|i: int| 0 <= i < s0.len() ==> (#[trigger] s0[i]).0 <= now) {
                assert forall|i: int, j: int| 0 <= i <= j < self.outcomes@.len() implies
                    (#[trigger] self.outcomes@[i]).0 <= (#[trigger] self.outcomes@[j]).0 by {
                    if j < s0.len() {
                        assert(self.outcomes@[i] == s0[i]);
                        assert(self.outcomes@[j] == s0[j]);
                    } else if i < s0.len() {
                        assert(self.outcomes@[i] == s0[i]);
                    }
                }
            }
        }
        if success {
            self.success_count = self.success_count + 1;
        } else {
            self.failure_count = self.failure_count + 1;
        }
        self.cleanup(now);
    }

    /// Drops the outcomes older than the window ending at `now`.
    pub fn cleanup(&mut self, now: u64)
        requires
            old(self).wf(),
        ensures
            final(self).wf(),
            final(self).duration_ns == old(self).duration_ns,
            SlidingWindow::drops_stale_prefix(old(self).outcomes@, final(self).outcomes@, old(self).cutoff(now)),
            time_sorted(old(self).outcomes@) ==> keeps_exactly_recent(
                old(self).outcomes@,
                final(self).outcomes@,
                old(self).cutoff(now),
            ),
            time_sorted(old(self).outcomes@) ==> time_sorted(final(self).outcomes@),
    {
        let cutoff: u64 = if now >= self.duration_ns {
            now - self.duration_ns
        } else {
            0
        };
        let ghost s = self.outcomes@;
        let mut i: usize = 0;
        while i < self.outcomes.len() && self.outcomes[i].0 < cutoff
            invariant
                0 <= i <= s.len(),
                self.outcomes@ == s,
                self.duration_ns == old(self).duration_ns,
                cutoff == old(self).cutoff(now),
                forall|j: int| 0 <= j < i ==> (#[trigger] s[j]).0 < cutoff,
                self.success_count + count_outcomes(s.take(i as int), true) == count_outcomes(s, true),
                self.failure_count + count_outcomes(s.take(i as int), false) == count_outcomes(s, false),
            decreases s.len() - i,
        {
            proof {
                assert(s.take(i + 1).drop_last() =~= s.take(i as int));
                lemma_count_concat(s.take(i + 1), s.skip(i + 1), true);
                lemma_count_concat(s.take(i + 1), s.skip(i + 1), false);
                assert(s.take(i + 1) + s.skip(i + 1) =~= s);
            }
            if self.outcomes[i].1 {
                self.success_count = self.success_count - 1;
            } else {
                self.failure_count = self.failure_count - 1;
            }
            i = i + 1;
        }
        let tail = self.outcomes.split_off(i);
        self.outcomes = tail;
        proof {
            lemma_count_concat(s.take(i as int), s.skip(i as int), true);
            lemma_count_concat(s.take(i as int), s.skip(i as int), false);
            assert(s.take(i as int) + s.skip(i as int) =~= s);
            assert(self.outcomes@ =~= s.skip(i as int));
            assert(SlidingWindow::drops_stale_prefix(s, self.outcomes@, cutoff as int));
            if time_sorted(s) {
                law_cleanup_keeps_exactly_recent(s, self.outcomes@, cutoff as int);
            }
        }
    }

    /// Number of outcomes in the window.
    pub fn total_requests(&self) -> (r: usize)
        requires
            self.wf(),
        ensures
            r == self.outcomes@.len(),
    {
        let _n = self.outcomes.len();
        proof {
            lemma_count_total(self.outcomes@);
        }
        self.success_count + self.failure_count
    }

    /// Number of failures in the window.
    pub fn failure_count(&self) -> (r: usize)
        requires
            self.wf(),
        ensures
            r == count_outcomes(self.outcomes@, false),
    {
        self.failure_count
    }

    /// Whether the window's failure rate is at least `permille / 1000`.
    pub fn failure_rate_reaches(&self, permille: u32) -> (r: bool)
        requires
            self.wf(),
        ensures
            r == rate_reaches(count_outcomes(self.outcomes@, false), self.outcomes@.len(), permille as nat),
    {
        let total = self.total_requests();
        if total == 0 {
            permille == 0
        } else {
            let p = permille as u128;
            let t = total as u128;
            proof {
                assert(p * t <= 0xffff_ffffu128 * 0xffff_ffff_ffff_ffffu128) by (nonlinear_arith)
                    requires
                        p <= 0xffff_ffffu128,
                        t <= 0xffff_ffff_ffff_ffffu128,
                ;
            }
            (self.failure_count as u128) * 1000 >= p * t
        }
    }

    /// Empties the window.
    pub fn reset(&mut self)
        ensures
            final(self).wf(),
            final(self).duration_ns == old(self).duration_ns,
            final(self).outcomes@.len() == 0,
    {
        self.outcomes.clear();
        self.success_count = 0;
        self.failure_count = 0;
    }
}


/// Statistics after recording one outcome.
pub open spec fn stats_recorded(st: CircuitBreakerStats, success: bool) -> CircuitBreakerStats {
    CircuitBreakerStats {
        total_requests: st.total_requests.wrapping_add(1),
        successful_requests: if success {
            st.successful_requests.wrapping_add(1)
        } else {
            st.successful_requests
        },
        failed_requests: if success {
            st.failed_requests
        } else {
            st.failed_requests.wrapping_add(1)
        },
        ..st
    }
}

/// Statistics after a state change out of `from` at time `now`: the time
/// since the previous change is charged to `from`.
pub open spec fn stats_changed(st: CircuitBreakerStats, from: CircuitState, now: u64) -> CircuitBreakerStats {
    let elapsed: u64 = match st.last_state_change {
        Some(l) => now.saturating_sub(l),
        None => 0,
    };
    let seen = st.last_state_change is Some;
    CircuitBreakerStats {
        state_changes: st.state_changes.wrapping_add(1),
        last_state_change: Some(now),
        time_in_closed: if seen && from == CircuitState::Closed {
            st.time_in_closed.saturating_add(elapsed)
        } else {
            st.time_in_closed
        },
        time_in_open: if seen && from == CircuitState::Open {
            st.time_in_open.saturating_add(elapsed)
        } else {
            st.time_in_open
        },
        time_in_half_open: if seen && from == CircuitState::HalfOpen {
            st.time_in_half_open.saturating_add(elapsed)
        } else {
            st.time_in_half_open
        },
        ..st
    }
}

/// Circuit breaker for one peer.
#[derive(Debug, Clone)]
pub struct CircuitBreaker {
    /// Configuration
    pub config: CircuitBreakerConfig,
    /// Current state
    pub state: CircuitState,
    /// Time of the last transition
    pub state_changed_at: u64,
    /// Consecutive failures while closed
    pub consecutive_failures: usize,
    /// Consecutive successes while half-open
    pub consecutive_successes: usize,
    /// Half-open requests in flight
    pub half_open_requests: usize,
    /// Rolling window of outcomes
    pub window: SlidingWindow,
    /// Statistics
    pub stats: CircuitBreakerStats,
}

impl CircuitBreaker {
    /// Internal consistency: the window is well formed and has the configured length.
    pub open spec fn wf(&self) -> bool {
        &&& self.window.wf()
        &&& self.window.duration_ns == self.config.window_ns
    }

    /// Everything but the state-related fields is unchanged.
    pub open spec fn same_except_state(&self, other: &CircuitBreaker) -> bool {
        &&& self.config == other.config
        &&& self.window.outcomes@ == other.window.outcomes@
    }

    /// How `allow_request_at` at time `now` turns `o` into `n`, answering `allowed`.
    pub open spec fn allow_relation(o: CircuitBreaker, n: CircuitBreaker, now: u64, allowed: bool) -> bool {
        &&& n.wf()
        &&& n.config == o.config
        &&& match o.state {
                CircuitState::Closed => allowed && n == o,
                CircuitState::Open => if now.saturating_sub(o.state_changed_at) >= o.config.timeout_ns {
                    &&& allowed
                    &&& n.state == CircuitState::HalfOpen
                    &&& n.state_changed_at == now
                    &&& n.consecutive_failures == o.consecutive_failures
                    &&& n.consecutive_successes == 0
                    &&& n.half_open_requests == 1
                    &&& n.window.outcomes@.len() == 0
                    &&& n.stats == stats_changed(o.stats, CircuitState::Open, now)
                } else {
                    &&& !allowed
                    &&& n.stats == (CircuitBreakerStats {
                        rejected_requests: o.stats.rejected_requests.wrapping_add(1),
                        ..o.stats
                    })
                    &&& n.state == o.state
                    &&& n.state_changed_at == o.state_changed_at
                    &&& n.window == o.window
                    &&& n.consecutive_failures == o.consecutive_failures
                    &&& n.consecutive_successes == o.consecutive_successes
                    &&& n.half_open_requests == o.half_open_requests
                },
                CircuitState::HalfOpen => {
                    &&& allowed == (o.half_open_requests < o.config.half_open_max_requests)
                    &&& n.state == CircuitState::HalfOpen
                    &&& n.state_changed_at == o.state_changed_at
                    &&& n.window == o.window
                    &&& n.consecutive_failures == o.consecutive_failures
                    &&& n.consecutive_successes == o.consecutive_successes
                    &&& if allowed {
                        &&& n.half_open_requests == o.half_open_requests + 1
                        &&& n.stats == o.stats
                    } else {
                        &&& n.half_open_requests == o.half_open_requests
                        &&& n.stats == (CircuitBreakerStats {
                            rejected_requests: o.stats.rejected_requests.wrapping_add(1),
                            ..o.stats
                        })
                    }
                },
            }
    }

    /// How `record_outcome_at` of `success` at time `now` turns `o` into `n`.
    pub open spec fn record_relation(o: CircuitBreaker, n: CircuitBreaker, success: bool, now: u64) -> bool {
        &&& n.wf()
        &&& n.config == o.config
        &&& SlidingWindow::drops_stale_prefix(
                o.window.outcomes@.push((now, success)),
                n.window.outcomes@,
                o.window.cutoff(now),
            )
        &&& ({
                let st = stats_recorded(o.stats, success);
                let w = n.window.outcomes@;
                match o.state {
                    CircuitState::Closed => if success {
                        &&& n.state == CircuitState::Closed
                        &&& n.consecutive_failures == 0
                        &&& n.consecutive_successes == o.consecutive_successes
                        &&& n.state_changed_at == o.state_changed_at
                        &&& n.half_open_requests == o.half_open_requests
                        &&& n.stats == st
                    } else {
                        let f = o.consecutive_failures.wrapping_add(1);
                        let trips = f >= o.config.failure_threshold
                            && (w.len() < o.config.min_requests
                                || rate_reaches(count_outcomes(w, false), w.len(),
                                    o.config.failure_rate_threshold_permille as nat));
                        &&& n.half_open_requests == o.half_open_requests
                        &&& if trips {
                            &&& n.state == CircuitState::Open
                            &&& n.state_changed_at == now
                            &&& n.consecutive_failures == 0
                            &&& n.consecutive_successes == 0
                            &&& n.stats == stats_changed(st, CircuitState::Closed, now)
                        } else {
                            &&& n.state == CircuitState::Closed
                            &&& n.consecutive_failures == f
                            &&& n.consecutive_successes == o.consecutive_successes
                            &&& n.state_changed_at == o.state_changed_at
                            &&& n.stats == st
                        }
                    },
                    CircuitState::Open => {
                        &&& n.state == CircuitState::Open
                        &&& n.consecutive_failures == o.consecutive_failures
                        &&& n.consecutive_successes == o.consecutive_successes
                        &&& n.state_changed_at == o.state_changed_at
                        &&& n.half_open_requests == o.half_open_requests
                        &&& n.stats == st
                    },
                    CircuitState::HalfOpen => {
                        let s = o.consecutive_successes.wrapping_add(1);
                        &&& n.half_open_requests == o.half_open_requests.wrapping_sub(1)
                        &&& if !success {
                            &&& n.state == CircuitState::Open
                            &&& n.state_changed_at == now
                            &&& n.consecutive_failures == 0
                            &&& n.consecutive_successes == 0
                            &&& n.stats == stats_changed(st, CircuitState::HalfOpen, now)
                        } else if s >= o.config.success_threshold {
                            &&& n.state == CircuitState::Closed
                            &&& n.state_changed_at == now
                            &&& n.consecutive_failures == 0
                            &&& n.consecutive_successes == 0
                            &&& n.stats == stats_changed(st, CircuitState::HalfOpen, now)
                        } else {
                            &&& n.state == CircuitState::HalfOpen
                            &&& n.consecutive_successes == s
                            &&& n.consecutive_failures == o.consecutive_failures
                            &&& n.state_changed_at == o.state_changed_at
                            &&& n.stats == st
                        }
                    },
                }
            })
    }

    /// A closed breaker with empty window and zeroed statistics, created at `now`.
    pub fn new_at(config: CircuitBreakerConfig, now: u64) -> (r: Self)
        ensures
            r.wf(),
            r.config == config,
            r.state == CircuitState::Closed,
            r.state_changed_at == now,
            r.consecutive_failures == 0,
            r.consecutive_successes == 0,
            r.half_open_requests == 0,
            r.window.outcomes@.len() == 0,
            r.stats == CircuitBreakerStats::spec_zero(),
    {
        CircuitBreaker {
            config,
            state: CircuitState::Closed,
            state_changed_at: now,
            consecutive_failures: 0,
            consecutive_successes: 0,
            half_open_requests: 0,
            window: SlidingWindow::new(config.window_ns),
            stats: CircuitBreakerStats::zero(),
        }
    }

    /// A closed breaker created now.
    pub fn new(config: CircuitBreakerConfig) -> (r: Self)
        ensures
            r.wf(),
            r.config == config,
            r.state == CircuitState::Closed,
            r.consecutive_failures == 0,
            r.consecutive_successes == 0,
            r.half_open_requests == 0,
            r.window.outcomes@.len() == 0,
            r.stats == CircuitBreakerStats::spec_zero(),
    {
        CircuitBreaker::new_at(config, now_nanos())
    }

    fn change_state(&mut self, to: CircuitState, now: u64)
        ensures
            final(self).state == to,
            final(self).state_changed_at == now,
            final(self).stats == stats_changed(old(self).stats, old(self).state, now),
            final(self).config == old(self).config,
            final(self).window == old(self).window,
            final(self).consecutive_failures == old(self).consecutive_failures,
            final(self).consecutive_successes == old(self).consecutive_successes,
            final(self).half_open_requests == old(self).half_open_requests,
    {
        let from = self.state;
        self.state = to;
        self.state_changed_at = now;
        self.stats.state_changes = self.stats.state_changes.wrapping_add(1);
        match self.stats.last_state_change {
            Some(last) => {
                let elapsed = now.saturating_sub(last);
                match from {
                    CircuitState::Closed => {
                        self.stats.time_in_closed = self.stats.time_in_closed.saturating_add(elapsed);
                    },
                    CircuitState::Open => {
                        self.stats.time_in_open = self.stats.time_in_open.saturating_add(elapsed);
                    },
                    CircuitState::HalfOpen => {
                        self.stats.time_in_half_open = self.stats.time_in_half_open.saturating_add(
                            elapsed,
                        );
                    },
                }
            },
            None => {},
        }
        self.stats.last_state_change = Some(now);
    }

    /// Opens the circuit unless it is already open.
    fn transition_to_open(&mut self, now: u64)
        requires
            old(self).wf(),
        ensures
            final(self).wf(),
            final(self).state == CircuitState::Open,
            final(self).config == old(self).config,
            final(self).window == old(self).window,
            final(self).half_open_requests == old(self).half_open_requests,
            old(self).state != CircuitState::Open ==> {
                &&& final(self).state_changed_at == now
                &&& final(self).consecutive_failures == 0
                &&& final(self).consecutive_successes == 0
                &&& final(self).stats == stats_changed(old(self).stats, old(self).state, now)
            },
            old(self).state == CircuitState::Open ==> *final(self) == *old(self),
    {
        if self.state != CircuitState::Open {
            self.change_state(CircuitState::Open, now);
            self.consecutive_failures = 0;
            self.consecutive_successes = 0;
        }
    }

    /// Half-opens an open circuit with a fresh window.
    fn transition_to_half_open(&mut self, now: u64)
        requires
            old(self).wf(),
            old(self).state == CircuitState::Open,
        ensures
            final(self).wf(),
            final(self).state == CircuitState::HalfOpen,
            final(self).config == old(self).config,
            final(self).state_changed_at == now,
            final(self).consecutive_failures == old(self).consecutive_failures,
            final(self).consecutive_successes == 0,
            final(self).half_open_requests == 0,
            final(self).window.outcomes@.len() == 0,
            final(self).stats == stats_changed(old(self).stats, CircuitState::Open, now),
    {
        self.change_state(CircuitState::HalfOpen, now);
        self.consecutive_successes = 0;
        self.half_open_requests = 0;
        self.window.reset();
    }

    /// Closes the circuit unless it is already closed.
    fn transition_to_closed(&mut self, now: u64)
        requires
            old(self).wf(),
        ensures
            final(self).wf(),
            final(self).state == CircuitState::Closed,
            final(self).config == old(self).config,
            final(self).window == old(self).window,
            final(self).half_open_requests == old(self).half_open_requests,
            old(self).state != CircuitState::Closed ==> {
                &&& final(self).state_changed_at == now
                &&& final(self).consecutive_failures == 0
                &&& final(self).consecutive_successes == 0
                &&& final(self).stats == stats_changed(old(self).stats, old(self).state, now)
            },
            old(self).state == CircuitState::Closed ==> *final(self) == *old(self),
    {
        if self.state != CircuitState::Closed {
            self.change_state(CircuitState::Closed, now);
            self.consecutive_failures = 0;
            self.consecutive_successes = 0;
        }
    }

    /// Whether a request may go through at time `now`. A closed circuit
    /// allows it; an open one rejects it until `timeout_ns` has passed since
    /// it opened, then half-opens and allows it as the first trial request in
    /// flight; a half-open one allows up to `half_open_max_requests` requests
    /// in flight. Rejections are counted.
    pub fn allow_request_at(&mut self, now: u64) -> (allowed: bool)
        requires
            old(self).wf(),
        ensures
            final(self).wf(),
            final(self).config == old(self).config,
            CircuitBreaker::allow_relation(*old(self), *final(self), now, allowed),
    {
        match self.state {
            CircuitState::Closed => true,
            CircuitState::Open => {
                let elapsed = now.saturating_sub(self.state_changed_at);
                if elapsed >= self.config.timeout_ns {
                    self.transition_to_half_open(now);
                    self.half_open_requests = 1;
                    true
                } else {
                    self.stats.rejected_requests = self.stats.rejected_requests.wrapping_add(1);
                    false
                }
            },
            CircuitState::HalfOpen => {
                if self.half_open_requests < self.config.half_open_max_requests as usize {
                    self.half_open_requests = self.half_open_requests + 1;
                    true
                } else {
                    self.stats.rejected_requests = self.stats.rejected_requests.wrapping_add(1);
                    false
                }
            },
        }
    }

    /// Whether a request may go through now; see `allow_request_at`.
    pub fn allow_request(&mut self) -> (allowed: bool)
        requires
            old(self).wf(),
        ensures
            final(self).wf(),
            final(self).config == old(self).config,
            exists|now: u64| #[trigger] CircuitBreaker::allow_relation(*old(self), *final(self), now, allowed),
    {
        self.allow_request_at(now_nanos())
    }

    /// Records the outcome of a request at time `now`. The outcome enters the
    /// window and the statistics. Closed: a success clears the failure streak;
    /// a failure lengthens it and, once it reaches `failure_threshold`, opens
    /// the circuit, unless the window already holds `min_requests` outcomes
    /// (enough for statistics) and their failure rate is below the threshold. Half-open: a failure reopens
    /// the circuit, `success_threshold` consecutive successes close it, and
    /// the in-flight count drops by one. Open: only the counts change.
    pub fn record_outcome_at(&mut self, success: bool, now: u64)
        requires
            old(self).wf(),
        ensures
            final(self).wf(),
            final(self).config == old(self).config,
            CircuitBreaker::record_relation(*old(self), *final(self), success, now),
    {
        self.stats.total_requests = self.stats.total_requests.wrapping_add(1);
        if success {
            self.stats.successful_requests = self.stats.successful_requests.wrapping_add(1);
        } else {
            self.stats.failed_requests = self.stats.failed_requests.wrapping_add(1);
        }
        self.window.record(success, now);
        match self.state {
            CircuitState::Closed => {
                if success {
                    self.consecutive_failures = 0;
                } else {
                    let failures = self.consecutive_failures.wrapping_add(1);
                    self.consecutive_failures = failures;
                    if failures >= self.config.failure_threshold as usize {
                        let total = self.window.total_requests();
                        if total < self.config.min_requests as usize
                            || self.window.failure_rate_reaches(
                            self.config.failure_rate_threshold_permille,
                        ) {
                            self.transition_to_open(now);
                        }
                    }
                }
            },
            CircuitState::Open => {},
            CircuitState::HalfOpen => {
                if success {
                    let successes = self.consecutive_successes.wrapping_add(1);
                    self.consecutive_successes = successes;
                    if successes >= self.config.success_threshold as usize {
                        self.transition_to_closed(now);
                    }
                } else {
                    self.transition_to_open(now);
                }
                self.half_open_requests = self.half_open_requests.wrapping_sub(1);
            },
        }
    }

    /// Records an outcome now; see `record_outcome_at`.
    pub fn record_outcome(&mut self, success: bool)
        requires
            old(self).wf(),
        ensures
            final(self).wf(),
            final(self).config == old(self).config,
            exists|now: u64| #[trigger] CircuitBreaker::record_relation(*old(self), *final(self), success, now),
    {
        self.record_outcome_at(success, now_nanos())
    }

    /// Current state.
    pub fn state(&self) -> (r: CircuitState)
        ensures
            r == self.state,
    {
        self.state
    }

    /// Statistics, with the window's current failure and request counts.
    pub fn stats(&self) -> (r: CircuitBreakerStats)
        requires
            self.wf(),
        ensures
            r == (CircuitBreakerStats {
                window_failures: count_outcomes(self.window.outcomes@, false) as u64,
                window_requests: self.window.outcomes@.len() as u64,
                ..self.stats
            }),
    {
        let mut st = self.stats;
        st.window_failures = self.window.failure_count() as u64;
        st.window_requests = self.window.total_requests() as u64;
        st
    }

    /// Resets to a closed breaker with empty window and zeroed statistics at time `now`.
    pub fn reset_at(&mut self, now: u64)
        requires
            old(self).wf(),
        ensures
            final(self).wf(),
            final(self).config == old(self).config,
            final(self).state == CircuitState::Closed,
            final(self).state_changed_at == now,
            final(self).consecutive_failures == 0,
            final(self).consecutive_successes == 0,
            final(self).half_open_requests == 0,
            final(self).window.outcomes@.len() == 0,
            final(self).stats == CircuitBreakerStats::spec_zero(),
    {
        self.state = CircuitState::Closed;
        self.state_changed_at = now;
        self.consecutive_failures = 0;
        self.consecutive_successes = 0;
        self.half_open_requests = 0;
        self.window.reset();
        self.stats = CircuitBreakerStats::zero();
    }

    /// Resets now; see `reset_at`.
    pub fn reset(&mut self)
        requires
            old(self).wf(),
        ensures
            final(self).wf(),
            final(self).config == old(self).config,
            final(self).state == CircuitState::Closed,
            final(self).consecutive_failures == 0,
            final(self).consecutive_successes == 0,
            final(self).half_open_requests == 0,
            final(self).window.outcomes@.len() == 0,
            final(self).stats == CircuitBreakerStats::spec_zero(),
    {
        self.reset_at(now_nanos())
    }
}

impl SlidingWindow {
    /// A copy with the same length and outcomes.
    pub fn duplicate(&self) -> (r: SlidingWindow)
        requires
            self.wf(),
        ensures
            r.wf(),
            r.duration_ns == self.duration_ns,
            r.outcomes@ == self.outcomes@,
    {
        let mut outcomes: Vec<(u64, bool)> = Vec::new();
        let mut i: usize = 0;
        while i < self.outcomes.len()
            invariant
                0 <= i <= self.outcomes@.len(),
                outcomes@ == self.outcomes@.take(i as int),
            decreases self.outcomes@.len() - i,
        {
            outcomes.push(self.outcomes[i]);
            i = i + 1;
            assert(outcomes@ =~= self.outcomes@.take(i as int));
        }
        assert(outcomes@ =~= self.outcomes@);
        SlidingWindow {
            duration_ns: self.duration_ns,
            outcomes,
            success_count: self.success_count,
            failure_count: self.failure_count,
        }
    }
}

impl CircuitBreaker {
    /// `b` is a breaker just created with `config` at time `now`.
    pub open spec fn is_fresh(b: CircuitBreaker, config: CircuitBreakerConfig, now: u64) -> bool {
        &&& b.wf()
        &&& b.config == config
        &&& b.state == CircuitState::Closed
        &&& b.state_changed_at == now
        &&& b.consecutive_failures == 0
        &&& b.consecutive_successes == 0
        &&& b.half_open_requests == 0
        &&& b.window.outcomes@.len() == 0
        &&& b.stats == CircuitBreakerStats::spec_zero()
    }

    /// Both breakers agree on everything the breaker's behaviour depends on.
    pub open spec fn same_content(a: CircuitBreaker, b: CircuitBreaker) -> bool {
        &&& a.config == b.config
        &&& a.state == b.state
        &&& a.state_changed_at == b.state_changed_at
        &&& a.consecutive_failures == b.consecutive_failures
        &&& a.consecutive_successes == b.consecutive_successes
        &&& a.half_open_requests == b.half_open_requests
        &&& a.window.duration_ns == b.window.duration_ns
        &&& a.window.outcomes@ == b.window.outcomes@
        &&& a.stats == b.stats
    }

    /// A copy of this breaker.
    pub fn duplicate(&self) -> (r: CircuitBreaker)
        requires
            self.wf(),
        ensures
            r.wf(),
            CircuitBreaker::same_content(r, *self),
    {
        CircuitBreaker {
            config: self.config,
            state: self.state,
            state_changed_at: self.state_changed_at,
            consecutive_failures: self.consecutive_failures,
            consecutive_successes: self.consecutive_successes,
            half_open_requests: self.half_open_requests,
            window: self.window.duplicate(),
            stats: self.stats,
        }
    }
}

/// Statistics over all breakers of a manager.
#[derive(Debug, Clone, Copy)]
pub struct GlobalCircuitStats {
    /// Number of breakers
    pub total_breakers: usize,
    /// Breakers in the open state
    pub open_circuits: usize,
    /// Breakers in the half-open state
    pub half_open_circuits: usize,
    /// Recorded outcomes over all breakers
    pub total_requests: u64,
    /// Rejections over all breakers
    pub total_rejected: u64,
}

/// Number of breakers in `s` in state `st`.
pub open spec fn count_in_state(s: Seq<(PeerId, CircuitBreaker)>, st: CircuitState) -> nat
    decreases s.len(),
{
    if s.len() == 0 {
        0
    } else {
        count_in_state(s.drop_last(), st) + if s.last().1.state == st {
            1nat
        } else {
            0nat
        }
    }
}

/// Sum, wrapping at 2^64, of the recorded outcomes of the breakers in `s`.
pub open spec fn sum_requests(s: Seq<(PeerId, CircuitBreaker)>) -> u64
    decreases s.len(),
{
    if s.len() == 0 {
        0
    } else {
        sum_requests(s.drop_last()).wrapping_add(s.last().1.stats.total_requests)
    }
}

/// Sum, wrapping at 2^64, of the rejections of the breakers in `s`.
pub open spec fn sum_rejected(s: Seq<(PeerId, CircuitBreaker)>) -> u64
    decreases s.len(),
{
    if s.len() == 0 {
        0
    } else {
        sum_rejected(s.drop_last()).wrapping_add(s.last().1.stats.rejected_requests)
    }
}

proof fn lemma_count_in_state_le(s: Seq<(PeerId, CircuitBreaker)>, st: CircuitState)
    ensures
        count_in_state(s, st) <= s.len(),
    decreases s.len(),
{
    if s.len() > 0 {
        lemma_count_in_state_le(s.drop_last(), st);
    }
}

/// Circuit breakers for many peers, created on first use with a default configuration.
#[derive(Debug)]
pub struct CircuitBreakerManager {
    /// Breakers by peer; each peer appears at most once
    pub breakers: Vec<(PeerId, CircuitBreaker)>,
    /// Configuration of newly created breakers
    pub default_config: CircuitBreakerConfig,
    /// Statistics from the last `update_global_stats`
    pub global_stats: GlobalCircuitStats,
}

impl CircuitBreakerManager {
    /// Peers are distinct and every breaker is well formed.
    pub open spec fn wf(&self) -> bool {
        &&& forall|i: int, j: int|
            0 <= i < j < self.breakers@.len() ==> (#[trigger] self.breakers@[i]).0.bytes@
                != (#[trigger] self.breakers@[j]).0.bytes@
        &&& forall|i: int| 0 <= i < self.breakers@.len() ==> (#[trigger] self.breakers@[i]).1.wf()
    }

    /// Index of `peer`'s breaker in `s`, if any.
    pub open spec fn index_of(s: Seq<(PeerId, CircuitBreaker)>, peer: PeerId) -> Option<int> {
        if exists|i: int| 0 <= i < s.len() && (#[trigger] s[i]).0.bytes@ == peer.bytes@ {
            Some(choose|i: int| 0 <= i < s.len() && (#[trigger] s[i]).0.bytes@ == peer.bytes@)
        } else {
            None
        }
    }

    /// `n` is `o` with the entry at `i` replaced, all others unchanged.
    pub open spec fn others_unchanged(o: Seq<(PeerId, CircuitBreaker)>, n: Seq<(PeerId, CircuitBreaker)>, i: int) -> bool {
        &&& n.len() == o.len()
        &&& n[i].0 == o[i].0
        &&& forall|j: int| 0 <= j < o.len() && j != i ==> n[j] == o[j]
    }

    /// How `get_breaker_at(peer, now)` changes the breakers `o` into `n`
    /// and what copy `r` it hands out.
    pub open spec fn get_relation(o: Seq<(PeerId, CircuitBreaker)>, n: Seq<(PeerId, CircuitBreaker)>, config: CircuitBreakerConfig, peer: PeerId, now: u64, r: CircuitBreaker) -> bool {
        match CircuitBreakerManager::index_of(o, peer) {
            Some(k) => n == o && CircuitBreaker::same_content(r, o[k].1),
            None => n.drop_last() == o && n.last().0 == peer && CircuitBreaker::is_fresh(n.last().1, config, now)
                && CircuitBreaker::is_fresh(r, config, now),
        }
    }

    /// How `allow_request_at(peer, now)` changes the breakers `o` into `n`.
    pub open spec fn allow_at_relation(o: Seq<(PeerId, CircuitBreaker)>, n: Seq<(PeerId, CircuitBreaker)>, config: CircuitBreakerConfig, peer: PeerId, now: u64, allowed: bool) -> bool {
        match CircuitBreakerManager::index_of(o, peer) {
            Some(k) => CircuitBreakerManager::others_unchanged(o, n, k) && CircuitBreaker::allow_relation(o[k].1, n[k].1, now, allowed),
            None => {
                &&& n.drop_last() == o
                &&& n.last().0 == peer
                &&& allowed
                &&& CircuitBreaker::is_fresh(n.last().1, config, now)
            },
        }
    }

    /// How `record_outcome_at(peer, success, now)` changes the breakers `o` into `n`.
    pub open spec fn record_at_relation(o: Seq<(PeerId, CircuitBreaker)>, n: Seq<(PeerId, CircuitBreaker)>, config: CircuitBreakerConfig, peer: PeerId, success: bool, now: u64) -> bool {
        match CircuitBreakerManager::index_of(o, peer) {
            Some(k) => CircuitBreakerManager::others_unchanged(o, n, k) && CircuitBreaker::record_relation(o[k].1, n[k].1, success, now),
            None => {
                &&& n.drop_last() == o
                &&& n.last().0 == peer
                &&& exists|b: CircuitBreaker|
                    CircuitBreaker::is_fresh(b, config, now) && #[trigger] CircuitBreaker::record_relation(b, n.last().1, success, now)
            },
        }
    }

    /// How `get_state_at(peer, now)` changes the breakers `o` into `n`, answering `r`.
    pub open spec fn state_at_relation(o: Seq<(PeerId, CircuitBreaker)>, n: Seq<(PeerId, CircuitBreaker)>, config: CircuitBreakerConfig, peer: PeerId, now: u64, r: CircuitState) -> bool {
        match CircuitBreakerManager::index_of(o, peer) {
            Some(k) => n == o && r == o[k].1.state,
            None => r == CircuitState::Closed && n.drop_last() == o && n.last().0 == peer && CircuitBreaker::is_fresh(n.last().1, config, now),
        }
    }

    /// How `reset_at(peer, now)` changes the breakers `o` into `n`.
    pub open spec fn reset_at_relation(o: Seq<(PeerId, CircuitBreaker)>, n: Seq<(PeerId, CircuitBreaker)>, peer: PeerId, now: u64) -> bool {
        match CircuitBreakerManager::index_of(o, peer) {
            Some(k) => {
                &&& CircuitBreakerManager::others_unchanged(o, n, k)
                &&& n[k].1.config == o[k].1.config
                &&& CircuitBreaker::is_fresh(n[k].1, o[k].1.config, now)
            },
            None => n == o,
        }
    }

    /// A manager without breakers.
    pub fn new(default_config: CircuitBreakerConfig) -> (r: Self)
        ensures
            r.wf(),
            r.breakers@.len() == 0,
            r.default_config == default_config,
            r.global_stats == (GlobalCircuitStats {
                total_breakers: 0,
                open_circuits: 0,
                half_open_circuits: 0,
                total_requests: 0,
                total_rejected: 0,
            }),
    {
        CircuitBreakerManager {
            breakers: Vec::new(),
            default_config,
            global_stats: GlobalCircuitStats {
                total_breakers: 0,
                open_circuits: 0,
                half_open_circuits: 0,
                total_requests: 0,
                total_rejected: 0,
            },
        }
    }

    /// Position of `peer`'s breaker.
    pub fn position(&self, peer: &PeerId) -> (r: Option<usize>)
        requires
            self.wf(),
        ensures
            r matches Some(i) ==> i < self.breakers@.len() && self.breakers@[i as int].0.bytes@ == peer.bytes@,
            r is None ==> forall|j: int| 0 <= j < self.breakers@.len() ==> (#[trigger] self.breakers@[j]).0.bytes@ != peer.bytes@,
            r is Some <==> CircuitBreakerManager::index_of(self.breakers@, *peer) is Some,
            r matches Some(i) ==> CircuitBreakerManager::index_of(self.breakers@, *peer) == Some(i as int),
    {
        let mut i: usize = 0;
        while i < self.breakers.len()
            invariant
                self.wf(),
                0 <= i <= self.breakers@.len(),
                forall|j: int| 0 <= j < i ==> (#[trigger] self.breakers@[j]).0.bytes@ != peer.bytes@,
            decreases self.breakers@.len() - i,
        {
            if self.breakers[i].0.same_as(peer) {
                proof {
                    let k = choose|k: int| 0 <= k < self.breakers@.len() && (#[trigger] self.breakers@[k]).0.bytes@ == peer.bytes@;
                    if k < i as int {
                        assert(self.breakers@[k].0.bytes@ != self.breakers@[i as int].0.bytes@);
                    } else if k > i as int {
                        assert(self.breakers@[i as int].0.bytes@ != self.breakers@[k].0.bytes@);
                    }
                }
                return Some(i);
            }
            i = i + 1;
        }
        None
    }

    /// Index of `peer`'s breaker, created closed at `now` with the default
    /// configuration if the peer had none (appended at the end).
    pub fn breaker_index_at(&mut self, peer: PeerId, now: u64) -> (i: usize)
        requires
            old(self).wf(),
        ensures
            final(self).wf(),
            final(self).default_config == old(self).default_config,
            final(self).global_stats == old(self).global_stats,
            i < final(self).breakers@.len(),
            final(self).breakers@[i as int].0 == peer || final(self).breakers@[i as int].0 == old(self).breakers@[i as int].0,
            final(self).breakers@[i as int].0.bytes@ == peer.bytes@,
            match CircuitBreakerManager::index_of(old(self).breakers@, peer) {
                Some(k) => i == k && final(self).breakers@ == old(self).breakers@,
                None => {
                    &&& i == old(self).breakers@.len()
                    &&& final(self).breakers@.drop_last() == old(self).breakers@
                    &&& final(self).breakers@[i as int].0 == peer
                    &&& CircuitBreaker::is_fresh(final(self).breakers@[i as int].1, old(self).default_config, now)
                },
            },
    {
        match self.position(&peer) {
            Some(i) => i,
            None => {
                let b = CircuitBreaker::new_at(self.default_config, now);
                self.breakers.push((peer, b));
                let i = self.breakers.len() - 1;
                proof {
                    assert(self.breakers@.drop_last() =~= old(self).breakers@);
                }
                i
            },
        }
    }

    /// A copy of `peer`'s breaker at time `now`, creating it if needed.
    pub fn get_breaker_at(&mut self, peer: PeerId, now: u64) -> (r: CircuitBreaker)
        requires
            old(self).wf(),
        ensures
            final(self).wf(),
            r.wf(),
            final(self).default_config == old(self).default_config,
            CircuitBreakerManager::get_relation(old(self).breakers@, final(self).breakers@, old(self).default_config, peer, now, r),
    {
        let i = self.breaker_index_at(peer, now);
        self.breakers[i].1.duplicate()
    }

    /// A copy of `peer`'s breaker, creating it now if needed.
    pub fn get_breaker(&mut self, peer: PeerId) -> (r: CircuitBreaker)
        requires
            old(self).wf(),
        ensures
            final(self).wf(),
            r.wf(),
            final(self).default_config == old(self).default_config,
            exists|now: u64| #[trigger] CircuitBreakerManager::get_relation(old(self).breakers@, final(self).breakers@,
                old(self).default_config, peer, now, r),
    {
        self.get_breaker_at(peer, now_nanos())
    }

    /// Whether a request to `peer` may go through at `now`; only `peer`'s
    /// breaker (created if needed) changes.
    pub fn allow_request_at(&mut self, peer: PeerId, now: u64) -> (allowed: bool)
        requires
            old(self).wf(),
        ensures
            final(self).wf(),
            final(self).default_config == old(self).default_config,
            CircuitBreakerManager::allow_at_relation(old(self).breakers@, final(self).breakers@, old(self).default_config, peer, now, allowed),
    {
        let i = self.breaker_index_at(peer, now);
        let ghost mid = self.breakers@;
        let allowed = self.breakers[i].1.allow_request_at(now);
        proof {
            if CircuitBreakerManager::index_of(old(self).breakers@, peer) is None {
                assert(self.breakers@.drop_last() =~= old(self).breakers@);
            }
        }
        allowed
    }

    /// Whether a request to `peer` may go through now.
    pub fn allow_request(&mut self, peer: PeerId) -> (allowed: bool)
        requires
            old(self).wf(),
        ensures
            final(self).wf(),
            final(self).default_config == old(self).default_config,
            exists|now: u64| #[trigger] CircuitBreakerManager::allow_at_relation(old(self).breakers@, final(self).breakers@,
                old(self).default_config, peer, now, allowed),
    {
        self.allow_request_at(peer, now_nanos())
    }

    /// Records an outcome for `peer` at `now`; only `peer`'s breaker (created
    /// if needed) changes.
    pub fn record_outcome_at(&mut self, peer: PeerId, success: bool, now: u64)
        requires
            old(self).wf(),
        ensures
            final(self).wf(),
            final(self).default_config == old(self).default_config,
            CircuitBreakerManager::record_at_relation(old(self).breakers@, final(self).breakers@, old(self).default_config, peer, success, now),
    {
        let i = self.breaker_index_at(peer, now);
        let ghost mid = self.breakers@;
        let ghost before = self.breakers@[i as int].1;
        self.breakers[i].1.record_outcome_at(success, now);
        proof {
            if CircuitBreakerManager::index_of(old(self).breakers@, peer) is None {
                assert(self.breakers@.drop_last() =~= old(self).breakers@);
                assert(CircuitBreaker::record_relation(before, self.breakers@.last().1, success, now));
            }
        }
    }

    /// Records an outcome for `peer` now.
    pub fn record_outcome(&mut self, peer: PeerId, success: bool)
        requires
            old(self).wf(),
        ensures
            final(self).wf(),
            final(self).default_config == old(self).default_config,
            exists|now: u64| #[trigger] CircuitBreakerManager::record_at_relation(old(self).breakers@, final(self).breakers@,
                old(self).default_config, peer, success, now),
    {
        self.record_outcome_at(peer, success, now_nanos())
    }

    /// State of `peer`'s breaker (a new closed breaker is created if needed).
    pub fn get_state_at(&mut self, peer: PeerId, now: u64) -> (r: CircuitState)
        requires
            old(self).wf(),
        ensures
            final(self).wf(),
            final(self).default_config == old(self).default_config,
            CircuitBreakerManager::state_at_relation(old(self).breakers@, final(self).breakers@, old(self).default_config, peer, now, r),
    {
        let i = self.breaker_index_at(peer, now);
        proof {
            if CircuitBreakerManager::index_of(old(self).breakers@, peer) is None {
                assert(self.breakers@.last() == self.breakers@[i as int]);
            }
        }
        self.breakers[i].1.state()
    }

    /// State of `peer`'s breaker.
    pub fn get_state(&mut self, peer: PeerId) -> (r: CircuitState)
        requires
            old(self).wf(),
        ensures
            final(self).wf(),
            final(self).default_config == old(self).default_config,
            exists|now: u64| #[trigger] CircuitBreakerManager::state_at_relation(old(self).breakers@, final(self).breakers@,
                old(self).default_config, peer, now, r),
    {
        self.get_state_at(peer, now_nanos())
    }

    /// Statistics of `peer`'s breaker.
    pub fn get_stats(&mut self, peer: PeerId) -> (r: CircuitBreakerStats)
        requires
            old(self).wf(),
        ensures
            final(self).wf(),
            final(self).default_config == old(self).default_config,
            CircuitBreakerManager::index_of(old(self).breakers@, peer) matches Some(k) ==> r == (
            CircuitBreakerStats {
                window_failures: count_outcomes(old(self).breakers@[k].1.window.outcomes@, false) as u64,
                window_requests: old(self).breakers@[k].1.window.outcomes@.len() as u64,
                ..old(self).breakers@[k].1.stats
            }) && final(self).breakers@ == old(self).breakers@,
            CircuitBreakerManager::index_of(old(self).breakers@, peer) is None ==> r == CircuitBreakerStats::spec_zero()
                && final(self).breakers@.drop_last() == old(self).breakers@ && final(self).breakers@.last().0 == peer
                && exists|now: u64| #[trigger] CircuitBreaker::is_fresh(final(self).breakers@.last().1, old(self).default_config, now),
    {
        let now = now_nanos();
        let i = self.breaker_index_at(peer, now);
        proof {
            if CircuitBreakerManager::index_of(old(self).breakers@, peer) is None {
                assert(self.breakers@.last() == self.breakers@[i as int]);
                assert(CircuitBreaker::is_fresh(self.breakers@.last().1, old(self).default_config, now));
            }
        }
        self.breakers[i].1.stats()
    }

    /// Statistics over the current breakers; see `current_global_stats`.
    pub fn get_global_stats(&self) -> (r: GlobalCircuitStats)
        requires
            self.wf(),
        ensures
            r == CircuitBreakerManager::current_global_stats(self.breakers@),
    {
        self.compute_global_stats()
    }

    /// Resets `peer`'s breaker at `now`, if it has one; nothing else changes.
    pub fn reset_at(&mut self, peer: PeerId, now: u64)
        requires
            old(self).wf(),
        ensures
            final(self).wf(),
            final(self).default_config == old(self).default_config,
            CircuitBreakerManager::reset_at_relation(old(self).breakers@, final(self).breakers@, peer, now),
    {
        match self.position(&peer) {
            Some(i) => {
                self.breakers[i].1.reset_at(now);
            },
            None => {},
        }
    }

    /// Resets `peer`'s breaker now, if it has one.
    pub fn reset(&mut self, peer: PeerId)
        requires
            old(self).wf(),
        ensures
            final(self).wf(),
            final(self).default_config == old(self).default_config,
            exists|now: u64| #[trigger] CircuitBreakerManager::reset_at_relation(old(self).breakers@, final(self).breakers@, peer, now),
    {
        self.reset_at(peer, now_nanos())
    }

    /// Removes `peer`'s breaker, keeping the others in order.
    pub fn remove(&mut self, peer: PeerId)
        requires
            old(self).wf(),
        ensures
            final(self).wf(),
            final(self).default_config == old(self).default_config,
            match CircuitBreakerManager::index_of(old(self).breakers@, peer) {
                Some(k) => final(self).breakers@ == old(self).breakers@.remove(k),
                None => final(self).breakers@ == old(self).breakers@,
            },
            forall|j: int| 0 <= j < final(self).breakers@.len() ==> (#[trigger] final(self).breakers@[j]).0.bytes@ != peer.bytes@,
    {
        match self.position(&peer) {
            Some(i) => {
                self.breakers.remove(i);
                proof {
                    let o = old(self).breakers@;
                    assert forall|a: int, b: int| 0 <= a < b < self.breakers@.len() implies
                        (#[trigger] self.breakers@[a]).0.bytes@ != (#[trigger] self.breakers@[b]).0.bytes@ by {
                        let a2 = if a < i { a } else { a + 1 };
                        let b2 = if b < i { b } else { b + 1 };
                        assert(self.breakers@[a] == o[a2]);
                        assert(self.breakers@[b] == o[b2]);
                    }
                    assert forall|j: int| 0 <= j < self.breakers@.len() implies (#[trigger] self.breakers@[j]).0.bytes@ != peer.bytes@ by {
                        let j2 = if j < i { j } else { j + 1 };
                        assert(self.breakers@[j] == o[j2]);
                    }
                    assert forall|j: int| 0 <= j < self.breakers@.len() implies (#[trigger] self.breakers@[j]).1.wf() by {
                        let j2 = if j < i { j } else { j + 1 };
                        assert(self.breakers@[j] == o[j2]);
                    }
                }
            },
            None => {},
        }
    }

    /// The statistics of the breakers in `s`: their number, how many are
    /// open and half-open, and their recorded outcomes and rejections.
    pub open spec fn current_global_stats(s: Seq<(PeerId, CircuitBreaker)>) -> GlobalCircuitStats {
        GlobalCircuitStats {
            total_breakers: s.len() as usize,
            open_circuits: count_in_state(s, CircuitState::Open) as usize,
            half_open_circuits: count_in_state(s, CircuitState::HalfOpen) as usize,
            total_requests: sum_requests(s),
            total_rejected: sum_rejected(s),
        }
    }

    fn compute_global_stats(&self) -> (r: GlobalCircuitStats)
        ensures
            r == CircuitBreakerManager::current_global_stats(self.breakers@),
    {
        let mut total_requests: u64 = 0;
        let mut total_rejected: u64 = 0;
        let mut open: usize = 0;
        let mut half_open: usize = 0;
        let mut i: usize = 0;
        let n = self.breakers.len();
        while i < n
            invariant
                n == self.breakers@.len(),
                0 <= i <= n,
                total_requests == sum_requests(self.breakers@.take(i as int)),
                total_rejected == sum_rejected(self.breakers@.take(i as int)),
                open == count_in_state(self.breakers@.take(i as int), CircuitState::Open),
                half_open == count_in_state(self.breakers@.take(i as int), CircuitState::HalfOpen),
            decreases n - i,
        {
            proof {
                assert(self.breakers@.take(i + 1).drop_last() =~= self.breakers@.take(i as int));
                lemma_count_in_state_le(self.breakers@.take(i + 1), CircuitState::Open);
                lemma_count_in_state_le(self.breakers@.take(i + 1), CircuitState::HalfOpen);
            }
            let b = &self.breakers[i].1;
            total_requests = total_requests.wrapping_add(b.stats.total_requests);
            total_rejected = total_rejected.wrapping_add(b.stats.rejected_requests);
            match b.state {
                CircuitState::Open => {
                    open = open + 1;
                },
                CircuitState::HalfOpen => {
                    half_open = half_open + 1;
                },
                CircuitState::Closed => {},
            }
            i = i + 1;
        }
        proof {
            assert(self.breakers@.take(n as int) =~= self.breakers@);
        }
        GlobalCircuitStats {
            total_breakers: n,
            open_circuits: open,
            half_open_circuits: half_open,
            total_requests,
            total_rejected,
        }
    }

    /// Stores the statistics of the current breakers (the periodic maintenance).
    pub fn update_global_stats(&mut self)
        requires
            old(self).wf(),
        ensures
            final(self).wf(),
            final(self).breakers@ == old(self).breakers@,
            final(self).default_config == old(self).default_config,
            final(self).global_stats == CircuitBreakerManager::current_global_stats(old(self).breakers@),
    {
        self.global_stats = self.compute_global_stats();
    }

    /// Drops all breakers.
    pub fn shutdown(&mut self)
        ensures
            final(self).breakers@.len() == 0,
            final(self).default_config == old(self).default_config,
            final(self).global_stats == old(self).global_stats,
    {
        self.breakers.clear();
    }
}

/// A closed circuit lets every request through and the request changes nothing.
pub proof fn law_closed_circuit_allows(o: CircuitBreaker, n: CircuitBreaker, now: u64, allowed: bool)
    requires
        CircuitBreaker::allow_relation(o, n, now, allowed),
        o.state == CircuitState::Closed,
    ensures
        allowed,
        n == o,
{
}

/// An open circuit blocks requests until its timeout has passed since it
/// opened; the first request after that is let through as a trial and the
/// circuit half-opens. A blocked request leaves the circuit open.
pub proof fn law_open_circuit_blocks_until_timeout(o: CircuitBreaker, n: CircuitBreaker, now: u64, allowed: bool)
    requires
        CircuitBreaker::allow_relation(o, n, now, allowed),
        o.state == CircuitState::Open,
    ensures
        allowed <==> now.saturating_sub(o.state_changed_at) >= o.config.timeout_ns,
        allowed ==> n.state == CircuitState::HalfOpen && n.half_open_requests == 1 && n.state_changed_at == now,
        !allowed ==> n.state == CircuitState::Open && n.stats.rejected_requests == o.stats.rejected_requests.wrapping_add(1),
{
}

/// A single failure while half-open reopens the circuit.
pub proof fn law_half_open_failure_reopens(o: CircuitBreaker, n: CircuitBreaker, now: u64)
    requires
        CircuitBreaker::record_relation(o, n, false, now),
        o.state == CircuitState::HalfOpen,
    ensures
        n.state == CircuitState::Open,
        n.state_changed_at == now,
{
}

/// While half-open, the success that completes `success_threshold`
/// consecutive successes closes the circuit; an earlier one keeps it half-open.
pub proof fn law_half_open_successes_close(o: CircuitBreaker, n: CircuitBreaker, now: u64)
    requires
        CircuitBreaker::record_relation(o, n, true, now),
        o.state == CircuitState::HalfOpen,
        o.consecutive_successes < usize::MAX,
    ensures
        o.consecutive_successes + 1 >= o.config.success_threshold ==> n.state == CircuitState::Closed,
        o.consecutive_successes + 1 < o.config.success_threshold ==> n.state == CircuitState::HalfOpen
            && n.consecutive_successes == o.consecutive_successes + 1,
{
}

/// While closed, the failure that brings the streak to `failure_threshold`
/// opens the circuit when the window is too small for statistics or its
/// failure rate reaches the threshold; a success never opens it.
pub proof fn law_failure_streak_opens(o: CircuitBreaker, n: CircuitBreaker, success: bool, now: u64)
    requires
        CircuitBreaker::record_relation(o, n, success, now),
        o.state == CircuitState::Closed,
        o.consecutive_failures < usize::MAX,
    ensures
        success ==> n.state == CircuitState::Closed,
        !success && o.consecutive_failures + 1 >= o.config.failure_threshold && (n.window.outcomes@.len()
            < o.config.min_requests || rate_reaches(count_outcomes(n.window.outcomes@, false), n.window.outcomes@.len(),
            o.config.failure_rate_threshold_permille as nat)) ==> n.state == CircuitState::Open,
        !success && o.consecutive_failures + 1 < o.config.failure_threshold ==> n.state == CircuitState::Closed,
{
}

/// Room for trial requests in a half-open breaker with `in_flight` trials
/// under way: `max - in_flight`, or none.
pub open spec fn half_open_room(in_flight: int, max: int) -> int {
    if in_flight < max { max - in_flight } else { 0 }
}

proof fn lemma_half_open_run(bs: Seq<CircuitBreaker>, nows: Seq<u64>, allowed: Seq<bool>, j: int)
    requires
        bs.len() == allowed.len() + 1,
        nows.len() == allowed.len(),
        bs[0].state == CircuitState::HalfOpen,
        forall|i: int| 0 <= i < allowed.len() ==> CircuitBreaker::allow_relation(#[trigger] bs[i], bs[i + 1], nows[i], allowed[i]),
        0 <= j <= allowed.len(),
    ensures
        bs[j].state == CircuitState::HalfOpen,
        bs[j].config == bs[0].config,
        bs[j].half_open_requests == bs[0].half_open_requests + (if j < half_open_room(
            bs[0].half_open_requests as int,
            bs[0].config.half_open_max_requests as int,
        ) { j } else { half_open_room(bs[0].half_open_requests as int, bs[0].config.half_open_max_requests as int) }),
    decreases j,
{
    if j > 0 {
        lemma_half_open_run(bs, nows, allowed, j - 1);
        assert(CircuitBreaker::allow_relation(bs[j - 1], bs[j], nows[j - 1], allowed[j - 1]));
    }
}

/// Half-open trials: from a half-open breaker with `k` trials in flight and
/// room for `max` (its `half_open_max_requests`), a run of requests with no
/// outcome recorded in between lets through exactly the first `max - k` of
/// them (none when `k >= max`), each of which adds one trial in flight, and
/// rejects the rest, counting each as rejected; the breaker stays half-open.
pub proof fn law_half_open_admits_up_to_limit(bs: Seq<CircuitBreaker>, nows: Seq<u64>, allowed: Seq<bool>)
    requires
        bs.len() == allowed.len() + 1,
        nows.len() == allowed.len(),
        bs[0].state == CircuitState::HalfOpen,
        forall|i: int| 0 <= i < allowed.len() ==> CircuitBreaker::allow_relation(#[trigger] bs[i], bs[i + 1], nows[i], allowed[i]),
    ensures
        forall|i: int| 0 <= i < allowed.len() ==> (#[trigger] allowed[i] <==> bs[0].half_open_requests + i
            < bs[0].config.half_open_max_requests),
        forall|i: int| 0 <= i < allowed.len() && allowed[i] ==> #[trigger] bs[i + 1].half_open_requests
            == bs[i].half_open_requests + 1 && bs[i + 1].stats.rejected_requests == bs[i].stats.rejected_requests,
        forall|i: int| 0 <= i < allowed.len() && !allowed[i] ==> #[trigger] bs[i + 1].stats.rejected_requests
            == bs[i].stats.rejected_requests.wrapping_add(1) && bs[i + 1].half_open_requests == bs[i].half_open_requests,
        bs.last().state == CircuitState::HalfOpen,
        bs.last().half_open_requests == bs[0].half_open_requests + (if allowed.len() < half_open_room(
            bs[0].half_open_requests as int,
            bs[0].config.half_open_max_requests as int,
        ) { allowed.len() as int } else { half_open_room(bs[0].half_open_requests as int, bs[0].config.half_open_max_requests as int) }),
{
    assert forall|i: int| 0 <= i < allowed.len() implies (#[trigger] allowed[i] <==> bs[0].half_open_requests + i
        < bs[0].config.half_open_max_requests) by {
        lemma_half_open_run(bs, nows, allowed, i);
        assert(CircuitBreaker::allow_relation(bs[i], bs[i + 1], nows[i], allowed[i]));
    }
    assert forall|i: int| 0 <= i < allowed.len() && allowed[i] implies #[trigger] bs[i + 1].half_open_requests
        == bs[i].half_open_requests + 1 && bs[i + 1].stats.rejected_requests == bs[i].stats.rejected_requests by {
        lemma_half_open_run(bs, nows, allowed, i);
        assert(CircuitBreaker::allow_relation(bs[i], bs[i + 1], nows[i], allowed[i]));
    }
    assert forall|i: int| 0 <= i < allowed.len() && !allowed[i] implies #[trigger] bs[i + 1].stats.rejected_requests
        == bs[i].stats.rejected_requests.wrapping_add(1) && bs[i + 1].half_open_requests == bs[i].half_open_requests by {
        lemma_half_open_run(bs, nows, allowed, i);
        assert(CircuitBreaker::allow_relation(bs[i], bs[i + 1], nows[i], allowed[i]));
    }
    lemma_half_open_run(bs, nows, allowed, allowed.len() as int);
}

/// Recording the outcome of a half-open trial frees its slot: with `k >= 1`
/// trials in flight, the count drops to `k - 1`; a success below the
/// success threshold keeps the circuit half-open, so a trial allowed and then
/// answered with success leaves the in-flight count where it was.
pub proof fn law_half_open_outcome_frees_slot(o: CircuitBreaker, m: CircuitBreaker, n: CircuitBreaker, t1: u64, t2: u64)
    requires
        o.state == CircuitState::HalfOpen,
        CircuitBreaker::allow_relation(o, m, t1, true),
        CircuitBreaker::record_relation(m, n, true, t2),
        (m.consecutive_successes as int) + 1 < m.config.success_threshold,
    ensures
        m.half_open_requests == o.half_open_requests + 1,
        n.state == CircuitState::HalfOpen,
        n.half_open_requests == o.half_open_requests,
        n.consecutive_successes == o.consecutive_successes + 1,
{
}

} // verus!
