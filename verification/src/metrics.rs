//! Latency statistics over the most recent message latencies.

use vstd::prelude::*;

verus! {

/// Number of latency samples kept.
pub const LATENCY_SAMPLES: usize = 100;

/// Latency statistics; durations in nanoseconds.
#[derive(Debug, Clone)]
pub struct LatencyMetrics {
    /// Running average latency
    pub avg_latency: u64,
    /// Largest latency seen
    pub peak_latency: u64,
    /// The most recent latencies, oldest first, at most `LATENCY_SAMPLES`
    pub latency_samples: Vec<u64>,
}

impl Default for LatencyMetrics {
    /// No samples, zero average and peak.
    fn default() -> (r: Self)
        ensures
            r.avg_latency == 0,
            r.peak_latency == 0,
            r.latency_samples@.len() == 0,
    {
        LatencyMetrics { avg_latency: 0, peak_latency: 0, latency_samples: Vec::new() }
    }
}

/// The running average after adding `latency` to `n` samples of average `avg`.
pub open spec fn next_average(avg: u64, n: nat, latency: u64) -> u64 {
    if n == 0 {
        latency
    } else {
        ((avg * n + latency) / ((n + 1) as int)) as u64
    }
}

/// The samples after recording `latency`: the oldest dropped when full.
pub open spec fn next_samples(samples: Seq<u64>, latency: u64) -> Seq<u64> {
    if samples.len() >= LATENCY_SAMPLES {
        samples.drop_first().push(latency)
    } else {
        samples.push(latency)
    }
}

/// Average, peak and samples after recording the latencies of `h` in
/// order, starting from no samples.
pub open spec fn state_after(h: Seq<u64>) -> (u64, u64, Seq<u64>)
    decreases h.len(),
{
    if h.len() == 0 {
        (0, 0, Seq::empty())
    } else {
        let prev = state_after(h.drop_last());
        let l = h.last();
        (
            next_average(prev.0, prev.2.len(), l),
            if l > prev.1 { l } else { prev.1 },
            next_samples(prev.2, l),
        )
    }
}

/// Smallest latency of a nonempty history.
pub open spec fn lowest(h: Seq<u64>) -> u64
    decreases h.len(),
{
    if h.len() <= 1 {
        h[0]
    } else {
        let m = lowest(h.drop_last());
        if h.last() < m { h.last() } else { m }
    }
}

/// Largest latency of a nonempty history.
pub open spec fn highest(h: Seq<u64>) -> u64
    decreases h.len(),
{
    if h.len() <= 1 {
        h[0]
    } else {
        let m = highest(h.drop_last());
        if h.last() > m { h.last() } else { m }
    }
}

/// One averaging step stays between bounds that hold the previous average
/// and the new latency.
proof fn lemma_average_step_bounded(a: u64, m: nat, l: u64, lo: int, hi: int)
    requires
        m >= 1,
        lo <= a <= hi,
        lo <= l <= hi,
        hi <= u64::MAX,
    ensures
        lo <= next_average(a, m, l) <= hi,
{
    let ai = a as int;
    let li = l as int;
    let mi = m as int;
    assert(lo * (mi + 1) <= ai * mi + li <= hi * (mi + 1)) by (nonlinear_arith)
        requires
            lo <= ai <= hi,
            lo <= li <= hi,
            mi >= 1,
    ;
    assert(lo <= (ai * mi + li) / (mi + 1) <= hi) by (nonlinear_arith)
        requires
            lo * (mi + 1) <= ai * mi + li <= hi * (mi + 1),
            mi >= 1,
    ;
    assert(0 <= (ai * mi + li) / (mi + 1) <= hi) by (nonlinear_arith)
        requires
            0 <= ai * mi + li <= hi * (mi + 1),
            mi >= 1,
    ;
    let q = (ai * mi + li) / (mi + 1);
    assert(q as u64 == q);
    assert(next_average(a, m, l) == q);
}

/// After any nonempty history of latencies, the running average lies between
/// the smallest and the largest latency ever recorded, the peak is the largest
/// one, and the samples are the most recent latencies, at most
/// `LATENCY_SAMPLES` of them, ending with the last one.
pub proof fn law_average_between_extremes(h: Seq<u64>)
    requires
        h.len() > 0,
    ensures
        lowest(h) <= state_after(h).0 <= highest(h),
        state_after(h).1 == highest(h),
        state_after(h).2.len() == if h.len() < LATENCY_SAMPLES { h.len() } else { LATENCY_SAMPLES as nat },
        state_after(h).2.last() == h.last(),
    decreases h.len(),
{
    let prev = state_after(h.drop_last());
    if h.len() == 1 {
        assert(h.drop_last().len() == 0);
    } else {
        law_average_between_extremes(h.drop_last());
        let lo: int = lowest(h) as int;
        let hi: int = highest(h) as int;
        lemma_average_step_bounded(prev.0, prev.2.len(), h.last(), lo, hi);
    }
}

impl LatencyMetrics {
    /// At most `LATENCY_SAMPLES` samples are kept.
    pub open spec fn wf(&self) -> bool {
        self.latency_samples@.len() <= LATENCY_SAMPLES
    }

    /// Records a latency: updates the running average over the samples, the
    /// peak, and the sample window.
    pub fn record_latency(&mut self, latency: u64)
        requires
            old(self).wf(),
        ensures
            final(self).wf(),
            final(self).avg_latency == next_average(old(self).avg_latency, old(self).latency_samples@.len(), latency),
            final(self).peak_latency == if latency > old(self).peak_latency { latency } else { old(self).peak_latency },
            final(self).latency_samples@ == next_samples(old(self).latency_samples@, latency),
    {
        let n = self.latency_samples.len();
        if n == 0 {
            self.avg_latency = latency;
        } else {
            proof {
                let a = self.avg_latency as int;
                let m = n as int;
                assert(a * m <= 0xffff_ffff_ffff_ffff * 100) by (nonlinear_arith)
                    requires
                        0 <= a <= 0xffff_ffff_ffff_ffff,
                        0 <= m <= 100,
                ;
            }
            let total: u128 = (self.avg_latency as u128) * (n as u128) + (latency as u128);
            let avg: u128 = total / ((n as u128) + 1);
            proof {
                let a = self.avg_latency as int;
                let l = latency as int;
                let m = n as int;
                let mx = if a > l { a } else { l };
                assert(a * m + l <= mx * (m + 1)) by (nonlinear_arith)
                    requires
                        a >= 0,
                        l >= 0,
                        m >= 1,
                        mx >= a,
                        mx >= l,
                ;
                assert((a * m + l) / (m + 1) <= mx) by (nonlinear_arith)
                    requires
                        a * m + l <= mx * (m + 1),
                        m >= 1,
                        a * m + l >= 0,
                ;
                assert(avg as int == (a * m + l) / (m + 1));
            }
            self.avg_latency = avg as u64;
        }
        if latency > self.peak_latency {
            self.peak_latency = latency;
        }
        if self.latency_samples.len() >= LATENCY_SAMPLES {
            self.latency_samples.remove(0);
        }
        self.latency_samples.push(latency);
        proof {
            assert(self.latency_samples@ =~= next_samples(old(self).latency_samples@, latency));
        }
    }
}

} // verus!
