//! Sliding-window rate tracker: one per tracked endpoint.
//!
//! A tracker keeps the last `capacity` per-tick byte counts, their
//! running sum, and the highest instantaneous rate it ever saw.  Rates
//! are in bytes per second; a point in time is a count of milliseconds.
//! The running sum is maintained incrementally — one addition and at
//! most one subtraction per tick — and is proved equal to the sum of
//! the queued samples at all times.

use std::collections::VecDeque;
use vstd::prelude::*;

use crate::MAX_TICK_BYTES;
use crate::MAX_WINDOW_CAPACITY;
use crate::TICK_RATE_MS;

verus! {

/// Sum of a sequence of per-tick byte counts.
pub open spec fn sum_seq(s: Seq<u64>) -> int
    decreases s.len(),
{
    if s.len() == 0 {
        0
    } else {
        s[0] + sum_seq(s.drop_first())
    }
}

/// Appending a sample adds its value to the sum.
pub proof fn lemma_sum_push(s: Seq<u64>, x: u64)
    ensures
        sum_seq(s.push(x)) == sum_seq(s) + x,
    decreases s.len(),
{
    if s.len() == 0 {
        assert(s.push(x)[0] == x);
        assert(s.push(x).drop_first() =~= Seq::<u64>::empty());
        assert(sum_seq(s.push(x)) == x + sum_seq(s.push(x).drop_first()));
    } else {
        assert(s.push(x)[0] == s[0]);
        assert(s.push(x).drop_first() =~= s.drop_first().push(x));
        lemma_sum_push(s.drop_first(), x);
        assert(sum_seq(s.push(x)) == s[0] + sum_seq(s.drop_first().push(x)));
    }
}

/// A sum of byte counts is never negative.
pub proof fn lemma_sum_nonneg(s: Seq<u64>)
    ensures
        sum_seq(s) >= 0,
    decreases s.len(),
{
    if s.len() > 0 {
        lemma_sum_nonneg(s.drop_first());
    }
}

/// A sum of samples bounded by `m` is bounded by `m` per sample.
pub proof fn lemma_sum_bound(s: Seq<u64>, m: u64)
    requires
        forall|i: int| 0 <= i < s.len() ==> s[i] <= m,
    ensures
        sum_seq(s) <= s.len() * m,
    decreases s.len(),
{
    if s.len() > 0 {
        assert(forall|i: int| 0 <= i < s.drop_first().len() ==> s.drop_first()[i] == s[i + 1]);
        lemma_sum_bound(s.drop_first(), m);
        assert((s.len() - 1) * m + m == s.len() * m) by (nonlinear_arith);
    }
}

/// Mathematical state of a tracker: the queued samples, their running
/// sum, the peak record, and the window capacity.
#[verifier::ext_equal]
pub struct TrackerModel {
    pub samples: Seq<u64>,
    pub total_sum: int,
    pub peak_rate: int,
    pub peak_time: int,
    pub capacity: int,
}

impl TrackerModel {
    /// The rate, in bytes per second, that `bytes` in one tick amounts to.
    pub open spec fn rate_of(bytes: int) -> int {
        bytes * 1000 / (TICK_RATE_MS as int)
    }

    /// Tracker state invariant: the queue respects the capacity, the
    /// running sum equals the sum of the queue, and every sample is a
    /// byte count one tick can carry.
    pub open spec fn wf(self) -> bool {
        &&& 1 <= self.capacity <= MAX_WINDOW_CAPACITY
        &&& self.samples.len() <= self.capacity
        &&& self.total_sum == sum_seq(self.samples)
        &&& forall|i: int| 0 <= i < self.samples.len() ==> self.samples[i] <= MAX_TICK_BYTES
        &&& 0 <= self.peak_rate
        &&& 0 <= self.peak_time
    }

    /// A tracker that has seen nothing yet.
    pub open spec fn fresh(capacity: int, now: int) -> TrackerModel {
        TrackerModel {
            samples: Seq::empty(),
            total_sum: 0,
            peak_rate: 0,
            peak_time: now,
            capacity: capacity,
        }
    }

    /// The sample queue after one tick: the new sample appended, the
    /// oldest evicted once the capacity would be exceeded.
    pub open spec fn pushed_samples(self, bytes: u64) -> Seq<u64> {
        if self.samples.len() < self.capacity {
            self.samples.push(bytes)
        } else {
            self.samples.push(bytes).drop_first()
        }
    }

    /// The tracker state after one tick carrying `bytes`, observed at
    /// time `now`.
    pub open spec fn updated(self, bytes: u64, now: int) -> TrackerModel {
        let inst = Self::rate_of(bytes as int);
        let queued = self.pushed_samples(bytes);
        TrackerModel {
            samples: queued,
            total_sum: sum_seq(queued),
            peak_rate: if inst > self.peak_rate {
                inst
            } else {
                self.peak_rate
            },
            peak_time: if inst > self.peak_rate {
                now
            } else {
                self.peak_time
            },
            capacity: self.capacity,
        }
    }

    /// The windowed average rate: the running sum spread over the time
    /// the queued samples actually cover.
    pub open spec fn avg_rate(self) -> int {
        if self.samples.len() == 0 {
            0
        } else {
            self.total_sum * 1000 / (self.samples.len() * (TICK_RATE_MS as int))
        }
    }

    /// A tracker whose whole window is silent and whose peak never
    /// moved; the aggregator discards such a tracker.
    pub open spec fn is_idle(self) -> bool {
        self.total_sum == 0 && self.peak_rate == 0
    }
}

/// The peak rate never decreases across an update.
pub proof fn lemma_peak_monotone(t: TrackerModel, bytes: u64, now: int)
    ensures
        t.updated(bytes, now).peak_rate >= t.peak_rate,
{
}

/// The peak rate never decreases over any run of updates.
pub proof fn lemma_peak_monotone_run(t: TrackerModel, ticks: Seq<(u64, int)>)
    ensures
        after_updates(t, ticks).peak_rate >= t.peak_rate,
    decreases ticks.len(),
{
    if ticks.len() > 0 {
        lemma_peak_monotone(t, ticks[0].0, ticks[0].1);
        lemma_peak_monotone_run(t.updated(ticks[0].0, ticks[0].1), ticks.drop_first());
    }
}

/// The tracker state after a run of ticks, each a byte count and an
/// observation time.
pub open spec fn after_updates(t: TrackerModel, ticks: Seq<(u64, int)>) -> TrackerModel
    decreases ticks.len(),
{
    if ticks.len() == 0 {
        t
    } else {
        after_updates(t.updated(ticks[0].0, ticks[0].1), ticks.drop_first())
    }
}

/// The peak timestamp moves exactly when the peak rate moves, provided
/// the update happens at a time distinct from the recorded one.
pub proof fn lemma_peak_time_tracks_rate(t: TrackerModel, bytes: u64, now: int)
    requires
        now != t.peak_time,
    ensures
        (t.updated(bytes, now).peak_rate != t.peak_rate) <==> (t.updated(bytes, now).peak_time
            != t.peak_time),
{
}

/// Scaling a quotient's divisor and the factor `1000 / TICK_RATE_MS`
/// against each other leaves the quotient unchanged.
proof fn lemma_avg_rewrite(sum: int, len: int)
    requires
        sum >= 0,
        len >= 1,
    ensures
        (sum * (1000int / (TICK_RATE_MS as int))) / len == sum * 1000 / (len * (TICK_RATE_MS
            as int)),
{
    let f = 1000int / (TICK_RATE_MS as int);
    let q = (sum * f) / len;
    let r = (sum * f) % len;
    vstd::arithmetic::div_mod::lemma_fundamental_div_mod(sum * f, len);
    assert(sum * 1000 == (len * (TICK_RATE_MS as int)) * q + r * (TICK_RATE_MS as int))
        by (nonlinear_arith)
        requires
            sum * f == len * q + r,
            f == 2,
            TICK_RATE_MS == 500,
    ;
    assert(0 <= r * (TICK_RATE_MS as int) < len * (TICK_RATE_MS as int)) by (nonlinear_arith)
        requires
            0 <= r < len,
            TICK_RATE_MS == 500,
    ;
    vstd::arithmetic::div_mod::lemma_fundamental_div_mod_converse(
        sum * 1000,
        len * (TICK_RATE_MS as int),
        q,
        r * (TICK_RATE_MS as int),
    );
}

/// Per-endpoint sliding-window history: the queued samples of the last
/// window, their running sum, and the peak record.
pub struct IpHistory {
    pub samples: VecDeque<u64>,
    pub total_sum: u64,
    pub peak_rate: u64,
    pub peak_time: u64,
    pub capacity: usize,
}

impl View for IpHistory {
    type V = TrackerModel;

    open spec fn view(&self) -> TrackerModel {
        TrackerModel {
            samples: self.samples@,
            total_sum: self.total_sum as int,
            peak_rate: self.peak_rate as int,
            peak_time: self.peak_time as int,
            capacity: self.capacity as int,
        }
    }
}

impl IpHistory {
    /// A tracker with an empty window, created the moment its endpoint
    /// is first seen.
    pub fn new(capacity: usize, now_ms: u64) -> (t: IpHistory)
        requires
            1 <= capacity <= MAX_WINDOW_CAPACITY,
        ensures
            t@ == TrackerModel::fresh(capacity as int, now_ms as int),
            t@.wf(),
    {
        let t = IpHistory {
            samples: VecDeque::with_capacity(capacity),
            total_sum: 0,
            peak_rate: 0,
            peak_time: now_ms,
            capacity: capacity,
        };
        proof {
            assert(t@ =~= TrackerModel::fresh(capacity as int, now_ms as int));
        }
        t
    }

    /// One tick: record the peak if this tick's instantaneous rate
    /// beats it, append the sample, evict the oldest beyond capacity,
    /// and return the windowed average rate.
    pub fn update(&mut self, bytes: u64, now_ms: u64) -> (avg: u64)
        requires
            old(self)@.wf(),
            bytes <= MAX_TICK_BYTES,
        ensures
            final(self)@ == old(self)@.updated(bytes, now_ms as int),
            final(self)@.wf(),
            final(self)@.samples.len() >= 1,
            avg as int == final(self)@.avg_rate(),
    {
        let ghost t0 = self@;
        let instant: u64 = bytes * 1000 / TICK_RATE_MS;

        if instant > self.peak_rate {
            self.peak_rate = instant;
            self.peak_time = now_ms;
        }

        proof {
            lemma_sum_push(t0.samples, bytes);
            lemma_sum_bound(t0.samples, MAX_TICK_BYTES);
            assert(t0.samples.len() * (MAX_TICK_BYTES as int) <= (MAX_WINDOW_CAPACITY as int) * (
            MAX_TICK_BYTES as int)) by (nonlinear_arith)
                requires
                    0 <= t0.samples.len() <= MAX_WINDOW_CAPACITY,
            ;
        }
        self.samples.push_back(bytes);
        self.total_sum = self.total_sum + bytes;

        if self.samples.len() > self.capacity {
            let ghost pushed = t0.samples.push(bytes);
            let removed = self.samples.pop_front().unwrap();
            proof {
                assert(removed == pushed[0]);
                assert(self.samples@ =~= pushed.drop_first());
                assert(sum_seq(pushed) == pushed[0] + sum_seq(pushed.drop_first()));
                lemma_sum_nonneg(pushed.drop_first());
            }
            self.total_sum = self.total_sum - removed;
        }

        proof {
            assert(self@ =~= t0.updated(bytes, now_ms as int));
            assert(forall|i: int|
                0 <= i < self@.samples.len() ==> self@.samples[i] <= MAX_TICK_BYTES);
            lemma_sum_bound(self@.samples, MAX_TICK_BYTES);
            assert(self@.samples.len() * (MAX_TICK_BYTES as int) <= (MAX_WINDOW_CAPACITY as int)
                * (MAX_TICK_BYTES as int)) by (nonlinear_arith)
                requires
                    0 <= self@.samples.len() <= MAX_WINDOW_CAPACITY,
            ;
            assert(self@.total_sum <= (MAX_WINDOW_CAPACITY as int) * (MAX_TICK_BYTES as int));
            assert(self@.total_sum * 2 <= u64::MAX as int);
        }

        let len: u64 = self.samples.len() as u64;
        let avg: u64 = (self.total_sum * (1000 / TICK_RATE_MS)) / len;
        proof {
            lemma_avg_rewrite(self.total_sum as int, len as int);
        }
        avg
    }

    /// Whether the aggregator should discard this tracker: its window
    /// is silent and its peak never moved.
    pub fn is_idle_now(&self) -> (r: bool)
        ensures
            r == self@.is_idle(),
    {
        self.total_sum == 0 && self.peak_rate == 0
    }
}

} // verus!
