//! Tick-driven aggregator.
//!
//! Once per tick the aggregator drains the shared accumulator, shifts
//! the global trend buffers, advances the lifetime totals and the
//! global peak records, feeds every endpoint's tracker (zero bytes for
//! endpoints silent this tick, so they decay), discards trackers whose
//! window has gone fully idle, and publishes the ranked "top talkers"
//! snapshot.

use vstd::prelude::*;

use crate::MAX_SAMPLES;
use crate::MAX_TICK_BYTES;
use crate::TICK_RATE_MS;
use crate::accum::SharedStats;
use crate::accum::delta_lookup;
use crate::accum::delta_val;
use crate::assoc::al_get;
use crate::assoc::al_has;
use crate::assoc::al_unique;
use crate::assoc::lemma_al_get_at;
use crate::assoc::lemma_al_get_exists;
use crate::assoc::lemma_al_push;
use crate::tracker::IpHistory;
use crate::tracker::TrackerModel;

verus! {

/// Whether a tracker-table suffix starting at `from` carries key `k`.
pub open spec fn has_key_from(s: Seq<(u32, IpHistory)>, from: int, k: u32) -> bool {
    exists|i: int| from <= i < s.len() && (#[trigger] s[i]).0 == k
}

/// Whether a delta-sequence prefix of length `upto` carries key `k`.
pub open spec fn has_key_upto(s: Seq<(u32, u64)>, upto: int, k: u32) -> bool {
    exists|i: int| 0 <= i < upto && i < s.len() && (#[trigger] s[i]).0 == k
}

/// Whether the snapshot has a row for endpoint `k`.
pub open spec fn snapshot_has_addr(c: Seq<TalkerEntry>, k: u32) -> bool {
    exists|i: int| 0 <= i < c.len() && (#[trigger] c[i]).addr == k
}

/// A global peak record: the highest instantaneous rate seen so far,
/// and when it was seen.
#[derive(Clone, Copy, Debug, PartialEq, Eq, Structural)]
pub struct PeakRecord {
    pub rate: u64,
    pub time_ms: u64,
}

/// One row of the published snapshot: an endpoint with its windowed
/// average rate and its peak record.
#[derive(Clone, Copy, Debug, PartialEq, Eq, Structural)]
pub struct TalkerEntry {
    pub addr: u32,
    pub avg_rate: u64,
    pub peak_rate: u64,
    pub peak_time: u64,
}

/// Snapshot order: higher average first, ties broken by lower address.
pub open spec fn ranked_le(a: TalkerEntry, b: TalkerEntry) -> bool {
    a.avg_rate > b.avg_rate || (a.avg_rate == b.avg_rate && a.addr <= b.addr)
}

/// `a + b` held at the `u64` ceiling.
pub open spec fn sat_add(a: u64, b: u64) -> u64 {
    if a + b > u64::MAX {
        u64::MAX
    } else {
        (a + b) as u64
    }
}

/// A peak record fed one tick's byte delta: replaced exactly when the
/// delta's instantaneous rate strictly beats the record.
pub open spec fn peak_updated(rec: PeakRecord, delta: u64, now_ms: u64) -> PeakRecord {
    let r = TrackerModel::rate_of(delta as int);
    if r > rec.rate {
        (PeakRecord { rate: r as u64, time_ms: now_ms })
    } else {
        rec
    }
}

/// The model behind a tracker-table binding.
pub open spec fn tracker_get(s: Seq<(u32, IpHistory)>, k: u32) -> Option<TrackerModel> {
    match al_get(s, k) {
        Some(h) => Some(h@),
        None => None,
    }
}

/// What one tick leaves behind for endpoint `k`: its tracker (existing
/// or fresh) fed this tick's delta, and `None` when the endpoint was
/// never seen or its tracker went idle and is evicted.
pub open spec fn tick_result(
    trk: Seq<(u32, IpHistory)>,
    del: Seq<(u32, u64)>,
    k: u32,
    now: int,
) -> Option<TrackerModel> {
    if al_has(trk, k) {
        let m = al_get(trk, k)->Some_0@.updated(delta_val(del, k), now);
        if m.is_idle() {
            None
        } else {
            Some(m)
        }
    } else if al_has(del, k) {
        let m = TrackerModel::fresh(MAX_SAMPLES as int, now).updated(delta_val(del, k), now);
        if m.is_idle() {
            None
        } else {
            Some(m)
        }
    } else {
        None
    }
}

/// Eviction policy: a tracked endpoint loses its tracker in a tick
/// exactly when, after that tick's update, its running sum and its
/// peak rate are both zero.
pub proof fn lemma_eviction_policy(
    trk: Seq<(u32, IpHistory)>,
    del: Seq<(u32, u64)>,
    k: u32,
    now: int,
)
    requires
        al_has(trk, k),
    ensures
        (tick_result(trk, del, k, now) is None) <==> al_get(trk, k)->Some_0@.updated(
            delta_val(del, k),
            now,
        ).is_idle(),
{
}

/// A snapshot row faithfully reports the tracker it stands for.
pub open spec fn talker_matches(trk: Seq<(u32, IpHistory)>, e: TalkerEntry) -> bool {
    match tracker_get(trk, e.addr) {
        Some(m) => e.avg_rate as int == m.avg_rate() && e.peak_rate as int == m.peak_rate
            && e.peak_time as int == m.peak_time,
        None => false,
    }
}

/// Aggregator state: global trend buffers, lifetime totals, global
/// peak records, the per-endpoint tracker table, and the published
/// snapshot.
pub struct App {
    pub rx_history: Vec<u64>,
    pub tx_history: Vec<u64>,
    pub total_rx_bytes: u64,
    pub total_tx_bytes: u64,
    pub peak_rx_record: PeakRecord,
    pub peak_tx_record: PeakRecord,
    pub ip_histories: Vec<(u32, IpHistory)>,
    pub top_talkers: Vec<TalkerEntry>,
}

impl App {
    /// Aggregator invariant: full-length trend buffers and a tracker
    /// table with unique endpoints, every tracker well-formed at the
    /// configured window capacity.
    pub open spec fn wf(self) -> bool {
        &&& self.rx_history@.len() == MAX_SAMPLES
        &&& self.tx_history@.len() == MAX_SAMPLES
        &&& al_unique(self.ip_histories@)
        &&& forall|i: int|
            0 <= i < self.ip_histories@.len() ==> (#[trigger] self.ip_histories@[i]).1@.wf()
                && self.ip_histories@[i].1@.capacity == MAX_SAMPLES
    }

    /// A fresh aggregator: zeroed trend buffers and totals, zero peak
    /// records stamped `now_ms`, no trackers, an empty snapshot.
    pub fn new(now_ms: u64) -> (app: App)
        ensures
            app.wf(),
            app.rx_history@ == Seq::new(MAX_SAMPLES as nat, |i: int| 0u64),
            app.tx_history@ == Seq::new(MAX_SAMPLES as nat, |i: int| 0u64),
            app.total_rx_bytes == 0,
            app.total_tx_bytes == 0,
            app.peak_rx_record == (PeakRecord { rate: 0, time_ms: now_ms }),
            app.peak_tx_record == (PeakRecord { rate: 0, time_ms: now_ms }),
            app.ip_histories@ == Seq::<(u32, IpHistory)>::empty(),
            app.top_talkers@ == Seq::<TalkerEntry>::empty(),
    {
        let mut zeros_rx: Vec<u64> = Vec::new();
        let mut n: usize = 0;
        while n < MAX_SAMPLES
            invariant
                0 <= n <= MAX_SAMPLES,
                zeros_rx@.len() == n,
                forall|i: int| 0 <= i < n ==> zeros_rx@[i] == 0u64,
            decreases MAX_SAMPLES - n,
        {
            zeros_rx.push(0);
            n = n + 1;
        }
        let zeros_tx = clone_u64_vec(&zeros_rx);
        let app = App {
            rx_history: zeros_rx,
            tx_history: zeros_tx,
            total_rx_bytes: 0,
            total_tx_bytes: 0,
            peak_rx_record: PeakRecord { rate: 0, time_ms: now_ms },
            peak_tx_record: PeakRecord { rate: 0, time_ms: now_ms },
            ip_histories: Vec::new(),
            top_talkers: Vec::new(),
        };
        proof {
            assert(app.rx_history@ =~= Seq::new(MAX_SAMPLES as nat, |i: int| 0u64));
            assert(app.tx_history@ =~= Seq::new(MAX_SAMPLES as nat, |i: int| 0u64));
            assert(app.ip_histories@ =~= Seq::<(u32, IpHistory)>::empty());
            assert(app.top_talkers@ =~= Seq::<TalkerEntry>::empty());
        }
        app
    }

    /// Whether the aggregator currently keeps a tracker for `addr`.
    pub fn is_tracking(&self, addr: u32) -> (r: bool)
        ensures
            r == al_has(self.ip_histories@, addr),
    {
        let mut i: usize = 0;
        while i < self.ip_histories.len()
            invariant
                0 <= i <= self.ip_histories@.len(),
                forall|j: int| 0 <= j < i ==> self.ip_histories@[j].0 != addr,
            decreases self.ip_histories@.len() - i,
        {
            if self.ip_histories[i].0 == addr {
                proof {
                    crate::assoc::lemma_al_get_first_match(self.ip_histories@, addr, i as int);
                }
                return true;
            }
            i = i + 1;
        }
        proof {
            lemma_al_get_exists(self.ip_histories@, addr);
        }
        false
    }

    /// How many endpoints currently have a tracker.
    pub fn tracked_count(&self) -> (n: usize)
        ensures
            n == self.ip_histories@.len(),
    {
        self.ip_histories.len()
    }

    /// One tick of the aggregator: drains the accumulator, shifts the
    /// trend buffers, advances the lifetime totals and the global peak
    /// records, feeds every endpoint's tracker its delta (zero when
    /// silent this tick), evicts the trackers that went idle, and
    /// publishes the ranked snapshot.
    pub fn on_tick(&mut self, stats: &mut SharedStats, now_ms: u64)
        requires
            old(self).wf(),
            old(stats).wf(),
        ensures
            final(self).wf(),
            // the accumulator is left drained
            final(stats).wf(),
            final(stats).traffic_delta@ == Seq::<(u32, u64)>::empty(),
            final(stats).rx_delta == 0,
            final(stats).tx_delta == 0,
            // trend buffers shift one tick left and take this tick's deltas
            final(self).rx_history@ == old(self).rx_history@.drop_first().push(
                old(stats).rx_delta,
            ),
            final(self).tx_history@ == old(self).tx_history@.drop_first().push(
                old(stats).tx_delta,
            ),
            // lifetime totals grow by this tick's deltas
            final(self).total_rx_bytes == sat_add(old(self).total_rx_bytes, old(stats).rx_delta),
            final(self).total_tx_bytes == sat_add(old(self).total_tx_bytes, old(stats).tx_delta),
            // global peaks move on a strictly higher instantaneous rate
            final(self).peak_rx_record == peak_updated(
                old(self).peak_rx_record,
                old(stats).rx_delta,
                now_ms,
            ),
            final(self).peak_tx_record == peak_updated(
                old(self).peak_tx_record,
                old(stats).tx_delta,
                now_ms,
            ),
            // every visited endpoint's tracker is updated or evicted
            forall|k: u32| #[trigger]
                tracker_get(final(self).ip_histories@, k) == tick_result(
                    old(self).ip_histories@,
                    old(stats).traffic_delta@,
                    k,
                    now_ms as int,
                ),
            // the snapshot lists exactly the surviving endpoints, each
            // row reporting its tracker faithfully, ranked by average
            forall|i: int|
                0 <= i < final(self).top_talkers@.len() ==> talker_matches(
                    final(self).ip_histories@,
                    #[trigger] final(self).top_talkers@[i],
                ),
            forall|k: u32|
                al_has(final(self).ip_histories@, k) <==> snapshot_has_addr(
                    final(self).top_talkers@,
                    k,
                ),
            forall|a: int, b: int|
                0 <= a < b < final(self).top_talkers@.len() ==> final(self).top_talkers@[a].addr
                    != final(self).top_talkers@[b].addr,
            forall|a: int, b: int|
                0 <= a < b < final(self).top_talkers@.len() ==> ranked_le(
                    final(self).top_talkers@[a],
                    final(self).top_talkers@[b],
                ),
    {
        let (deltas, rx, tx) = stats.drain();

        shift_push(&mut self.rx_history, rx);
        shift_push(&mut self.tx_history, tx);
        self.total_rx_bytes = sat_add64(self.total_rx_bytes, rx);
        self.total_tx_bytes = sat_add64(self.total_tx_bytes, tx);
        bump_peak(&mut self.peak_rx_record, rx, now_ms);
        bump_peak(&mut self.peak_tx_record, tx, now_ms);

        let mut taken: Vec<(u32, IpHistory)> = Vec::new();
        core::mem::swap(&mut taken, &mut self.ip_histories);
        let (new_ts, mut cands) = visit_endpoints(taken, &deltas, now_ms);
        let ghost pre_sort = cands@;
        sort_talkers(&mut cands);
        proof {
            assert forall|i: int|
                0 <= i < cands@.len() implies talker_matches(
                new_ts@,
                #[trigger] cands@[i],
            ) by {
                let e = cands@[i];
                assert(cands@.contains(e));
                assert(pre_sort.contains(e));
                let j = choose|j: int| 0 <= j < pre_sort.len() && pre_sort[j] == e;
                assert(talker_matches(new_ts@, pre_sort[j]));
            }
            assert forall|k: u32| al_has(new_ts@, k) implies snapshot_has_addr(cands@, k) by {
                assert(snapshot_has_addr(pre_sort, k));
                let j = choose|j: int| 0 <= j < pre_sort.len() && pre_sort[j].addr == k;
                let e = pre_sort[j];
                assert(pre_sort.contains(e));
                assert(cands@.contains(e));
                let i = choose|i: int| 0 <= i < cands@.len() && cands@[i] == e;
                assert(cands@[i].addr == k);
            }
            assert forall|k: u32| snapshot_has_addr(cands@, k) implies al_has(new_ts@, k) by {
                let i = choose|i: int| 0 <= i < cands@.len() && cands@[i].addr == k;
                let e = cands@[i];
                assert(cands@.contains(e));
                assert(pre_sort.contains(e));
                let j = choose|j: int| 0 <= j < pre_sort.len() && pre_sort[j] == e;
                assert(pre_sort[j].addr == k);
                assert(snapshot_has_addr(pre_sort, k));
            }
        }
        self.ip_histories = new_ts;
        self.top_talkers = cands;
    }
}

/// An element-wise copy of a byte-count buffer.
fn clone_u64_vec(v: &Vec<u64>) -> (r: Vec<u64>)
    ensures
        r@ == v@,
{
    let mut r: Vec<u64> = Vec::new();
    let mut i: usize = 0;
    while i < v.len()
        invariant
            0 <= i <= v@.len(),
            r@ == v@.take(i as int),
        decreases v@.len() - i,
    {
        r.push(v[i]);
        proof {
            assert(r@ =~= v@.take(i + 1));
        }
        i = i + 1;
    }
    proof {
        assert(v@.take(v@.len() as int) =~= v@);
    }
    r
}

/// `a + b` held at the `u64` ceiling.
fn sat_add64(a: u64, b: u64) -> (r: u64)
    ensures
        r == sat_add(a, b),
{
    match a.checked_add(b) {
        Some(s) => s,
        None => u64::MAX,
    }
}

/// Shifts a trend buffer one tick left and appends this tick's delta.
fn shift_push(v: &mut Vec<u64>, x: u64)
    requires
        old(v)@.len() >= 1,
    ensures
        final(v)@ == old(v)@.drop_first().push(x),
{
    v.remove(0);
    v.push(x);
    proof {
        assert(v@ =~= old(v)@.drop_first().push(x));
    }
}

/// Feeds one tick's byte delta to a global peak record.
fn bump_peak(rec: &mut PeakRecord, delta: u64, now_ms: u64)
    requires
        delta <= MAX_TICK_BYTES,
    ensures
        *final(rec) == peak_updated(*old(rec), delta, now_ms),
{
    let instant: u64 = delta * 1000 / TICK_RATE_MS;
    if instant > rec.rate {
        rec.rate = instant;
        rec.time_ms = now_ms;
    }
}

/// Whether `k` occurs in a key list.
fn contains_key(keys: &Vec<u32>, k: u32) -> (r: bool)
    ensures
        r == keys@.contains(k),
{
    let mut i: usize = 0;
    while i < keys.len()
        invariant
            0 <= i <= keys@.len(),
            forall|j: int| 0 <= j < i ==> keys@[j] != k,
        decreases keys@.len() - i,
    {
        if keys[i] == k {
            return true;
        }
        i = i + 1;
    }
    false
}

/// Visits every endpoint that has a tracker or appears in this tick's
/// deltas: feeds each tracker its delta (zero when silent), discards
/// the ones that went idle, and collects a snapshot row per survivor.
fn visit_endpoints(old_ts: Vec<(u32, IpHistory)>, deltas: &Vec<(u32, u64)>, now_ms: u64) -> (r: (
    Vec<(u32, IpHistory)>,
    Vec<TalkerEntry>,
))
    requires
        al_unique(old_ts@),
        forall|i: int|
            0 <= i < old_ts@.len() ==> (#[trigger] old_ts@[i]).1@.wf() && old_ts@[i].1@.capacity
                == MAX_SAMPLES,
        al_unique(deltas@),
        forall|i: int| 0 <= i < deltas@.len() ==> (#[trigger] deltas@[i]).1 <= MAX_TICK_BYTES,
    ensures
        al_unique(r.0@),
        forall|i: int|
            0 <= i < r.0@.len() ==> (#[trigger] r.0@[i]).1@.wf() && r.0@[i].1@.capacity
                == MAX_SAMPLES,
        forall|k: u32| #[trigger]
            tracker_get(r.0@, k) == tick_result(old_ts@, deltas@, k, now_ms as int),
        forall|i: int| 0 <= i < r.1@.len() ==> talker_matches(r.0@, #[trigger] r.1@[i]),
        forall|k: u32| al_has(r.0@, k) <==> snapshot_has_addr(r.1@, k),
        forall|a: int, b: int| 0 <= a < b < r.1@.len() ==> r.1@[a].addr != r.1@[b].addr,
{
    let ghost trk0 = old_ts@;
    let ghost del = deltas@;
    let ghost now = now_ms as int;
    let mut rest = old_ts;
    let mut new_ts: Vec<(u32, IpHistory)> = Vec::new();
    let mut cands: Vec<TalkerEntry> = Vec::new();
    let mut old_keys: Vec<u32> = Vec::new();

    proof {
        assert(rest@ =~= trk0.take(trk0.len() as int));
    }
    while rest.len() > 0
        invariant
            al_unique(trk0),
            forall|i: int|
                0 <= i < trk0.len() ==> (#[trigger] trk0[i]).1@.wf() && trk0[i].1@.capacity
                    == MAX_SAMPLES,
            al_unique(del),
            forall|i: int| 0 <= i < del.len() ==> (#[trigger] del[i]).1 <= MAX_TICK_BYTES,
            del == deltas@,
            now == now_ms as int,
            rest@.len() <= trk0.len(),
            rest@ == trk0.take(rest@.len() as int),
            forall|k: u32| old_keys@.contains(k) <==> has_key_from(trk0, rest@.len() as int, k),
            al_unique(new_ts@),
            forall|i: int|
                0 <= i < new_ts@.len() ==> (#[trigger] new_ts@[i]).1@.wf()
                    && new_ts@[i].1@.capacity == MAX_SAMPLES,
            forall|k: u32| #![trigger tracker_get(new_ts@, k)]
                tracker_get(new_ts@, k) == (if has_key_from(trk0, rest@.len() as int, k) {
                    tick_result(trk0, del, k, now)
                } else {
                    None::<TrackerModel>
                }),
            forall|i: int| 0 <= i < cands@.len() ==> talker_matches(new_ts@, #[trigger] cands@[i]),
            forall|k: u32| al_has(new_ts@, k) <==> snapshot_has_addr(cands@, k),
            forall|a: int, b: int| 0 <= a < b < cands@.len() ==> cands@[a].addr != cands@[b].addr,
        decreases rest@.len(),
    {
        let ghost m = rest@.len() as int;
        let p = rest.pop().unwrap();
        let (ip, mut h) = p;
        proof {
            assert(1 <= m <= trk0.len());
            assert(trk0.take(m)[m - 1] == trk0[m - 1]);
            assert(p == trk0[m - 1]);
            assert(ip == trk0[m - 1].0 && h == trk0[m - 1].1);
            assert(h@.wf() && h@.capacity == MAX_SAMPLES);
            assert(rest@ =~= trk0.take(m - 1));
            lemma_al_get_at(trk0, ip, m - 1);
            lemma_al_get_exists(del, ip);
            if al_has(del, ip) {
                let i = choose|i: int| 0 <= i < del.len() && del[i].0 == ip;
                lemma_al_get_at(del, ip, i);
            }
            assert(!has_key_from(trk0, m, ip)) by {
                if has_key_from(trk0, m, ip) {
                    let i = choose|i: int| m <= i < trk0.len() && trk0[i].0 == ip;
                    assert(trk0[m - 1].0 == trk0[i].0);
                }
            }
            assert(tracker_get(new_ts@, ip) == None::<TrackerModel>);
            assert(!al_has(new_ts@, ip));
        }
        let bytes = delta_lookup(deltas, ip);
        let avg = h.update(bytes, now_ms);
        let ghost prev_keys = old_keys@;
        old_keys.push(ip);
        let ghost prev_new = new_ts@;
        let ghost prev_cands = cands@;
        if h.total_sum > 0 || h.peak_rate > 0 {
            proof {
                lemma_al_push(prev_new, (ip, h));
            }
            let entry = TalkerEntry {
                addr: ip,
                avg_rate: avg,
                peak_rate: h.peak_rate,
                peak_time: h.peak_time,
            };
            new_ts.push((ip, h));
            cands.push(entry);
            proof {
                assert(forall|k: u32|
                    k != ip ==> #[trigger] al_get(new_ts@, k) == al_get(prev_new, k));
                assert(tracker_get(new_ts@, ip) == tick_result(trk0, del, ip, now));
                assert forall|k: u32| al_has(new_ts@, k) implies snapshot_has_addr(cands@, k) by {
                    if k == ip {
                        assert(cands@[cands@.len() - 1].addr == ip);
                    } else {
                        assert(al_get(new_ts@, k) == al_get(prev_new, k));
                        assert(snapshot_has_addr(prev_cands, k));
                        let i = choose|i: int| 0 <= i < prev_cands.len() && prev_cands[i].addr == k;
                        assert(cands@[i] == prev_cands[i]);
                        assert(cands@[i].addr == k);
                    }
                }
                assert forall|k: u32| snapshot_has_addr(cands@, k) implies al_has(new_ts@, k) by {
                    let i = choose|i: int| 0 <= i < cands@.len() && cands@[i].addr == k;
                    if i < prev_cands.len() {
                        assert(prev_cands[i].addr == k);
                        assert(snapshot_has_addr(prev_cands, k));
                        assert(al_has(prev_new, k));
                        assert(al_get(new_ts@, k) == al_get(prev_new, k));
                    }
                }
            }
        } else {
            proof {
                assert(new_ts@ == prev_new);
                assert(forall|k: u32|
                    k != ip ==> #[trigger] al_get(new_ts@, k) == al_get(prev_new, k));
                assert(tick_result(trk0, del, ip, now) is None);
                assert(tracker_get(new_ts@, ip) == tick_result(trk0, del, ip, now));
            }
        }
        proof {
            assert forall|k: u32| #![trigger tracker_get(new_ts@, k)]
                tracker_get(new_ts@, k) == (if has_key_from(trk0, m - 1, k) {
                    tick_result(trk0, del, k, now)
                } else {
                    None::<TrackerModel>
                }) by {
                if k == ip {
                    assert(has_key_from(trk0, m - 1, ip)) by {
                        assert(trk0[m - 1].0 == ip);
                    }
                } else {
                    assert(al_get(new_ts@, k) == al_get(prev_new, k));
                    assert(tracker_get(prev_new, k) == (if has_key_from(trk0, m, k) {
                        tick_result(trk0, del, k, now)
                    } else {
                        None::<TrackerModel>
                    }));
                    assert(has_key_from(trk0, m - 1, k) == has_key_from(trk0, m, k)) by {
                        if has_key_from(trk0, m - 1, k) {
                            let i = choose|i: int| m - 1 <= i < trk0.len() && trk0[i].0 == k;
                            assert(i >= m);
                            assert(has_key_from(trk0, m, k));
                        }
                        if has_key_from(trk0, m, k) {
                            let i = choose|i: int| m <= i < trk0.len() && trk0[i].0 == k;
                            assert(m - 1 <= i < trk0.len() && trk0[i].0 == k);
                            assert(has_key_from(trk0, m - 1, k));
                        }
                    }
                }
            }
            assert forall|k: u32| old_keys@.contains(k) implies has_key_from(trk0, m - 1, k) by {
                let i = choose|i: int| 0 <= i < old_keys@.len() && old_keys@[i] == k;
                if i < prev_keys.len() {
                    assert(prev_keys[i] == k);
                    assert(prev_keys.contains(k));
                    assert(has_key_from(trk0, m, k));
                    let j = choose|j: int| m <= j < trk0.len() && trk0[j].0 == k;
                    assert(m - 1 <= j < trk0.len() && trk0[j].0 == k);
                    assert(has_key_from(trk0, m - 1, k));
                } else {
                    assert(k == ip);
                    assert(trk0[m - 1].0 == k);
                    assert(has_key_from(trk0, m - 1, k));
                }
            }
            assert forall|k: u32| has_key_from(trk0, m - 1, k) implies old_keys@.contains(k) by {
                let i = choose|i: int| m - 1 <= i < trk0.len() && trk0[i].0 == k;
                if i == m - 1 {
                    assert(old_keys@[old_keys@.len() - 1] == k);
                } else {
                    assert(m <= i < trk0.len() && trk0[i].0 == k);
                    assert(has_key_from(trk0, m, k));
                    assert(prev_keys.contains(k));
                    let j = choose|j: int| 0 <= j < prev_keys.len() && prev_keys[j] == k;
                    assert(old_keys@[j] == k);
                }
            }
        }
    }

    proof {
        assert(rest@ =~= Seq::<(u32, IpHistory)>::empty());
        assert forall|k: u32| old_keys@.contains(k) <==> al_has(trk0, k) by {
            lemma_al_get_exists(trk0, k);
            assert(has_key_from(trk0, 0, k) == (exists|i: int|
                0 <= i < trk0.len() && trk0[i].0 == k));
        }
        assert forall|k: u32| #![trigger tracker_get(new_ts@, k)]
            tracker_get(new_ts@, k) == (if al_has(trk0, k) || has_key_upto(del, 0, k) {
                tick_result(trk0, del, k, now)
            } else {
                None::<TrackerModel>
            }) by {
            lemma_al_get_exists(trk0, k);
            assert(has_key_from(trk0, 0, k) == (exists|i: int|
                0 <= i < trk0.len() && trk0[i].0 == k));
            assert(!has_key_upto(del, 0, k));
        }
    }

    let mut di: usize = 0;
    while di < deltas.len()
        invariant
            al_unique(trk0),
            forall|i: int|
                0 <= i < trk0.len() ==> (#[trigger] trk0[i]).1@.wf() && trk0[i].1@.capacity
                    == MAX_SAMPLES,
            al_unique(del),
            forall|i: int| 0 <= i < del.len() ==> (#[trigger] del[i]).1 <= MAX_TICK_BYTES,
            del == deltas@,
            now == now_ms as int,
            0 <= di <= del.len(),
            forall|k: u32| old_keys@.contains(k) <==> al_has(trk0, k),
            al_unique(new_ts@),
            forall|i: int|
                0 <= i < new_ts@.len() ==> (#[trigger] new_ts@[i]).1@.wf()
                    && new_ts@[i].1@.capacity == MAX_SAMPLES,
            forall|k: u32| #![trigger tracker_get(new_ts@, k)]
                tracker_get(new_ts@, k) == (if al_has(trk0, k) || has_key_upto(del, di as int, k) {
                    tick_result(trk0, del, k, now)
                } else {
                    None::<TrackerModel>
                }),
            forall|i: int| 0 <= i < cands@.len() ==> talker_matches(new_ts@, #[trigger] cands@[i]),
            forall|k: u32| al_has(new_ts@, k) <==> snapshot_has_addr(cands@, k),
            forall|a: int, b: int| 0 <= a < b < cands@.len() ==> cands@[a].addr != cands@[b].addr,
        decreases del.len() - di,
    {
        let p = deltas[di];
        let ip = p.0;
        let ghost prev_new = new_ts@;
        let ghost prev_cands = cands@;
        let tracked_before = contains_key(&old_keys, ip);
        if !tracked_before {
            proof {
                lemma_al_get_at(del, ip, di as int);
                assert(!al_has(trk0, ip));
                assert(!has_key_upto(del, di as int, ip)) by {
                    if has_key_upto(del, di as int, ip) {
                        let i = choose|i: int| 0 <= i < di && i < del.len() && del[i].0 == ip;
                        assert(del[i].0 == del[di as int].0);
                    }
                }
                assert(tracker_get(new_ts@, ip) == None::<TrackerModel>);
                assert(!al_has(new_ts@, ip));
            }
            let mut h = IpHistory::new(MAX_SAMPLES, now_ms);
            let avg = h.update(p.1, now_ms);
            if h.total_sum > 0 || h.peak_rate > 0 {
                proof {
                    lemma_al_push(prev_new, (ip, h));
                }
                let entry = TalkerEntry {
                    addr: ip,
                    avg_rate: avg,
                    peak_rate: h.peak_rate,
                    peak_time: h.peak_time,
                };
                new_ts.push((ip, h));
                cands.push(entry);
                proof {
                    assert(forall|k: u32|
                        k != ip ==> #[trigger] al_get(new_ts@, k) == al_get(prev_new, k));
                    assert(tracker_get(new_ts@, ip) == tick_result(trk0, del, ip, now));
                    assert forall|k: u32| al_has(new_ts@, k) implies snapshot_has_addr(
                        cands@,
                        k,
                    ) by {
                        if k == ip {
                            assert(cands@[cands@.len() - 1].addr == ip);
                        } else {
                            assert(al_get(new_ts@, k) == al_get(prev_new, k));
                            assert(snapshot_has_addr(prev_cands, k));
                            let i = choose|i: int|
                                0 <= i < prev_cands.len() && prev_cands[i].addr == k;
                            assert(cands@[i] == prev_cands[i]);
                            assert(cands@[i].addr == k);
                        }
                    }
                    assert forall|k: u32| snapshot_has_addr(cands@, k) implies al_has(
                        new_ts@,
                        k,
                    ) by {
                        let i = choose|i: int| 0 <= i < cands@.len() && cands@[i].addr == k;
                        if i < prev_cands.len() {
                            assert(prev_cands[i].addr == k);
                            assert(snapshot_has_addr(prev_cands, k));
                            assert(al_has(prev_new, k));
                            assert(al_get(new_ts@, k) == al_get(prev_new, k));
                        }
                    }
                }
            } else {
                proof {
                    assert(new_ts@ == prev_new);
                    assert(forall|k: u32|
                        k != ip ==> #[trigger] al_get(new_ts@, k) == al_get(prev_new, k));
                    assert(tick_result(trk0, del, ip, now) is None);
                    assert(tracker_get(new_ts@, ip) == tick_result(trk0, del, ip, now));
                }
            }
        } else {
            proof {
                assert(new_ts@ == prev_new);
                assert(forall|k: u32|
                    k != ip ==> #[trigger] al_get(new_ts@, k) == al_get(prev_new, k));
                assert(al_has(trk0, ip));
                assert(tracker_get(new_ts@, ip) == tick_result(trk0, del, ip, now));
            }
        }
        di = di + 1;
        proof {
            assert forall|k: u32| #![trigger tracker_get(new_ts@, k)]
                tracker_get(new_ts@, k) == (if al_has(trk0, k) || has_key_upto(del, di as int, k) {
                    tick_result(trk0, del, k, now)
                } else {
                    None::<TrackerModel>
                }) by {
                if k == ip {
                    assert(has_key_upto(del, di as int, ip)) by {
                        assert(del[di - 1].0 == ip);
                    }
                } else {
                    assert(al_get(new_ts@, k) == al_get(prev_new, k));
                    assert(tracker_get(prev_new, k) == (if al_has(trk0, k) || has_key_upto(
                        del,
                        di - 1,
                        k,
                    ) {
                        tick_result(trk0, del, k, now)
                    } else {
                        None::<TrackerModel>
                    }));
                    assert(has_key_upto(del, di as int, k) == has_key_upto(del, di - 1, k)) by {
                        if has_key_upto(del, di as int, k) {
                            let i = choose|i: int| 0 <= i < di && i < del.len() && del[i].0 == k;
                            assert(i < di - 1);
                            assert(has_key_upto(del, di - 1, k));
                        }
                        if has_key_upto(del, di - 1, k) {
                            let i = choose|i: int|
                                0 <= i < di - 1 && i < del.len() && del[i].0 == k;
                            assert(0 <= i < di && i < del.len() && del[i].0 == k);
                            assert(has_key_upto(del, di as int, k));
                        }
                    }
                }
            }
        }
    }

    proof {
        assert forall|k: u32| #[trigger]
            tracker_get(new_ts@, k) == tick_result(trk0, del, k, now) by {
            lemma_al_get_exists(del, k);
            assert(has_key_upto(del, del.len() as int, k) == (exists|i: int|
                0 <= i < del.len() && del[i].0 == k));
        }
    }
    (new_ts, cands)
}

/// Sorts a candidate snapshot into ranked order: descending average
/// rate, ties broken by ascending address.
fn sort_talkers(v: &mut Vec<TalkerEntry>)
    requires
        forall|a: int, b: int|
            0 <= a < b < old(v)@.len() ==> old(v)@[a].addr != old(v)@[b].addr,
    ensures
        final(v)@.len() == old(v)@.len(),
        forall|e: TalkerEntry| final(v)@.contains(e) <==> old(v)@.contains(e),
        forall|a: int, b: int|
            0 <= a < b < final(v)@.len() ==> final(v)@[a].addr != final(v)@[b].addr,
        forall|a: int, b: int|
            0 <= a < b < final(v)@.len() ==> ranked_le(final(v)@[a], final(v)@[b]),
{
    let ghost orig = v@;
    if v.len() <= 1 {
        return ;
    }
    let mut i: usize = 1;
    while i < v.len()
        invariant
            1 <= i <= v@.len(),
            v@.len() == orig.len(),
            forall|e: TalkerEntry| v@.contains(e) <==> orig.contains(e),
            forall|a: int, b: int| 0 <= a < b < v@.len() ==> v@[a].addr != v@[b].addr,
            forall|a: int, b: int| 0 <= a < b < i ==> ranked_le(v@[a], v@[b]),
        decreases v@.len() - i,
    {
        let mut j: usize = i;
        while j > 0 && out_of_order(v[j - 1], v[j])
            invariant
                0 <= j <= i < v@.len(),
                v@.len() == orig.len(),
                forall|e: TalkerEntry| v@.contains(e) <==> orig.contains(e),
                forall|a: int, b: int| 0 <= a < b < v@.len() ==> v@[a].addr != v@[b].addr,
                forall|a: int, b: int|
                    0 <= a < b <= i && b != j ==> ranked_le(v@[a], v@[b]),
            decreases j,
        {
            let ghost before = v@;
            let x = v[j - 1];
            let y = v[j];
            v[j - 1] = y;
            v[j] = x;
            proof {
                lemma_swap_contains(before, j as int);
                assert(v@ =~= before.update(j - 1, before[j as int]).update(
                    j as int,
                    before[j - 1],
                ));
            }
            j = j - 1;
        }
        proof {
            assert forall|a: int, b: int| 0 <= a < b <= i implies ranked_le(v@[a], v@[b]) by {
                if b == j && j > 0 {
                    assert(ranked_le(v@[j - 1], v@[j as int]));
                    if a < j - 1 {
                        assert(ranked_le(v@[a], v@[j - 1]));
                    }
                }
            }
        }
        i = i + 1;
    }
}

/// Snapshot order compares as strictly out of order: the left entry
/// ranks after the right one.
fn out_of_order(a: TalkerEntry, b: TalkerEntry) -> (r: bool)
    ensures
        r == !ranked_le(a, b),
{
    a.avg_rate < b.avg_rate || (a.avg_rate == b.avg_rate && a.addr > b.addr)
}

/// Swapping two adjacent rows keeps exactly the same set of rows.
proof fn lemma_swap_contains(s: Seq<TalkerEntry>, j: int)
    requires
        1 <= j < s.len(),
    ensures
        forall|e: TalkerEntry|
            s.update(j - 1, s[j]).update(j, s[j - 1]).contains(e) <==> s.contains(e),
{
    let t = s.update(j - 1, s[j]).update(j, s[j - 1]);
    assert forall|e: TalkerEntry| t.contains(e) implies s.contains(e) by {
        let idx = choose|idx: int| 0 <= idx < t.len() && t[idx] == e;
        if idx == j - 1 {
            assert(s[j] == e);
        } else if idx == j {
            assert(s[j - 1] == e);
        } else {
            assert(s[idx] == e);
        }
    }
    assert forall|e: TalkerEntry| s.contains(e) implies t.contains(e) by {
        let idx = choose|idx: int| 0 <= idx < s.len() && s[idx] == e;
        if idx == j - 1 {
            assert(t[j] == e);
        } else if idx == j {
            assert(t[j - 1] == e);
        } else {
            assert(t[idx] == e);
        }
    }
}

} // verus!
