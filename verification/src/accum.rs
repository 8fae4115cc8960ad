//! Shared accumulator: the hand-off buffer between the capture side
//! and the tick loop.
//!
//! The capture side calls [`SharedStats::record`] once per packet; the
//! aggregator calls [`SharedStats::drain`] once per tick, taking
//! everything and resetting the buffer.  Callers that share the buffer
//! across threads wrap it in their own mutual exclusion; the operations
//! themselves are plain, fully specified value transformations.

use vstd::prelude::*;

use crate::MAX_TICK_BYTES;
use crate::assoc::al_get;
use crate::assoc::al_has;
use crate::assoc::al_index;
use crate::assoc::al_unique;
use crate::assoc::lemma_al_get_exists;
use crate::assoc::lemma_al_get_first_match;
use crate::assoc::lemma_al_push;
use crate::assoc::lemma_al_update;
use crate::classify::Cidr;
use crate::classify::should_track_ip;
use crate::classify::spec_should_track;

verus! {

/// `a + b`, held at the per-tick byte ceiling.
pub open spec fn cap_tick(a: u64, b: u64) -> u64 {
    if a + b > MAX_TICK_BYTES {
        MAX_TICK_BYTES
    } else {
        (a + b) as u64
    }
}

/// The delta sequence after `n` more bytes for endpoint `k`: the
/// existing binding grows, or a new binding appears at the end.
pub open spec fn bumped(s: Seq<(u32, u64)>, k: u32, n: u64) -> Seq<(u32, u64)> {
    match al_get(s, k) {
        Some(v) => s.update(al_index(s, k), (k, cap_tick(v, n))),
        None => s.push((k, cap_tick(0, n))),
    }
}

/// The delta sequence after one packet of `n` bytes from `src` to
/// `dst`: each tracked end of the packet is bumped independently.
pub open spec fn deltas_after(
    s: Seq<(u32, u64)>,
    src: u32,
    dst: u32,
    n: u64,
    filter: Option<Cidr>,
) -> Seq<(u32, u64)> {
    let mid = if spec_should_track(src, filter) {
        bumped(s, src, n)
    } else {
        s
    };
    if spec_should_track(dst, filter) {
        bumped(mid, dst, n)
    } else {
        mid
    }
}

/// The bytes recorded for `k` this tick, zero when `k` has no binding.
pub open spec fn delta_val(s: Seq<(u32, u64)>, k: u32) -> u64 {
    match al_get(s, k) {
        Some(v) => v,
        None => 0u64,
    }
}

/// Per-tick traffic shared between the capture side and the tick loop:
/// per-endpoint byte deltas plus the two direction totals.
pub struct SharedStats {
    pub traffic_delta: Vec<(u32, u64)>,
    pub rx_delta: u64,
    pub tx_delta: u64,
}

impl SharedStats {
    /// Accumulator invariant: unique endpoints, every count held at the
    /// per-tick ceiling.
    pub open spec fn wf(self) -> bool {
        &&& al_unique(self.traffic_delta@)
        &&& forall|i: int|
            0 <= i < self.traffic_delta@.len() ==> self.traffic_delta@[i].1 <= MAX_TICK_BYTES
        &&& self.rx_delta <= MAX_TICK_BYTES
        &&& self.tx_delta <= MAX_TICK_BYTES
    }

    /// An empty accumulator.
    pub fn new() -> (s: SharedStats)
        ensures
            s.wf(),
            s.traffic_delta@ == Seq::<(u32, u64)>::empty(),
            s.rx_delta == 0,
            s.tx_delta == 0,
    {
        let s = SharedStats { traffic_delta: Vec::new(), rx_delta: 0, tx_delta: 0 };
        proof {
            assert(s.traffic_delta@ =~= Seq::<(u32, u64)>::empty());
        }
        s
    }

    /// Adds `n` bytes to the binding for `k`, creating it if missing.
    fn bump(&mut self, k: u32, n: u64)
        requires
            old(self).wf(),
        ensures
            final(self).wf(),
            final(self).traffic_delta@ == bumped(old(self).traffic_delta@, k, n),
            final(self).rx_delta == old(self).rx_delta,
            final(self).tx_delta == old(self).tx_delta,
    {
        let ghost s0 = self.traffic_delta@;
        let mut i: usize = 0;
        while i < self.traffic_delta.len()
            invariant
                old(self).wf(),
                self.traffic_delta@ == s0,
                s0 == old(self).traffic_delta@,
                self.rx_delta == old(self).rx_delta,
                self.tx_delta == old(self).tx_delta,
                0 <= i <= s0.len(),
                forall|j: int| 0 <= j < i ==> s0[j].0 != k,
            decreases s0.len() - i,
        {
            if self.traffic_delta[i].0 == k {
                let v = self.traffic_delta[i].1;
                let nv = cap_add_tick(v, n);
                proof {
                    lemma_al_get_first_match(s0, k, i as int);
                }
                self.traffic_delta[i] = (k, nv);
                proof {
                    lemma_al_update(s0, i as int, (k, nv));
                }
                return ;
            }
            i = i + 1;
        }
        proof {
            lemma_al_get_exists(s0, k);
        }
        let nv = cap_add_tick(0, n);
        self.traffic_delta.push((k, nv));
        proof {
            lemma_al_push(s0, (k, nv));
        }
    }

    /// One captured packet: `n` bytes from `src` to `dst`.  The packet
    /// counts toward the transmit total when its source is the local
    /// interface, toward the receive total otherwise; each tracked end
    /// of the packet gains `n` bytes of per-endpoint delta.
    pub fn record(&mut self, src: u32, dst: u32, n: u64, local_ip: u32, filter: Option<Cidr>)
        requires
            old(self).wf(),
            filter matches Some(net) ==> net.wf(),
        ensures
            final(self).wf(),
            src == local_ip ==> final(self).tx_delta == cap_tick(old(self).tx_delta, n)
                && final(self).rx_delta == old(self).rx_delta,
            src != local_ip ==> final(self).rx_delta == cap_tick(old(self).rx_delta, n)
                && final(self).tx_delta == old(self).tx_delta,
            final(self).traffic_delta@ == deltas_after(
                old(self).traffic_delta@,
                src,
                dst,
                n,
                filter,
            ),
    {
        if src == local_ip {
            self.tx_delta = cap_add_tick(self.tx_delta, n);
        } else {
            self.rx_delta = cap_add_tick(self.rx_delta, n);
        }
        if should_track_ip(src, filter) {
            self.bump(src, n);
        }
        if should_track_ip(dst, filter) {
            self.bump(dst, n);
        }
    }

    /// Takes everything accumulated this tick — the per-endpoint
    /// deltas and both direction totals — and resets the buffer.
    pub fn drain(&mut self) -> (out: (Vec<(u32, u64)>, u64, u64))
        ensures
            out.0@ == old(self).traffic_delta@,
            out.1 == old(self).rx_delta,
            out.2 == old(self).tx_delta,
            final(self).wf(),
            final(self).traffic_delta@ == Seq::<(u32, u64)>::empty(),
            final(self).rx_delta == 0,
            final(self).tx_delta == 0,
    {
        let mut deltas: Vec<(u32, u64)> = Vec::new();
        core::mem::swap(&mut deltas, &mut self.traffic_delta);
        let rx = self.rx_delta;
        let tx = self.tx_delta;
        self.rx_delta = 0;
        self.tx_delta = 0;
        proof {
            assert(self.traffic_delta@ =~= Seq::<(u32, u64)>::empty());
        }
        (deltas, rx, tx)
    }
}

/// The bytes a delta vector holds for endpoint `k`, zero when absent.
pub fn delta_lookup(deltas: &Vec<(u32, u64)>, k: u32) -> (r: u64)
    ensures
        r == delta_val(deltas@, k),
{
    let mut i: usize = 0;
    while i < deltas.len()
        invariant
            0 <= i <= deltas@.len(),
            forall|j: int| 0 <= j < i ==> deltas@[j].0 != k,
        decreases deltas@.len() - i,
    {
        if deltas[i].0 == k {
            proof {
                lemma_al_get_first_match(deltas@, k, i as int);
            }
            return deltas[i].1;
        }
        i = i + 1;
    }
    proof {
        lemma_al_get_exists(deltas@, k);
    }
    0
}

/// `a + b`, held at the per-tick byte ceiling.
fn cap_add_tick(a: u64, b: u64) -> (r: u64)
    ensures
        r == cap_tick(a, b),
{
    match a.checked_add(b) {
        Some(s) => if s > MAX_TICK_BYTES {
            MAX_TICK_BYTES
        } else {
            s
        },
        None => MAX_TICK_BYTES,
    }
}

} // verus!
