//! Per-endpoint network bandwidth accounting with a sliding time window.
//!
//! The library holds the traffic-aggregation core of a live bandwidth
//! monitor: a shared accumulator filled once per captured packet, a
//! per-endpoint sliding-window rate tracker, and a tick-driven aggregator
//! that publishes a ranked "top talkers" snapshot.  Packet capture,
//! terminal rendering and name lookups live outside the library and talk
//! to it through plain values: an IPv4 address is a `u32`, a point in
//! time is a count of milliseconds.

use vstd::prelude::*;

pub mod accum;
pub mod app;
pub mod assoc;
pub mod classify;
pub mod format;
pub mod tracker;

verus! {

/// Length of one tick of the aggregator, in milliseconds.
pub const TICK_RATE_MS: u64 = 500;

/// The time span a sliding window covers, in seconds.
pub const HISTORY_WINDOW_SECS: u64 = 60;

/// Samples per full window: `HISTORY_WINDOW_SECS * 1000 / TICK_RATE_MS`.
pub const MAX_SAMPLES: usize = 120;

/// Ceiling on the byte count a single tick can carry, per endpoint and
/// per direction.  The accumulator saturates here, which keeps every
/// rate computation inside `u64`.
pub const MAX_TICK_BYTES: u64 = 0xFFFF_FFFF_FFFF;

/// Ceiling on a tracker's window capacity, so that a window's running
/// sum of per-tick byte counts always fits in `u64`.
pub const MAX_WINDOW_CAPACITY: usize = 1000;

/// The sample limit and the tick length together reconstruct the window span.
pub proof fn lemma_window_dimensions()
    ensures
        MAX_SAMPLES as int == HISTORY_WINDOW_SECS as int * 1000 / (TICK_RATE_MS as int),
        MAX_SAMPLES <= MAX_WINDOW_CAPACITY,
{
}

} // verus!
