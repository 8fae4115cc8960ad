use netmon::accum::SharedStats;
use netmon::app::App;
use netmon::classify::ipv4_from_octets;
use netmon::MAX_SAMPLES;

// The capture side is stood in for by direct `record` calls; the local
// interface is 192.168.1.5 throughout.

fn local() -> u32 {
    ipv4_from_octets(192, 168, 1, 5)
}

fn remote() -> u32 {
    ipv4_from_octets(8, 8, 8, 8)
}

#[test]
fn fresh_aggregator_is_empty() {
    let app = App::new(0);
    assert_eq!(app.rx_history.len(), MAX_SAMPLES);
    assert_eq!(app.tx_history.len(), MAX_SAMPLES);
    assert!(app.rx_history.iter().all(|&b| b == 0));
    assert_eq!(app.total_rx_bytes, 0);
    assert_eq!(app.total_tx_bytes, 0);
    assert_eq!(app.peak_rx_record.rate, 0);
    assert_eq!(app.tracked_count(), 0);
    assert!(app.top_talkers.is_empty());
}

#[test]
fn tick_shifts_trend_buffers_and_totals() {
    let mut app = App::new(0);
    let mut stats = SharedStats::new();
    let peer = ipv4_from_octets(192, 168, 1, 7);
    stats.record(peer, local(), 800, local(), None);
    stats.record(local(), remote(), 300, local(), None);
    app.on_tick(&mut stats, 500);
    assert_eq!(app.rx_history.len(), MAX_SAMPLES);
    assert_eq!(*app.rx_history.last().unwrap(), 800);
    assert_eq!(*app.tx_history.last().unwrap(), 300);
    assert_eq!(app.total_rx_bytes, 800);
    assert_eq!(app.total_tx_bytes, 300);
    // The accumulator is left drained.
    assert!(stats.traffic_delta.is_empty());
    assert_eq!(stats.rx_delta, 0);
    // A silent tick shifts a zero in and leaves the totals alone.
    app.on_tick(&mut stats, 1000);
    assert_eq!(*app.rx_history.last().unwrap(), 0);
    assert_eq!(app.rx_history[MAX_SAMPLES - 2], 800);
    assert_eq!(app.total_rx_bytes, 800);
}

#[test]
fn global_peaks_follow_the_strict_rule() {
    let mut app = App::new(0);
    let mut stats = SharedStats::new();
    let peer = ipv4_from_octets(192, 168, 1, 7);
    stats.record(peer, local(), 1000, local(), None);
    app.on_tick(&mut stats, 500);
    // 1000 bytes in half a second: 2000 B/s.
    assert_eq!(app.peak_rx_record.rate, 2000);
    assert_eq!(app.peak_rx_record.time_ms, 500);
    // An equal tick does not move the record.
    stats.record(peer, local(), 1000, local(), None);
    app.on_tick(&mut stats, 1000);
    assert_eq!(app.peak_rx_record.rate, 2000);
    assert_eq!(app.peak_rx_record.time_ms, 500);
    // A stronger tick does.
    stats.record(peer, local(), 1500, local(), None);
    app.on_tick(&mut stats, 1500);
    assert_eq!(app.peak_rx_record.rate, 3000);
    assert_eq!(app.peak_rx_record.time_ms, 1500);
}

#[test]
fn snapshot_ranks_endpoints_by_average() {
    // Two endpoints with steady averages of 2000 B/s and 500 B/s.
    let a = ipv4_from_octets(192, 168, 1, 20);
    let b = ipv4_from_octets(192, 168, 1, 10);
    let mut app = App::new(0);
    let mut stats = SharedStats::new();
    for tick in 1..=3u64 {
        stats.record(a, remote(), 1000, local(), None);
        stats.record(b, remote(), 250, local(), None);
        app.on_tick(&mut stats, tick * 500);
        assert_eq!(app.top_talkers.len(), 2);
        assert_eq!(app.top_talkers[0].addr, a);
        assert_eq!(app.top_talkers[0].avg_rate, 2000);
        assert_eq!(app.top_talkers[1].addr, b);
        assert_eq!(app.top_talkers[1].avg_rate, 500);
    }
}

#[test]
fn snapshot_breaks_ties_by_address() {
    let lo = ipv4_from_octets(192, 168, 1, 10);
    let hi = ipv4_from_octets(192, 168, 1, 30);
    let mut app = App::new(0);
    let mut stats = SharedStats::new();
    stats.record(hi, remote(), 400, local(), None);
    stats.record(lo, remote(), 400, local(), None);
    app.on_tick(&mut stats, 500);
    assert_eq!(app.top_talkers.len(), 2);
    assert_eq!(app.top_talkers[0].addr, lo);
    assert_eq!(app.top_talkers[1].addr, hi);
    assert_eq!(app.top_talkers[0].avg_rate, app.top_talkers[1].avg_rate);
}

#[test]
fn snapshot_is_sorted_descending() {
    let mut app = App::new(0);
    let mut stats = SharedStats::new();
    let feeds = [700u64, 50, 1200, 300, 950];
    for (i, &bytes) in feeds.iter().enumerate() {
        let peer = ipv4_from_octets(192, 168, 1, 100 + i as u8);
        stats.record(peer, remote(), bytes, local(), None);
    }
    app.on_tick(&mut stats, 500);
    assert_eq!(app.top_talkers.len(), feeds.len());
    for pair in app.top_talkers.windows(2) {
        assert!(pair[0].avg_rate >= pair[1].avg_rate);
    }
}

#[test]
fn snapshot_lists_each_endpoint_once() {
    let mut app = App::new(0);
    let mut stats = SharedStats::new();
    for tick in 1..=4u64 {
        for i in 0..6u8 {
            let peer = ipv4_from_octets(10, 0, 0, 10 + i);
            stats.record(peer, remote(), 100 * (i as u64 + 1), local(), None);
        }
        app.on_tick(&mut stats, tick * 500);
    }
    let mut addrs: Vec<u32> = app.top_talkers.iter().map(|e| e.addr).collect();
    let total = addrs.len();
    addrs.sort_unstable();
    addrs.dedup();
    assert_eq!(addrs.len(), total);
    assert_eq!(total, 6);
    assert_eq!(app.tracked_count(), 6);
}

#[test]
fn endpoint_with_a_peak_survives_idle_ticks() {
    // Under the both-zero eviction policy, an endpoint whose peak ever
    // moved keeps its tracker while its window decays.
    let peer = ipv4_from_octets(192, 168, 1, 7);
    let mut app = App::new(0);
    let mut stats = SharedStats::new();
    stats.record(peer, local(), 600, local(), None);
    app.on_tick(&mut stats, 500);
    assert!(app.is_tracking(peer));
    for tick in 2..=5u64 {
        app.on_tick(&mut stats, tick * 500);
        assert!(app.is_tracking(peer));
    }
    // Its average decays toward zero while the peak stands.
    let row = app.top_talkers.iter().find(|e| e.addr == peer).unwrap();
    assert_eq!(row.avg_rate, 600 * 1000 / (5 * 500));
    assert_eq!(row.peak_rate, 1200);
    assert_eq!(row.peak_time, 500);
}

#[test]
fn zero_length_traffic_never_creates_a_tracker() {
    // A tracked endpoint seen only with a zero-byte delta goes idle in
    // the same tick: its fresh tracker is evicted before publication.
    let peer = ipv4_from_octets(192, 168, 1, 7);
    let mut app = App::new(0);
    let mut stats = SharedStats::new();
    stats.record(peer, local(), 0, local(), None);
    app.on_tick(&mut stats, 500);
    assert!(!app.is_tracking(peer));
    assert!(app.top_talkers.iter().all(|e| e.addr != peer));
}

#[test]
fn snapshot_rows_report_their_trackers() {
    let peer = ipv4_from_octets(192, 168, 1, 7);
    let mut app = App::new(0);
    let mut stats = SharedStats::new();
    stats.record(peer, local(), 1000, local(), None);
    app.on_tick(&mut stats, 500);
    stats.record(peer, local(), 500, local(), None);
    app.on_tick(&mut stats, 1000);
    // Both ends of the packets are private, so the local address has a
    // row of its own; pick the peer's.
    assert_eq!(app.top_talkers.len(), 2);
    let row = app.top_talkers.iter().find(|e| e.addr == peer).unwrap();
    // 1500 bytes over one second.
    assert_eq!(row.avg_rate, 1500);
    // The first tick's 2000 B/s stands as the peak.
    assert_eq!(row.peak_rate, 2000);
    assert_eq!(row.peak_time, 500);
}
