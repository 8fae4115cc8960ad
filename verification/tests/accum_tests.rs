use netmon::accum::{delta_lookup, SharedStats};
use netmon::classify::{ipv4_from_octets, Cidr};
use netmon::MAX_TICK_BYTES;

#[test]
fn outbound_packet_counts_toward_tx_and_tracked_endpoints() {
    // Local address 192.168.1.5 sends 1500 bytes to 8.8.8.8: the
    // transmit total grows, the private source gains a delta, and the
    // public destination is not tracked under the default policy.
    let local = ipv4_from_octets(192, 168, 1, 5);
    let remote = ipv4_from_octets(8, 8, 8, 8);
    let mut stats = SharedStats::new();
    stats.record(local, remote, 1500, local, None);
    assert_eq!(stats.tx_delta, 1500);
    assert_eq!(stats.rx_delta, 0);
    assert_eq!(delta_lookup(&stats.traffic_delta, local), 1500);
    assert_eq!(delta_lookup(&stats.traffic_delta, remote), 0);
    assert_eq!(stats.traffic_delta.len(), 1);
}

#[test]
fn inbound_packet_counts_toward_rx() {
    let local = ipv4_from_octets(192, 168, 1, 5);
    let peer = ipv4_from_octets(192, 168, 1, 7);
    let mut stats = SharedStats::new();
    stats.record(peer, local, 900, local, None);
    assert_eq!(stats.rx_delta, 900);
    assert_eq!(stats.tx_delta, 0);
    // Both ends are private, so both gain the packet's length.
    assert_eq!(delta_lookup(&stats.traffic_delta, peer), 900);
    assert_eq!(delta_lookup(&stats.traffic_delta, local), 900);
}

#[test]
fn deltas_accumulate_between_drains() {
    let local = ipv4_from_octets(192, 168, 1, 5);
    let peer = ipv4_from_octets(192, 168, 1, 7);
    let mut stats = SharedStats::new();
    stats.record(peer, local, 100, local, None);
    stats.record(peer, local, 250, local, None);
    assert_eq!(delta_lookup(&stats.traffic_delta, peer), 350);
    assert_eq!(stats.rx_delta, 350);
}

#[test]
fn drain_returns_everything_and_resets() {
    let local = ipv4_from_octets(192, 168, 1, 5);
    let peer = ipv4_from_octets(10, 0, 0, 9);
    let mut stats = SharedStats::new();
    stats.record(peer, local, 640, local, None);
    let (deltas, rx, tx) = stats.drain();
    assert_eq!(rx, 640);
    assert_eq!(tx, 0);
    assert_eq!(delta_lookup(&deltas, peer), 640);
    assert!(stats.traffic_delta.is_empty());
    assert_eq!(stats.rx_delta, 0);
    assert_eq!(stats.tx_delta, 0);
    // A second drain hands back nothing.
    let (deltas, rx, tx) = stats.drain();
    assert!(deltas.is_empty());
    assert_eq!(rx, 0);
    assert_eq!(tx, 0);
}

#[test]
fn counters_saturate_at_the_tick_ceiling() {
    let local = ipv4_from_octets(192, 168, 1, 5);
    let peer = ipv4_from_octets(192, 168, 1, 7);
    let mut stats = SharedStats::new();
    stats.record(peer, local, u64::MAX, local, None);
    assert_eq!(stats.rx_delta, MAX_TICK_BYTES);
    assert_eq!(delta_lookup(&stats.traffic_delta, peer), MAX_TICK_BYTES);
    stats.record(peer, local, 1, local, None);
    assert_eq!(stats.rx_delta, MAX_TICK_BYTES);
}

#[test]
fn filter_limits_which_endpoints_gain_deltas() {
    let local = ipv4_from_octets(192, 168, 1, 5);
    let peer = ipv4_from_octets(192, 168, 1, 7);
    let outside = ipv4_from_octets(10, 0, 0, 9);
    let filter = Cidr::new(ipv4_from_octets(192, 168, 1, 0), 24);
    let mut stats = SharedStats::new();
    stats.record(outside, peer, 400, local, None);
    // Under the default policy both private ends are tracked ...
    assert_eq!(delta_lookup(&stats.traffic_delta, outside), 400);
    // ... but under the filter only the peer's network is.
    let mut filtered = SharedStats::new();
    filtered.record(outside, peer, 400, local, filter);
    assert_eq!(delta_lookup(&filtered.traffic_delta, outside), 0);
    assert_eq!(delta_lookup(&filtered.traffic_delta, peer), 400);
}
