use netmon::tracker::IpHistory;
use netmon::MAX_SAMPLES;

// Tick length is 500 ms, so a full window of 120 samples covers 60 s and a
// byte count's instantaneous rate is twice its value per second.

#[test]
fn warmup_average_uses_elapsed_window() {
    // 1000 bytes for 4 consecutive ticks, then a silent tick, at the
    // default capacity of 120 samples.
    let mut h = IpHistory::new(MAX_SAMPLES, 0);
    let mut avg = 0;
    for tick in 0..4u64 {
        avg = h.update(1000, tick * 500);
    }
    // 4000 bytes over 4 ticks of half a second each.
    assert_eq!(avg, 2000);
    avg = h.update(0, 2000);
    // Still 4000 bytes, now spread over 2.5 seconds.
    assert_eq!(avg, 1600);
}

#[test]
fn small_window_evicts_oldest_sample() {
    // A three-sample window fed 300, 300, 300, then 0: the fourth tick
    // pushes the zero and evicts the oldest 300, leaving 300 + 300 + 0.
    let mut h = IpHistory::new(3, 0);
    h.update(300, 0);
    h.update(300, 500);
    h.update(300, 1000);
    assert_eq!(h.total_sum, 900);
    let avg = h.update(0, 1500);
    assert_eq!(h.samples.len(), 3);
    assert_eq!(h.total_sum, 600);
    // 600 bytes over the 1.5 seconds the three samples cover.
    assert_eq!(avg, 400);
}

#[test]
fn queue_never_exceeds_capacity() {
    let mut h = IpHistory::new(3, 0);
    for tick in 0..10u64 {
        h.update(50, tick * 500);
        assert!(h.samples.len() <= 3);
        let queued: u64 = h.samples.iter().sum();
        assert_eq!(h.total_sum, queued);
    }
    assert_eq!(h.samples.len(), 3);
}

#[test]
fn peak_records_highest_instant_rate() {
    let mut h = IpHistory::new(MAX_SAMPLES, 0);
    h.update(100, 500);
    // 100 bytes in half a second is 200 B/s.
    assert_eq!(h.peak_rate, 200);
    assert_eq!(h.peak_time, 500);
    h.update(500, 1000);
    assert_eq!(h.peak_rate, 1000);
    assert_eq!(h.peak_time, 1000);
    // A lower tick leaves the record alone.
    h.update(50, 1500);
    assert_eq!(h.peak_rate, 1000);
    assert_eq!(h.peak_time, 1000);
}

#[test]
fn peak_tie_does_not_move_the_record() {
    let mut h = IpHistory::new(MAX_SAMPLES, 0);
    h.update(500, 500);
    assert_eq!(h.peak_rate, 1000);
    assert_eq!(h.peak_time, 500);
    // The same instantaneous rate again: strictly-greater-than means
    // the timestamp stays.
    h.update(500, 1000);
    assert_eq!(h.peak_rate, 1000);
    assert_eq!(h.peak_time, 500);
}

#[test]
fn peak_rate_is_monotone_over_a_run() {
    let mut h = IpHistory::new(MAX_SAMPLES, 0);
    let feeds = [10u64, 900, 20, 950, 0, 30, 2000, 5];
    let mut last_peak = 0;
    for (tick, &bytes) in feeds.iter().enumerate() {
        let before = h.peak_rate;
        let before_time = h.peak_time;
        h.update(bytes, (tick as u64 + 1) * 500);
        assert!(h.peak_rate >= before);
        // The timestamp moves exactly when the rate moves.
        assert_eq!(h.peak_rate != before, h.peak_time != before_time);
        assert!(h.peak_rate >= last_peak);
        last_peak = h.peak_rate;
    }
}

#[test]
fn average_is_sum_over_elapsed_seconds() {
    let mut h = IpHistory::new(5, 0);
    let avg = h.update(700, 500);
    // 700 bytes over half a second.
    assert_eq!(avg, 1400);
    let avg = h.update(100, 1000);
    // 800 bytes over one second.
    assert_eq!(avg, 800);
    let avg = h.update(0, 1500);
    // 800 bytes over 1.5 seconds, floor division.
    assert_eq!(avg, 533);
}

#[test]
fn full_window_average_is_the_trailing_mean() {
    // Once 120 samples have accumulated, the elapsed window is the full
    // 60 seconds and stays there.
    let mut h = IpHistory::new(MAX_SAMPLES, 0);
    let mut avg = 0;
    for tick in 0..MAX_SAMPLES as u64 {
        avg = h.update(500, tick * 500);
    }
    assert_eq!(h.samples.len(), MAX_SAMPLES);
    // 500 bytes per half-second tick is a steady 1000 B/s.
    assert_eq!(avg, 1000);
    // The window slides: another identical tick changes nothing.
    avg = h.update(500, 60_500);
    assert_eq!(h.samples.len(), MAX_SAMPLES);
    assert_eq!(avg, 1000);
    assert_eq!(h.total_sum, 500 * MAX_SAMPLES as u64);
}

#[test]
fn fresh_tracker_after_zero_tick_is_idle() {
    let mut h = IpHistory::new(MAX_SAMPLES, 0);
    h.update(0, 500);
    assert_eq!(h.total_sum, 0);
    assert_eq!(h.peak_rate, 0);
    assert!(h.is_idle_now());
}
