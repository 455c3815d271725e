use system_design::limiter::fixed_window::FixedWindowLimiter;
use system_design::limiter::sliding_window_counter::SlidingWindowCounts;
use system_design::limiter::sliding_window_log::SlidingWindowLogLimiter;
use system_design::limiter::verdict;

#[test]
fn verdict_words() {
    assert_eq!(verdict(true), "allow");
    assert_eq!(verdict(false), "block");
}

#[test]
fn fixed_window_demo_sequence() {
    let mut limiter = FixedWindowLimiter::new(3, 10);
    let requests = [0u64, 1, 2, 3, 9, 10, 11, 12];
    let expected = [true, true, true, false, false, true, true, true];
    let counts = [1usize, 2, 3, 3, 3, 1, 2, 3];
    for i in 0..requests.len() {
        assert_eq!(limiter.allow(requests[i]), expected[i], "t={}", requests[i]);
        assert_eq!(limiter.current_count(), counts[i]);
    }
    assert_eq!(limiter.window_start_secs(), 10);
}

#[test]
fn fixed_window_never_admits_more_than_limit_per_window() {
    let mut limiter = FixedWindowLimiter::new(2, 5);
    let mut admitted = 0;
    for t in 5..10u64 {
        if limiter.allow(t) {
            admitted += 1;
        }
    }
    assert_eq!(admitted, 2);
    assert!(limiter.allow(10));
}

#[test]
fn fixed_window_rolls_to_aligned_start() {
    let mut limiter = FixedWindowLimiter::new(1, 10);
    assert!(limiter.allow(37));
    assert_eq!(limiter.window_start_secs(), 30);
    assert!(!limiter.allow(39));
    assert!(limiter.allow(40));
}

#[test]
fn fixed_window_zero_limit_blocks_everything() {
    let mut limiter = FixedWindowLimiter::new(0, 10);
    assert!(!limiter.allow(0));
    assert!(!limiter.allow(100));
}

#[test]
fn sliding_window_log_demo_sequence() {
    let mut limiter = SlidingWindowLogLimiter::new(3, 10);
    let requests = [0u64, 1, 2, 3, 9, 10, 11, 12];
    let expected = [true, true, true, false, false, true, true, true];
    let snapshots: [&[u64]; 8] = [
        &[0],
        &[0, 1],
        &[0, 1, 2],
        &[0, 1, 2],
        &[0, 1, 2],
        &[1, 2, 10],
        &[2, 10, 11],
        &[10, 11, 12],
    ];
    for i in 0..requests.len() {
        assert_eq!(limiter.allow(requests[i]), expected[i], "t={}", requests[i]);
        assert_eq!(limiter.snapshot(), snapshots[i].to_vec());
    }
}

#[test]
fn sliding_window_log_stops_pruning_at_first_live_entry() {
    // timestamps out of order: the front is inside the window, so the older
    // entry behind it stays
    let mut limiter = SlidingWindowLogLimiter::new(5, 10);
    assert!(limiter.allow(8));
    assert!(limiter.allow(1));
    assert!(limiter.allow(15));
    assert_eq!(limiter.snapshot(), vec![8, 1, 15]);
}

#[test]
fn sliding_window_log_in_window_count_bounded() {
    let mut limiter = SlidingWindowLogLimiter::new(2, 3);
    let mut admitted: Vec<u64> = Vec::new();
    for t in [0u64, 0, 1, 2, 3, 3, 4, 6, 6, 6] {
        if limiter.allow(t) {
            admitted.push(t);
        }
        let in_window = admitted.iter().filter(|&&x| t - x < 3).count();
        assert!(in_window <= 2);
    }
    assert_eq!(admitted, vec![0, 0, 3, 3, 6, 6]);
}

#[test]
fn sliding_window_counts_roll_keeps_previous_window() {
    let mut counts = SlidingWindowCounts::new(10);
    counts.roll_window(3);
    counts.record_request();
    counts.record_request();
    assert_eq!(counts.current_count(), 2);
    counts.roll_window(14);
    assert_eq!(counts.current_window_start(), 10);
    assert_eq!(counts.previous_count(), 2);
    assert_eq!(counts.current_count(), 0);
    assert_eq!(counts.overlap_secs(14), 6);
    counts.roll_window(35);
    assert_eq!(counts.current_window_start(), 30);
    assert_eq!(counts.previous_count(), 0);
}

#[test]
fn sliding_window_counts_overlap_saturates() {
    let counts = SlidingWindowCounts::new(10);
    assert_eq!(counts.overlap_secs(0), 10);
    assert_eq!(counts.overlap_secs(25), 0);
    assert_eq!(counts.window_size_secs(), 10);
}

#[test]
fn sliding_window_log_any_interval_bounded() {
    let mut limiter = SlidingWindowLogLimiter::new(2, 4);
    let mut admitted: Vec<u64> = Vec::new();
    for t in [0u64, 1, 1, 2, 3, 4, 5, 5, 6, 7, 8, 9, 9, 12] {
        if limiter.allow(t) {
            admitted.push(t);
        }
    }
    for start in 0..14u64 {
        let inside = admitted.iter().filter(|&&x| start <= x && x < start + 4).count();
        assert!(inside <= 2, "start={start} admitted={admitted:?}");
    }
}

#[test]
fn fixed_window_count_matches_admitted_in_current_window() {
    let mut limiter = FixedWindowLimiter::new(2, 5);
    let mut admitted: Vec<u64> = Vec::new();
    for t in [1u64, 2, 3, 6, 7, 8, 14, 20] {
        if limiter.allow(t) {
            admitted.push(t);
        }
        let start = (t / 5) * 5;
        let in_window = admitted.iter().filter(|&&x| start <= x && x < start + 5).count();
        assert_eq!(limiter.current_count(), in_window);
        assert_eq!(limiter.window_start_secs(), start);
    }
}
