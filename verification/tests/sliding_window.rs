use rust_py_rate_limit::sliding_window::{SlidingEntry, SlidingWindow};

#[test]
fn admits_up_to_limit_within_one_window() {
    let mut sw = SlidingWindow::new(3, 60);
    // All at t=0 (start of window): previous=0, weight irrelevant.
    assert!(sw.consume("k", 0).allowed);
    assert!(sw.consume("k", 0).allowed);
    assert!(sw.consume("k", 0).allowed);
    assert!(!sw.consume("k", 0).allowed);
}

#[test]
fn smooths_the_boundary_burst() {
    // limit=10/60s. Fill the first window, then cross into the next at its
    // midpoint: the previous window still counts at weight 0.5, so only a
    // few requests get through instead of a full fresh 10.
    let mut sw = SlidingWindow::new(10, 60);
    for _ in 0..10 {
        assert!(sw.consume("k", 30).allowed); // window 0 (idx 0), elapsed 30
    }
    // t=90 → idx 1, elapsed 30, weight = (60-30)/60 = 0.5.
    // estimated = previous(10)*0.5 + current(0) = 5.0 → 5 slots free.
    assert_eq!(sw.remaining("k", 90), 5);
    let mut admitted = 0;
    for _ in 0..10 {
        if sw.consume("k", 90).allowed {
            admitted += 1;
        }
    }
    assert_eq!(admitted, 5, "boundary burst must be throttled to 5, not 10");
}

#[test]
fn fully_resets_after_two_windows() {
    let mut sw = SlidingWindow::new(2, 10);
    assert!(sw.consume("k", 0).allowed);
    assert!(sw.consume("k", 0).allowed);
    assert!(!sw.consume("k", 0).allowed);
    // Two windows later (t=20 → idx 2, previous idx 0 is stale): full limit.
    assert_eq!(sw.remaining("k", 20), 2);
    assert!(sw.consume("k", 20).allowed);
}

#[test]
fn sliding_window_keys_are_independent() {
    let mut sw = SlidingWindow::new(1, 60);
    assert!(sw.consume("a", 0).allowed);
    assert!(sw.consume("b", 0).allowed);
    assert!(!sw.consume("a", 0).allowed);
}

#[test]
fn cleanup_removes_only_stale_keys() {
    let mut sw = SlidingWindow::new(1, 10);
    sw.consume("k", 0); // idx 0
    assert_eq!(sw.len(), 1);
    // t=10 → idx 1: previous window still overlaps, keep it.
    assert_eq!(sw.cleanup_expired(10), 0);
    // t=20 → idx 2: two windows on, stale.
    assert_eq!(sw.cleanup_expired(20), 1);
    assert_eq!(sw.len(), 0);
}

#[test]
fn blocked_outcome_reports_retry_after() {
    let mut sw = SlidingWindow::new(1, 60);
    let _ = sw.consume("k", 0);
    let out = sw.consume("k", 10); // same window, blocked
    assert!(!out.allowed);
    assert_eq!(out.remaining, 0);
    assert_eq!(out.reset_after_seconds, 50);
    assert_eq!(out.retry_after_seconds, 50);
}

#[test]
fn sliding_fractional_estimate_admits_one_more_than_remaining() {
    // limit 10, window 60: 9 requests in window 0, then at t=80 (idx 1,
    // elapsed 20) the estimate is 9 * 40/60 = 6, so 4 are left; at t=70
    // (elapsed 10) it is 9 * 50/60 = 7.5: 2 reported left, 3 get through.
    let mut sw = SlidingWindow::new(10, 60);
    for _ in 0..9 {
        assert!(sw.consume("a", 0).allowed);
        assert!(sw.consume("b", 0).allowed);
    }
    assert_eq!(sw.remaining("a", 80), 4);
    assert_eq!(sw.remaining("b", 70), 2);
    let mut admitted = 0;
    for _ in 0..10 {
        if sw.consume("b", 70).allowed {
            admitted += 1;
        }
    }
    assert_eq!(admitted, 3);
}

#[test]
fn sliding_outcome_fields() {
    let mut sw = SlidingWindow::new(4, 60);
    let out = sw.consume("k", 65);
    assert!(out.allowed);
    assert_eq!(out.limit, 4);
    assert_eq!(out.remaining, 3);
    assert_eq!(out.reset_after_seconds, 55);
    assert_eq!(out.retry_after_seconds, 0);
}

#[test]
fn sliding_reset_and_clear() {
    let mut sw = SlidingWindow::new(1, 60);
    assert!(!sw.reset("k"));
    sw.consume("k", 0);
    sw.consume("j", 0);
    assert_eq!(sw.remaining("k", 0), 0);
    assert!(sw.reset("k"));
    assert_eq!(sw.remaining("k", 0), 1);
    sw.clear();
    assert_eq!(sw.len(), 0);
    assert_eq!(sw.remaining("j", 0), 1);
}

#[test]
fn sliding_clock_going_backwards_starts_fresh() {
    let mut sw = SlidingWindow::new(1, 10);
    assert!(sw.consume("k", 100).allowed);
    assert!(!sw.consume("k", 105).allowed);
    assert_eq!(sw.remaining("k", 50), 1);
    assert!(sw.consume("k", 50).allowed);
}

#[test]
fn sliding_entry_advances() {
    let mut e = SlidingEntry::new(3);
    e.current = 7;
    e.advance_to(3);
    assert_eq!((e.window_index, e.current, e.previous), (3, 7, 0));
    e.advance_to(4);
    assert_eq!((e.window_index, e.current, e.previous), (4, 0, 7));
    e.current = 2;
    e.advance_to(9);
    assert_eq!((e.window_index, e.current, e.previous), (9, 0, 0));
}
