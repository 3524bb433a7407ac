use rust_py_rate_limit::errors::RateLimitError;
use rust_py_rate_limit::fixed_window::FixedWindow;
use rust_py_rate_limit::sliding_window::SlidingWindow;

#[test]
fn fixed_boundary_burst_is_at_most_twice_limit() {
    let mut fw = FixedWindow::new(2, 10);
    let times = [5u64, 5, 6, 15, 15, 15, 20];
    let mut admitted_in_span = 0;
    for t in times {
        if fw.consume("k", t).allowed && (5..=15).contains(&t) {
            admitted_in_span += 1;
        }
    }
    assert_eq!(admitted_in_span, 4);
}

#[test]
fn fixed_calls_in_one_window_report_their_place() {
    let mut fw = FixedWindow::new(3, 10);
    let times = [100u64, 101, 103, 104, 109];
    for (i, t) in times.iter().enumerate() {
        let out = fw.consume("k", *t);
        assert_eq!(out.allowed, i < 3);
        assert_eq!(out.remaining, if i < 3 { 3 - i as u64 - 1 } else { 0 });
        assert_eq!(out.reset_after_seconds, 110 - t);
        assert_eq!(out.retry_after_seconds, if i < 3 { 0 } else { 110 - t });
    }
    let fresh = fw.consume("k", 110);
    assert!(fresh.allowed);
    assert_eq!(fresh.remaining, 2);
    assert_eq!(fresh.reset_after_seconds, 10);
}

#[test]
fn fixed_remaining_never_shrinks_without_requests() {
    let mut fw = FixedWindow::new(3, 10);
    fw.consume("k", 50);
    fw.consume("k", 52);
    let mut last = 0;
    for t in 50..70u64 {
        let left = fw.remaining("k", t);
        assert!(left >= last);
        last = left;
    }
    assert_eq!(last, 3);
}

#[test]
fn sliding_admits_at_most_limit_per_aligned_window() {
    let mut sw = SlidingWindow::new(3, 10);
    let mut admitted = [0u32; 4];
    for t in 0..40u64 {
        for _ in 0..2 {
            if sw.consume("k", t).allowed {
                admitted[(t / 10) as usize] += 1;
            }
        }
    }
    for n in admitted {
        assert!(n <= 3);
    }
    assert_eq!(admitted[0], 3);
}

#[test]
fn sliding_after_an_idle_window_admits_exactly_limit() {
    let mut sw = SlidingWindow::new(4, 10);
    for _ in 0..4 {
        assert!(sw.consume("k", 3).allowed); // window 0
    }
    // Nothing in window 1; window 2 admits exactly 4 of 6.
    let mut admitted = 0;
    for t in [20u64, 21, 22, 25, 28, 29] {
        if sw.consume("k", t).allowed {
            admitted += 1;
        }
    }
    assert_eq!(admitted, 4);
}

#[test]
fn sliding_slots_after_a_full_window() {
    let mut sw = SlidingWindow::new(10, 60);
    for _ in 0..10 {
        assert!(sw.consume("k", 10).allowed);
    }
    // Next window, 15s in: floor(10 * 15 / 60) = 2 slots.
    assert_eq!(sw.remaining("k", 75), 2);
    assert_eq!(sw.remaining("k", 60), 0);
    assert_eq!(sw.remaining("k", 119), 9);
    assert_eq!(sw.remaining("k", 120), 10);
}

#[test]
fn sliding_remaining_never_shrinks_without_requests() {
    let mut sw = SlidingWindow::new(5, 10);
    for _ in 0..4 {
        sw.consume("k", 7);
    }
    let mut last = 0;
    for t in 7..40u64 {
        let left = sw.remaining("k", t);
        assert!(left >= last);
        last = left;
    }
    assert_eq!(last, 5);
}

#[test]
fn error_messages() {
    assert_eq!(RateLimitError::InvalidLimit.message(), "invalid `limit`: must be greater than 0");
    assert_eq!(
        RateLimitError::InvalidWindow.message(),
        "invalid `window_seconds`: must be greater than 0"
    );
    assert_eq!(
        RateLimitError::InvalidAlgorithm("token\"bucket".to_string()).message(),
        "invalid `algorithm`: \"token\\\"bucket\" (expected \"fixed\" or \"sliding\")"
    );
    assert_eq!(
        RateLimitError::SystemTime("clock went back".to_string()).message(),
        "system time error: clock went back"
    );
}
