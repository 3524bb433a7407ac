use rust_py_rate_limit::errors::RateLimitError;
use rust_py_rate_limit::rate_limiter::RateLimiter;

#[test]
fn limiter_rejects_bad_configuration() {
    assert!(matches!(RateLimiter::new(0, 60, "fixed"), Err(RateLimitError::InvalidLimit)));
    assert!(matches!(RateLimiter::new(0, 0, "nope"), Err(RateLimitError::InvalidLimit)));
    assert!(matches!(RateLimiter::new(5, 0, "fixed"), Err(RateLimitError::InvalidWindow)));
    assert!(matches!(RateLimiter::new(5, 0, "nope"), Err(RateLimitError::InvalidWindow)));
    match RateLimiter::new(5, 60, "token_bucket") {
        Err(RateLimitError::InvalidAlgorithm(name)) => assert_eq!(name, "token_bucket"),
        _ => panic!("expected InvalidAlgorithm"),
    }
    match RateLimiter::new(5, 60, "Fixed") {
        Err(RateLimitError::InvalidAlgorithm(name)) => assert_eq!(name, "Fixed"),
        _ => panic!("expected InvalidAlgorithm"),
    }
}

#[test]
fn limiter_reports_configuration() {
    let fixed = RateLimiter::new(10, 60, "fixed").unwrap();
    assert_eq!(fixed.max_requests(), 10);
    assert_eq!(fixed.window_seconds(), 60);
    assert_eq!(fixed.algorithm(), "fixed");
    let sliding = RateLimiter::new(100, 30, "sliding").unwrap();
    assert_eq!(sliding.max_requests(), 100);
    assert_eq!(sliding.window_seconds(), 30);
    assert_eq!(sliding.algorithm(), "sliding");
}

#[test]
fn limiter_quick_start_scenario() {
    let mut limiter = RateLimiter::new(3, 60, "fixed").unwrap();
    assert!(limiter.allow_at("ip:127.0.0.1", 1_000));
    assert!(limiter.allow_at("ip:127.0.0.1", 1_000));
    assert!(limiter.allow_at("ip:127.0.0.1", 1_000));
    assert!(!limiter.allow_at("ip:127.0.0.1", 1_000));
    // 60s later: a new window.
    assert!(limiter.allow_at("ip:127.0.0.1", 1_060));
}

#[test]
fn limiter_check_reports_allowed_and_blocked_detail() {
    let mut limiter = RateLimiter::new(100, 60, "fixed").unwrap();
    let first = limiter.check_at("k", 2_000);
    assert!(first.allowed);
    assert_eq!(first.limit, 100);
    assert_eq!(first.remaining, 99);
    assert_eq!(first.reset_after_seconds, 60);
    assert_eq!(first.retry_after_seconds, 0);
    for _ in 0..99 {
        assert!(limiter.check_at("k", 2_010).allowed);
    }
    let blocked = limiter.check_at("k", 2_018);
    assert!(!blocked.allowed);
    assert_eq!(blocked.limit, 100);
    assert_eq!(blocked.remaining, 0);
    assert_eq!(blocked.reset_after_seconds, 42);
    assert_eq!(blocked.retry_after_seconds, 42);
}

#[test]
fn limiter_stats_count_every_check() {
    let mut limiter = RateLimiter::new(2, 60, "sliding").unwrap();
    let s0 = limiter.stats();
    assert_eq!((s0.allowed, s0.blocked, s0.total_checks, s0.active_keys), (0, 0, 0, 0));
    limiter.allow_at("a", 0);
    limiter.allow_at("a", 0);
    limiter.allow_at("a", 0);
    limiter.check_at("b", 0);
    let s = limiter.stats();
    assert_eq!(s.allowed, 3);
    assert_eq!(s.blocked, 1);
    assert_eq!(s.total_checks, 4);
    assert_eq!(s.active_keys, 2);
}

#[test]
fn limiter_remaining_reset_clear_and_cleanup() {
    let mut limiter = RateLimiter::new(2, 10, "fixed").unwrap();
    assert_eq!(limiter.remaining_at("k", 100), 2);
    limiter.allow_at("k", 100);
    assert_eq!(limiter.remaining_at("k", 100), 1);
    assert!(limiter.reset("k"));
    assert!(!limiter.reset("k"));
    assert_eq!(limiter.remaining_at("k", 100), 2);
    limiter.allow_at("a", 100);
    limiter.allow_at("b", 105);
    assert_eq!(limiter.cleanup_expired_at(111), 1);
    assert_eq!(limiter.stats().active_keys, 1);
    limiter.clear();
    assert_eq!(limiter.stats().active_keys, 0);
    assert_eq!(limiter.stats().total_checks, 3);
}

#[test]
fn limiter_sliding_cleanup_uses_stale_windows() {
    let mut limiter = RateLimiter::new(1, 10, "sliding").unwrap();
    limiter.allow_at("k", 0);
    assert_eq!(limiter.cleanup_expired_at(10), 0);
    assert_eq!(limiter.cleanup_expired_at(20), 1);
}

#[test]
fn limiter_reads_the_clock() {
    let mut limiter = RateLimiter::new(1, 3_600, "fixed").unwrap();
    assert_eq!(limiter.remaining("k").unwrap(), 1);
    let first = limiter.check("k").unwrap();
    assert!(first.allowed);
    assert!(first.reset_after_seconds <= 3_600);
    // Within the same hour-long window (barring a boundary at this instant).
    let second = limiter.allow("k").unwrap();
    let third = limiter.allow("j").unwrap();
    assert!(third);
    assert_eq!(limiter.stats().total_checks, 3);
    assert_eq!(limiter.stats().allowed + limiter.stats().blocked, 3);
    let _ = second;
    assert!(limiter.cleanup_expired().unwrap() <= 2);
}
