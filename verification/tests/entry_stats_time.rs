use rust_py_rate_limit::entry::RateLimitEntry;
use rust_py_rate_limit::stats::RateLimitStats;
use rust_py_rate_limit::time_utils::now_seconds;

#[test]
fn entry_starts_empty_and_expires_after_its_window() {
    let e = RateLimitEntry::new(1_000);
    assert_eq!(e.count, 0);
    assert_eq!(e.window_start, 1_000);
    assert!(!e.is_expired(1_059, 60));
    assert!(e.is_expired(1_060, 60));
    assert!(!e.is_expired(999, 60));
}

#[test]
fn entry_expiry_saturates() {
    let e = RateLimitEntry::new(u64::MAX - 5);
    assert!(!e.is_expired(u64::MAX - 1, 60));
    assert!(e.is_expired(u64::MAX, 60));
}

#[test]
fn stats_record_and_snapshot() {
    let mut stats = RateLimitStats::default();
    stats.record_allowed();
    stats.record_allowed();
    stats.record_blocked();
    let snap = stats.snapshot(7);
    assert_eq!(snap.allowed, 2);
    assert_eq!(snap.blocked, 1);
    assert_eq!(snap.total_checks, 3);
    assert_eq!(snap.active_keys, 7);
}

#[test]
fn stats_wrap_around_like_atomics() {
    let mut stats = RateLimitStats { allowed: u64::MAX, blocked: 0, total_checks: u64::MAX };
    stats.record_allowed();
    assert_eq!(stats.allowed, 0);
    assert_eq!(stats.total_checks, 0);
    stats.record_blocked();
    assert_eq!((stats.allowed, stats.blocked, stats.total_checks), (0, 1, 1));
}

#[test]
fn now_seconds_reads_a_recent_clock() {
    let now = now_seconds().unwrap();
    // Later than 2020-01-01.
    assert!(now > 1_577_836_800);
}
