use rust_py_rate_limit::fixed_window::FixedWindow;

#[test]
fn admits_up_to_limit_then_blocks() {
    let mut fw = FixedWindow::new(2, 60);
    assert!(fw.consume("k", 1_000).allowed);
    assert!(fw.consume("k", 1_000).allowed);
    assert!(!fw.consume("k", 1_000).allowed);
}

#[test]
fn resets_after_window() {
    let mut fw = FixedWindow::new(1, 10);
    assert!(fw.consume("k", 1_000).allowed);
    assert!(!fw.consume("k", 1_005).allowed);
    // 10s later the window has rolled over.
    assert!(fw.consume("k", 1_010).allowed);
}

#[test]
fn remaining_reflects_consumption() {
    let mut fw = FixedWindow::new(3, 60);
    assert_eq!(fw.remaining("k", 1_000), 3);
    fw.consume("k", 1_000);
    assert_eq!(fw.remaining("k", 1_000), 2);
}

#[test]
fn fixed_window_keys_are_independent() {
    let mut fw = FixedWindow::new(1, 60);
    assert!(fw.consume("a", 1_000).allowed);
    assert!(fw.consume("b", 1_000).allowed);
    assert!(!fw.consume("a", 1_000).allowed);
}

#[test]
fn cleanup_removes_expired() {
    let mut fw = FixedWindow::new(1, 10);
    fw.consume("k", 1_000);
    assert_eq!(fw.len(), 1);
    assert_eq!(fw.cleanup_expired(1_005), 0);
    assert_eq!(fw.cleanup_expired(1_010), 1);
    assert_eq!(fw.len(), 0);
}

#[test]
fn check_outcome_fields_when_blocked() {
    let mut fw = FixedWindow::new(1, 60);
    let _ = fw.consume("k", 1_000);
    let out = fw.consume("k", 1_010);
    assert!(!out.allowed);
    assert_eq!(out.remaining, 0);
    assert_eq!(out.retry_after_seconds, 50);
    assert_eq!(out.reset_after_seconds, 50);
}

#[test]
fn fixed_allowed_outcome_fields() {
    let mut fw = FixedWindow::new(100, 60);
    let out = fw.consume("k", 1_000);
    assert!(out.allowed);
    assert_eq!(out.limit, 100);
    assert_eq!(out.remaining, 99);
    assert_eq!(out.reset_after_seconds, 60);
    assert_eq!(out.retry_after_seconds, 0);
    let later = fw.consume("k", 1_018);
    assert_eq!(later.remaining, 98);
    assert_eq!(later.reset_after_seconds, 42);
}

#[test]
fn fixed_reset_reports_existence_and_restores_limit() {
    let mut fw = FixedWindow::new(1, 60);
    assert!(!fw.reset("k"));
    fw.consume("k", 1_000);
    assert_eq!(fw.remaining("k", 1_000), 0);
    assert!(fw.reset("k"));
    assert_eq!(fw.remaining("k", 1_000), 1);
    assert!(!fw.reset("k"));
    assert!(fw.consume("k", 1_000).allowed);
}

#[test]
fn fixed_clear_drops_every_key() {
    let mut fw = FixedWindow::new(1, 60);
    fw.consume("a", 1_000);
    fw.consume("b", 1_000);
    assert_eq!(fw.len(), 2);
    fw.clear();
    assert_eq!(fw.len(), 0);
    assert_eq!(fw.remaining("a", 1_000), 1);
}

#[test]
fn fixed_run_in_one_window_admits_exactly_limit() {
    let mut fw = FixedWindow::new(3, 100);
    let mut admitted = 0;
    for t in 0..10u64 {
        if fw.consume("k", 500 + t * 5).allowed {
            admitted += 1;
        }
    }
    assert_eq!(admitted, 3);
}

#[test]
fn fixed_expired_key_starts_over_and_unknown_has_full_limit() {
    let mut fw = FixedWindow::new(2, 10);
    assert_eq!(fw.remaining("new", 7), 2);
    fw.consume("k", 100);
    fw.consume("k", 100);
    assert_eq!(fw.remaining("k", 109), 0);
    assert_eq!(fw.remaining("k", 110), 2);
    let out = fw.consume("k", 110);
    assert!(out.allowed);
    assert_eq!(out.remaining, 1);
    assert_eq!(out.reset_after_seconds, 10);
}

#[test]
fn fixed_cleanup_keeps_what_is_observed() {
    let mut fw = FixedWindow::new(2, 10);
    fw.consume("old", 100);
    fw.consume("live", 105);
    let before_old = fw.remaining("old", 112);
    let before_live = fw.remaining("live", 112);
    assert_eq!(fw.cleanup_expired(112), 1);
    assert_eq!(fw.remaining("old", 112), before_old);
    assert_eq!(fw.remaining("live", 112), before_live);
    assert_eq!(before_live, 1);
    assert_eq!(fw.len(), 1);
}

#[test]
fn fixed_zero_limit_blocks_everything() {
    let mut fw = FixedWindow::new(0, 10);
    let out = fw.consume("k", 5);
    assert!(!out.allowed);
    assert_eq!(out.remaining, 0);
    assert_eq!(out.retry_after_seconds, 10);
}
