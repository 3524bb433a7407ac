//! Per-key bookkeeping for the Fixed Window algorithm.

use vstd::prelude::*;

verus! {

/// A single key's counter within the current fixed window.
///
/// * `count` — how many requests have been admitted in the current window.
/// * `window_start` — Unix timestamp (seconds) when the current window began.
#[derive(Debug, Clone, Copy)]
pub struct RateLimitEntry {
    pub count: u64,
    pub window_start: u64,
}

impl RateLimitEntry {
    /// The entry of a key seen for the first time at `window_start`.
    pub open spec fn fresh(window_start: u64) -> RateLimitEntry {
        RateLimitEntry { count: 0, window_start }
    }

    /// The window that began at `window_start` has run its `window_seconds`
    /// by `now` (the end of the window saturates at `u64::MAX`).
    pub open spec fn expired_at(self, now: u64, window_seconds: u64) -> bool {
        now >= self.window_start.saturating_add(window_seconds)
    }

    /// Creates a fresh entry whose window starts at `window_start`.
    pub fn new(window_start: u64) -> (entry: Self)
        ensures
            entry == Self::fresh(window_start),
    {
        RateLimitEntry { count: 0, window_start }
    }

    /// Returns `true` if the window that began at `window_start` has elapsed.
    pub fn is_expired(&self, now: u64, window_seconds: u64) -> (expired: bool)
        ensures
            expired == self.expired_at(now, window_seconds),
    {
        now >= self.window_start.saturating_add(window_seconds)
    }
}

} // verus!
