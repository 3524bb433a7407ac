//! The `RateLimiter`: one of the algorithm backends (`FixedWindow` or
//! `SlidingWindow`) plus the activity counters.
//!
//! Every request method comes in two forms: one that reads the system clock
//! (as the Python-facing class does) and one, suffixed `_at`, that takes the
//! time as an argument and whose result is stated exactly.

use vstd::prelude::*;

use crate::errors::RateLimitError;
use crate::fixed_window::{CheckOutcome, FixedState, FixedWindow};
use crate::sliding_window::{SlidingState, SlidingWindow};
use crate::stats::{law_stats_stay_balanced, RateLimitStats, StatsSnapshot};
use crate::time_utils::now_seconds;

verus! {

broadcast use {FixedWindow::lemma_view_fields, SlidingWindow::lemma_view_fields};

/// What the active backend is: the state of a fixed or a sliding window.
pub enum LimiterState {
    Fixed(FixedState),
    Sliding(SlidingState),
}

impl LimiterState {
    pub open spec fn limit(self) -> u64 {
        match self {
            LimiterState::Fixed(s) => s.limit,
            LimiterState::Sliding(s) => s.limit,
        }
    }

    pub open spec fn window_seconds(self) -> u64 {
        match self {
            LimiterState::Fixed(s) => s.window_seconds,
            LimiterState::Sliding(s) => s.window_seconds,
        }
    }

    /// The algorithm's name.
    pub open spec fn name(self) -> Seq<char> {
        match self {
            LimiterState::Fixed(_) => "fixed"@,
            LimiterState::Sliding(_) => "sliding"@,
        }
    }

    /// The keys tracked.
    pub open spec fn keys(self) -> Set<Seq<char>> {
        match self {
            LimiterState::Fixed(s) => s.entries.dom(),
            LimiterState::Sliding(s) => s.entries.dom(),
        }
    }

    /// The state after a request for `key` at `now`.
    pub open spec fn consumed(self, key: Seq<char>, now: u64) -> LimiterState {
        match self {
            LimiterState::Fixed(s) => LimiterState::Fixed(s.consumed(key, now)),
            LimiterState::Sliding(s) => LimiterState::Sliding(s.consumed(key, now)),
        }
    }

    /// What a request for `key` at `now` reports.
    pub open spec fn outcome(self, key: Seq<char>, now: u64) -> CheckOutcome {
        match self {
            LimiterState::Fixed(s) => s.outcome(key, now),
            LimiterState::Sliding(s) => s.outcome(key, now),
        }
    }

    /// Requests left for `key` at `now`.
    pub open spec fn remaining(self, key: Seq<char>, now: u64) -> u64 {
        match self {
            LimiterState::Fixed(s) => s.remaining(key, now),
            LimiterState::Sliding(s) => s.remaining(key, now),
        }
    }

    /// The state without `key`.
    pub open spec fn without(self, key: Seq<char>) -> LimiterState {
        match self {
            LimiterState::Fixed(s) => LimiterState::Fixed(
                FixedState { entries: s.entries.remove(key), ..s },
            ),
            LimiterState::Sliding(s) => LimiterState::Sliding(
                SlidingState { entries: s.entries.remove(key), ..s },
            ),
        }
    }

    /// The state with no keys.
    pub open spec fn emptied(self) -> LimiterState {
        match self {
            LimiterState::Fixed(s) => LimiterState::Fixed(FixedState { entries: Map::empty(), ..s }),
            LimiterState::Sliding(s) => LimiterState::Sliding(
                SlidingState { entries: Map::empty(), ..s },
            ),
        }
    }

    /// The keys that a cleanup at `now` drops.
    pub open spec fn dropped_keys(self, now: u64) -> Set<Seq<char>> {
        match self {
            LimiterState::Fixed(s) => s.expired_keys(now),
            LimiterState::Sliding(s) => s.stale_keys(now),
        }
    }

    /// The state after a cleanup at `now`.
    pub open spec fn cleaned(self, now: u64) -> LimiterState {
        match self {
            LimiterState::Fixed(s) => LimiterState::Fixed(s.cleaned(now)),
            LimiterState::Sliding(s) => LimiterState::Sliding(s.cleaned(now)),
        }
    }
}

/// A key that has been reset has the full limit available again.
pub proof fn law_reset_restores_full_limit(s: LimiterState, key: Seq<char>, now: u64)
    ensures
        !s.without(key).keys().contains(key),
        s.without(key).remaining(key, now) == s.limit(),
{
}

/// After `clear` no key is tracked and every key has the full limit.
pub proof fn law_clear_restores_full_limit(s: LimiterState, key: Seq<char>, now: u64)
    ensures
        s.emptied().keys().is_empty(),
        s.emptied().remaining(key, now) == s.limit(),
{
}

/// What a `RateLimiter` is: its backend's state and its counters.
pub struct LimiterView {
    pub algo: LimiterState,
    pub stats: RateLimitStats,
}

/// The selected algorithm backend. Both variants expose the same surface, so
/// every `RateLimiter` method just forwards to the active one.
enum Algo {
    Fixed(FixedWindow),
    Sliding(SlidingWindow),
}

impl View for Algo {
    type V = LimiterState;

    closed spec fn view(&self) -> LimiterState {
        match self {
            Algo::Fixed(a) => LimiterState::Fixed(a@),
            Algo::Sliding(a) => LimiterState::Sliding(a@),
        }
    }
}

impl Algo {
    fn limit(&self) -> (limit: u64)
        ensures
            limit == self@.limit(),
    {
        match self {
            Algo::Fixed(a) => a.limit,
            Algo::Sliding(a) => a.limit,
        }
    }

    fn window_seconds(&self) -> (window_seconds: u64)
        ensures
            window_seconds == self@.window_seconds(),
    {
        match self {
            Algo::Fixed(a) => a.window_seconds,
            Algo::Sliding(a) => a.window_seconds,
        }
    }

    fn name(&self) -> (name: &'static str)
        ensures
            name@ == self@.name(),
    {
        match self {
            Algo::Fixed(_) => "fixed",
            Algo::Sliding(_) => "sliding",
        }
    }

    fn consume(&mut self, key: &str, now: u64) -> (outcome: CheckOutcome)
        requires
            old(self)@.window_seconds() > 0,
        ensures
            final(self)@ == old(self)@.consumed(key@, now),
            outcome == old(self)@.outcome(key@, now),
    {
        match self {
            Algo::Fixed(a) => a.consume(key, now),
            Algo::Sliding(a) => a.consume(key, now),
        }
    }

    fn remaining(&self, key: &str, now: u64) -> (left: u64)
        requires
            self@.window_seconds() > 0,
        ensures
            left == self@.remaining(key@, now),
    {
        match self {
            Algo::Fixed(a) => a.remaining(key, now),
            Algo::Sliding(a) => a.remaining(key, now),
        }
    }

    fn reset(&mut self, key: &str) -> (existed: bool)
        ensures
            final(self)@ == old(self)@.without(key@),
            existed == old(self)@.keys().contains(key@),
    {
        match self {
            Algo::Fixed(a) => a.reset(key),
            Algo::Sliding(a) => a.reset(key),
        }
    }

    fn clear(&mut self)
        ensures
            final(self)@ == old(self)@.emptied(),
    {
        match self {
            Algo::Fixed(a) => a.clear(),
            Algo::Sliding(a) => a.clear(),
        }
    }

    fn cleanup_expired(&mut self, now: u64) -> (removed: usize)
        requires
            old(self)@.window_seconds() > 0,
        ensures
            final(self)@ == old(self)@.cleaned(now),
            removed == old(self)@.dropped_keys(now).len(),
    {
        match self {
            Algo::Fixed(a) => a.cleanup_expired(now),
            Algo::Sliding(a) => a.cleanup_expired(now),
        }
    }

    fn len(&self) -> (n: usize)
        ensures
            self@.keys().finite(),
            n == self@.keys().len(),
    {
        match self {
            Algo::Fixed(a) => a.len(),
            Algo::Sliding(a) => a.len(),
        }
    }
}

/// A rate limiter: the chosen algorithm backend plus activity counters.
pub struct RateLimiter {
    inner: Algo,
    stats: RateLimitStats,
}

impl View for RateLimiter {
    type V = LimiterView;

    closed spec fn view(&self) -> LimiterView {
        LimiterView { algo: self.inner@, stats: self.stats }
    }
}

impl RateLimiter {
    /// A limiter made by `new`: its window is positive, and every check it
    /// has made was counted once, as allowed or as blocked
    /// (`total_checks == allowed + blocked`, modulo `2^64`). Every method
    /// keeps it.
    pub open spec fn well_formed(&self) -> bool {
        &&& self@.algo.window_seconds() > 0
        &&& self@.stats.balanced()
    }

    /// `RateLimiter(limit, window_seconds, algorithm="fixed")`.
    ///
    /// `limit` and `window_seconds` must be positive; `0` gives
    /// `InvalidLimit` / `InvalidWindow` (checked in that order). `algorithm`
    /// selects the strategy: `"fixed"` or `"sliding"`; any other value gives
    /// `InvalidAlgorithm` with that value.
    pub fn new(limit: u64, window_seconds: u64, algorithm: &str) -> (made: Result<Self, RateLimitError>)
        ensures
            limit == 0 ==> made matches Err(RateLimitError::InvalidLimit),
            limit > 0 && window_seconds == 0 ==> made matches Err(RateLimitError::InvalidWindow),
            limit > 0 && window_seconds > 0 && algorithm@ == "fixed"@ ==> (made matches Ok(l)
                && l@ == (LimiterView {
                algo: LimiterState::Fixed(
                    FixedState { limit, window_seconds, entries: Map::empty() },
                ),
                stats: RateLimitStats::zero(),
            })),
            limit > 0 && window_seconds > 0 && algorithm@ == "sliding"@ ==> (made matches Ok(l)
                && l@ == (LimiterView {
                algo: LimiterState::Sliding(
                    SlidingState { limit, window_seconds, entries: Map::empty() },
                ),
                stats: RateLimitStats::zero(),
            })),
            limit > 0 && window_seconds > 0 && algorithm@ != "fixed"@ && algorithm@ != "sliding"@
                ==> (made matches Err(RateLimitError::InvalidAlgorithm(name)) && name@
                == algorithm@),
            made matches Ok(l) ==> l.well_formed(),
    {
        if limit == 0 {
            return Err(RateLimitError::InvalidLimit);
        }
        if window_seconds == 0 {
            return Err(RateLimitError::InvalidWindow);
        }
        proof {
            law_stats_stay_balanced(RateLimitStats::zero(), true);
            reveal_strlit("fixed");
            reveal_strlit("sliding");
            assert("fixed"@.len() != "sliding"@.len());
        }
        let requested = algorithm.to_owned();
        let inner = if requested == "fixed".to_owned() {
            Algo::Fixed(FixedWindow::new(limit, window_seconds))
        } else if requested == "sliding".to_owned() {
            Algo::Sliding(SlidingWindow::new(limit, window_seconds))
        } else {
            return Err(RateLimitError::InvalidAlgorithm(requested));
        };
        Ok(RateLimiter { inner, stats: RateLimitStats::default() })
    }

    /// The configured maximum number of requests per window.
    pub fn max_requests(&self) -> (limit: u64)
        ensures
            limit == self@.algo.limit(),
    {
        self.inner.limit()
    }

    /// The configured window length in seconds.
    pub fn window_seconds(&self) -> (window_seconds: u64)
        ensures
            window_seconds == self@.algo.window_seconds(),
    {
        self.inner.window_seconds()
    }

    /// The active algorithm: `"fixed"` or `"sliding"`.
    pub fn algorithm(&self) -> (name: &'static str)
        ensures
            name@ == self@.algo.name(),
    {
        self.inner.name()
    }

    /// Consumes one request for `key` at `now` and returns the full detail,
    /// counting the outcome in the stats.
    pub fn check_at(&mut self, key: &str, now: u64) -> (outcome: CheckOutcome)
        requires
            old(self).well_formed(),
        ensures
            final(self).well_formed(),
            final(self)@ == (LimiterView {
                algo: old(self)@.algo.consumed(key@, now),
                stats: old(self)@.stats.recorded(outcome.allowed),
            }),
            outcome == old(self)@.algo.outcome(key@, now),
    {
        let outcome = self.inner.consume(key, now);
        proof {
            law_stats_stay_balanced(self.stats, outcome.allowed);
        }
        if outcome.allowed {
            self.stats.record_allowed();
        } else {
            self.stats.record_blocked();
        }
        outcome
    }

    /// Consumes one request for `key` at `now`. Returns `true` if admitted.
    pub fn allow_at(&mut self, key: &str, now: u64) -> (allowed: bool)
        requires
            old(self).well_formed(),
        ensures
            final(self).well_formed(),
            final(self)@ == (LimiterView {
                algo: old(self)@.algo.consumed(key@, now),
                stats: old(self)@.stats.recorded(allowed),
            }),
            allowed == old(self)@.algo.outcome(key@, now).allowed,
    {
        self.check_at(key, now).allowed
    }

    /// Consumes one request for `key` now. Returns `true` if admitted; fails
    /// only when the clock cannot be read, and then changes nothing.
    pub fn allow(&mut self, key: &str) -> (allowed: Result<bool, RateLimitError>)
        requires
            old(self).well_formed(),
        ensures
            final(self).well_formed(),
            match allowed {
                Ok(b) => exists|now: u64|
                    b == old(self)@.algo.outcome(key@, now).allowed && final(self)@ == (LimiterView {
                        algo: old(self)@.algo.consumed(key@, now),
                        stats: old(self)@.stats.recorded(b),
                    }),
                Err(e) => e is SystemTime && final(self)@ == old(self)@,
            },
    {
        let now = now_seconds()?;
        Ok(self.allow_at(key, now))
    }

    /// Consumes one request for `key` now and returns the full detail
    /// (`allowed`, `limit`, `remaining`, `reset_after_seconds`,
    /// `retry_after_seconds`); fails only when the clock cannot be read, and
    /// then changes nothing.
    pub fn check(&mut self, key: &str) -> (outcome: Result<CheckOutcome, RateLimitError>)
        requires
            old(self).well_formed(),
        ensures
            final(self).well_formed(),
            match outcome {
                Ok(o) => exists|now: u64|
                    o == old(self)@.algo.outcome(key@, now) && final(self)@ == (LimiterView {
                        algo: old(self)@.algo.consumed(key@, now),
                        stats: old(self)@.stats.recorded(o.allowed),
                    }),
                Err(e) => e is SystemTime && final(self)@ == old(self)@,
            },
    {
        let now = now_seconds()?;
        Ok(self.check_at(key, now))
    }

    /// Returns how many requests remain for `key` at `now` without consuming
    /// one.
    pub fn remaining_at(&self, key: &str, now: u64) -> (left: u64)
        requires
            self.well_formed(),
        ensures
            left == self@.algo.remaining(key@, now),
    {
        self.inner.remaining(key, now)
    }

    /// Returns how many requests remain for `key` now without consuming one;
    /// fails only when the clock cannot be read.
    pub fn remaining(&self, key: &str) -> (left: Result<u64, RateLimitError>)
        requires
            self.well_formed(),
        ensures
            match left {
                Ok(n) => exists|now: u64| n == self@.algo.remaining(key@, now),
                Err(e) => e is SystemTime,
            },
    {
        let now = now_seconds()?;
        Ok(self.remaining_at(key, now))
    }

    /// Removes `key`'s state. Returns `true` if the key existed.
    pub fn reset(&mut self, key: &str) -> (existed: bool)
        requires
            old(self).well_formed(),
        ensures
            final(self).well_formed(),
            final(self)@ == (LimiterView { algo: old(self)@.algo.without(key@), ..old(self)@ }),
            existed == old(self)@.algo.keys().contains(key@),
    {
        self.inner.reset(key)
    }

    /// Removes all keys.
    pub fn clear(&mut self)
        requires
            old(self).well_formed(),
        ensures
            final(self).well_formed(),
            final(self)@ == (LimiterView { algo: old(self)@.algo.emptied(), ..old(self)@ }),
    {
        self.inner.clear()
    }

    /// Removes the keys that can no longer limit anything at `now` (expired
    /// fixed windows, stale sliding windows). Returns the number removed.
    pub fn cleanup_expired_at(&mut self, now: u64) -> (removed: usize)
        requires
            old(self).well_formed(),
        ensures
            final(self).well_formed(),
            final(self)@ == (LimiterView { algo: old(self)@.algo.cleaned(now), ..old(self)@ }),
            removed == old(self)@.algo.dropped_keys(now).len(),
    {
        self.inner.cleanup_expired(now)
    }

    /// Removes expired keys lazily, as of now. Returns the number removed;
    /// fails only when the clock cannot be read, and then changes nothing.
    pub fn cleanup_expired(&mut self) -> (removed: Result<usize, RateLimitError>)
        requires
            old(self).well_formed(),
        ensures
            final(self).well_formed(),
            match removed {
                Ok(n) => exists|now: u64|
                    n == old(self)@.algo.dropped_keys(now).len() && final(self)@ == (LimiterView {
                        algo: old(self)@.algo.cleaned(now),
                        ..old(self)@
                    }),
                Err(e) => e is SystemTime && final(self)@ == old(self)@,
            },
    {
        let now = now_seconds()?;
        Ok(self.cleanup_expired_at(now))
    }

    /// The activity counters: `allowed`, `blocked`, `total_checks`, and the
    /// number of keys tracked as `active_keys`.
    pub fn stats(&self) -> (snap: StatsSnapshot)
        ensures
            self@.algo.keys().finite(),
            self.well_formed() ==> snap.total_checks as int == (snap.allowed + snap.blocked)
                % 0x1_0000_0000_0000_0000,
            snap == (StatsSnapshot {
                allowed: self@.stats.allowed,
                blocked: self@.stats.blocked,
                total_checks: self@.stats.total_checks,
                active_keys: self@.algo.keys().len() as u64,
            }),
    {
        let n = self.inner.len();
        self.stats.snapshot(n as u64)
    }
}

} // verus!
