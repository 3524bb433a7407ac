//! Fixed Window rate limiting algorithm.
//!
//! Each key keeps a counter and a window start time. Within a window of
//! `window_seconds`, up to `limit` requests are admitted; further requests are
//! rejected until the window rolls over, at which point the counter resets.
//!
//! State lives in a `DashMap`, a sharded concurrent hash map (see
//! `entry_map`). The limiter's mutating methods take `&mut self`, so each of
//! them sees and changes the map as one step.

use dashmap::DashMap;
use vstd::prelude::*;

use crate::entry::RateLimitEntry;
use crate::entry_map::{
    fixed_entries_of, fixed_map_clear, fixed_map_get, fixed_map_insert, fixed_map_len,
    fixed_map_new, fixed_map_remove, fixed_map_retain_running,
};

verus! {

/// The result of evaluating a request against the limiter.
#[derive(Debug, Clone, Copy)]
pub struct CheckOutcome {
    pub allowed: bool,
    pub limit: u64,
    pub remaining: u64,
    pub reset_after_seconds: u64,
    pub retry_after_seconds: u64,
}

/// What a fixed-window limiter is: its configuration and each key's entry.
pub struct FixedState {
    pub limit: u64,
    pub window_seconds: u64,
    pub entries: Map<Seq<char>, RateLimitEntry>,
}

impl FixedState {
    /// The entry that `key` counts against at `now`: its stored entry while
    /// that window runs, a fresh window starting at `now` otherwise.
    pub open spec fn window_entry(self, key: Seq<char>, now: u64) -> RateLimitEntry {
        match self.entries.get(key) {
            Some(e) => if e.expired_at(now, self.window_seconds) {
                RateLimitEntry::fresh(now)
            } else {
                e
            },
            None => RateLimitEntry::fresh(now),
        }
    }

    /// The request for `key` at `now` is admitted.
    pub open spec fn admits(self, key: Seq<char>, now: u64) -> bool {
        self.window_entry(key, now).count < self.limit
    }

    /// The entry that `key` holds after a request at `now`: the running (or
    /// fresh) window, counting the request when it is admitted.
    pub open spec fn entry_after(self, key: Seq<char>, now: u64) -> RateLimitEntry {
        let e = self.window_entry(key, now);
        if self.admits(key, now) {
            RateLimitEntry { count: (e.count + 1) as u64, window_start: e.window_start }
        } else {
            e
        }
    }

    /// Seconds until the window that `key` counts against at `now` rolls over.
    pub open spec fn reset_after(self, key: Seq<char>, now: u64) -> u64 {
        self.window_seconds.saturating_sub(now.saturating_sub(self.window_entry(key, now).window_start))
    }

    /// The state after a request for `key` at `now`.
    pub open spec fn consumed(self, key: Seq<char>, now: u64) -> FixedState {
        FixedState { entries: self.entries.insert(key, self.entry_after(key, now)), ..self }
    }

    /// What a request for `key` at `now` reports.
    pub open spec fn outcome(self, key: Seq<char>, now: u64) -> CheckOutcome {
        let allowed = self.admits(key, now);
        let reset_after = self.reset_after(key, now);
        CheckOutcome {
            allowed,
            limit: self.limit,
            remaining: self.limit.saturating_sub(self.entry_after(key, now).count),
            reset_after_seconds: reset_after,
            retry_after_seconds: if allowed {
                0
            } else {
                reset_after
            },
        }
    }

    /// Requests left for `key` at `now`: the full limit for an unknown key or
    /// an expired window, else the limit less what the window has admitted.
    pub open spec fn remaining(self, key: Seq<char>, now: u64) -> u64 {
        match self.entries.get(key) {
            Some(e) => if e.expired_at(now, self.window_seconds) {
                self.limit
            } else {
                self.limit.saturating_sub(e.count)
            },
            None => self.limit,
        }
    }

    /// The keys whose windows have expired at `now`.
    pub open spec fn expired_keys(self, now: u64) -> Set<Seq<char>> {
        self.entries.dom().filter(
            |k: Seq<char>| self.entries[k].expired_at(now, self.window_seconds),
        )
    }

    /// The state with every expired key dropped.
    pub open spec fn cleaned(self, now: u64) -> FixedState {
        FixedState {
            entries: self.entries.restrict(
                self.entries.dom().filter(
                    |k: Seq<char>| !self.entries[k].expired_at(now, self.window_seconds),
                ),
            ),
            ..self
        }
    }
}

impl FixedState {
    /// How many of a run of requests for `key`, made one after another at the
    /// given times, are admitted.
    pub open spec fn admitted_in_run(self, key: Seq<char>, times: Seq<u64>) -> nat
        decreases times.len(),
    {
        if times.len() == 0 {
            0
        } else {
            let first = if self.admits(key, times[0]) {
                1nat
            } else {
                0nat
            };
            first + self.consumed(key, times[0]).admitted_in_run(key, times.drop_first())
        }
    }
}

/// Within one window a key is admitted exactly up to the limit: of a run of
/// requests made while the key's window keeps running, the first
/// `limit - count` are admitted and every later one is blocked.
pub proof fn law_fixed_admits_up_to_limit_per_window(s: FixedState, key: Seq<char>, times: Seq<u64>)
    requires
        s.entries.contains_key(key),
        s.entries[key].count <= s.limit,
        forall|i: int| 0 <= i < times.len() ==> !s.entries[key].expired_at(#[trigger] times[i], s.window_seconds),
    ensures
        s.admitted_in_run(key, times) == if times.len() <= s.limit - s.entries[key].count {
            times.len() as int
        } else {
            s.limit - s.entries[key].count
        },
    decreases times.len(),
{
    if times.len() > 0 {
        let next = s.consumed(key, times[0]);
        let rest = times.drop_first();
        assert forall|i: int| 0 <= i < rest.len() implies !next.entries[key].expired_at(
            #[trigger] rest[i],
            next.window_seconds,
        ) by {
            assert(rest[i] == times[i + 1]);
        }
        law_fixed_admits_up_to_limit_per_window(next, key, rest);
    }
}

/// What `remaining` reports right after a request equals what that request
/// reported (for a positive window, before the clock's last second, where a
/// fresh window is not already over).
pub proof fn law_fixed_remaining_reflects_consumption(s: FixedState, key: Seq<char>, now: u64)
    requires
        s.window_seconds > 0,
        now < u64::MAX,
    ensures
        s.consumed(key, now).remaining(key, now) == s.outcome(key, now).remaining,
{
}

/// Keys are independent: a request for one key changes neither what another
/// key's request would report nor what `remaining` reports for it.
pub proof fn law_fixed_keys_are_independent(
    s: FixedState,
    key: Seq<char>,
    other: Seq<char>,
    now: u64,
    later: u64,
)
    requires
        key != other,
    ensures
        s.consumed(key, now).outcome(other, later) == s.outcome(other, later),
        s.consumed(key, now).consumed(other, later).entries[other] == s.consumed(other, later).entries[other],
        s.consumed(key, now).remaining(other, later) == s.remaining(other, later),
{
    assert(s.consumed(key, now).entries.get(other) == s.entries.get(other));
}

/// An unknown key has the full limit available.
pub proof fn law_fixed_unknown_key_has_full_limit(s: FixedState, key: Seq<char>, now: u64)
    requires
        !s.entries.contains_key(key),
    ensures
        s.remaining(key, now) == s.limit,
{
}

/// Once its window has elapsed a key is treated as if it had never been seen:
/// the window resets and a request reports what it would for a new key.
pub proof fn law_fixed_expired_key_starts_over(s: FixedState, key: Seq<char>, now: u64)
    requires
        s.entries.contains_key(key),
        s.entries[key].expired_at(now, s.window_seconds),
    ensures
        s.outcome(key, now) == (FixedState { entries: s.entries.remove(key), ..s }).outcome(key, now),
        s.consumed(key, now).entries[key] == (RateLimitEntry {
            count: if s.limit > 0 {
                1
            } else {
                0
            },
            window_start: now,
        }),
        s.remaining(key, now) == s.limit,
{
}

/// Dropping expired keys changes nothing that a request or `remaining` at the
/// same time would report, for any key.
pub proof fn law_fixed_cleanup_is_unobservable(s: FixedState, key: Seq<char>, now: u64)
    ensures
        s.cleaned(now).outcome(key, now) == s.outcome(key, now),
        s.cleaned(now).remaining(key, now) == s.remaining(key, now),
{
}

/// A blocked request reports nothing left, and a retry after exactly the
/// time to the window's reset; an admitted one asks for no wait. The reset is
/// never more than a window away, and nothing left ever exceeds the limit.
pub proof fn law_fixed_outcome_fields(s: FixedState, key: Seq<char>, now: u64)
    ensures
        !s.outcome(key, now).allowed ==> s.outcome(key, now).remaining == 0,
        !s.outcome(key, now).allowed ==> s.outcome(key, now).retry_after_seconds
            == s.outcome(key, now).reset_after_seconds,
        s.outcome(key, now).allowed ==> s.outcome(key, now).retry_after_seconds == 0,
        s.outcome(key, now).reset_after_seconds <= s.window_seconds,
        s.outcome(key, now).remaining <= s.limit,
        s.outcome(key, now).limit == s.limit,
        s.remaining(key, now) <= s.limit,
{
}

/// No key's count ever exceeds the limit: requests keep every count within it.
pub proof fn law_fixed_counts_stay_within_limit(s: FixedState, key: Seq<char>, now: u64)
    requires
        forall|k: Seq<char>| #[trigger] s.entries.contains_key(k) ==> s.entries[k].count <= s.limit,
    ensures
        forall|k: Seq<char>| #[trigger] s.consumed(key, now).entries.contains_key(k) ==> s.consumed(
            key,
            now,
        ).entries[k].count <= s.limit,
{
}

/// Fixed Window limiter state.
pub struct FixedWindow {
    pub limit: u64,
    pub window_seconds: u64,
    pub(crate) entries: DashMap<String, RateLimitEntry>,
}

impl View for FixedWindow {
    type V = FixedState;

    closed spec fn view(&self) -> FixedState {
        FixedState {
            limit: self.limit,
            window_seconds: self.window_seconds,
            entries: fixed_entries_of(self.entries),
        }
    }
}

/// The entry's window is still running at `now` (the predicate by which
/// expired keys are dropped).
pub(crate) fn window_still_running(entry: &RateLimitEntry, now: u64, window_seconds: u64) -> (running:
    bool)
    ensures
        running == !entry.expired_at(now, window_seconds),
{
    !entry.is_expired(now, window_seconds)
}

impl FixedWindow {
    /// The view carries the public fields.
    pub(crate) broadcast proof fn lemma_view_fields(w: &FixedWindow)
        ensures
            (#[trigger] w@).limit == w.limit,
            w@.window_seconds == w.window_seconds,
    {
    }

    pub fn new(limit: u64, window_seconds: u64) -> (w: Self)
        ensures
            w@ == (FixedState {
                limit,
                window_seconds,
                entries: Map::<Seq<char>, RateLimitEntry>::empty(),
            }),
    {
        let w = FixedWindow { limit, window_seconds, entries: fixed_map_new() };
        assert(fixed_entries_of(w.entries) =~= Map::empty());
        w
    }

    /// Evaluates `key` at time `now`, admitting the request if it fits within
    /// the current window. This is the single mutating entry point shared by
    /// `allow` and `check`.
    pub fn consume(&mut self, key: &str, now: u64) -> (outcome: CheckOutcome)
        ensures
            final(self)@ == old(self)@.consumed(key@, now),
            outcome == old(self)@.outcome(key@, now),
    {
        let mut entry = match fixed_map_get(&self.entries, key) {
            Some(e) => e,
            None => RateLimitEntry::new(now),
        };
        // Roll the window over if it has expired.
        if entry.is_expired(now, self.window_seconds) {
            entry.window_start = now;
            entry.count = 0;
        }
        let elapsed = now.saturating_sub(entry.window_start);
        let reset_after = self.window_seconds.saturating_sub(elapsed);

        let allowed = entry.count < self.limit;
        if allowed {
            entry.count = entry.count + 1;
        }
        let remaining = self.limit.saturating_sub(entry.count);
        fixed_map_insert(&mut self.entries, key.to_owned(), entry);
        CheckOutcome {
            allowed,
            limit: self.limit,
            remaining,
            reset_after_seconds: reset_after,
            retry_after_seconds: if allowed {
                0
            } else {
                reset_after
            },
        }
    }

    /// Returns how many requests remain in `key`'s current window without
    /// consuming one. An unknown or expired key has the full limit available.
    pub fn remaining(&self, key: &str, now: u64) -> (left: u64)
        ensures
            left == self@.remaining(key@, now),
    {
        match fixed_map_get(&self.entries, key) {
            Some(entry) => {
                if !entry.is_expired(now, self.window_seconds) {
                    self.limit.saturating_sub(entry.count)
                } else {
                    self.limit
                }
            },
            None => self.limit,
        }
    }

    /// Removes `key`'s state. Returns `true` if the key existed.
    pub fn reset(&mut self, key: &str) -> (existed: bool)
        ensures
            final(self)@ == (FixedState { entries: old(self)@.entries.remove(key@), ..old(self)@ }),
            existed == old(self)@.entries.contains_key(key@),
    {
        fixed_map_remove(&mut self.entries, key).is_some()
    }

    /// Removes all keys.
    pub fn clear(&mut self)
        ensures
            final(self)@ == (FixedState {
                entries: Map::<Seq<char>, RateLimitEntry>::empty(),
                ..old(self)@
            }),
    {
        fixed_map_clear(&mut self.entries);
        assert(fixed_entries_of(self.entries) =~= Map::empty());
    }

    /// Removes every key whose window has expired. Returns the number removed.
    pub fn cleanup_expired(&mut self, now: u64) -> (removed: usize)
        ensures
            final(self)@ == old(self)@.cleaned(now),
            removed == old(self)@.expired_keys(now).len(),
    {
        let before = fixed_map_len(&self.entries);
        let ghost old_entries = fixed_entries_of(self.entries);
        fixed_map_retain_running(&mut self.entries, now, self.window_seconds);
        let after = fixed_map_len(&self.entries);
        proof {
            let w = self.window_seconds;
            let kept = old_entries.dom().filter(|k: Seq<char>| !old_entries[k].expired_at(now, w));
            let gone = old_entries.dom().filter(|k: Seq<char>| old_entries[k].expired_at(now, w));
            assert(fixed_entries_of(self.entries).dom() =~= kept);
            assert(kept + gone =~= old_entries.dom());
            assert(kept.disjoint(gone));
            old_entries.dom().lemma_len_filter(|k: Seq<char>| !old_entries[k].expired_at(now, w));
            old_entries.dom().lemma_len_filter(|k: Seq<char>| old_entries[k].expired_at(now, w));
            vstd::set_lib::lemma_set_disjoint_lens(kept, gone);
            assert(gone =~= old(self)@.expired_keys(now));
        }
        before - after
    }

    /// Number of keys currently tracked (including not-yet-cleaned expired
    /// keys).
    pub fn len(&self) -> (n: usize)
        ensures
            self@.entries.dom().finite(),
            n == self@.entries.dom().len(),
    {
        fixed_map_len(&self.entries)
    }
}

} // verus!
