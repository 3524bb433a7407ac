//! Sliding Window (counter) rate limiting algorithm.
//!
//! The Fixed Window algorithm has a well-known weakness: a client can send
//! `limit` requests at the very end of one window and `limit` more at the very
//! start of the next. The **sliding window counter** smooths that boundary by
//! keeping the count for the *current* aligned window plus the count for the
//! *previous* one, and weighting the previous window by how much of it still
//! overlaps the trailing `window_seconds` ending at `now`:
//!
//! ```text
//! estimated = previous_count * weight + current_count
//! weight    = (window_seconds - elapsed_in_current_window) / window_seconds
//! ```
//!
//! A request is admitted while `estimated < limit`. The estimate is compared
//! exactly: both sides are scaled by `window_seconds` and computed in `u128`,
//! so `estimated < limit` becomes
//! `previous * (window_seconds - elapsed) + current * window_seconds
//!  < limit * window_seconds`, and the requests left are
//! `floor(max(0, limit - estimated))`.

use dashmap::DashMap;
use vstd::prelude::*;

use crate::entry_map::{
    sliding_entries_of, sliding_map_clear, sliding_map_get, sliding_map_insert, sliding_map_len,
    sliding_map_new, sliding_map_remove, sliding_map_retain_fresh,
};
use crate::fixed_window::CheckOutcome;

verus! {

/// Per-key bookkeeping for the sliding window counter.
///
/// `window_index` is the aligned window number (`now / window_seconds`) that
/// `current` counts. `previous` is the count for `window_index - 1`.
#[derive(Debug, Clone, Copy)]
pub struct SlidingEntry {
    pub window_index: u64,
    pub current: u64,
    pub previous: u64,
}

impl SlidingEntry {
    /// The entry of a key first seen in window `window_index`.
    pub open spec fn fresh(window_index: u64) -> SlidingEntry {
        SlidingEntry { window_index, current: 0, previous: 0 }
    }

    /// The counts rolled forward to window `idx`: unchanged in the same
    /// window; after a one-step advance `current` becomes `previous`; after
    /// any other jump (a larger one, or the clock going backwards) both reset.
    pub open spec fn advanced(self, idx: u64) -> SlidingEntry {
        if idx == self.window_index {
            self
        } else if idx == self.window_index + 1 {
            SlidingEntry { window_index: idx, current: 0, previous: self.current }
        } else {
            SlidingEntry::fresh(idx)
        }
    }

    /// At window `idx` neither of the entry's windows overlaps the trailing
    /// window any more (two or more windows have passed, saturating).
    pub open spec fn stale_at(self, idx: u64) -> bool {
        idx >= self.window_index.saturating_add(2)
    }

    pub fn new(window_index: u64) -> (entry: Self)
        ensures
            entry == Self::fresh(window_index),
    {
        SlidingEntry { window_index, current: 0, previous: 0 }
    }

    /// Rolls `current`/`previous` forward so they describe the window that
    /// contains `idx`. A one-step advance shifts `current` into `previous`; a
    /// larger jump means both windows are stale, so they reset to zero.
    pub fn advance_to(&mut self, idx: u64)
        ensures
            *final(self) == old(self).advanced(idx),
    {
        if idx == self.window_index {
            // same window — nothing to do
        } else if idx > self.window_index && idx - self.window_index == 1 {
            self.previous = self.current;
            self.current = 0;
            self.window_index = idx;
        } else {
            // `idx < window_index` only happens if the clock went backwards; in
            // every case the old counts no longer overlap, so start fresh.
            self.previous = 0;
            self.current = 0;
            self.window_index = idx;
        }
    }
}

/// The estimate of requests in the trailing window, scaled by the window
/// length: `previous * (window_seconds - elapsed) + current * window_seconds`.
pub open spec fn scaled_estimate(previous: u64, current: u64, window_seconds: u64, elapsed: u64) -> int {
    previous * (window_seconds - elapsed) + current * window_seconds
}

/// Requests left under `limit` for the given counts:
/// `floor(max(0, limit - estimated))`.
pub open spec fn slots_left(
    limit: u64,
    previous: u64,
    current: u64,
    window_seconds: u64,
    elapsed: u64,
) -> u64 {
    let budget = limit * window_seconds;
    let estimate = scaled_estimate(previous, current, window_seconds, elapsed);
    if estimate < budget {
        ((budget - estimate) / (window_seconds as int)) as u64
    } else {
        0
    }
}

/// What a sliding-window limiter is: its configuration and each key's entry.
pub struct SlidingState {
    pub limit: u64,
    pub window_seconds: u64,
    pub entries: Map<Seq<char>, SlidingEntry>,
}

impl SlidingState {
    /// The aligned window that contains `now`.
    pub open spec fn index(self, now: u64) -> u64 {
        now / self.window_seconds
    }

    /// Seconds from the start of the aligned window to `now`.
    pub open spec fn elapsed(self, now: u64) -> u64 {
        (now - self.index(now) * self.window_seconds) as u64
    }

    /// The entry that `key` counts against at `now`, rolled forward.
    pub open spec fn window_entry(self, key: Seq<char>, now: u64) -> SlidingEntry {
        match self.entries.get(key) {
            Some(e) => e.advanced(self.index(now)),
            None => SlidingEntry::fresh(self.index(now)),
        }
    }

    /// The request for `key` at `now` is admitted: the weighted estimate is
    /// under the limit.
    pub open spec fn admits(self, key: Seq<char>, now: u64) -> bool {
        let e = self.window_entry(key, now);
        scaled_estimate(e.previous, e.current, self.window_seconds, self.elapsed(now)) < self.limit
            * self.window_seconds
    }

    /// The entry that `key` holds after a request at `now`.
    pub open spec fn entry_after(self, key: Seq<char>, now: u64) -> SlidingEntry {
        let e = self.window_entry(key, now);
        if self.admits(key, now) {
            SlidingEntry { current: (e.current + 1) as u64, ..e }
        } else {
            e
        }
    }

    /// The state after a request for `key` at `now`.
    pub open spec fn consumed(self, key: Seq<char>, now: u64) -> SlidingState {
        SlidingState { entries: self.entries.insert(key, self.entry_after(key, now)), ..self }
    }

    /// What a request for `key` at `now` reports.
    pub open spec fn outcome(self, key: Seq<char>, now: u64) -> CheckOutcome {
        let allowed = self.admits(key, now);
        let after = self.entry_after(key, now);
        let reset_after = (self.window_seconds - self.elapsed(now)) as u64;
        CheckOutcome {
            allowed,
            limit: self.limit,
            remaining: slots_left(
                self.limit,
                after.previous,
                after.current,
                self.window_seconds,
                self.elapsed(now),
            ),
            reset_after_seconds: reset_after,
            retry_after_seconds: if allowed {
                0
            } else {
                reset_after
            },
        }
    }

    /// Requests left for `key` at `now`: the full limit for an unknown key,
    /// else what the rolled-forward estimate leaves.
    pub open spec fn remaining(self, key: Seq<char>, now: u64) -> u64 {
        match self.entries.get(key) {
            Some(e) => {
                let r = e.advanced(self.index(now));
                slots_left(self.limit, r.previous, r.current, self.window_seconds, self.elapsed(now))
            },
            None => self.limit,
        }
    }

    /// The keys that are stale at `now`.
    pub open spec fn stale_keys(self, now: u64) -> Set<Seq<char>> {
        self.entries.dom().filter(|k: Seq<char>| self.entries[k].stale_at(self.index(now)))
    }

    /// The state with every stale key dropped.
    pub open spec fn cleaned(self, now: u64) -> SlidingState {
        SlidingState {
            entries: self.entries.restrict(
                self.entries.dom().filter(|k: Seq<char>| !self.entries[k].stale_at(self.index(now))),
            ),
            ..self
        }
    }
}

/// With nothing counted, the whole limit is left; and never more than it.
pub(crate) proof fn lemma_slots_left_bounds(limit: u64, previous: u64, current: u64, window_seconds: u64, elapsed: u64)
    requires
        elapsed < window_seconds,
    ensures
        slots_left(limit, 0, 0, window_seconds, elapsed) == limit,
        slots_left(limit, previous, current, window_seconds, elapsed) <= limit,
        scaled_estimate(previous, current, window_seconds, elapsed) < limit * window_seconds
            ==> slots_left(limit, previous, current, window_seconds, elapsed) == (limit
            * window_seconds - scaled_estimate(previous, current, window_seconds, elapsed))
            / (window_seconds as int),
        scaled_estimate(previous, current, window_seconds, elapsed) >= 0,
{
    let w = window_seconds as int;
    let budget = limit * w;
    let est = scaled_estimate(previous, current, window_seconds, elapsed);
    assert(scaled_estimate(0, 0, window_seconds, elapsed) == 0) by (nonlinear_arith)
        requires
            window_seconds - elapsed > 0,
    ;
    assert(budget / w == limit) by (nonlinear_arith)
        requires
            budget == limit * w,
            w > 0,
    ;
    assert(est >= 0) by (nonlinear_arith)
        requires
            est == previous * (window_seconds - elapsed) + current * window_seconds,
            window_seconds - elapsed > 0,
    ;
    if est < budget {
        assert((budget - est) / w <= budget / w) by (nonlinear_arith)
            requires
                0 <= budget - est <= budget,
                w > 0,
        ;
    }
}

/// What `remaining` reports right after a request equals what that request
/// reported.
pub proof fn law_sliding_remaining_reflects_consumption(s: SlidingState, key: Seq<char>, now: u64)
    requires
        s.window_seconds > 0,
    ensures
        s.consumed(key, now).remaining(key, now) == s.outcome(key, now).remaining,
{
}

/// Keys are independent: a request for one key changes neither what another
/// key's request would report nor what `remaining` reports for it.
pub proof fn law_sliding_keys_are_independent(
    s: SlidingState,
    key: Seq<char>,
    other: Seq<char>,
    now: u64,
    later: u64,
)
    requires
        key != other,
    ensures
        s.consumed(key, now).outcome(other, later) == s.outcome(other, later),
        s.consumed(key, now).consumed(other, later).entries[other] == s.consumed(other, later).entries[other],
        s.consumed(key, now).remaining(other, later) == s.remaining(other, later),
{
    assert(s.consumed(key, now).entries.get(other) == s.entries.get(other));
}

/// An unknown key has the full limit available.
pub proof fn law_sliding_unknown_key_has_full_limit(s: SlidingState, key: Seq<char>, now: u64)
    requires
        !s.entries.contains_key(key),
    ensures
        s.remaining(key, now) == s.limit,
{
}

/// Two windows after its last one a key is treated as if it had never been
/// seen: the full limit is back and a request reports what it would for a
/// new key (below the last window index, where staleness saturates).
pub proof fn law_sliding_stale_key_starts_over(s: SlidingState, key: Seq<char>, now: u64)
    requires
        s.window_seconds > 0,
        s.index(now) < u64::MAX,
        s.entries.contains_key(key),
        s.entries[key].stale_at(s.index(now)),
    ensures
        s.outcome(key, now) == (SlidingState { entries: s.entries.remove(key), ..s }).outcome(key, now),
        s.remaining(key, now) == s.limit,
{
    lemma_elapsed_in_window(now, s.window_seconds);
    lemma_slots_left_bounds(s.limit, 0, 0, s.window_seconds, s.elapsed(now));
}

/// Dropping stale keys changes nothing that a request or `remaining` at the
/// same time would report, for any key (below the last window index, where
/// staleness saturates).
pub proof fn law_sliding_cleanup_is_unobservable(s: SlidingState, key: Seq<char>, now: u64)
    requires
        s.window_seconds > 0,
        s.index(now) < u64::MAX,
    ensures
        s.cleaned(now).outcome(key, now) == s.outcome(key, now),
        s.cleaned(now).remaining(key, now) == s.remaining(key, now),
{
    if s.entries.contains_key(key) && s.entries[key].stale_at(s.index(now)) {
        law_sliding_stale_key_starts_over(s, key, now);
        assert(s.cleaned(now).entries =~= s.cleaned(now).entries.remove(key));
    }
}

/// A blocked request reports nothing left, and a retry after exactly the
/// time to the aligned window's end; an admitted one asks for no wait. The
/// reset is never more than a window away, and nothing left ever exceeds the
/// limit.
pub proof fn law_sliding_outcome_fields(s: SlidingState, key: Seq<char>, now: u64)
    requires
        s.window_seconds > 0,
    ensures
        !s.outcome(key, now).allowed ==> s.outcome(key, now).remaining == 0,
        !s.outcome(key, now).allowed ==> s.outcome(key, now).retry_after_seconds
            == s.outcome(key, now).reset_after_seconds,
        s.outcome(key, now).allowed ==> s.outcome(key, now).retry_after_seconds == 0,
        0 < s.outcome(key, now).reset_after_seconds <= s.window_seconds,
        s.outcome(key, now).remaining <= s.limit,
        s.outcome(key, now).limit == s.limit,
        s.remaining(key, now) <= s.limit,
{
    lemma_elapsed_in_window(now, s.window_seconds);
    let after = s.entry_after(key, now);
    lemma_slots_left_bounds(s.limit, after.previous, after.current, s.window_seconds, s.elapsed(now));
    if s.entries.contains_key(key) {
        let r = s.entries[key].advanced(s.index(now));
        lemma_slots_left_bounds(s.limit, r.previous, r.current, s.window_seconds, s.elapsed(now));
    }
}

/// No key's counts ever exceed the limit: requests keep both the current and
/// the previous window's count within it.
pub proof fn law_sliding_counts_stay_within_limit(s: SlidingState, key: Seq<char>, now: u64)
    requires
        s.window_seconds > 0,
        forall|k: Seq<char>| #[trigger] s.entries.contains_key(k) ==> s.entries[k].current <= s.limit
            && s.entries[k].previous <= s.limit,
    ensures
        forall|k: Seq<char>| #[trigger] s.consumed(key, now).entries.contains_key(k) ==> s.consumed(
            key,
            now,
        ).entries[k].current <= s.limit && s.consumed(key, now).entries[k].previous <= s.limit,
{
    lemma_elapsed_in_window(now, s.window_seconds);
    let e = s.window_entry(key, now);
    if s.admits(key, now) {
        lemma_admitted_count_fits(s.limit, e.previous, e.current, s.window_seconds, s.elapsed(now));
    }
}

impl SlidingState {
    /// How many of a run of requests for `key`, made one after another at the
    /// given times, are admitted.
    pub open spec fn admitted_in_run(self, key: Seq<char>, times: Seq<u64>) -> nat
        decreases times.len(),
    {
        if times.len() == 0 {
            0
        } else {
            let first = if self.admits(key, times[0]) {
                1nat
            } else {
                0nat
            };
            first + self.consumed(key, times[0]).admitted_in_run(key, times.drop_first())
        }
    }

    /// How many requests for `key` a burst at the single instant `now` gets
    /// through: each admitted one adds a whole window to the scaled estimate,
    /// so this is the number of steps of `window_seconds` that still start
    /// below the scaled limit.
    pub open spec fn burst_capacity(self, key: Seq<char>, now: u64) -> nat {
        let e = self.window_entry(key, now);
        let budget = self.limit * self.window_seconds;
        let estimate = scaled_estimate(e.previous, e.current, self.window_seconds, self.elapsed(now));
        if estimate < budget {
            ((budget - estimate - 1) / (self.window_seconds as int) + 1) as nat
        } else {
            0
        }
    }
}

/// Dividing a positive amount, less one, rounds down to at most the quotient
/// of the amount itself, and to at least one less.
proof fn lemma_burst_rounding(x: int, w: int)
    requires
        x > 0,
        w > 0,
    ensures
        x / w <= (x - 1) / w + 1,
        (x - 1) / w <= x / w,
        x > w ==> (x - w - 1) / w + 1 == (x - 1) / w,
        x <= w ==> (x - 1) / w == 0,
{
    vstd::arithmetic::div_mod::lemma_fundamental_div_mod(x - 1, w);
    vstd::arithmetic::div_mod::lemma_fundamental_div_mod(x, w);
    vstd::arithmetic::div_mod::lemma_mod_bound(x - 1, w);
    vstd::arithmetic::div_mod::lemma_mod_bound(x, w);
    let q1 = (x - 1) / w;
    let q = x / w;
    assert(q <= q1 + 1 && q1 <= q) by (nonlinear_arith)
        requires
            x - 1 == w * q1 + (x - 1) % w,
            x == w * q + x % w,
            0 <= (x - 1) % w < w,
            0 <= x % w < w,
            w > 0,
    ;
    if x > w {
        vstd::arithmetic::div_mod::lemma_div_minus_one(x - 1, w);
    }
    if x <= w {
        vstd::arithmetic::div_mod::lemma_basic_div(x - 1, w);
    }
}

/// A burst of requests for one key at a single instant gets through exactly
/// its capacity (or all of it, if shorter); that capacity is what `remaining`
/// reports, or one more when the weighted estimate is fractional.
pub proof fn law_sliding_burst_at_one_instant(s: SlidingState, key: Seq<char>, now: u64, times: Seq<u64>)
    requires
        s.window_seconds > 0,
        forall|i: int| 0 <= i < times.len() ==> #[trigger] times[i] == now,
    ensures
        s.admitted_in_run(key, times) == if times.len() <= s.burst_capacity(key, now) {
            times.len()
        } else {
            s.burst_capacity(key, now)
        },
        s.remaining(key, now) <= s.burst_capacity(key, now) <= s.remaining(key, now) + 1,
    decreases times.len(),
{
    lemma_elapsed_in_window(now, s.window_seconds);
    let w = s.window_seconds as int;
    let e = s.window_entry(key, now);
    let budget = s.limit * w;
    let est = scaled_estimate(e.previous, e.current, s.window_seconds, s.elapsed(now));
    assert(est >= 0) by (nonlinear_arith)
        requires
            est == e.previous * (s.window_seconds - s.elapsed(now)) + e.current * s.window_seconds,
            s.window_seconds - s.elapsed(now) > 0,
    ;
    // `remaining` and the capacity differ by the rounding of the estimate.
    lemma_slots_left_bounds(s.limit, e.previous, e.current, s.window_seconds, s.elapsed(now));
    if est < budget {
        lemma_burst_rounding(budget - est, w);
    }
    assert(s.remaining(key, now) == slots_left(s.limit, e.previous, e.current, s.window_seconds, s.elapsed(now))) by {
        if !s.entries.contains_key(key) {
            lemma_slots_left_bounds(s.limit, 0, 0, s.window_seconds, s.elapsed(now));
            assert(scaled_estimate(0, 0, s.window_seconds, s.elapsed(now)) == 0) by (nonlinear_arith)
                requires
                    s.window_seconds - s.elapsed(now) > 0,
            ;
        }
    }
    if times.len() > 0 {
        let next = s.consumed(key, times[0]);
        let rest = times.drop_first();
        assert forall|i: int| 0 <= i < rest.len() implies #[trigger] rest[i] == now by {
            assert(rest[i] == times[i + 1]);
        }
        law_sliding_burst_at_one_instant(next, key, now, rest);
        let e2 = next.window_entry(key, now);
        if s.admits(key, now) {
            lemma_admitted_count_fits(s.limit, e.previous, e.current, s.window_seconds, s.elapsed(now));
            assert(e2 == SlidingEntry { current: (e.current + 1) as u64, ..e });
            assert(scaled_estimate(e2.previous, e2.current, s.window_seconds, s.elapsed(now)) == est
                + w) by (nonlinear_arith)
                requires
                    e2.previous == e.previous,
                    e2.current == e.current + 1,
                    w == s.window_seconds,
                    est == e.previous * (s.window_seconds - s.elapsed(now)) + e.current
                        * s.window_seconds,
            ;
            assert(next.burst_capacity(key, now) + 1 == s.burst_capacity(key, now));
        } else {
            assert(e2 == e);
            assert(next.burst_capacity(key, now) == 0);
        }
    }
}

/// Sliding Window limiter state. Mirrors the surface of `FixedWindow` so the
/// `RateLimiter` can dispatch to either without special-casing.
pub struct SlidingWindow {
    pub limit: u64,
    pub window_seconds: u64,
    pub(crate) entries: DashMap<String, SlidingEntry>,
}

impl View for SlidingWindow {
    type V = SlidingState;

    closed spec fn view(&self) -> SlidingState {
        SlidingState {
            limit: self.limit,
            window_seconds: self.window_seconds,
            entries: sliding_entries_of(self.entries),
        }
    }
}

/// The entry still contributes at window `idx` (the predicate by which stale
/// keys are dropped).
pub(crate) fn entry_still_counts(entry: &SlidingEntry, idx: u64) -> (counts: bool)
    ensures
        counts == !entry.stale_at(idx),
{
    idx < entry.window_index.saturating_add(2)
}

/// The scaled estimate is under the scaled limit.
fn under_limit(limit: u64, previous: u64, current: u64, window_seconds: u64, elapsed: u64) -> (under:
    bool)
    requires
        elapsed < window_seconds,
    ensures
        under == (scaled_estimate(previous, current, window_seconds, elapsed) < limit
            * window_seconds),
{
    let (prev_part, cur_part, budget) = scaled_parts(limit, previous, current, window_seconds, elapsed);
    prev_part < budget && cur_part < budget - prev_part
}

/// The three products of the comparison, each below `2^128`.
fn scaled_parts(limit: u64, previous: u64, current: u64, window_seconds: u64, elapsed: u64) -> (parts: (
    u128,
    u128,
    u128,
))
    requires
        elapsed < window_seconds,
    ensures
        parts.0 == previous * (window_seconds - elapsed),
        parts.1 == current * window_seconds,
        parts.2 == limit * window_seconds,
{
    let tail = window_seconds - elapsed;
    proof {
        lemma_u64_product_fits(previous, tail);
        lemma_u64_product_fits(current, window_seconds);
        lemma_u64_product_fits(limit, window_seconds);
    }
    let prev_part = previous as u128 * tail as u128;
    let cur_part = current as u128 * window_seconds as u128;
    let budget = limit as u128 * window_seconds as u128;
    (prev_part, cur_part, budget)
}

proof fn lemma_u64_product_fits(a: u64, b: u64)
    ensures
        0 <= a * b <= u128::MAX,
{
    assert(0 <= a * b <= 0xffff_ffff_ffff_ffff * 0xffff_ffff_ffff_ffffint) by (nonlinear_arith)
        requires
            0 <= a <= 0xffff_ffff_ffff_ffff,
            0 <= b <= 0xffff_ffff_ffff_ffff,
    ;
}

/// Requests left under `limit` for the given counts.
fn slots_left_exec(
    limit: u64,
    previous: u64,
    current: u64,
    window_seconds: u64,
    elapsed: u64,
) -> (left: u64)
    requires
        elapsed < window_seconds,
    ensures
        left == slots_left(limit, previous, current, window_seconds, elapsed),
{
    let (prev_part, cur_part, budget) = scaled_parts(limit, previous, current, window_seconds, elapsed);
    if prev_part < budget && cur_part < budget - prev_part {
        let spare = budget - prev_part - cur_part;
        let w = window_seconds as u128;
        proof {
            assert(spare / w <= budget / w) by (nonlinear_arith)
                requires
                    0 <= spare <= budget,
                    w > 0,
            ;
            assert(budget / w == limit) by (nonlinear_arith)
                requires
                    budget == limit * w,
                    w > 0,
            ;
        }
        (spare / w) as u64
    } else {
        0
    }
}

impl SlidingWindow {
    /// The view carries the public fields.
    pub(crate) broadcast proof fn lemma_view_fields(w: &SlidingWindow)
        ensures
            (#[trigger] w@).limit == w.limit,
            w@.window_seconds == w.window_seconds,
    {
    }

    pub fn new(limit: u64, window_seconds: u64) -> (w: Self)
        ensures
            w@ == (SlidingState {
                limit,
                window_seconds,
                entries: Map::<Seq<char>, SlidingEntry>::empty(),
            }),
    {
        let w = SlidingWindow { limit, window_seconds, entries: sliding_map_new() };
        assert(sliding_entries_of(w.entries) =~= Map::empty());
        w
    }

    fn index(&self, now: u64) -> (idx: u64)
        requires
            self.window_seconds > 0,
        ensures
            idx == self@.index(now),
    {
        now / self.window_seconds
    }

    /// Evaluates `key` at `now`, admitting the request if the weighted estimate
    /// stays under `limit`. Shared by `allow` and `check`.
    pub fn consume(&mut self, key: &str, now: u64) -> (outcome: CheckOutcome)
        requires
            old(self)@.window_seconds > 0,
        ensures
            final(self)@ == old(self)@.consumed(key@, now),
            outcome == old(self)@.outcome(key@, now),
    {
        let idx = self.index(now);
        let mut entry = match sliding_map_get(&self.entries, key) {
            Some(e) => e,
            None => SlidingEntry::new(idx),
        };
        entry.advance_to(idx);
        proof {
            lemma_elapsed_in_window(now, self.window_seconds);
        }
        let elapsed = now - idx * self.window_seconds;

        let allowed = under_limit(self.limit, entry.previous, entry.current, self.window_seconds, elapsed);
        if allowed {
            proof {
                lemma_admitted_count_fits(self.limit, entry.previous, entry.current, self.window_seconds, elapsed);
            }
            entry.current = entry.current + 1;
        }
        let remaining = slots_left_exec(
            self.limit,
            entry.previous,
            entry.current,
            self.window_seconds,
            elapsed,
        );
        let reset_after = self.window_seconds.saturating_sub(elapsed);
        sliding_map_insert(&mut self.entries, key.to_owned(), entry);
        CheckOutcome {
            allowed,
            limit: self.limit,
            remaining,
            reset_after_seconds: reset_after,
            retry_after_seconds: if allowed {
                0
            } else {
                reset_after
            },
        }
    }

    /// Requests remaining for `key` at `now` without consuming one. An unknown
    /// key has the full limit available.
    pub fn remaining(&self, key: &str, now: u64) -> (left: u64)
        requires
            self@.window_seconds > 0,
        ensures
            left == self@.remaining(key@, now),
    {
        let idx = self.index(now);
        match sliding_map_get(&self.entries, key) {
            Some(entry) => {
                // Compute the effective (rolled-forward) counts without mutating.
                let mut rolled = entry;
                rolled.advance_to(idx);
                proof {
                    lemma_elapsed_in_window(now, self.window_seconds);
                }
                let elapsed = now - idx * self.window_seconds;
                slots_left_exec(self.limit, rolled.previous, rolled.current, self.window_seconds, elapsed)
            },
            None => self.limit,
        }
    }

    /// Removes `key`'s state. Returns `true` if the key existed.
    pub fn reset(&mut self, key: &str) -> (existed: bool)
        ensures
            final(self)@ == (SlidingState { entries: old(self)@.entries.remove(key@), ..old(self)@ }),
            existed == old(self)@.entries.contains_key(key@),
    {
        sliding_map_remove(&mut self.entries, key).is_some()
    }

    /// Removes all keys.
    pub fn clear(&mut self)
        ensures
            final(self)@ == (SlidingState {
                entries: Map::<Seq<char>, SlidingEntry>::empty(),
                ..old(self)@
            }),
    {
        sliding_map_clear(&mut self.entries);
        assert(sliding_entries_of(self.entries) =~= Map::empty());
    }

    /// Removes every key whose windows can no longer contribute (the key has
    /// not been seen for at least two full windows). Returns the number removed.
    pub fn cleanup_expired(&mut self, now: u64) -> (removed: usize)
        requires
            old(self)@.window_seconds > 0,
        ensures
            final(self)@ == old(self)@.cleaned(now),
            removed == old(self)@.stale_keys(now).len(),
    {
        let idx = self.index(now);
        let before = sliding_map_len(&self.entries);
        let ghost old_entries = sliding_entries_of(self.entries);
        sliding_map_retain_fresh(&mut self.entries, idx);
        let after = sliding_map_len(&self.entries);
        proof {
            let kept = old_entries.dom().filter(|k: Seq<char>| !old_entries[k].stale_at(idx));
            let gone = old_entries.dom().filter(|k: Seq<char>| old_entries[k].stale_at(idx));
            assert(sliding_entries_of(self.entries).dom() =~= kept);
            assert(kept + gone =~= old_entries.dom());
            assert(kept.disjoint(gone));
            old_entries.dom().lemma_len_filter(|k: Seq<char>| !old_entries[k].stale_at(idx));
            old_entries.dom().lemma_len_filter(|k: Seq<char>| old_entries[k].stale_at(idx));
            vstd::set_lib::lemma_set_disjoint_lens(kept, gone);
            assert(gone =~= old(self)@.stale_keys(now));
        }
        before - after
    }

    /// Number of keys currently tracked.
    pub fn len(&self) -> (n: usize)
        ensures
            self@.entries.dom().finite(),
            n == self@.entries.dom().len(),
    {
        sliding_map_len(&self.entries)
    }
}

/// The aligned window's start is at or before `now`, less than a window back.
pub(crate) proof fn lemma_elapsed_in_window(now: u64, window_seconds: u64)
    requires
        window_seconds > 0,
    ensures
        (now / window_seconds) * window_seconds <= now,
        now - (now / window_seconds) * window_seconds < window_seconds,
{
    let q = now / window_seconds;
    vstd::arithmetic::div_mod::lemma_fundamental_div_mod(now as int, window_seconds as int);
    vstd::arithmetic::div_mod::lemma_mod_bound(now as int, window_seconds as int);
    vstd::arithmetic::mul::lemma_mul_is_commutative(q as int, window_seconds as int);
}

/// An admitted request's window count is below the limit, so one more fits.
pub(crate) proof fn lemma_admitted_count_fits(
    limit: u64,
    previous: u64,
    current: u64,
    window_seconds: u64,
    elapsed: u64,
)
    requires
        elapsed < window_seconds,
        scaled_estimate(previous, current, window_seconds, elapsed) < limit * window_seconds,
    ensures
        current < limit,
{
    assert(previous * (window_seconds - elapsed) >= 0) by (nonlinear_arith)
        requires
            window_seconds - elapsed > 0,
    ;
    assert(current < limit) by (nonlinear_arith)
        requires
            current * window_seconds < limit * window_seconds,
            window_seconds > 0,
    ;
}

} // verus!
