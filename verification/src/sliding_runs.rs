//! Properties of the Sliding Window algorithm over runs of requests for one
//! key and over the passing of time.

use vstd::prelude::*;

use crate::fixed_runs::nondecreasing;
use crate::sliding_window::{
    lemma_admitted_count_fits, lemma_elapsed_in_window, lemma_slots_left_bounds, scaled_estimate,
    slots_left, SlidingEntry, SlidingState,
};

verus! {

/// How many of the times fall in aligned window `k` of `window_seconds`.
pub open spec fn calls_in_window(times: Seq<u64>, window_seconds: u64, k: u64) -> nat
    decreases times.len(),
{
    if times.len() == 0 {
        0
    } else {
        (if times[0] / window_seconds == k {
            1nat
        } else {
            0nat
        }) + calls_in_window(times.drop_first(), window_seconds, k)
    }
}

impl SlidingState {
    /// How many of a run of requests for `key` are admitted in aligned
    /// window `k`.
    pub open spec fn admitted_in_window(self, key: Seq<char>, times: Seq<u64>, k: u64) -> nat
        decreases times.len(),
    {
        if times.len() == 0 {
            0
        } else {
            let t = times[0];
            let first = if self.admits(key, t) && self.index(t) == k {
                1nat
            } else {
                0nat
            };
            first + self.consumed(key, t).admitted_in_window(key, times.drop_first(), k)
        }
    }

    /// The state after a run of requests for `key`.
    pub open spec fn after_run(self, key: Seq<char>, times: Seq<u64>) -> SlidingState
        decreases times.len(),
    {
        if times.len() == 0 {
            self
        } else {
            self.consumed(key, times[0]).after_run(key, times.drop_first())
        }
    }
}

/// Later times fall in the same or a later aligned window.
proof fn lemma_index_ordered(s: SlidingState, a: u64, b: u64)
    requires
        s.window_seconds > 0,
        a <= b,
    ensures
        s.index(a) <= s.index(b),
{
    vstd::arithmetic::div_mod::lemma_div_is_ordered(a as int, b as int, s.window_seconds as int);
}

/// Counts that are equal scale equally; a count below another scales below.
proof fn lemma_scaled_below(c: u64, limit: u64, w: u64)
    requires
        w > 0,
    ensures
        (c * w < limit * w) == (c < limit),
{
    assert((c * w < limit * w) == (c < limit)) by (nonlinear_arith)
        requires
            w > 0,
    ;
}

/// Requests in later windows are neither calls in nor admissions to window `k`.
proof fn lemma_window_after(s: SlidingState, key: Seq<char>, times: Seq<u64>, k: u64)
    requires
        s.window_seconds > 0,
        nondecreasing(times),
        times.len() > 0 ==> s.index(times[0]) > k,
    ensures
        s.admitted_in_window(key, times, k) == 0,
        calls_in_window(times, s.window_seconds, k) == 0,
    decreases times.len(),
{
    if times.len() > 0 {
        let rest = times.drop_first();
        assert(nondecreasing(rest));
        if rest.len() > 0 {
            assert(rest[0] == times[1]);
            lemma_index_ordered(s, times[0], times[1]);
        }
        lemma_window_after(s.consumed(key, times[0]), key, rest, k);
    }
}

/// Once the key's entry counts window `k`, at most what the limit leaves of
/// its count is admitted in that window.
proof fn lemma_window_bound_running(s: SlidingState, key: Seq<char>, times: Seq<u64>, k: u64)
    requires
        s.window_seconds > 0,
        s.entries.contains_key(key),
        s.entries[key].window_index == k,
        s.entries[key].current <= s.limit,
        nondecreasing(times),
        forall|i: int| 0 <= i < times.len() ==> s.index(#[trigger] times[i]) >= k,
    ensures
        s.admitted_in_window(key, times, k) <= s.limit - s.entries[key].current,
    decreases times.len(),
{
    if times.len() > 0 {
        let t = times[0];
        let rest = times.drop_first();
        assert(nondecreasing(rest));
        if s.index(t) > k {
            lemma_window_after(s, key, times, k);
        } else {
            lemma_elapsed_in_window(t, s.window_seconds);
            let e = s.entries[key];
            if s.admits(key, t) {
                lemma_admitted_count_fits(s.limit, e.previous, e.current, s.window_seconds, s.elapsed(t));
            }
            let next = s.consumed(key, t);
            assert forall|i: int| 0 <= i < rest.len() implies next.index(#[trigger] rest[i]) >= k by {
                assert(rest[i] == times[i + 1]);
            }
            lemma_window_bound_running(next, key, rest, k);
        }
    }
}

/// A sliding window admits at most `limit` requests in any aligned window:
/// a request is admitted only while the estimate, which is at least the
/// window's own count, is under the limit. Stated for a key whose count is
/// within the limit, over requests whose times never go backwards.
pub proof fn law_sliding_at_most_limit_per_window(
    s: SlidingState,
    key: Seq<char>,
    times: Seq<u64>,
    k: u64,
)
    requires
        s.window_seconds > 0,
        s.entries.contains_key(key) ==> s.entries[key].current <= s.limit,
        nondecreasing(times),
    ensures
        s.admitted_in_window(key, times, k) <= s.limit,
    decreases times.len(),
{
    if times.len() > 0 {
        let t = times[0];
        let rest = times.drop_first();
        let e = s.window_entry(key, t);
        let next = s.consumed(key, t);
        assert(nondecreasing(rest));
        lemma_elapsed_in_window(t, s.window_seconds);
        if s.admits(key, t) {
            lemma_admitted_count_fits(s.limit, e.previous, e.current, s.window_seconds, s.elapsed(t));
        }
        if s.index(t) < k {
            law_sliding_at_most_limit_per_window(next, key, rest, k);
        } else if s.index(t) > k {
            lemma_window_after(s, key, times, k);
        } else {
            assert forall|i: int| 0 <= i < rest.len() implies next.index(#[trigger] rest[i]) >= k by {
                assert(rest[i] == times[i + 1]);
                lemma_index_ordered(s, times[0], times[i + 1]);
            }
            lemma_window_bound_running(next, key, rest, k);
        }
    }
}

/// In window `k` with nothing carried over from the previous window, the
/// requests of that window are admitted exactly while the window's count is
/// under the limit.
proof fn lemma_window_exact_running(s: SlidingState, key: Seq<char>, times: Seq<u64>, k: u64)
    requires
        s.window_seconds > 0,
        s.entries.contains_key(key),
        s.entries[key].window_index == k,
        s.entries[key].previous == 0,
        s.entries[key].current <= s.limit,
        nondecreasing(times),
        forall|i: int| 0 <= i < times.len() ==> s.index(#[trigger] times[i]) >= k,
    ensures
        s.admitted_in_window(key, times, k) == if calls_in_window(times, s.window_seconds, k) <= s.limit
            - s.entries[key].current {
            calls_in_window(times, s.window_seconds, k) as int
        } else {
            s.limit - s.entries[key].current
        },
    decreases times.len(),
{
    if times.len() > 0 {
        let t = times[0];
        let rest = times.drop_first();
        assert(nondecreasing(rest));
        if s.index(t) > k {
            lemma_window_after(s, key, times, k);
        } else {
            let c = s.entries[key].current;
            lemma_elapsed_in_window(t, s.window_seconds);
            assert(scaled_estimate(0, c, s.window_seconds, s.elapsed(t)) == c * s.window_seconds);
            lemma_scaled_below(c, s.limit, s.window_seconds);
            let next = s.consumed(key, t);
            assert forall|i: int| 0 <= i < rest.len() implies next.index(#[trigger] rest[i]) >= k by {
                assert(rest[i] == times[i + 1]);
            }
            lemma_window_exact_running(next, key, rest, k);
        }
    }
}

/// With the key unknown, or untouched for two windows, a run of requests in
/// window `k` is admitted exactly while fewer than `limit` came before.
proof fn lemma_window_exact_from_idle(s: SlidingState, key: Seq<char>, times: Seq<u64>, k: u64)
    requires
        s.window_seconds > 0,
        !s.entries.contains_key(key) || s.entries[key].window_index + 2 <= k,
        nondecreasing(times),
        forall|i: int| 0 <= i < times.len() ==> s.index(#[trigger] times[i]) != k - 1,
    ensures
        s.admitted_in_window(key, times, k) == if calls_in_window(times, s.window_seconds, k) <= s.limit {
            calls_in_window(times, s.window_seconds, k) as int
        } else {
            s.limit as int
        },
    decreases times.len(),
{
    if times.len() > 0 {
        let t = times[0];
        let rest = times.drop_first();
        let next = s.consumed(key, t);
        assert(nondecreasing(rest));
        assert forall|i: int| 0 <= i < rest.len() implies next.index(#[trigger] rest[i]) != k - 1 by {
            assert(rest[i] == times[i + 1]);
        }
        if s.index(t) < k {
            lemma_window_exact_from_idle(next, key, rest, k);
        } else if s.index(t) > k {
            lemma_window_after(s, key, times, k);
        } else {
            lemma_elapsed_in_window(t, s.window_seconds);
            assert(s.window_entry(key, t) == SlidingEntry::fresh(k));
            assert(scaled_estimate(0, 0, s.window_seconds, s.elapsed(t)) == 0) by (nonlinear_arith)
                requires
                    s.window_seconds - s.elapsed(t) > 0,
            ;
            lemma_scaled_below(0, s.limit, s.window_seconds);
            assert forall|i: int| 0 <= i < rest.len() implies next.index(#[trigger] rest[i]) >= k by {
                assert(rest[i] == times[i + 1]);
                lemma_index_ordered(s, times[0], times[i + 1]);
            }
            lemma_window_exact_running(next, key, rest, k);
        }
    }
}

/// After a window with no request for the key (and for a key not seen
/// before), exactly the first `min(n, limit)` of the `n` requests in the next
/// aligned window are admitted: nothing carried over weighs on them.
pub proof fn law_sliding_idle_window_admits_exactly_limit(
    s: SlidingState,
    key: Seq<char>,
    times: Seq<u64>,
    k: u64,
)
    requires
        s.window_seconds > 0,
        !s.entries.contains_key(key),
        nondecreasing(times),
        forall|i: int| 0 <= i < times.len() ==> s.index(#[trigger] times[i]) != k - 1,
    ensures
        s.admitted_in_window(key, times, k) == if calls_in_window(times, s.window_seconds, k) <= s.limit {
            calls_in_window(times, s.window_seconds, k) as int
        } else {
            s.limit as int
        },
{
    lemma_window_exact_from_idle(s, key, times, k);
}

/// The README's boundary: after a key's first window was filled (at least
/// `limit` requests in window `k`, nothing before), the next window starts
/// with far fewer slots than a fresh limit — `floor(limit * elapsed /
/// window_seconds)`, which is under `limit` — and two windows on the full
/// limit is back.
pub proof fn law_sliding_slots_after_full_window(
    s: SlidingState,
    key: Seq<char>,
    times: Seq<u64>,
    now: u64,
)
    requires
        s.window_seconds > 0,
        !s.entries.contains_key(key),
        times.len() >= s.limit,
        times.len() > 0,
        forall|i: int| 0 <= i < times.len() ==> s.index(#[trigger] times[i]) == s.index(times[0]),
    ensures
        s.index(now) == s.index(times[0]) + 1 ==> s.after_run(key, times).remaining(key, now) == (
        s.limit * s.elapsed(now)) / (s.window_seconds as int),
        s.index(now) == s.index(times[0]) + 1 && s.limit >= 1 ==> s.after_run(key, times).remaining(
            key,
            now,
        ) < s.limit,
        s.index(now) >= s.index(times[0]) + 2 ==> s.after_run(key, times).remaining(key, now)
            == s.limit,
{
    let k = s.index(times[0]);
    let t1 = times[0];
    let rest = times.drop_first();
    let next = s.consumed(key, t1);
    lemma_elapsed_in_window(t1, s.window_seconds);
    assert(scaled_estimate(0, 0, s.window_seconds, s.elapsed(t1)) == 0) by (nonlinear_arith)
        requires
            s.window_seconds - s.elapsed(t1) > 0,
    ;
    lemma_scaled_below(0, s.limit, s.window_seconds);
    assert forall|i: int| 0 <= i < rest.len() implies next.index(#[trigger] rest[i]) == k by {
        assert(rest[i] == times[i + 1]);
    }
    lemma_window_fill(next, key, rest, k);
    let fin = s.after_run(key, times);
    assert(fin == next.after_run(key, rest));
    assert(fin.window_seconds == s.window_seconds && fin.limit == s.limit) by {
        lemma_after_run_config(s, key, times);
    }
    let e = fin.entries[key];
    assert(e == SlidingEntry { window_index: k, previous: 0, current: s.limit });
    lemma_elapsed_in_window(now, s.window_seconds);
    let w = s.window_seconds as int;
    let el = s.elapsed(now) as int;
    let lim = s.limit as int;
    assert(fin.index(now) == s.index(now) && fin.elapsed(now) == s.elapsed(now));
    if s.index(now) == k + 1 {
        let r = e.advanced(s.index(now));
        assert(fin.remaining(key, now) == slots_left(s.limit, s.limit, 0, s.window_seconds, s.elapsed(now)));
        assert(r.previous == s.limit && r.current == 0);
        lemma_slots_left_bounds(s.limit, s.limit, 0, s.window_seconds, s.elapsed(now));
        assert(scaled_estimate(s.limit, 0, s.window_seconds, s.elapsed(now)) == lim * (w - el));
        assert(lim * w - lim * (w - el) == lim * el) by (nonlinear_arith);
        assert(lim * (w - el) < lim * w <==> el > 0 && lim > 0) by (nonlinear_arith)
            requires
                0 <= el < w,
                lim >= 0,
        ;
        if el == 0 || lim == 0 {
            assert(lim * el == 0) by (nonlinear_arith)
                requires
                    el == 0 || lim == 0,
            ;
        }
        if lim >= 1 {
            assert(lim * el / w < lim) by (nonlinear_arith)
                requires
                    0 <= el < w,
                    lim >= 1,
            ;
        }
    }
    if s.index(now) >= k + 2 {
        lemma_slots_left_bounds(s.limit, 0, 0, s.window_seconds, s.elapsed(now));
    }
}

/// Requests all in window `k`, with nothing carried over from the previous
/// window, fill the window's count up to the limit.
proof fn lemma_window_fill(s: SlidingState, key: Seq<char>, times: Seq<u64>, k: u64)
    requires
        s.window_seconds > 0,
        s.entries.contains_key(key),
        s.entries[key] == (SlidingEntry { window_index: k, previous: 0, current: s.entries[key].current }),
        s.entries[key].current <= s.limit,
        forall|i: int| 0 <= i < times.len() ==> s.index(#[trigger] times[i]) == k,
    ensures
        s.after_run(key, times).entries.contains_key(key),
        s.after_run(key, times).entries[key] == (SlidingEntry {
            window_index: k,
            previous: 0,
            current: if s.entries[key].current + times.len() <= s.limit {
                (s.entries[key].current + times.len()) as u64
            } else {
                s.limit
            },
        }),
    decreases times.len(),
{
    if times.len() > 0 {
        let t = times[0];
        let rest = times.drop_first();
        let c = s.entries[key].current;
        lemma_elapsed_in_window(t, s.window_seconds);
        assert(scaled_estimate(0, c, s.window_seconds, s.elapsed(t)) == c * s.window_seconds) by (
        nonlinear_arith)
            requires
                s.window_seconds - s.elapsed(t) > 0,
        ;
        lemma_scaled_below(c, s.limit, s.window_seconds);
        let next = s.consumed(key, t);
        assert forall|i: int| 0 <= i < rest.len() implies next.index(#[trigger] rest[i]) == k by {
            assert(rest[i] == times[i + 1]);
        }
        lemma_window_fill(next, key, rest, k);
    }
}

/// A run of requests changes no key's configuration.
proof fn lemma_after_run_config(s: SlidingState, key: Seq<char>, times: Seq<u64>)
    ensures
        s.after_run(key, times).window_seconds == s.window_seconds,
        s.after_run(key, times).limit == s.limit,
    decreases times.len(),
{
    if times.len() > 0 {
        lemma_after_run_config(s.consumed(key, times[0]), key, times.drop_first());
    }
}

/// Slots left fall as the estimate grows.
proof fn lemma_slots_antitone(
    limit: u64,
    w: u64,
    p1: u64,
    c1: u64,
    e1: u64,
    p2: u64,
    c2: u64,
    e2: u64,
)
    requires
        e1 < w,
        e2 < w,
        scaled_estimate(p2, c2, w, e2) <= scaled_estimate(p1, c1, w, e1),
    ensures
        slots_left(limit, p1, c1, w, e1) <= slots_left(limit, p2, c2, w, e2),
{
    lemma_slots_left_bounds(limit, p1, c1, w, e1);
    lemma_slots_left_bounds(limit, p2, c2, w, e2);
    let budget = limit * w;
    let a = scaled_estimate(p1, c1, w, e1);
    let b = scaled_estimate(p2, c2, w, e2);
    if a < budget {
        vstd::arithmetic::div_mod::lemma_div_is_ordered(budget - a, budget - b, w as int);
    }
}

/// With no request in between, the requests left for a key never shrink as
/// time passes: the previous window's weight only falls and old windows only
/// drop out. Stated for an entry last touched no later than the first time.
pub proof fn law_sliding_remaining_never_shrinks(
    s: SlidingState,
    key: Seq<char>,
    earlier: u64,
    later: u64,
)
    requires
        s.window_seconds > 0,
        earlier <= later,
        s.entries.contains_key(key) ==> s.entries[key].window_index <= s.index(earlier),
    ensures
        s.remaining(key, earlier) <= s.remaining(key, later),
{
    if s.entries.contains_key(key) {
        let w = s.window_seconds;
        lemma_elapsed_in_window(earlier, w);
        lemma_elapsed_in_window(later, w);
        lemma_index_ordered(s, earlier, later);
        let i1 = s.index(earlier);
        let i2 = s.index(later);
        let el1 = s.elapsed(earlier);
        let el2 = s.elapsed(later);
        let e = s.entries[key];
        let r1 = e.advanced(i1);
        let r2 = e.advanced(i2);
        if i1 == i2 {
            assert(el1 <= el2);
            assert(r1 == r2);
            assert(r1.previous * (w - el2) <= r1.previous * (w - el1)) by (nonlinear_arith)
                requires
                    el1 <= el2 < w,
            ;
            assert(scaled_estimate(r2.previous, r2.current, w, el2) <= scaled_estimate(
                r1.previous,
                r1.current,
                w,
                el1,
            ));
        } else {
            assert(i1 < i2);
            assert(scaled_estimate(r1.previous, r1.current, w, el1) >= 0) by (nonlinear_arith)
                requires
                    el1 < w,
            ;
            if i2 == e.window_index + 1 {
                assert(i1 == e.window_index);
                assert(r2.previous == r1.current && r2.current == 0);
                assert(r2.previous * (w - el2) <= r1.current * w) by (nonlinear_arith)
                    requires
                        el2 < w,
                        r2.previous == r1.current,
                ;
                assert(r1.previous * (w - el1) >= 0) by (nonlinear_arith)
                    requires
                        el1 < w,
                ;
                assert(scaled_estimate(r2.previous, r2.current, w, el2) <= scaled_estimate(
                    r1.previous,
                    r1.current,
                    w,
                    el1,
                ));
            } else {
                assert(r2 == SlidingEntry::fresh(i2));
                assert(scaled_estimate(0, 0, w, el2) == 0) by (nonlinear_arith)
                    requires
                        el2 < w,
                ;
            }
        }
        lemma_slots_antitone(s.limit, w, r1.previous, r1.current, el1, r2.previous, r2.current, el2);
    } else {
        lemma_slots_left_bounds(s.limit, 0, 0, s.window_seconds, 0);
    }
}

} // verus!
