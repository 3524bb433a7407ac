//! Properties of the Fixed Window algorithm over runs of requests for one key.

use vstd::prelude::*;

use crate::entry::RateLimitEntry;
use crate::fixed_window::{CheckOutcome, FixedState};

verus! {

/// The times never go backwards.
pub open spec fn nondecreasing(times: Seq<u64>) -> bool {
    forall|i: int, j: int| 0 <= i <= j < times.len() ==> times[i] <= times[j]
}

/// What a request reports when it is the request numbered `before` (from 0)
/// of the window of `window_seconds` that began at `start`, made at `now`.
pub open spec fn window_call_outcome(
    limit: u64,
    window_seconds: u64,
    start: u64,
    before: int,
    now: u64,
) -> CheckOutcome {
    let allowed = before < limit;
    let reset_after = (start + window_seconds - now) as u64;
    CheckOutcome {
        allowed,
        limit,
        remaining: if allowed {
            (limit - before - 1) as u64
        } else {
            0
        },
        reset_after_seconds: reset_after,
        retry_after_seconds: if allowed {
            0
        } else {
            reset_after
        },
    }
}

impl FixedState {
    /// The key's count, if tracked, is within the limit.
    pub open spec fn count_within_limit(self, key: Seq<char>) -> bool {
        self.entries.contains_key(key) ==> self.entries[key].count <= self.limit
    }

    /// How many of a run of requests for `key` are admitted at a time within
    /// `[from, from + window_seconds]`.
    pub open spec fn admitted_in_span(self, key: Seq<char>, times: Seq<u64>, from: u64) -> nat
        decreases times.len(),
    {
        if times.len() == 0 {
            0
        } else {
            let t = times[0];
            let first = if self.admits(key, t) && from <= t && t <= from + self.window_seconds {
                1nat
            } else {
                0nat
            };
            first + self.consumed(key, t).admitted_in_span(key, times.drop_first(), from)
        }
    }

    /// The state after a run of requests for `key`.
    pub open spec fn after_run(self, key: Seq<char>, times: Seq<u64>) -> FixedState
        decreases times.len(),
    {
        if times.len() == 0 {
            self
        } else {
            self.consumed(key, times[0]).after_run(key, times.drop_first())
        }
    }

    /// What request number `i` (from 0) of a run of requests for `key`
    /// reports.
    pub open spec fn outcome_in_run(self, key: Seq<char>, times: Seq<u64>, i: int) -> CheckOutcome
        decreases times.len(),
    {
        if i <= 0 || times.len() <= 1 {
            self.outcome(key, times[0])
        } else {
            self.consumed(key, times[0]).outcome_in_run(key, times.drop_first(), i - 1)
        }
    }
}

/// Requests later than the span count for nothing in it.
proof fn lemma_span_after(s: FixedState, key: Seq<char>, times: Seq<u64>, from: u64)
    requires
        nondecreasing(times),
        times.len() > 0 ==> times[0] > from + s.window_seconds,
    ensures
        s.admitted_in_span(key, times, from) == 0,
    decreases times.len(),
{
    if times.len() > 0 {
        let rest = times.drop_first();
        assert(nondecreasing(rest));
        if rest.len() > 0 {
            assert(rest[0] == times[1]);
        }
        lemma_span_after(s.consumed(key, times[0]), key, rest, from);
    }
}

/// Requests in the span that fall in one running window are admitted at most
/// up to what the window has left.
proof fn lemma_span_one_window(s: FixedState, key: Seq<char>, times: Seq<u64>, from: u64, start: u64)
    requires
        from + s.window_seconds < u64::MAX,
        s.entries.contains_key(key),
        s.entries[key].window_start == start,
        s.entries[key].count <= s.limit,
        nondecreasing(times),
        forall|i: int|
            0 <= i < times.len() && #[trigger] times[i] <= from + s.window_seconds ==> times[i]
                < start + s.window_seconds,
    ensures
        s.admitted_in_span(key, times, from) <= s.limit - s.entries[key].count,
    decreases times.len(),
{
    if times.len() > 0 {
        let t = times[0];
        let rest = times.drop_first();
        assert(nondecreasing(rest));
        if t > from + s.window_seconds {
            lemma_span_after(s, key, times, from);
        } else {
            assert(!s.entries[key].expired_at(t, s.window_seconds));
            let next = s.consumed(key, t);
            assert forall|i: int|
                0 <= i < rest.len() && #[trigger] rest[i] <= from + next.window_seconds implies rest[i]
                < start + next.window_seconds by {
                assert(rest[i] == times[i + 1]);
            }
            lemma_span_one_window(next, key, rest, from, start);
        }
    }
}

/// Requests in the span, all at or after its start, while the key's current
/// window reaches into the span: at most the rest of that window plus one
/// more whole window.
proof fn lemma_span_two_windows(s: FixedState, key: Seq<char>, times: Seq<u64>, from: u64)
    requires
        s.window_seconds >= 1,
        from + s.window_seconds < u64::MAX,
        s.entries.contains_key(key),
        s.entries[key].count <= s.limit,
        s.entries[key].window_start + s.window_seconds > from,
        nondecreasing(times),
        forall|i: int| 0 <= i < times.len() ==> from <= #[trigger] times[i],
    ensures
        s.admitted_in_span(key, times, from) <= 2 * s.limit - s.entries[key].count,
    decreases times.len(),
{
    if times.len() > 0 {
        let t = times[0];
        let rest = times.drop_first();
        let e = s.entries[key];
        assert(nondecreasing(rest));
        assert forall|i: int| 0 <= i < rest.len() implies from <= #[trigger] rest[i] by {
            assert(rest[i] == times[i + 1]);
        }
        if t > from + s.window_seconds {
            lemma_span_after(s, key, times, from);
        } else if !e.expired_at(t, s.window_seconds) {
            lemma_span_two_windows(s.consumed(key, t), key, rest, from);
        } else {
            // The window rolls over at `t`, after the span began: the new
            // window outlasts the span.
            let next = s.consumed(key, t);
            assert(next.entries[key].window_start == t);
            assert forall|i: int|
                0 <= i < rest.len() && #[trigger] rest[i] <= from + next.window_seconds implies rest[i]
                < t + next.window_seconds by {
                assert(rest[i] == times[i + 1]);
            }
            lemma_span_one_window(next, key, rest, from, t);
        }
    }
}

/// A fixed window admits at most twice its limit in any span of one window's
/// length: a span meets at most two windows, each admitting at most `limit`
/// (the burst at a boundary that the sliding window smooths). Stated for a
/// key whose count is within the limit, over requests whose times never go
/// backwards, away from the clock's last second.
pub proof fn law_fixed_at_most_twice_limit_per_window_span(
    s: FixedState,
    key: Seq<char>,
    times: Seq<u64>,
    from: u64,
)
    requires
        s.window_seconds >= 1,
        from + s.window_seconds < u64::MAX,
        s.count_within_limit(key),
        nondecreasing(times),
    ensures
        s.admitted_in_span(key, times, from) <= 2 * s.limit,
    decreases times.len(),
{
    if times.len() > 0 {
        let t = times[0];
        let rest = times.drop_first();
        let next = s.consumed(key, t);
        assert(nondecreasing(rest));
        assert(next.entries[key].count <= next.limit);
        if t < from {
            law_fixed_at_most_twice_limit_per_window_span(next, key, rest, from);
        } else if t > from + s.window_seconds {
            lemma_span_after(s, key, times, from);
        } else {
            assert forall|i: int| 0 <= i < rest.len() implies from <= #[trigger] rest[i] by {
                assert(rest[i] == times[i + 1]);
                assert(times[0] <= times[i + 1]);
            }
            if s.entries.contains_key(key) && !s.entries[key].expired_at(t, s.window_seconds) {
                lemma_span_two_windows(s, key, times, from);
            } else {
                assert(next.entries[key].window_start == t);
                lemma_span_two_windows(next, key, rest, from);
            }
        }
    }
}

/// Requests within the window that began at `start` report, one by one, what
/// `window_call_outcome` gives for their place in the window.
proof fn lemma_calls_in_running_window(s: FixedState, key: Seq<char>, times: Seq<u64>, start: u64)
    requires
        start + s.window_seconds <= u64::MAX,
        s.entries.contains_key(key),
        s.entries[key].window_start == start,
        s.entries[key].count <= s.limit,
        forall|i: int| 0 <= i < times.len() ==> start <= #[trigger] times[i] < start + s.window_seconds,
    ensures
        forall|i: int|
            0 <= i < times.len() ==> #[trigger] s.outcome_in_run(key, times, i) == window_call_outcome(
                s.limit,
                s.window_seconds,
                start,
                s.entries[key].count + i,
                times[i],
            ),
        s.after_run(key, times).limit == s.limit,
        s.after_run(key, times).window_seconds == s.window_seconds,
        s.after_run(key, times).entries[key] == (RateLimitEntry {
            count: if s.entries[key].count + times.len() <= s.limit {
                (s.entries[key].count + times.len()) as u64
            } else {
                s.limit
            },
            window_start: start,
        }),
    decreases times.len(),
{
    let c = s.entries[key].count;
    if times.len() > 0 {
        let t = times[0];
        let rest = times.drop_first();
        let next = s.consumed(key, t);
        assert(!s.entries[key].expired_at(t, s.window_seconds));
        assert(s.outcome(key, t) == window_call_outcome(s.limit, s.window_seconds, start, c as int, t));
        assert forall|i: int| 0 <= i < rest.len() implies start <= #[trigger] rest[i] < start
            + next.window_seconds by {
            assert(rest[i] == times[i + 1]);
        }
        lemma_calls_in_running_window(next, key, rest, start);
        assert forall|i: int| 0 <= i < times.len() implies #[trigger] s.outcome_in_run(key, times, i)
            == window_call_outcome(s.limit, s.window_seconds, start, c + i, times[i]) by {
            if i > 0 {
                assert(rest[i - 1] == times[i]);
                assert(next.outcome_in_run(key, rest, i - 1) == window_call_outcome(
                    s.limit,
                    s.window_seconds,
                    start,
                    next.entries[key].count + (i - 1),
                    rest[i - 1],
                ));
            }
        }
    }
}

/// The README's fixed window, call by call: for a key seen for the first time
/// (or whose window has expired), requests within one window starting at the
/// first of them are admitted while fewer than `limit` came before — call `i`
/// (from 0) then has `limit - i - 1` left — and blocked after that with
/// nothing left; each reports the time to the window's end, and a blocked one
/// that time as its retry. Once the window has run, a request starts a fresh
/// window. (Away from the clock's last second, where the window end would
/// saturate.)
pub proof fn law_fixed_calls_in_one_window(s: FixedState, key: Seq<char>, times: Seq<u64>)
    requires
        times.len() > 0,
        times[0] + s.window_seconds <= u64::MAX,
        !s.entries.contains_key(key) || s.entries[key].expired_at(times[0], s.window_seconds),
        forall|i: int| 0 <= i < times.len() ==> times[0] <= #[trigger] times[i] < times[0]
            + s.window_seconds,
    ensures
        forall|i: int|
            0 <= i < times.len() ==> #[trigger] s.outcome_in_run(key, times, i) == window_call_outcome(
                s.limit,
                s.window_seconds,
                times[0],
                i,
                times[i],
            ),
        s.after_run(key, times).entries[key] == (RateLimitEntry {
            count: if times.len() <= s.limit {
                times.len() as u64
            } else {
                s.limit
            },
            window_start: times[0],
        }),
        forall|later: u64|
            later >= times[0] + s.window_seconds ==> #[trigger] s.after_run(key, times).outcome(
                key,
                later,
            ) == window_call_outcome(s.limit, s.window_seconds, later, 0, later),
{
    let t1 = times[0];
    let rest = times.drop_first();
    let next = s.consumed(key, t1);
    assert(s.outcome(key, t1) == window_call_outcome(s.limit, s.window_seconds, t1, 0, t1));
    assert forall|i: int| 0 <= i < rest.len() implies t1 <= #[trigger] rest[i] < t1
        + next.window_seconds by {
        assert(rest[i] == times[i + 1]);
    }
    lemma_calls_in_running_window(next, key, rest, t1);
    let c1 = next.entries[key].count;
    assert forall|i: int| 0 <= i < times.len() implies #[trigger] s.outcome_in_run(key, times, i)
        == window_call_outcome(s.limit, s.window_seconds, t1, i, times[i]) by {
        if i > 0 {
            assert(rest[i - 1] == times[i]);
            assert(next.outcome_in_run(key, rest, i - 1) == window_call_outcome(
                s.limit,
                s.window_seconds,
                t1,
                c1 + (i - 1),
                rest[i - 1],
            ));
        }
    }
    let fin = s.after_run(key, times);
    assert(fin == next.after_run(key, rest));
    assert forall|later: u64| later >= t1 + s.window_seconds implies #[trigger] fin.outcome(key, later)
        == window_call_outcome(s.limit, s.window_seconds, later, 0, later) by {
        assert(fin.entries[key].expired_at(later, fin.window_seconds));
    }
}

/// With no request in between, the requests left for a key never shrink as
/// time passes: a running window keeps its count, an expired one frees all.
pub proof fn law_fixed_remaining_never_shrinks(s: FixedState, key: Seq<char>, earlier: u64, later: u64)
    requires
        earlier <= later,
    ensures
        s.remaining(key, earlier) <= s.remaining(key, later),
{
}

} // verus!
