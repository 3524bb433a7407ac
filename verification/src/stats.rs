//! Counters describing rate limiter activity.
//!
//! Each counter wraps around at `u64::MAX`, as an atomic `fetch_add` does.

use vstd::prelude::*;

verus! {

#[derive(Debug, Clone, Copy)]
pub struct RateLimitStats {
    pub allowed: u64,
    pub blocked: u64,
    pub total_checks: u64,
}

/// A point-in-time, plain-data view of the stats (used for serialization and
/// for handing values back to callers).
#[derive(Debug, Clone, Copy)]
pub struct StatsSnapshot {
    pub allowed: u64,
    pub blocked: u64,
    pub total_checks: u64,
    pub active_keys: u64,
}

impl RateLimitStats {
    /// No activity recorded yet.
    pub open spec fn zero() -> RateLimitStats {
        RateLimitStats { allowed: 0, blocked: 0, total_checks: 0 }
    }

    /// The counters after one more check whose outcome was `allowed`.
    pub open spec fn recorded(self, allowed: bool) -> RateLimitStats {
        if allowed {
            RateLimitStats {
                allowed: self.allowed.wrapping_add(1),
                total_checks: self.total_checks.wrapping_add(1),
                ..self
            }
        } else {
            RateLimitStats {
                blocked: self.blocked.wrapping_add(1),
                total_checks: self.total_checks.wrapping_add(1),
                ..self
            }
        }
    }

    /// Every check was counted as either allowed or blocked (modulo `2^64`).
    pub open spec fn balanced(self) -> bool {
        self.total_checks as int == (self.allowed + self.blocked) % 0x1_0000_0000_0000_0000
    }

    /// Records one admitted request.
    pub fn record_allowed(&mut self)
        ensures
            *final(self) == old(self).recorded(true),
    {
        self.allowed = self.allowed.wrapping_add(1);
        self.total_checks = self.total_checks.wrapping_add(1);
    }

    /// Records one rejected request.
    pub fn record_blocked(&mut self)
        ensures
            *final(self) == old(self).recorded(false),
    {
        self.blocked = self.blocked.wrapping_add(1);
        self.total_checks = self.total_checks.wrapping_add(1);
    }

    /// Builds a snapshot. `active_keys` is supplied by the caller because it is
    /// derived from the live map length rather than a counter (which would
    /// drift on cleanup).
    pub fn snapshot(&self, active_keys: u64) -> (snap: StatsSnapshot)
        ensures
            snap == (StatsSnapshot {
                allowed: self.allowed,
                blocked: self.blocked,
                total_checks: self.total_checks,
                active_keys,
            }),
    {
        StatsSnapshot {
            allowed: self.allowed,
            blocked: self.blocked,
            total_checks: self.total_checks,
            active_keys,
        }
    }
}

/// The counters start balanced, and recording a check, admitted or not,
/// keeps `total_checks` equal to `allowed + blocked` (modulo `2^64`); while
/// no counter has wrapped, the equality is exact.
pub proof fn law_stats_stay_balanced(stats: RateLimitStats, allowed: bool)
    ensures
        RateLimitStats::zero().balanced(),
        stats.balanced() ==> stats.recorded(allowed).balanced(),
        stats.balanced() && stats.allowed + stats.blocked <= u64::MAX ==> stats.total_checks
            == stats.allowed + stats.blocked,
{
    if stats.balanced() && stats.allowed + stats.blocked <= u64::MAX {
        vstd::arithmetic::div_mod::lemma_small_mod(
            (stats.allowed + stats.blocked) as nat,
            0x1_0000_0000_0000_0000nat,
        );
    }
    let m = 0x1_0000_0000_0000_0000int;
    if stats.balanced() {
        let a = stats.allowed as int;
        let b = stats.blocked as int;
        let t = stats.total_checks as int;
        // t + 1 == (a + b) % m + 1, whose remainder is that of a + b + 1
        vstd::arithmetic::div_mod::lemma_add_mod_noop(a + b, 1, m);
        vstd::arithmetic::div_mod::lemma_small_mod(1, m as nat);
        vstd::arithmetic::div_mod::lemma_small_mod(a as nat, m as nat);
        vstd::arithmetic::div_mod::lemma_small_mod(b as nat, m as nat);
        vstd::arithmetic::div_mod::lemma_add_mod_noop(a + 1, b, m);
        vstd::arithmetic::div_mod::lemma_add_mod_noop(a, b + 1, m);
        assert(a + 1 + b == a + (b + 1));
    }
}

impl Default for RateLimitStats {
    fn default() -> (stats: Self)
        ensures
            stats == RateLimitStats::zero(),
    {
        RateLimitStats { allowed: 0, blocked: 0, total_checks: 0 }
    }
}

} // verus!
