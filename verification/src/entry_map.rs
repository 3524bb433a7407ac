//! The per-key maps of the limiters: `dashmap::DashMap` keyed by `String`.
//!
//! Every item here is trusted: the type declaration, the names for what a map
//! holds, and one wrapper per `DashMap` method that the limiters call. Each
//! wrapper takes the map by `&mut` where the method changes what it holds
//! (`DashMap` itself mutates through `&self`), so that the change can be
//! stated over the map before and after the call.

use dashmap::DashMap;
use vstd::prelude::*;

use crate::entry::RateLimitEntry;
use crate::sliding_window::SlidingEntry;

verus! {

/// `dashmap::DashMap`, declared opaque: what a map holds is known only through
/// the names below and the wrappers' contracts.
#[verifier::external_type_specification]
#[verifier::external_body]
#[verifier::reject_recursive_types(K)]
#[verifier::reject_recursive_types(V)]
#[verifier::reject_recursive_types(S)]
pub struct ExDashMap<K, V, S>(DashMap<K, V, S>);

/// `keys` is a finite set of `n` keys.
pub open spec fn counts_keys(keys: Set<Seq<char>>, n: usize) -> bool {
    keys.finite() && keys.len() == n
}

/// What a fixed-window map holds: each key, by its characters, to its entry.
pub uninterp spec fn fixed_entries_of(m: DashMap<String, RateLimitEntry>) -> Map<
    Seq<char>,
    RateLimitEntry,
>;

/// `DashMap::new`: a new map holds nothing.
#[verifier::external_body]
pub(crate) fn fixed_map_new() -> (m: DashMap<String, RateLimitEntry>)
    ensures
        fixed_entries_of(m).dom().is_empty(),
{
    DashMap::new()
}

/// `DashMap::get`, with the entry copied out of the read guard: the entry
/// that the map holds for `key`, if any.
#[verifier::external_body]
pub(crate) fn fixed_map_get(m: &DashMap<String, RateLimitEntry>, key: &str) -> (found: Option<
    RateLimitEntry,
>)
    ensures
        found == fixed_entries_of(*m).get(key@),
{
    match m.get(key) {
        Some(guard) => Some(*guard.value()),
        None => None,
    }
}

/// `DashMap::insert`: afterwards `key` maps to `entry` and every other key is
/// unchanged; returns what `key` held before.
#[verifier::external_body]
pub(crate) fn fixed_map_insert(
    m: &mut DashMap<String, RateLimitEntry>,
    key: String,
    entry: RateLimitEntry,
) -> (previous: Option<RateLimitEntry>)
    ensures
        fixed_entries_of(*final(m)) == fixed_entries_of(*old(m)).insert(key@, entry),
        previous == fixed_entries_of(*old(m)).get(key@),
{
    m.insert(key, entry)
}

/// `DashMap::remove`, with the value taken out of the returned pair:
/// afterwards `key` is gone and every other key is unchanged; returns what
/// `key` held before.
#[verifier::external_body]
pub(crate) fn fixed_map_remove(m: &mut DashMap<String, RateLimitEntry>, key: &str) -> (removed:
    Option<RateLimitEntry>)
    ensures
        fixed_entries_of(*final(m)) == fixed_entries_of(*old(m)).remove(key@),
        removed == fixed_entries_of(*old(m)).get(key@),
{
    match m.remove(key) {
        Some(pair) => Some(pair.1),
        None => None,
    }
}

/// `DashMap::clear`: afterwards the map holds nothing.
#[verifier::external_body]
pub(crate) fn fixed_map_clear(m: &mut DashMap<String, RateLimitEntry>)
    ensures
        fixed_entries_of(*final(m)).dom().is_empty(),
{
    m.clear()
}

/// `DashMap::retain` with a predicate that keeps an entry exactly when its
/// window has not expired at `now`: afterwards the map holds exactly the
/// entries it held before whose windows are still running, unchanged.
#[verifier::external_body]
pub(crate) fn fixed_map_retain_running(
    m: &mut DashMap<String, RateLimitEntry>,
    now: u64,
    window_seconds: u64,
)
    ensures
        fixed_entries_of(*final(m)) == fixed_entries_of(*old(m)).restrict(
            fixed_entries_of(*old(m)).dom().filter(
                |k: Seq<char>| !fixed_entries_of(*old(m))[k].expired_at(now, window_seconds),
            ),
        ),
{
    m.retain(|_key, entry| crate::fixed_window::window_still_running(entry, now, window_seconds))
}

/// `DashMap::len`: the number of keys the map holds, which are finitely many.
#[verifier::external_body]
pub(crate) fn fixed_map_len(m: &DashMap<String, RateLimitEntry>) -> (len: usize)
    ensures
        counts_keys(fixed_entries_of(*m).dom(), len),
{
    m.len()
}

/// What a sliding-window map holds: each key, by its characters, to its entry.
pub uninterp spec fn sliding_entries_of(m: DashMap<String, SlidingEntry>) -> Map<
    Seq<char>,
    SlidingEntry,
>;

/// `DashMap::new`: a new map holds nothing.
#[verifier::external_body]
pub(crate) fn sliding_map_new() -> (m: DashMap<String, SlidingEntry>)
    ensures
        sliding_entries_of(m).dom().is_empty(),
{
    DashMap::new()
}

/// `DashMap::get`, with the entry copied out of the read guard: the entry
/// that the map holds for `key`, if any.
#[verifier::external_body]
pub(crate) fn sliding_map_get(m: &DashMap<String, SlidingEntry>, key: &str) -> (found: Option<
    SlidingEntry,
>)
    ensures
        found == sliding_entries_of(*m).get(key@),
{
    match m.get(key) {
        Some(guard) => Some(*guard.value()),
        None => None,
    }
}

/// `DashMap::insert`: afterwards `key` maps to `entry` and every other key is
/// unchanged; returns what `key` held before.
#[verifier::external_body]
pub(crate) fn sliding_map_insert(
    m: &mut DashMap<String, SlidingEntry>,
    key: String,
    entry: SlidingEntry,
) -> (previous: Option<SlidingEntry>)
    ensures
        sliding_entries_of(*final(m)) == sliding_entries_of(*old(m)).insert(key@, entry),
        previous == sliding_entries_of(*old(m)).get(key@),
{
    m.insert(key, entry)
}

/// `DashMap::remove`, with the value taken out of the returned pair:
/// afterwards `key` is gone and every other key is unchanged; returns what
/// `key` held before.
#[verifier::external_body]
pub(crate) fn sliding_map_remove(m: &mut DashMap<String, SlidingEntry>, key: &str) -> (removed:
    Option<SlidingEntry>)
    ensures
        sliding_entries_of(*final(m)) == sliding_entries_of(*old(m)).remove(key@),
        removed == sliding_entries_of(*old(m)).get(key@),
{
    match m.remove(key) {
        Some(pair) => Some(pair.1),
        None => None,
    }
}

/// `DashMap::clear`: afterwards the map holds nothing.
#[verifier::external_body]
pub(crate) fn sliding_map_clear(m: &mut DashMap<String, SlidingEntry>)
    ensures
        sliding_entries_of(*final(m)).dom().is_empty(),
{
    m.clear()
}

/// `DashMap::retain` with a predicate that keeps an entry exactly when it is
/// not stale at window index `index`: afterwards the map holds exactly the
/// entries it held before that are not stale, unchanged.
#[verifier::external_body]
pub(crate) fn sliding_map_retain_fresh(m: &mut DashMap<String, SlidingEntry>, index: u64)
    ensures
        sliding_entries_of(*final(m)) == sliding_entries_of(*old(m)).restrict(
            sliding_entries_of(*old(m)).dom().filter(
                |k: Seq<char>| !sliding_entries_of(*old(m))[k].stale_at(index),
            ),
        ),
{
    m.retain(|_key, entry| crate::sliding_window::entry_still_counts(entry, index))
}

/// `DashMap::len`: the number of keys the map holds, which are finitely many.
#[verifier::external_body]
pub(crate) fn sliding_map_len(m: &DashMap<String, SlidingEntry>) -> (len: usize)
    ensures
        counts_keys(sliding_entries_of(*m).dom(), len),
{
    m.len()
}

} // verus!
