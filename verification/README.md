# rust-py-rate-limit (verified core)

Fast local rate limiting: fixed-window and sliding-window counters kept per
key, with activity statistics. The library under `src/` is verified with Verus;
`app/` binds it to Python with PyO3 (the `_core` extension module), formats
errors and serialises the statistics.

Layout of `src/`:

- `entry.rs` — a key's fixed-window counter.
- `entry_map.rs` — the per-key `DashMap`s and the trusted contracts of the
  map methods the limiters call.
- `fixed_window.rs`, `sliding_window.rs` — the two algorithms, their abstract
  states, and the proved properties of each (`law_*`).
- `stats.rs` — the activity counters.
- `time_utils.rs` — seconds since the Unix epoch from the system clock.
- `rate_limiter.rs` — the limiter that validates its configuration and
  dispatches to one algorithm.
