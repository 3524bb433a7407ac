//! Local, in-process rate limiting: fixed-window and sliding-window counters
//! kept per key in a sharded concurrent map, with activity statistics.

pub mod entry;
pub mod entry_map;
pub mod fixed_window;
pub mod sliding_window;
pub mod errors;
pub mod stats;
pub mod time_utils;
pub mod rate_limiter;
pub mod fixed_runs;
pub mod sliding_runs;
