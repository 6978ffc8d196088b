//! The staleness decision of the metadata cache: the cache file's
//! modification time is its sole freshness marker.

use vstd::prelude::*;

verus! {

/// Whether the cached snapshot must be refetched. `mtime` is the cache
/// file's modification time in Unix seconds, `None` when it could not be
/// read; `now` is the current wall-clock time; `ttl_secs` is the configured
/// time to live.
///
/// An unreadable modification time is treated as stale, never as an error;
/// so is one that lies in the future (the clock went backwards).
pub open spec fn spec_cache_is_stale(mtime: Option<i64>, now: int, ttl_secs: u64) -> bool {
    match mtime {
        None => true,
        Some(t) => now < t || now - t > ttl_secs,
    }
}

/// Decides [`spec_cache_is_stale`]: `true` forces a fresh network fetch,
/// `false` lets the cached snapshot be reused.
pub fn cache_is_stale(mtime: Option<i64>, now: i64, ttl_secs: u64) -> (r: bool)
    ensures
        r == spec_cache_is_stale(mtime, now as int, ttl_secs),
{
    match mtime {
        None => true,
        Some(t) => {
            if now < t {
                true
            } else {
                let elapsed = (now as i128) - (t as i128);
                elapsed > ttl_secs as i128
            }
        },
    }
}

} // verus!
