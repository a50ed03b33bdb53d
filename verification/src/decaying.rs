//! A single-slot cache with a time-decayed lifetime.
//!
//! `get` yields the cached value only while it is fresh; a stale cache signals
//! the caller to refresh through `update`. Time enters as a monotonic
//! millisecond reading supplied by the caller, so freshness is a pure
//! function of the cache and the reading.

use vstd::prelude::*;

verus! {

/// The default lifetime of a cached value, in milliseconds.
pub const DEFAULT_TIMEOUT_MILLIS: u64 = 60000;

/// A cached value with the monotonic time of its last update and a lifetime.
#[derive(Clone, Debug)]
pub struct Decaying<T> {
    pub data: T,
    pub last_update: u64,
    pub timeout: u64,
}

impl<T> Decaying<T> {
    /// The value is fresh at reading `now` while no more than `timeout`
    /// milliseconds passed since the last update. A reading older than the
    /// last update counts as no elapsed time, as a monotonic clock reading
    /// taken before the update would.
    pub open spec fn is_fresh(self, now: u64) -> bool {
        now <= self.last_update + self.timeout
    }

    pub fn new(data: T, timeout: u64, now: u64) -> (r: Decaying<T>)
        ensures
            r.data == data,
            r.timeout == timeout,
            r.last_update == now,
    {
        Decaying { data, last_update: now, timeout }
    }

    /// Does not clear if elapsed; instead the caller is expected to call
    /// [`Self::update`].
    pub fn get(&self, now: u64) -> (r: Option<&T>)
        ensures
            self.is_fresh(now) ==> (r matches Some(v) && *v == self.data),
            !self.is_fresh(now) ==> r is None,
    {
        let elapsed = if now >= self.last_update {
            now - self.last_update
        } else {
            0
        };
        if elapsed > self.timeout {
            None
        } else {
            Some(&self.data)
        }
    }

    /// Replaces the value and stamps the reading as the last update.
    pub fn update(&mut self, data: T, now: u64)
        ensures
            final(self).data == data,
            final(self).last_update == now,
            final(self).timeout == old(self).timeout,
    {
        self.last_update = now;
        self.data = data;
    }
}

/// After an update at reading `t_update`, every reading within the lifetime
/// still sees the installed value: a second caller that re-checks the cache
/// under the writer side of a lock finds it fresh and fires no second
/// refresh within one lifetime window.
pub proof fn lemma_refresh_single_flight<T>(cache: Decaying<T>, t_update: u64, t_check: u64)
    requires
        cache.last_update == t_update,
        t_check <= t_update + cache.timeout,
    ensures
        cache.is_fresh(t_check),
{
}

} // verus!
