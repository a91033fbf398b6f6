//! When an idle connection has been idle for too long.

use vstd::prelude::*;

use crate::time::{Duration, Instant};

verus! {

/// More than `limit` has passed from `since` to `now`.
pub open spec fn outlived(since: Instant, now: Instant, limit: Duration) -> bool {
    now.nanos - since.nanos > limit.nanos
}

/// A connection that became idle at `idle_at` is expired at `now`: one that can be shared by the
/// dedicated limit if there is one, every other by the general limit, and by none if there is
/// none.
pub open spec fn is_expired(
    timeout: Option<Duration>,
    timeout_http2: Option<Duration>,
    shared: bool,
    idle_at: Instant,
    now: Instant,
) -> bool {
    match (shared, timeout_http2) {
        (true, Some(limit)) => outlived(idle_at, now, limit),
        _ => match timeout {
            Some(limit) => outlived(idle_at, now, limit),
            None => false,
        },
    }
}

/// The general limit on how long a connection may be idle.
pub struct Expiration(pub Option<Duration>);

impl Expiration {
    /// The limit `dur`, no limit if it is `None`.
    pub fn new(dur: Option<Duration>) -> (expiration: Expiration)
        ensures
            expiration.0 == dur,
    {
        Expiration(dur)
    }

    /// Whether a connection that became idle at `instant` is past the limit at `now`.
    pub fn expires(&self, instant: Instant, now: Instant) -> (expired: bool)
        ensures
            expired == is_expired(self.0, None, false, instant, now),
    {
        match self.0 {
            Some(timeout) => now.saturating_duration_since(instant).nanos > timeout.nanos,
            None => false,
        }
    }
}

} // verus!
