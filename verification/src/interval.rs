//! The task that drops expired connections at regular intervals.

use std::convert::Infallible;

use futures_channel::oneshot::Receiver;
use vstd::prelude::*;

use crate::pool::Pool;
use crate::poolable::{Key, Poolable};
use crate::state::clears;
use crate::time::{max_duration, Duration, Instant};

verus! {

/// While someone might want a shorter duration, and it will be respected at checkout time,
/// there's no need to wake up and proactively evict faster than this. In nanoseconds.
pub const MIN_CHECK_NANOS: u128 = 90_000_000;

/// How long the idle task sleeps between two checks, if a task is to be started: none is running
/// yet, idle connections expire at all but not at once, and there is a timer to sleep by.
pub open spec fn interval_wanted(
    running: bool,
    timeout: Option<Duration>,
    has_timer: bool,
) -> Option<Duration> {
    if !running && timeout is Some && timeout->0.nanos != 0 && has_timer {
        Some(max_duration(timeout->0, Duration { nanos: MIN_CHECK_NANOS }))
    } else {
        None
    }
}

/// How long the idle task sleeps between two checks, if a task is to be started.
pub fn plan_interval(running: bool, timeout: Option<Duration>, has_timer: bool) -> (plan: Option<
    Duration,
>)
    ensures
        plan == interval_wanted(running, timeout, has_timer),
{
    if running {
        return None;
    }
    match timeout {
        Some(dur) => {
            if dur.is_zero() || !has_timer {
                None
            } else {
                Some(dur.max(Duration { nanos: MIN_CHECK_NANOS }))
            }
        },
        None => None,
    }
}

/// The task that drops expired connections at regular intervals, for the owner of the pool to
/// run.
pub struct IdleTask {
    /// How long the task sleeps between two checks.
    pub duration: Duration,
    /// This allows the task to be notified as soon as the entire pool is fully dropped, and
    /// shutdown. This channel is never sent on, but is canceled when the pool is dropped.
    pub pool_drop_notifier: Receiver<Infallible>,
}

/// What the idle task was woken by.
#[derive(Clone, Copy, Debug, PartialEq, Eq, Structural)]
pub enum IdleEvent {
    /// The pool is gone.
    PoolDropped,
    /// The time to check has come.
    Elapsed,
}

impl IdleTask {
    /// When the task is to check next.
    pub fn next_check(&self, now: Instant) -> (at: Instant)
        requires
            now.nanos + self.duration.nanos <= u128::MAX,
        ensures
            at.nanos == now.nanos + self.duration.nanos,
    {
        now.after(self.duration)
    }

    /// Does what the task was woken for, to the pool if it can still be reached, and tells
    /// whether the task goes on.
    pub fn wake<T: Poolable, K: Key>(
        &self,
        event: IdleEvent,
        pool: Option<&mut Pool<T, K>>,
        now: Instant,
    ) -> (goes_on: bool)
        requires
            pool matches Some(reached) ==> {
                &&& reached.wf()
                &&& event is Elapsed ==> reached@ is Some && reached@->0.timeout is Some
            },
        ensures
            goes_on == (event is Elapsed),
            pool matches Some(reached) ==> {
                &&& final(reached).wf()
                &&& event is PoolDropped ==> *final(reached) == *reached
                &&& event is Elapsed ==> final(reached)@ is Some && clears(
                    reached@->0,
                    now,
                    final(reached)@->0,
                )
            },
    {
        match event {
            IdleEvent::PoolDropped => false,
            IdleEvent::Elapsed => {
                match pool {
                    Some(reached) => {
                        reached.clear_expired(now);
                    },
                    None => {},
                }
                true
            },
        }
    }
}

} // verus!
