//! When the idle task is started, how often it checks, and what a check does.

use vstd::prelude::*;

use crate::expiry_laws::law_swept_is_filtered;
use crate::idle::{swept, Idle};
use crate::inner::PoolInner;
use crate::interval::{plan_interval, IdleEvent, IdleTask};
use crate::pool::Pool;
use crate::poolable::{Key, Poolable};
use crate::return_laws::law_task_is_started_if_wanted;
use crate::seen::{
    fit, has_idle, has_waiting, idle_in, idle_stays, is_connecting, kept_if_room, lemma_same_view,
    lemma_seen, same_at, same_but_at, same_pool, same_setup, same_task, steady, task_started,
    waiting_in, wants_task,
};
use crate::state::{clears, keeps, spawns};
use crate::time::{Duration, Instant};

verus! {

/// [`plan_interval`] plans a task exactly if none is running, there is a timer, and connections
/// expire, though not at once. The task sleeps for as long as connections may be idle, but not for
/// less than 90 milliseconds.
pub proof fn law_plan_interval(
    running: bool,
    timeout: Option<Duration>,
    has_timer: bool,
    plan: Option<Duration>,
)
    requires
        call_ensures(plan_interval, (running, timeout, has_timer), plan),
    ensures
        plan is Some <==> !running && has_timer && timeout is Some && timeout->0.nanos > 0,
        plan is Some && timeout->0.nanos >= 90_000_000 ==> plan->0.nanos == timeout->0.nanos,
        plan is Some && timeout->0.nanos < 90_000_000 ==> plan->0.nanos == 90_000_000,
{
}

/// [`PoolInner::spawn_idle_interval`] starts a task exactly if one is wanted, and files nothing
/// otherwise than before.
pub proof fn law_spawn_idle_interval<T: Poolable, K: Key>(
    before: PoolInner<T, K>,
    after: PoolInner<T, K>,
    task: Option<IdleTask>,
)
    requires
        exists|inner: &mut PoolInner<T, K>| *inner == before && *final(inner) == after && #[trigger]
            call_ensures(PoolInner::<T, K>::spawn_idle_interval, (inner,), task),
    ensures
        task_started(Pool { inner: Some(before) }, Pool { inner: Some(after) }, task),
        same_setup(Pool { inner: Some(before) }, Pool { inner: Some(after) }),
        forall|key: K| #[trigger]
            same_at(Pool { inner: Some(before) }, Pool { inner: Some(after) }, key),
{
    lemma_seen(Pool { inner: Some(before) });
    lemma_seen(Pool { inner: Some(after) });
    assert(spawns(before@, after@, task));
    law_task_is_started_if_wanted(
        Pool { inner: Some(before) },
        Pool { inner: Some(after) },
        task,
    );
}

/// [`PoolInner::keep_idle`] keeps a connection if there is one and there is room, and starts the
/// idle task whenever it keeps one and a task is wanted. Nothing else changes.
pub proof fn law_keep_idle<T: Poolable, K: Key>(
    before: PoolInner<T, K>,
    key: K,
    left: Option<T>,
    now: Instant,
    after: PoolInner<T, K>,
    task: Option<IdleTask>,
)
    requires
        exists|inner: &mut PoolInner<T, K>| *inner == before && *final(inner) == after && #[trigger]
            call_ensures(PoolInner::<T, K>::keep_idle, (inner, key, left, now), task),
    ensures
        same_but_at(Pool { inner: Some(before) }, Pool { inner: Some(after) }, key),
        waiting_in(Pool { inner: Some(after) }, key) == waiting_in(
            Pool { inner: Some(before) },
            key,
        ),
        is_connecting(Pool { inner: Some(after) }, key) == is_connecting(
            Pool { inner: Some(before) },
            key,
        ),
        left is Some ==> kept_if_room(
            Pool { inner: Some(before) },
            key,
            left->0,
            now,
            Pool { inner: Some(after) },
            task,
        ),
        left is None ==> idle_stays(
            Pool { inner: Some(before) },
            key,
            Pool { inner: Some(after) },
            task,
        ),
{
    let (first, last) = (
        Pool::<T, K> { inner: Some(before) },
        Pool::<T, K> { inner: Some(after) },
    );
    lemma_seen(first);
    lemma_seen(last);
    assert(keeps(before@, key, left, now, after@, task));
    assert forall|other: K| other != key implies #[trigger] same_at(first, last, other) by {}
}

/// [`IdleTask::next_check`] is one interval after `now`.
pub proof fn law_next_check(task: IdleTask, now: Instant, at: Instant)
    requires
        call_ensures(IdleTask::next_check, (&task, now), at),
    ensures
        at.nanos - now.nanos == task.duration.nanos,
{
}

/// A check at `now` leaves, under each key, the idle connections that are open and have not been
/// idle for too long, in their order. A key under which none is left is not filed any longer, and
/// nothing else changes.
pub open spec fn checked<T: Poolable, K: Key>(
    open: spec_fn(T) -> bool,
    shared: spec_fn(T) -> bool,
    before: Pool<T, K>,
    now: Instant,
    after: Pool<T, K>,
) -> bool {
    let fits = fit(
        open,
        shared,
        before.inner->0.timeout,
        before.inner->0.timeout_http2,
        now,
    );
    &&& same_setup(before, after)
    &&& same_task(before, after)
    &&& forall|key: K| #[trigger] idle_in(after, key) == idle_in(before, key).filter(fits)
    &&& forall|key: K| #[trigger] has_idle(after, key) == (idle_in(after, key).len() > 0)
    &&& forall|key: K| #[trigger] has_waiting(after, key) == has_waiting(before, key)
    &&& forall|key: K| #[trigger] waiting_in(after, key) == waiting_in(before, key)
    &&& forall|key: K| #[trigger] is_connecting(after, key) == is_connecting(before, key)
}

/// What the relation says of a check is what [`checked`] says.
proof fn lemma_clears<T: Poolable, K: Key>(
    open: spec_fn(T) -> bool,
    shared: spec_fn(T) -> bool,
    before: Pool<T, K>,
    now: Instant,
    after: Pool<T, K>,
)
    requires
        steady(open, shared),
        before.inner is Some,
        after.inner is Some,
        clears(before@->0, now, after@->0),
    ensures
        checked(open, shared, before, now, after),
{
    lemma_seen(before);
    lemma_seen(after);
    let state = before@->0;
    assert forall|key: K| #[trigger] idle_in(after, key) == idle_in(before, key).filter(
        fit(open, shared, before.inner->0.timeout, before.inner->0.timeout_http2, now),
    ) by {
        assert(swept(
            state.idle_at(key),
            state.timeout,
            state.timeout_http2,
            now,
            after@->0.idle_at(key),
        ));
        law_swept_is_filtered(
            open,
            shared,
            idle_in(before, key),
            state.timeout,
            state.timeout_http2,
            now,
            idle_in(after, key),
        );
    }
    assert(after@->0.waiters == state.waiters);
    assert(after@->0.connecting == state.connecting);
    assert forall|key: K| #[trigger] waiting_in(after, key) == waiting_in(before, key) by {
        assert(after@->0.waiting_at(key) == state.waiting_at(key));
    }
}

/// [`Pool::clear_expired`] does what [`checked`] says.
pub proof fn law_clear_expired<T: Poolable, K: Key>(
    open: spec_fn(T) -> bool,
    shared: spec_fn(T) -> bool,
    before: Pool<T, K>,
    now: Instant,
    after: Pool<T, K>,
)
    requires
        steady(open, shared),
        before.inner is Some,
        exists|pool: &mut Pool<T, K>| *pool == before && *final(pool) == after && #[trigger]
            call_ensures(Pool::<T, K>::clear_expired, (pool, now), ()),
    ensures
        checked(open, shared, before, now, after),
{
    lemma_seen(before);
    lemma_seen(after);
    lemma_clears(open, shared, before, now, after);
}

/// [`IdleTask::wake`] ends the task if the pool is gone, and leaves what it is given alone. If the
/// time to check has come, it checks the pool if that can be reached, and goes on in any case.
pub proof fn law_wake<T: Poolable, K: Key>(
    open: spec_fn(T) -> bool,
    shared: spec_fn(T) -> bool,
    task: IdleTask,
    event: IdleEvent,
    before: Pool<T, K>,
    now: Instant,
    after: Pool<T, K>,
    goes_on: bool,
)
    requires
        steady(open, shared),
        before.inner is Some,
        exists|pool: &mut Pool<T, K>| *pool == before && *final(pool) == after && #[trigger]
            call_ensures(IdleTask::wake::<T, K>, (&task, event, Some(pool), now), goes_on),
    ensures
        goes_on <==> event == IdleEvent::Elapsed,
        event == IdleEvent::Elapsed ==> checked(open, shared, before, now, after),
        event == IdleEvent::PoolDropped ==> same_pool(before, after),
{
    lemma_seen(before);
    lemma_seen(after);
    if event == IdleEvent::Elapsed {
        lemma_clears(open, shared, before, now, after);
    } else {
        lemma_same_view(before, after);
    }
}

/// [`IdleTask::wake`] goes on exactly if the time to check has come, also where the pool cannot be
/// reached.
pub proof fn law_wake_unreached<T: Poolable, K: Key>(
    task: IdleTask,
    event: IdleEvent,
    pool: Option<&mut Pool<T, K>>,
    now: Instant,
    goes_on: bool,
)
    requires
        call_ensures(IdleTask::wake::<T, K>, (&task, event, pool, now), goes_on),
    ensures
        goes_on <==> event == IdleEvent::Elapsed,
{
}

} // verus!
