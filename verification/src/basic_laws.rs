//! What the small parts of the library do, and what holds of every pool.

use std::task::Context;

use futures_channel::oneshot::{channel, Receiver, Sender};
use vstd::prelude::*;
use vstd::std_specs::hash::obeys_key_model;

use crate::channel::{
    poll_once, poll_replies, reports_canceled, same_channel, send_replies, Polled,
};
use crate::checkout::{Checkout, Poll};
use crate::config::Config;
use crate::error::Error;
use crate::inner::PoolInner;
use crate::interval::{IdleEvent, IdleTask};
use crate::pool::{is_pool, Connecting, Pool, Pooled};
use crate::poolable::{
    answers_open, answers_shareable, clone_key, lawful_key, reserves_as, Key, Poolable,
    Reservation, Ver,
};
use crate::seen::{
    has_idle, has_task, has_waiting, idle_in, is_connecting, lemma_seen, same_at, same_setup,
    waiting_in,
};
use crate::time::{Duration, Instant};
use crate::waiters::after_send;

verus! {

/// What a connection is said to answer is what it answers: [`answers_open`], [`answers_shareable`]
/// and [`reserves_as`] speak of its own methods and of nothing else.
pub proof fn law_answers_are_given<T: Poolable>(
    value: T,
    answer: bool,
    reservation: Reservation<T>,
)
    ensures
        answers_open(value, answer) <==> call_ensures(T::is_open, (&value,), answer),
        answers_shareable(value, answer) <==> call_ensures(T::can_share, (&value,), answer),
        reserves_as(value, reservation) <==> call_ensures(T::reserve, (value,), reservation),
{
}

/// What a channel is said to reply is what it replies: [`same_channel`], [`reports_canceled`] and
/// [`send_replies`] speak of the channel's own functions and of nothing else.
pub proof fn law_replies_are_given<T>(
    tx: Sender<T>,
    rx: Receiver<T>,
    value: T,
    canceled: bool,
    reply: Result<(), T>,
)
    ensures
        same_channel(tx, rx) <==> call_ensures(channel::<T>, (), (tx, rx)),
        reports_canceled(tx, canceled) <==> call_ensures(
            Sender::<T>::is_canceled,
            (&tx,),
            canceled,
        ),
        send_replies(tx, value, reply) <==> call_ensures(Sender::<T>::send, (tx, value), reply),
{
}

/// Polling a receiving end takes it away unless there is nothing yet, and says what the channel
/// said to the task that asked.
pub proof fn law_poll_once<T>(
    rx: Receiver<T>,
    context: Context<'_>,
    left: Option<Receiver<T>>,
    reply: Polled<T>,
)
    requires
        exists|cx: &mut Context<'_>| *cx == context && #[trigger]
            call_ensures(poll_once::<T>, (rx, cx), (left, reply)),
    ensures
        reply is Pending <==> left is Some,
        left is Some ==> left->0 == rx,
        poll_replies(rx, context, reply),
{
}

/// A key is lawful only if its clones are equal to it.
pub proof fn law_lawful_keys<K: Key>(original: K, copy: K)
    requires
        lawful_key::<K>(),
        call_ensures(K::clone, (&original,), copy),
    ensures
        copy == original,
        obeys_key_model::<K>(),
{
    assert(cloned(original, copy));
}

/// A key whose `Eq` and `Hash` agree, and whose clones are equal to it, is lawful: nothing more is
/// asked of it.
pub proof fn law_lawful_keys_are_all<K: Key>()
    requires
        obeys_key_model::<K>(),
        forall|original: K, copy: K| #[trigger]
            call_ensures(K::clone, (&original,), copy) ==> copy == original,
    ensures
        lawful_key::<K>(),
{
    assert forall|original: K, copy: K| #[trigger] cloned(original, copy) implies copy
        == original by {
        if !(copy == original) {
            assert(call_ensures(K::clone, (&original,), copy));
        }
    }
}

/// A pool in which what is filed is not empty, no more is idle under a key than may be, and nobody
/// waits where something is idle, is well formed: nothing more is asked of it. A pool that is
/// disabled is well formed in any case.
pub proof fn law_pool_in_order_is_all<T, K: Key>(pool: Pool<T, K>)
    requires
        lawful_key::<K>(),
        pool.inner is Some ==> {
            &&& pool.inner->0.max_idle_per_host > 0
            &&& forall|key: K| #[trigger]
                has_idle(pool, key) ==> 0 < idle_in(pool, key).len()
                    <= pool.inner->0.max_idle_per_host && !has_waiting(pool, key)
            &&& forall|key: K| #[trigger]
                has_waiting(pool, key) ==> waiting_in(pool, key).len() > 0
        },
    ensures
        pool.wf(),
{
    lemma_seen(pool);
    if pool.inner is Some {
        let state = pool@->0;
        assert forall|key: K| #[trigger] state.idle.contains_key(key) implies 0
            < state.idle[key].len() <= state.max_idle_per_host && !state.waiters.contains_key(
            key,
        ) by {
            assert(has_idle(pool, key));
            assert(idle_in(pool, key) == state.idle_at(key));
            assert(!has_waiting(pool, key));
        }
        assert forall|key: K| #[trigger] state.waiters.contains_key(key) implies
            state.waiters[key].len() > 0 by {
            assert(has_waiting(pool, key));
            assert(waiting_in(pool, key) == state.waiting_at(key));
        }
    }
}

/// In every pool that is well formed, what is filed is not empty, no more is idle under a key than
/// may be, and nobody waits where something is idle.
pub proof fn law_pool_is_in_order<T, K: Key>(pool: Pool<T, K>, key: K)
    requires
        pool.wf(),
        pool.inner is Some,
    ensures
        pool.inner->0.max_idle_per_host > 0,
        has_idle(pool, key) <==> idle_in(pool, key).len() > 0,
        idle_in(pool, key).len() <= pool.inner->0.max_idle_per_host,
        has_waiting(pool, key) <==> waiting_in(pool, key).len() > 0,
        !(has_idle(pool, key) && has_waiting(pool, key)),
{
    lemma_seen(pool);
}

/// [`Pool::new`] makes a pool exactly if there is something to be kept. It is set up as it is told
/// to be, holds nothing, and is well formed.
pub proof fn law_new_pool<T, K: Key>(config: Config, has_timer: bool, id: u64, pool: Pool<T, K>)
    requires
        call_ensures(Pool::<T, K>::new, (config, has_timer, id), pool),
    ensures
        pool.wf(),
        pool.inner is Some <==> config.max_idle_per_host > 0,
        pool.inner is Some ==> {
            &&& pool.inner->0.id == id
            &&& pool.inner->0.max_idle_per_host == config.max_idle_per_host
            &&& pool.inner->0.has_timer == has_timer
            &&& pool.inner->0.timeout == config.idle_timeout
            &&& pool.inner->0.timeout_http2 == config.idle_timeout_http2
            &&& !has_task(pool)
            &&& forall|key: K| !#[trigger] has_idle(pool, key)
            &&& forall|key: K| !#[trigger] has_waiting(pool, key)
            &&& forall|key: K| !#[trigger] is_connecting(pool, key)
        },
{
    lemma_seen(pool);
}

/// Every operation on a pool can be called on any pool that is well formed, whatever it holds.
pub proof fn law_pool_can_be_called<T: Poolable, K: Key>(
    key: K,
    ver: Ver,
    connecting: Connecting<K>,
    pooled: Pooled<T, K>,
    checkout: Checkout<T, K>,
    value: T,
    now: Instant,
)
    ensures
        forall|pool: &mut Pool<T, K>|
            pool.wf() ==> #[trigger] call_requires(Pool::<T, K>::connecting, (pool, &key, ver)),
        forall|pool: &mut Pool<T, K>|
            pool.wf() ==> #[trigger] call_requires(
                Pool::<T, K>::drop_connecting,
                (pool, connecting),
            ),
        forall|pool: &mut Pool<T, K>|
            pool.wf() ==> #[trigger] call_requires(Pool::<T, K>::drop_checkout, (pool, checkout)),
        forall|pool: &mut Pool<T, K>|
            pool.wf() ==> #[trigger] call_requires(
                Pool::<T, K>::drop_pooled,
                (pool, pooled, now),
            ),
        forall|pool: &mut Pool<T, K>|
            pool.wf() ==> #[trigger] call_requires(Pool::<T, K>::put_back, (pool, pooled, now)),
        forall|pool: &mut Pool<T, K>, right: &mut Connecting<K>|
            pool.wf() ==> #[trigger] call_requires(
                Pool::<T, K>::pooled,
                (pool, right, value, now),
            ),
        forall|pool: Pool<T, K>|
            pool.wf() ==> #[trigger] call_requires(Pool::<T, K>::idle_count, (&pool, &key)),
        forall|asked: &mut Checkout<T, K>, pool: &mut Pool<T, K>, cx: &mut Context<'_>|
            pool.wf() ==> #[trigger] call_requires(
                Checkout::<T, K>::poll,
                (asked, pool, now, cx),
            ),
        forall|asked: &mut Checkout<T, K>, pool: &mut Pool<T, K>, cx: &mut Context<'_>|
            pool.wf() ==> #[trigger] call_requires(
                Checkout::<T, K>::checkout,
                (asked, pool, now, cx),
            ),
        forall|asked: &mut Checkout<T, K>, id: Option<u64>, cx: &mut Context<'_>|
            lawful_key::<K>() ==> #[trigger] call_requires(
                Checkout::<T, K>::poll_waiter,
                (asked, id, cx),
            ),
        forall|pool: Pool<T, K>|
            pool.wf() ==> #[trigger] call_requires(Pool::<T, K>::reuse, (&pool, &key, value)),
        forall|pool: Pool<T, K>| #[trigger]
            call_requires(Pool::<T, K>::checkout, (&pool, key)),
        forall|pool: &mut Pool<T, K>|
            pool.wf() && connecting.pool is None ==> #[trigger] call_requires(
                Connecting::<K>::alpn_h2::<T>,
                (connecting, pool),
            ),
        forall|config: Config, has_timer: bool, id: u64|
            lawful_key::<K>() ==> #[trigger] call_requires(
                Pool::<T, K>::new,
                (config, has_timer, id),
            ),
        forall|pool: &mut Pool<T, K>|
            pool.wf() && pool.inner is Some && pool.inner->0.timeout is Some ==> #[trigger]
                call_requires(Pool::<T, K>::clear_expired, (pool, now)),
        forall|task: IdleTask, event: IdleEvent, pool: &mut Pool<T, K>|
            pool.wf() && pool.inner is Some && pool.inner->0.timeout is Some ==> #[trigger]
                call_requires(IdleTask::wake::<T, K>, (&task, event, Some(pool), now)),
        forall|task: IdleTask|
            now.nanos + task.duration.nanos <= u128::MAX ==> #[trigger] call_requires(
                IdleTask::next_check,
                (&task, now),
            ),
{
}

/// Every operation on a pool leaves a pool that is well formed.
pub proof fn law_pool_stays_in_order<T: Poolable, K: Key>(
    key: K,
    ver: Ver,
    connecting: Connecting<K>,
    pooled: Pooled<T, K>,
    checkout: Checkout<T, K>,
    value: T,
    now: Instant,
)
    ensures
        forall|pool: &mut Pool<T, K>, granted: Option<Connecting<K>>| #[trigger]
            call_ensures(Pool::<T, K>::connecting, (pool, &key, ver), granted) ==> final(pool).wf(),
        forall|pool: &mut Pool<T, K>| #[trigger]
            call_ensures(Pool::<T, K>::drop_connecting, (pool, connecting), ()) ==>
                final(pool).wf(),
        forall|pool: &mut Pool<T, K>| #[trigger]
            call_ensures(Pool::<T, K>::drop_checkout, (pool, checkout), ()) ==> final(pool).wf(),
        forall|pool: &mut Pool<T, K>, task: Option<IdleTask>| #[trigger]
            call_ensures(Pool::<T, K>::drop_pooled, (pool, pooled, now), task) ==>
                final(pool).wf(),
        forall|pool: &mut Pool<T, K>, task: Option<IdleTask>| #[trigger]
            call_ensures(Pool::<T, K>::put_back, (pool, pooled, now), task) ==> final(pool).wf(),
        forall|
            pool: &mut Pool<T, K>,
            right: &mut Connecting<K>,
            got: (Pooled<T, K>, Option<IdleTask>),
        | #[trigger]
            call_ensures(Pool::<T, K>::pooled, (pool, right, value, now), got) ==>
                final(pool).wf(),
        forall|
            asked: &mut Checkout<T, K>,
            pool: &mut Pool<T, K>,
            cx: &mut Context<'_>,
            answer: Poll<Result<Pooled<T, K>, Error>>,
        | #[trigger]
            call_ensures(Checkout::<T, K>::poll, (asked, pool, now, cx), answer) ==>
                final(pool).wf(),
        forall|pool: &mut Pool<T, K>| #[trigger]
            call_ensures(Pool::<T, K>::clear_expired, (pool, now), ()) ==> final(pool).wf(),
        forall|pool: &mut Pool<T, K>| #[trigger]
            call_ensures(Pool::<T, K>::no_timer, (pool,), ()) ==> final(pool).wf(),
        forall|
            asked: &mut Checkout<T, K>,
            pool: &mut Pool<T, K>,
            cx: &mut Context<'_>,
            got: Option<Pooled<T, K>>,
        | #[trigger]
            call_ensures(Checkout::<T, K>::checkout, (asked, pool, now, cx), got) ==> final(
                pool).wf(),
        forall|pool: &mut Pool<T, K>, granted: Option<Connecting<K>>| #[trigger]
            call_ensures(Connecting::<K>::alpn_h2::<T>, (connecting, pool), granted) ==> final(
                pool).wf(),
        forall|task: IdleTask, event: IdleEvent, pool: &mut Pool<T, K>, goes_on: bool| #[trigger]
            call_ensures(IdleTask::wake::<T, K>, (&task, event, Some(pool), now), goes_on)
                ==> final(pool).wf(),
{
}

/// [`Config::is_enabled`] says whether there is something to be kept.
pub proof fn law_config_is_enabled(config: Config, enabled: bool)
    requires
        call_ensures(Config::is_enabled, (&config,), enabled),
    ensures
        enabled <==> config.max_idle_per_host >= 1,
{
}

/// [`Pool::no_timer`] changes nothing but that no idle task is started from then on.
pub proof fn law_no_timer<T, K: Key>(before: Pool<T, K>, after: Pool<T, K>)
    requires
        before.inner is Some,
        exists|pool: &mut Pool<T, K>| *pool == before && *final(pool) == after && #[trigger]
            call_ensures(Pool::<T, K>::no_timer, (pool,), ()),
    ensures
        has_task(after),
        same_setup(before, after),
        forall|key: K| #[trigger] same_at(before, after, key),
{
    lemma_seen(before);
    lemma_seen(after);
}

/// [`Pool::is_enabled`], [`Pool::id`] and [`Pool::locked`] say whether there is a pool, which one
/// it is, and what it holds.
pub proof fn law_pool_getters<T, K: Key>(
    pool: Pool<T, K>,
    enabled: bool,
    id: Option<u64>,
    inner: &PoolInner<T, K>,
)
    requires
        call_ensures(Pool::<T, K>::is_enabled, (&pool,), enabled),
        call_ensures(Pool::<T, K>::id, (&pool,), id),
        call_ensures(Pool::<T, K>::locked, (&pool,), inner),
    ensures
        enabled <==> pool.inner is Some,
        id is Some <==> pool.inner is Some,
        id is Some ==> id->0 == pool.inner->0.id,
        pool.inner is Some ==> *inner == pool.inner->0,
{
    lemma_seen(pool);
}

/// [`is_pool`] says whether the handle has a pool and it is this one.
pub proof fn law_is_pool(pool: Option<u64>, id: u64, own: bool)
    requires
        call_ensures(is_pool, (pool, id), own),
    ensures
        own <==> pool is Some && pool->0 == id,
{
}

/// [`Pooled::is_reused`], [`Pooled::is_pool_enabled`], [`Pooled::as_ref`] and `deref` read a handle
/// off.
pub proof fn law_pooled_getters<T: Poolable, K: Key>(
    pooled: Pooled<T, K>,
    reused: bool,
    enabled: bool,
    value: &T,
    target: &T,
)
    requires
        call_ensures(Pooled::<T, K>::is_reused, (&pooled,), reused),
        call_ensures(Pooled::<T, K>::is_pool_enabled, (&pooled,), enabled),
        call_ensures(Pooled::<T, K>::as_ref, (&pooled,), value),
        call_ensures(<Pooled<T, K> as std::ops::Deref>::deref, (&pooled,), target),
    ensures
        reused == pooled.is_reused,
        enabled <==> pooled.pool is Some,
        *value == pooled.value,
        *target == pooled.value,
{
}

/// [`Pooled::as_mut`] lends the connection of a handle out, and changes nothing else of it.
pub proof fn law_pooled_as_mut<T: Poolable, K: Key>()
    ensures
        forall|pooled: &mut Pooled<T, K>, value: &mut T| #[trigger]
            call_ensures(Pooled::<T, K>::as_mut, (pooled,), value) ==> {
                &&& *value == pooled.value
                &&& final(pooled).value == *final(value)
                &&& final(pooled).key == pooled.key
                &&& final(pooled).is_reused == pooled.is_reused
                &&& final(pooled).pool == pooled.pool
            },
{
}

/// What a waiter leaves is what was kept if it took its half, and that half if it refused.
pub proof fn law_after_send<T>(kept: Option<T>, reply: Result<(), T>, left: Option<T>)
    requires
        call_ensures(after_send::<T>, (kept, reply), left),
    ensures
        reply is Ok ==> left == kept,
        reply is Err ==> left is Some && left->0 == reply->Err_0,
{
}

/// The clone of a key is the key.
pub proof fn law_clone_key<K: Key>(key: K, copy: K)
    requires
        call_ensures(clone_key::<K>, (&key,), copy),
    ensures
        copy == key,
{
}

/// Only a connection that was closed on its way counts as canceled, and each error has its own
/// words.
pub proof fn law_errors(
    error: Error,
    canceled: bool,
    words: &'static str,
    other: Error,
    other_words: &'static str,
)
    requires
        call_ensures(Error::is_canceled, (&error,), canceled),
        call_ensures(Error::message, (&error,), words),
        call_ensures(Error::message, (&other,), other_words),
    ensures
        canceled <==> error == Error::CheckedOutClosedValue,
        error == Error::PoolDisabled ==> words@ == "pool is disabled"@,
        error == Error::CheckedOutClosedValue ==> words@ == "checked out connection was closed"@,
        error == Error::CheckoutNoLongerWanted ==> words@ == "request was canceled"@,
        error != other ==> words@ != other_words@,
{
    reveal_strlit("pool is disabled");
    reveal_strlit("checked out connection was closed");
    reveal_strlit("request was canceled");
    assert("pool is disabled"@.len() == 16);
    assert("checked out connection was closed"@.len() == 33);
    assert("request was canceled"@.len() == 20);
}

/// Spans are counted in nanoseconds, of which a millisecond has a million.
pub proof fn law_spans(
    nanos: u128,
    millis: u64,
    span: Duration,
    other: Duration,
    zero: bool,
    longer: Duration,
)
    requires
        call_ensures(Duration::from_nanos, (nanos,), span),
        call_ensures(Duration::from_millis, (millis,), other),
        call_ensures(Duration::is_zero, (&span,), zero),
        call_ensures(Duration::max, (span, other), longer),
    ensures
        span.nanos == nanos,
        other.nanos == millis * 1_000_000,
        zero <==> nanos == 0,
        longer.nanos >= span.nanos,
        longer.nanos >= other.nanos,
        longer == span || longer == other,
{
}

/// What is added to a reading of the clock is what has passed between the two readings, and
/// nothing has passed since a reading that is not earlier.
pub proof fn law_readings(
    nanos: u128,
    at: Instant,
    span: Duration,
    later: Instant,
    passed: Duration,
    back: Duration,
)
    requires
        call_ensures(Instant::from_nanos, (nanos,), at),
        call_ensures(Instant::after, (&at, span), later),
        call_ensures(Instant::saturating_duration_since, (&later, at), passed),
        call_ensures(Instant::saturating_duration_since, (&at, later), back),
    ensures
        at.nanos == nanos,
        later.nanos == nanos + span.nanos,
        passed == span,
        back.nanos == 0,
{
}

} // verus!
