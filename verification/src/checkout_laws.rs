//! What a checkout is answered, and what it leaves behind.

use std::collections::VecDeque;
use std::task::Context;

use futures_channel::oneshot::{Receiver, Sender};
use vstd::prelude::*;

use crate::channel::{poll_replies, reports_canceled, same_channel, Gone, Polled};
use crate::checkout::{answer_waiter, checks_out, polls, waiter_answers, Checkout, Poll};
use crate::error::Error;
use crate::expiry_laws::{law_counted_is_open, law_newest_fit_is_taken};
use crate::idle::{pops, Idle};
use crate::inner::PoolInner;
use crate::lists::kept;
use crate::pool::{checkout_dropped, reuse_value, reuses, Pool, Pooled};
use crate::poolable::{answers_open, answers_shareable, Key, Poolable};
use crate::seen::{
    fit, handed_out, has_idle, has_waiting, idle_in, is_connecting, is_last_fit,
    lemma_kept_is_filter, lemma_same_view, lemma_seen, none_fits, same_at, same_but_at, same_pool,
    same_task, steady, steady_waiters, waiting_in,
};
use crate::state::{cleans, parks, takes, PoolState};
use crate::time::Instant;
use crate::waiters::{asked_live, cleaned, drop_canceled};

verus! {

/// `pooled` is `value`, in use again under `key`. It goes back to `pool` unless it is shared.
pub open spec fn in_use_again<T: Poolable, K: Key>(
    pooled: Pooled<T, K>,
    pool: Option<u64>,
    key: K,
    value: T,
    shared: bool,
) -> bool {
    &&& pooled.value == value
    &&& pooled.key == key
    &&& pooled.is_reused
    &&& shared ==> pooled.pool is None
    &&& !shared ==> pooled.pool == pool
}

/// [`Pool::reuse`] and [`reuse_value`] hand a connection out under its key, as reused, and for the
/// pool to have back unless it is shared.
pub proof fn law_reuse<T: Poolable, K: Key>(
    open: spec_fn(T) -> bool,
    shared: spec_fn(T) -> bool,
    pool: Pool<T, K>,
    id: Option<u64>,
    key: K,
    value: T,
    pooled: Pooled<T, K>,
)
    requires
        steady(open, shared),
        call_ensures(reuse_value::<T, K>, (id, &key, value), pooled) || (call_ensures(
            Pool::<T, K>::reuse,
            (&pool, &key, value),
            pooled,
        ) && id == (if pool.inner is Some {
            Some(pool.inner->0.id)
        } else {
            None
        })),
    ensures
        in_use_again(pooled, id, key, value, shared(value)),
{
    lemma_seen(pool);
    assert(reuses(id, key, value, pooled));
}

/// What a checkout that waits is answered, by what its channel has to say: the connection that was
/// sent if it is open, an error if it is not or if none will come, and nothing yet otherwise.
pub open spec fn answers_reply<T: Poolable, K: Key>(
    open: spec_fn(T) -> bool,
    shared: spec_fn(T) -> bool,
    pool: Option<u64>,
    key: K,
    reply: Polled<T>,
    answer: Poll<Result<Pooled<T, K>, Error>>,
) -> bool {
    match (reply, answer) {
        (Polled::Pending, Poll::Pending) => true,
        (Polled::Value(value), Poll::Ready(Ok(pooled))) => open(value) && in_use_again(
            pooled,
            pool,
            key,
            value,
            shared(value),
        ),
        (Polled::Value(value), Poll::Ready(Err(error))) => !open(value) && error
            == Error::CheckedOutClosedValue,
        (Polled::Canceled, Poll::Ready(Err(error))) => error == Error::CheckoutNoLongerWanted,
        _ => false,
    }
}

/// What the relation says of a waiting checkout is what [`answers_reply`] says.
proof fn lemma_waiter_answers<T: Poolable, K: Key>(
    open: spec_fn(T) -> bool,
    shared: spec_fn(T) -> bool,
    pool: Option<u64>,
    key: K,
    reply: Polled<T>,
    answer: Poll<Result<Pooled<T, K>, Error>>,
)
    requires
        steady(open, shared),
        waiter_answers(pool, key, reply, answer),
    ensures
        answers_reply(open, shared, pool, key, reply, answer),
{
    if let Polled::Value(value) = reply {
        let is_open = choose|is_open: bool| #[trigger]
            answers_open(value, is_open) && if is_open {
                &&& answer is Ready
                &&& answer->0 is Ok
                &&& reuses(pool, key, value, answer->0->Ok_0)
            } else {
                answer == Poll::<Result<Pooled<T, K>, Error>>::Ready(
                    Err(Error::CheckedOutClosedValue),
                )
            };
        assert(is_open == open(value));
    }
}

/// [`answer_waiter`] does what [`answers_reply`] says.
pub proof fn law_answer_waiter<T: Poolable, K: Key>(
    open: spec_fn(T) -> bool,
    shared: spec_fn(T) -> bool,
    pool: Option<u64>,
    key: K,
    reply: Polled<T>,
    answer: Poll<Result<Pooled<T, K>, Error>>,
)
    requires
        steady(open, shared),
        call_ensures(answer_waiter::<T, K>, (pool, &key, reply), answer),
    ensures
        answers_reply(open, shared, pool, key, reply, answer),
{
    lemma_waiter_answers(open, shared, pool, key, reply, answer);
}

/// [`Checkout::poll_waiter`] asks the channel of a checkout that waits once, for the task that it
/// was called for, and answers by what the channel said. The checkout goes on waiting on the same
/// channel exactly if there is nothing yet. One that does not wait is not answered.
pub proof fn law_poll_waiter<T: Poolable, K: Key>(
    open: spec_fn(T) -> bool,
    shared: spec_fn(T) -> bool,
    request: Checkout<T, K>,
    pool: Option<u64>,
    context: Context<'_>,
    request_after: Checkout<T, K>,
    answer: Poll<Option<Result<Pooled<T, K>, Error>>>,
)
    requires
        steady(open, shared),
        exists|asked: &mut Checkout<T, K>, cx: &mut Context<'_>|
            *asked == request && *final(asked) == request_after && *cx == context && #[trigger]
                call_ensures(Checkout::<T, K>::poll_waiter, (asked, pool, cx), answer),
    ensures
        request_after.key == request.key,
        request.waiter is None ==> request_after.waiter is None && answer is Ready && answer->0
            is None,
        request.waiter is Some ==> exists|reply: Polled<T>| #[trigger]
            poll_replies(request.waiter->0, context, reply) && match answer {
                Poll::Pending => reply is Pending && request_after.waiter == request.waiter,
                Poll::Ready(result) => {
                    &&& result is Some
                    &&& request_after.waiter is None
                    &&& answers_reply(
                        open,
                        shared,
                        pool,
                        request.key,
                        reply,
                        Poll::Ready(result->0),
                    )
                },
            },
{
    if request.waiter is Some {
        let reply = choose|reply: Polled<T>| #[trigger]
            poll_replies(request.waiter->0, context, reply) && match reply {
                Polled::Pending => {
                    &&& answer is Pending
                    &&& request_after.waiter == request.waiter
                },
                _ => {
                    &&& request_after.waiter is None
                    &&& answer is Ready
                    &&& answer->0 is Some
                    &&& waiter_answers(
                        pool,
                        request.key,
                        reply,
                        Poll::Ready(answer->0->0),
                    )
                },
            };
        assert(poll_replies(request.waiter->0, context, reply));
        if !(reply is Pending) {
            lemma_waiter_answers(
                open,
                shared,
                pool,
                request.key,
                reply,
                Poll::Ready(answer->0->0),
            );
        }
    }
}

/// The checkout has joined the waiters under its key, behind the others, and holds the other end of
/// its channel, on which the task behind `context` is registered.
pub open spec fn joined_waiters<T, K: Key>(
    before: Pool<T, K>,
    key: K,
    context: Context<'_>,
    after: Pool<T, K>,
    rx: Receiver<T>,
) -> bool {
    let (queue, longer) = (waiting_in(before, key), waiting_in(after, key));
    &&& has_waiting(after, key)
    &&& longer.len() == queue.len() + 1
    &&& forall|i: int| 0 <= i < queue.len() ==> #[trigger] longer[i] == queue[i]
    &&& same_channel(longer.last(), rx)
    &&& poll_replies(rx, context, Polled::Pending)
}

/// The waiters under `key` and the mark that it is being connected to stay as they are.
pub open spec fn only_idle_changes<T, K: Key>(
    before: Pool<T, K>,
    key: K,
    after: Pool<T, K>,
) -> bool {
    &&& same_but_at(before, after, key)
    &&& same_task(before, after)
    &&& has_waiting(after, key) == has_waiting(before, key)
    &&& waiting_in(after, key) == waiting_in(before, key)
    &&& is_connecting(after, key) == is_connecting(before, key)
    &&& has_idle(after, key) == (idle_in(after, key).len() > 0)
}

/// What an enabled pool makes of a checkout.
///
/// The last idle connection under its key that is open and has not been idle for too long is
/// handed out, all behind it are dropped, and what stands before it stays, with the other half of a
/// connection that is shared. If there is none, no idle connection is left under the key and the
/// checkout waits: it joins the waiters, or stays where it is if it waits already. Nothing else
/// changes.
pub open spec fn asked_for_connection<T: Poolable, K: Key>(
    open: spec_fn(T) -> bool,
    shared: spec_fn(T) -> bool,
    before: Pool<T, K>,
    request: Checkout<T, K>,
    now: Instant,
    context: Context<'_>,
    after: Pool<T, K>,
    request_after: Checkout<T, K>,
    got: Option<Pooled<T, K>>,
) -> bool {
    let key = request.key;
    let list = idle_in(before, key);
    let fits = fit(
        open,
        shared,
        before.inner->0.timeout,
        before.inner->0.timeout_http2,
        now,
    );
    &&& request_after.key == key
    &&& forall|place: int| #[trigger]
        is_last_fit(list, fits, place) ==> {
            &&& got is Some
            &&& handed_out(list, place, now, idle_in(after, key), got->0.value)
            &&& in_use_again(
                got->0,
                Some(before.inner->0.id),
                key,
                got->0.value,
                shared(got->0.value),
            )
            &&& request_after == request
            &&& only_idle_changes(before, key, after)
        }
    &&& none_fits(list, fits) ==> {
        &&& got is None
        &&& !has_idle(after, key)
        &&& same_but_at(before, after, key)
        &&& same_task(before, after)
        &&& is_connecting(after, key) == is_connecting(before, key)
        &&& request.waiter is Some ==> request_after == request && only_idle_changes(
            before,
            key,
            after,
        )
        &&& request.waiter is None ==> request_after.waiter is Some && joined_waiters(
            before,
            key,
            context,
            after,
            request_after.waiter->0,
        )
    }
}

/// What the relation says of a checkout is what [`asked_for_connection`] says.
proof fn lemma_checks_out<T: Poolable, K: Key>(
    open: spec_fn(T) -> bool,
    shared: spec_fn(T) -> bool,
    before: Pool<T, K>,
    request: Checkout<T, K>,
    now: Instant,
    context: Context<'_>,
    after: Pool<T, K>,
    request_after: Checkout<T, K>,
    got: Option<Pooled<T, K>>,
)
    requires
        steady(open, shared),
        before.wf(),
        before.inner is Some,
        after.inner is Some,
        checks_out(before@->0, request, now, context, after@->0, request_after, got),
    ensures
        asked_for_connection(
            open,
            shared,
            before,
            request,
            now,
            context,
            after,
            request_after,
            got,
        ),
{
    lemma_seen(before);
    lemma_seen(after);
    let state = before@->0;
    let key = request.key;
    let (taken, popped) = choose|taken: PoolState<T, K>, popped: Option<Idle<T>>| #[trigger]
        takes(state, key, now, taken, popped) && if popped is Some {
            &&& got is Some
            &&& reuses(Some(state.id), key, popped->0.value, got->0)
            &&& after@->0 == taken
            &&& request_after == request
        } else {
            &&& got is None
            &&& request_after.key == key
            &&& request_after.waiter is Some
            &&& if request.waiter is Some {
                &&& after@->0 == taken
                &&& request_after == request
            } else {
                parks(taken, key, context, after@->0, request_after.waiter->0)
            }
        };
    let left = choose|left: Seq<Idle<T>>| #[trigger]
        pops(state.idle_at(key), state.timeout, state.timeout_http2, now, left, popped) && taken
            == state.with_idle(key, left);
    assert(taken.idle_at(key) =~= left);
    law_newest_fit_is_taken(
        open,
        shared,
        idle_in(before, key),
        state.timeout,
        state.timeout_http2,
        now,
        left,
        popped,
    );
    assert forall|other: K| other != key implies #[trigger] same_at(before, after, other) by {
        assert(taken.idle_at(other) == state.idle_at(other));
        assert(taken.waiting_at(other) == state.waiting_at(other));
    }
    if popped is None && request.waiter is None {
        let tx = choose|tx: Sender<T>| #[trigger]
            same_channel(tx, request_after.waiter->0) && after@->0 == taken.with_waiting(
                key,
                taken.waiting_at(key).push(tx),
            );
        assert(waiting_in(after, key) =~= waiting_in(before, key).push(tx));
    }
}

/// [`Checkout::checkout`] does what [`asked_for_connection`] says. A pool that is disabled has
/// nothing to give, and the checkout stays as it is.
pub proof fn law_checkout<T: Poolable, K: Key>(
    open: spec_fn(T) -> bool,
    shared: spec_fn(T) -> bool,
    before: Pool<T, K>,
    request: Checkout<T, K>,
    now: Instant,
    context: Context<'_>,
    after: Pool<T, K>,
    request_after: Checkout<T, K>,
    got: Option<Pooled<T, K>>,
)
    requires
        steady(open, shared),
        before.wf(),
        exists|asked: &mut Checkout<T, K>, pool: &mut Pool<T, K>, cx: &mut Context<'_>|
            *asked == request && *final(asked) == request_after && *pool == before && *final(pool)
                == after && *cx == context && #[trigger] call_ensures(
                Checkout::<T, K>::checkout,
                (asked, pool, now, cx),
                got,
            ),
    ensures
        before.inner is Some ==> asked_for_connection(
            open,
            shared,
            before,
            request,
            now,
            context,
            after,
            request_after,
            got,
        ),
        before.inner is None ==> got is None && request_after == request && same_pool(
            before,
            after,
        ),
{
    lemma_seen(before);
    lemma_seen(after);
    if before.inner is Some {
        lemma_checks_out(
            open,
            shared,
            before,
            request,
            now,
            context,
            after,
            request_after,
            got,
        );
    } else {
        lemma_same_view(before, after);
    }
}

/// [`Checkout::poll`] answers a checkout that waits by what its channel has to say, and leaves the
/// pool alone. For any other it asks the pool: there is a connection at once, or the checkout
/// waits. A pool that is disabled is an error.
pub proof fn law_poll<T: Poolable, K: Key>(
    open: spec_fn(T) -> bool,
    shared: spec_fn(T) -> bool,
    before: Pool<T, K>,
    request: Checkout<T, K>,
    now: Instant,
    context: Context<'_>,
    after: Pool<T, K>,
    request_after: Checkout<T, K>,
    answer: Poll<Result<Pooled<T, K>, Error>>,
)
    requires
        steady(open, shared),
        before.wf(),
        exists|asked: &mut Checkout<T, K>, pool: &mut Pool<T, K>, cx: &mut Context<'_>|
            *asked == request && *final(asked) == request_after && *pool == before && *final(pool)
                == after && *cx == context && #[trigger] call_ensures(
                Checkout::<T, K>::poll,
                (asked, pool, now, cx),
                answer,
            ),
    ensures
        request_after.key == request.key,
        request.waiter is Some ==> same_pool(before, after) && exists|reply: Polled<T>| #[trigger]
            poll_replies(request.waiter->0, context, reply) && answers_reply(
                open,
                shared,
                if before.inner is Some {
                    Some(before.inner->0.id)
                } else {
                    None
                },
                request.key,
                reply,
                answer,
            ) && request_after.waiter == (if reply is Pending {
                request.waiter
            } else {
                None
            }),
        request.waiter is None && before.inner is None ==> {
            &&& answer is Ready
            &&& answer->0 is Err
            &&& answer->0->Err_0 == Error::PoolDisabled
            &&& request_after == request
            &&& same_pool(before, after)
        },
        request.waiter is None && before.inner is Some ==> match answer {
            Poll::Pending => asked_for_connection(
                open,
                shared,
                before,
                request,
                now,
                context,
                after,
                request_after,
                None,
            ),
            Poll::Ready(result) => result is Ok && asked_for_connection(
                open,
                shared,
                before,
                request,
                now,
                context,
                after,
                request_after,
                Some(result->Ok_0),
            ),
        },
{
    lemma_seen(before);
    lemma_seen(after);
    assert(polls(before@, request, now, context, after@, request_after, answer));
    if request.waiter is Some {
        lemma_same_view(before, after);
        let id = if before.inner is Some {
            Some(before.inner->0.id)
        } else {
            None
        };
        let reply = choose|reply: Polled<T>| #[trigger]
            poll_replies(request.waiter->0, context, reply) && waiter_answers(
                id,
                request.key,
                reply,
                answer,
            ) && request_after.waiter == (if reply is Pending {
                Some(request.waiter->0)
            } else {
                None
            });
        assert(poll_replies(request.waiter->0, context, reply));
        lemma_waiter_answers(open, shared, id, request.key, reply, answer);
    } else if before.inner is Some {
        let got = choose|got: Option<Pooled<T, K>>| #[trigger]
            checks_out(before@->0, request, now, context, after@->0, request_after, got)
                && match got {
                Some(pooled) => answer == Poll::<Result<Pooled<T, K>, Error>>::Ready(Ok(pooled)),
                None => answer is Pending,
            };
        lemma_checks_out(
            open,
            shared,
            before,
            request,
            now,
            context,
            after,
            request_after,
            got,
        );
    } else {
        lemma_same_view(before, after);
    }
}

/// [`Pool::checkout`] makes a checkout that does not wait yet.
pub proof fn law_new_checkout<T: Poolable, K: Key>(
    pool: Pool<T, K>,
    key: K,
    checkout: Checkout<T, K>,
)
    requires
        call_ensures(Pool::<T, K>::checkout, (&pool, key), checkout),
    ensures
        checkout.key == key,
        checkout.waiter is None,
{
}

/// [`Pool::idle_count`] counts the open connections that are idle under a key, and none if the pool
/// is disabled.
pub proof fn law_idle_count_counts_open<T: Poolable, K: Key>(
    open: spec_fn(T) -> bool,
    shared: spec_fn(T) -> bool,
    pool: Pool<T, K>,
    key: K,
    count: usize,
)
    requires
        steady(open, shared),
        call_ensures(Pool::<T, K>::idle_count, (&pool, &key), count),
    ensures
        count == idle_in(pool, key).filter(|entry: Idle<T>| open(entry.value)).len(),
{
    lemma_seen(pool);
    if pool.inner is Some {
        law_counted_is_open(open, shared, idle_in(pool, key), count as int);
    } else {
        reveal(Seq::filter);
    }
}

/// The waiters under `key` that are gone are dropped, and nothing else changes.
pub open spec fn gone_are_dropped<T, K: Key>(
    live: spec_fn(Sender<T>) -> bool,
    before: Pool<T, K>,
    key: K,
    after: Pool<T, K>,
) -> bool {
    &&& same_but_at(before, after, key)
    &&& same_task(before, after)
    &&& waiting_in(after, key) == waiting_in(before, key).filter(live)
    &&& has_waiting(after, key) == (waiting_in(after, key).len() > 0)
    &&& has_idle(after, key) == has_idle(before, key)
    &&& idle_in(after, key) == idle_in(before, key)
    &&& is_connecting(after, key) == is_connecting(before, key)
}

/// What the relation says of cleaning is what [`gone_are_dropped`] says.
proof fn lemma_cleans<T, K: Key>(
    live: spec_fn(Sender<T>) -> bool,
    before: Pool<T, K>,
    key: K,
    after: Pool<T, K>,
)
    requires
        steady_waiters(live),
        before.inner is Some,
        after.inner is Some,
        cleans(before@->0, key, after@->0),
    ensures
        gone_are_dropped(live, before, key, after),
{
    lemma_seen(before);
    lemma_seen(after);
    let queue = waiting_in(before, key);
    let left = choose|left: Seq<Sender<T>>| #[trigger]
        cleaned(queue, left) && after@->0 == before@->0.with_waiting(key, left);
    let keep = choose|keep: Seq<bool>| #[trigger]
        asked_live(queue, keep) && left == kept(queue, keep);
    assert forall|i: int| 0 <= i < queue.len() implies keep[i] == live(#[trigger] queue[i]) by {
        assert(reports_canceled(queue[i], !keep[i]));
    }
    lemma_kept_is_filter(queue, keep, live);
    assert(waiting_in(after, key) =~= left);
    assert forall|other: K| other != key implies #[trigger] same_at(before, after, other) by {}
}

/// [`drop_canceled`] leaves the waiters that are there, in their order.
pub proof fn law_drop_canceled<T>(
    live: spec_fn(Sender<T>) -> bool,
    before: VecDeque<Sender<T>>,
    gone: Gone,
    after: VecDeque<Sender<T>>,
)
    requires
        steady_waiters(live),
        exists|queue: &mut VecDeque<Sender<T>>| *queue == before && *final(queue) == after
            && #[trigger] call_ensures(drop_canceled::<T>, (queue, &gone), ()),
    ensures
        after@ == before@.filter(live),
{
    let keep = choose|keep: Seq<bool>| #[trigger]
        asked_live(before@, keep) && after@ == kept(before@, keep);
    assert forall|i: int| 0 <= i < before@.len() implies keep[i] == live(
        #[trigger] before@[i],
    ) by {
        assert(reports_canceled(before@[i], !keep[i]));
    }
    lemma_kept_is_filter(before@, keep, live);
}

/// [`PoolInner::clean_waiters`] drops the waiters under `key` that are gone, and nothing else
/// changes.
pub proof fn law_clean_waiters<T, K: Key>(
    live: spec_fn(Sender<T>) -> bool,
    before: PoolInner<T, K>,
    key: K,
    gone: Gone,
    after: PoolInner<T, K>,
)
    requires
        steady_waiters(live),
        exists|inner: &mut PoolInner<T, K>| *inner == before && *final(inner) == after && #[trigger]
            call_ensures(PoolInner::<T, K>::clean_waiters, (inner, &key, &gone), ()),
    ensures
        gone_are_dropped(live, Pool { inner: Some(before) }, key, Pool { inner: Some(after) }),
{
    lemma_cleans(live, Pool { inner: Some(before) }, key, Pool { inner: Some(after) });
}

/// [`PoolInner::park`] adds a waiter behind the others, on a channel of its own, and nothing else
/// changes.
pub proof fn law_park<T: Poolable, K: Key>(
    before: PoolInner<T, K>,
    key: K,
    context: Context<'_>,
    after: PoolInner<T, K>,
    rx: Receiver<T>,
)
    requires
        exists|inner: &mut PoolInner<T, K>, cx: &mut Context<'_>|
            *inner == before && *final(inner) == after && *cx == context && #[trigger]
                call_ensures(PoolInner::<T, K>::park, (inner, &key, cx), rx),
    ensures
        joined_waiters(
            Pool { inner: Some(before) },
            key,
            context,
            Pool { inner: Some(after) },
            rx,
        ),
        same_but_at(Pool { inner: Some(before) }, Pool { inner: Some(after) }, key),
        same_task(Pool { inner: Some(before) }, Pool { inner: Some(after) }),
        idle_in(Pool { inner: Some(after) }, key) == idle_in(Pool { inner: Some(before) }, key),
        is_connecting(Pool { inner: Some(after) }, key) == is_connecting(
            Pool { inner: Some(before) },
            key,
        ),
{
    let (first, last) = (
        Pool::<T, K> { inner: Some(before) },
        Pool::<T, K> { inner: Some(after) },
    );
    lemma_seen(first);
    lemma_seen(last);
    assert(parks(before@, key, context, after@, rx));
    let tx = choose|tx: Sender<T>| #[trigger]
        same_channel(tx, rx) && after@ == before@.with_waiting(
            key,
            before@.waiting_at(key).push(tx),
        );
    assert(waiting_in(last, key) =~= waiting_in(first, key).push(tx));
    assert forall|other: K| other != key implies #[trigger] same_at(first, last, other) by {}
}

/// [`PoolInner::take_idle`] takes the last idle connection under `key` that is open and has not
/// been idle for too long, if there is one, and leaves what stands before it. Nothing else changes.
pub proof fn law_take_idle<T: Poolable, K: Key>(
    open: spec_fn(T) -> bool,
    shared: spec_fn(T) -> bool,
    before: PoolInner<T, K>,
    key: K,
    now: Instant,
    after: PoolInner<T, K>,
    popped: Option<Idle<T>>,
)
    requires
        steady(open, shared),
        before.wf(),
        exists|inner: &mut PoolInner<T, K>| *inner == before && *final(inner) == after && #[trigger]
            call_ensures(PoolInner::<T, K>::take_idle, (inner, &key, now), popped),
    ensures
        only_idle_changes(Pool { inner: Some(before) }, key, Pool { inner: Some(after) }),
        none_fits(
            idle_in(Pool { inner: Some(before) }, key),
            fit(open, shared, before.timeout, before.timeout_http2, now),
        ) ==> popped is None && !has_idle(Pool { inner: Some(after) }, key),
        forall|place: int| #[trigger]
            is_last_fit(
                idle_in(Pool { inner: Some(before) }, key),
                fit(open, shared, before.timeout, before.timeout_http2, now),
                place,
            ) ==> {
                &&& popped is Some
                &&& popped->0.idle_at == idle_in(Pool { inner: Some(before) }, key)[place].idle_at
                &&& handed_out(
                    idle_in(Pool { inner: Some(before) }, key),
                    place,
                    now,
                    idle_in(Pool { inner: Some(after) }, key),
                    popped->0.value,
                )
            },
{
    let (first, last) = (
        Pool::<T, K> { inner: Some(before) },
        Pool::<T, K> { inner: Some(after) },
    );
    lemma_seen(first);
    lemma_seen(last);
    let left = choose|left: Seq<Idle<T>>| #[trigger]
        pops(before@.idle_at(key), before.timeout, before.timeout_http2, now, left, popped)
            && after@ == before@.with_idle(key, left);
    assert(idle_in(last, key) =~= left);
    law_newest_fit_is_taken(
        open,
        shared,
        idle_in(first, key),
        before.timeout,
        before.timeout_http2,
        now,
        left,
        popped,
    );
    assert forall|other: K| other != key implies #[trigger] same_at(first, last, other) by {}
}

/// [`Pool::drop_checkout`] drops the waiters that are gone under the key of a checkout that waited,
/// and the checkout is not among those that are left. One that did not wait leaves the pool as it
/// was.
pub proof fn law_drop_checkout<T, K: Key>(
    live: spec_fn(Sender<T>) -> bool,
    before: Pool<T, K>,
    checkout: Checkout<T, K>,
    after: Pool<T, K>,
)
    requires
        steady_waiters(live),
        exists|pool: &mut Pool<T, K>| *pool == before && *final(pool) == after && #[trigger]
            call_ensures(Pool::<T, K>::drop_checkout, (pool, checkout), ()),
    ensures
        before.inner is Some && checkout.waiter is Some ==> {
            &&& gone_are_dropped(live, before, checkout.key, after)
            &&& forall|i: int|
                0 <= i < waiting_in(after, checkout.key).len() ==> !same_channel(
                    #[trigger] waiting_in(after, checkout.key)[i],
                    checkout.waiter->0,
                )
        },
        before.inner is None || checkout.waiter is None ==> same_pool(before, after),
{
    lemma_seen(before);
    lemma_seen(after);
    assert(checkout_dropped(before@, checkout, after@));
    if before.inner is Some && checkout.waiter is Some {
        lemma_cleans(live, before, checkout.key, after);
    } else {
        lemma_same_view(before, after);
    }
}

} // verus!
