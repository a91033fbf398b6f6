//! What becomes of a connection that is put into a pool or given back to it.

use std::collections::VecDeque;

use futures_channel::oneshot::Sender;
use vstd::prelude::*;

use crate::channel::{reports_canceled, send_replies};
use crate::inner::PoolInner;
use crate::interval::IdleTask;
use crate::laws::law_first_waiter_is_served;
use crate::lists::with_list;
use crate::pool::{gives_back, puts_back, Pool, Pooled};
use crate::poolable::{answers_open, answers_shareable, reserves_as, Key, Poolable, Reservation};
use crate::seen::{
    has_idle, has_waiting, idle_in, is_connecting, is_eager, is_gone, is_shared, is_unique,
    kept_if_room, left_is_kept, lemma_same_view, lemma_seen, none_takes_before, put_there, refuses, same_at,
    same_but_at, same_pool, task_started, waiting_in, wants_task,
};
use crate::state::{keeps, puts, spawns};
use crate::time::Instant;
use crate::waiters::{handed, kept_half, left_by_reply, lemma_offer_leaves_end, offer, offered};

verus! {

/// Offering a connection to those who wait, one at a time.
///
/// With nobody there it is left. A waiter that says it is gone is passed over. One that is there is
/// sent its half of a reservation, the second half if it is shared, and all of it if it is not. If
/// it takes that, the first half of a shared reservation goes on to the next, and a unique one is
/// used up, with the others still waiting. If it refuses, what it refused goes on to the next.
pub proof fn law_offer_step<T: Poolable>(
    queue: Seq<Sender<T>>,
    value: T,
    rest: Seq<Sender<T>>,
    left: Option<T>,
)
    requires
        offered(queue, value, rest, left),
    ensures
        queue.len() == 0 ==> rest.len() == 0 && left is Some && left->0 == value,
        queue.len() > 0 ==> {
            ||| reports_canceled(queue[0], true) && offered(queue.skip(1), value, rest, left)
            ||| reports_canceled(queue[0], false) && exists|
                reservation: Reservation<T>,
                reply: Result<(), T>,
            | #[trigger]
                handed(queue[0], value, reservation, reply) && reserves_as(value, reservation)
                    && match reservation {
                    Reservation::Shared(stays, goes) => {
                        &&& send_replies(queue[0], goes, reply)
                        &&& offered(
                            queue.skip(1),
                            if reply is Ok {
                                stays
                            } else {
                                reply->Err_0
                            },
                            rest,
                            left,
                        )
                    },
                    Reservation::Unique(goes) => {
                        &&& send_replies(queue[0], goes, reply)
                        &&& reply is Ok ==> rest == queue.skip(1) && left is None
                        &&& reply is Err ==> offered(queue.skip(1), reply->Err_0, rest, left)
                    },
                }
        },
{
    if queue.len() > 0 {
        assert(queue.skip(1) =~= queue.drop_first());
        if !(reports_canceled(queue[0], true) && offered(queue.drop_first(), value, rest, left)) {
            let (reservation, reply) = choose|reservation: Reservation<T>, reply: Result<(), T>|
                #[trigger]
                handed(queue[0], value, reservation, reply) && match left_by_reply(
                    kept_half(reservation),
                    reply,
                ) {
                    Some(next) => offered(queue.drop_first(), next, rest, left),
                    None => rest == queue.drop_first() && left is None,
                };
            assert(handed(queue[0], value, reservation, reply));
        }
    }
}

/// [`offer`] offers a connection to those who wait, and what a waiter refused is what it was sent.
pub proof fn law_offer<T: Poolable>(
    before: VecDeque<Sender<T>>,
    value: T,
    after: VecDeque<Sender<T>>,
    left: Option<T>,
)
    requires
        exists|queue: &mut VecDeque<Sender<T>>| *queue == before && *final(queue) == after
            && #[trigger] call_ensures(offer::<T>, (queue, value), left),
    ensures
        offered(before@, value, after@, left),
        left is Some ==> after@.len() == 0,
        after@.len() <= before@.len(),
        after@ == before@.skip(before@.len() - after@.len()),
{
    lemma_offer_leaves_end(before@, value, after@, left);
}

/// A unique connection goes to the first waiter that takes it.
proof fn lemma_unique_is_taken<T: Poolable>(
    queue: Seq<Sender<T>>,
    value: T,
    rest: Seq<Sender<T>>,
    left: Option<T>,
    place: int,
)
    requires
        is_unique(value),
        0 <= place < queue.len(),
        none_takes_before(queue, place),
        is_eager(queue[place]),
        offered(queue, value, rest, left),
    ensures
        send_replies(queue[place], value, Ok(())),
        rest == queue.skip(place + 1),
        left is None,
    decreases queue.len(),
{
    let behind = queue.drop_first();
    if reports_canceled(queue[0], true) && offered(behind, value, rest, left) {
        assert(place > 0);
        assert forall|i: int| 0 <= i < place - 1 implies is_gone(#[trigger] behind[i]) || refuses(
            behind[i],
        ) by {
            assert(behind[i] == queue[i + 1]);
        }
        assert(behind[place - 1] == queue[place]);
        lemma_unique_is_taken(behind, value, rest, left, place - 1);
    } else {
        let (reservation, reply) = choose|reservation: Reservation<T>, reply: Result<(), T>|
            #[trigger]
            handed(queue[0], value, reservation, reply) && match left_by_reply(
                kept_half(reservation),
                reply,
            ) {
                Some(next) => offered(behind, next, rest, left),
                None => rest == behind && left is None,
            };
        assert(reports_canceled(queue[0], false));
        assert(reservation == Reservation::Unique(value));
        assert(send_replies(queue[0], value, reply));
        if place == 0 {
            match reply {
                Ok(unit) => {
                    assert(unit == ());
                },
                Err(_) => {},
            }
        } else {
            assert(is_gone(queue[0]) || refuses(queue[0]));
            assert(reply is Err);
            assert forall|i: int| 0 <= i < place - 1 implies is_gone(#[trigger] behind[i])
                || refuses(behind[i]) by {
                assert(behind[i] == queue[i + 1]);
            }
            assert(behind[place - 1] == queue[place]);
            lemma_unique_is_taken(behind, value, rest, left, place - 1);
        }
    }
    assert(rest =~= queue.skip(place + 1));
}

/// A unique connection that no waiter takes is left, and no waiter is.
proof fn lemma_unique_is_left<T: Poolable>(
    queue: Seq<Sender<T>>,
    value: T,
    rest: Seq<Sender<T>>,
    left: Option<T>,
)
    requires
        is_unique(value),
        none_takes_before(queue, queue.len() as int),
        offered(queue, value, rest, left),
    ensures
        rest.len() == 0,
        left == Some(value),
    decreases queue.len(),
{
    if queue.len() > 0 {
        let behind = queue.drop_first();
        assert forall|i: int| 0 <= i < behind.len() implies is_gone(#[trigger] behind[i])
            || refuses(behind[i]) by {
            assert(behind[i] == queue[i + 1]);
        }
        if reports_canceled(queue[0], true) && offered(behind, value, rest, left) {
        } else {
            let (reservation, reply) = choose|reservation: Reservation<T>, reply: Result<(), T>|
                #[trigger]
                handed(queue[0], value, reservation, reply) && match left_by_reply(
                    kept_half(reservation),
                    reply,
                ) {
                    Some(next) => offered(behind, next, rest, left),
                    None => rest == behind && left is None,
                };
            assert(reports_canceled(queue[0], false));
            assert(send_replies(queue[0], value, reply));
            assert(is_gone(queue[0]) || refuses(queue[0]));
        }
        lemma_unique_is_left(behind, value, rest, left);
    }
}

/// A shared connection goes to every waiter that takes it, and is left all the same.
pub proof fn lemma_shared_is_taken_and_left<T: Poolable>(
    queue: Seq<Sender<T>>,
    value: T,
    rest: Seq<Sender<T>>,
    left: Option<T>,
)
    requires
        is_shared(value),
        offered(queue, value, rest, left),
    ensures
        rest.len() == 0,
        left == Some(value),
        forall|i: int|
            0 <= i < queue.len() && is_eager(#[trigger] queue[i]) ==> send_replies(
                queue[i],
                value,
                Ok(()),
            ),
    decreases queue.len(),
{
    if queue.len() > 0 {
        let behind = queue.drop_first();
        if reports_canceled(queue[0], true) && offered(behind, value, rest, left) {
        } else {
            let (reservation, reply) = choose|reservation: Reservation<T>, reply: Result<(), T>|
                #[trigger]
                handed(queue[0], value, reservation, reply) && match left_by_reply(
                    kept_half(reservation),
                    reply,
                ) {
                    Some(next) => offered(behind, next, rest, left),
                    None => rest == behind && left is None,
                };
            assert(reservation == Reservation::Shared(value, value));
            assert(send_replies(queue[0], value, reply));
            match reply {
                Ok(unit) => {
                    assert(unit == ());
                },
                Err(_) => {},
            }
        }
        lemma_shared_is_taken_and_left(behind, value, rest, left);
        assert forall|i: int|
            0 <= i < queue.len() && is_eager(#[trigger] queue[i]) implies send_replies(
            queue[i],
            value,
            Ok(()),
        ) by {
            if i > 0 {
                assert(behind[i - 1] == queue[i]);
            }
        }
    }
}

/// Starting the idle task is a matter of what the pool says of it, and of nothing else.
pub proof fn law_task_is_started_if_wanted<T, K: Key>(
    before: Pool<T, K>,
    after: Pool<T, K>,
    task: Option<IdleTask>,
)
    requires
        before.inner is Some,
        after.inner is Some,
        spawns(before@->0, after@->0, task),
    ensures
        task_started(before, after, task),
        forall|key: K| #[trigger] same_at(before, after, key),
{
    lemma_seen(before);
    lemma_seen(after);
}

/// Putting a connection into an enabled pool does what [`put_there`] says.
pub proof fn law_put<T: Poolable, K: Key>(
    before: Pool<T, K>,
    key: K,
    value: T,
    now: Instant,
    after: Pool<T, K>,
    task: Option<IdleTask>,
)
    requires
        before.wf(),
        before.inner is Some,
        after.inner is Some,
        puts(before@->0, key, value, now, after@->0, task),
    ensures
        put_there(before, key, value, now, after, task),
{
    lemma_seen(before);
    lemma_seen(after);
    let state = before@->0;
    let queue = waiting_in(before, key);
    let shared = choose|shared: bool| #[trigger]
        answers_shareable(value, shared) && if shared && state.idle.contains_key(key) {
            after@->0 == state && task is None
        } else {
            exists|rest: Seq<Sender<T>>, left: Option<T>| #[trigger]
                offered(state.waiting_at(key), value, rest, left) && keeps(
                    state.with_waiting(key, rest),
                    key,
                    left,
                    now,
                    after@->0,
                    task,
                )
        };
    if shared && state.idle.contains_key(key) {
        lemma_same_view(before, after);
        assert(same_at(before, after, key));
        assert(queue.skip(0) =~= queue);
    } else {
        let (rest, left) = choose|rest: Seq<Sender<T>>, left: Option<T>| #[trigger]
            offered(queue, value, rest, left) && keeps(
                state.with_waiting(key, rest),
                key,
                left,
                now,
                after@->0,
                task,
            );
        let middle = state.with_waiting(key, rest);
        lemma_offer_leaves_end(queue, value, rest, left);
        assert(with_list(state.waiters, key, rest) == middle.waiters);
        assert(middle.idle_at(key) == state.idle_at(key));
        assert(after@->0.waiters == middle.waiters);
        assert(waiting_in(after, key) =~= rest);
        assert(offered(queue, value, waiting_in(after, key), left));
        assert(left_is_kept(before, key, left, now, after, task));
        assert(has_waiting(after, key) == (rest.len() > 0));
        assert forall|other: K| other != key implies #[trigger] same_at(before, after, other) by {
            assert(middle.waiting_at(other) == state.waiting_at(other));
        }
        if is_unique(value) {
            assert forall|place: int|
                0 <= place < queue.len() && none_takes_before(queue, place) && is_eager(
                    #[trigger] queue[place],
                ) implies send_replies(queue[place], value, Ok(())) && rest == queue.skip(place + 1)
                && left is None by {
                lemma_unique_is_taken(queue, value, rest, left, place);
            }
            if none_takes_before(queue, queue.len() as int) {
                lemma_unique_is_left(queue, value, rest, left);
            }
        }
        if is_shared(value) {
            lemma_shared_is_taken_and_left(queue, value, rest, left);
        }
    }
}

/// [`PoolInner::put`] does what [`put_there`] says.
pub proof fn law_inner_put<T: Poolable, K: Key>(
    before: PoolInner<T, K>,
    key: K,
    value: T,
    now: Instant,
    after: PoolInner<T, K>,
    task: Option<IdleTask>,
)
    requires
        before.wf(),
        exists|inner: &mut PoolInner<T, K>| *inner == before && *final(inner) == after && #[trigger]
            call_ensures(PoolInner::<T, K>::put, (inner, key, value, now), task),
    ensures
        put_there(
            Pool { inner: Some(before) },
            key,
            value,
            now,
            Pool { inner: Some(after) },
            task,
        ),
{
    law_put(Pool { inner: Some(before) }, key, value, now, Pool { inner: Some(after) }, task);
}

/// [`Pool::put_back`] puts a connection into the pool that it belongs to, be it new or reused, and
/// leaves any other pool alone.
pub proof fn law_put_back<T: Poolable, K: Key>(
    before: Pool<T, K>,
    pooled: Pooled<T, K>,
    now: Instant,
    after: Pool<T, K>,
    task: Option<IdleTask>,
)
    requires
        before.wf(),
        exists|pool: &mut Pool<T, K>| *pool == before && *final(pool) == after && #[trigger]
            call_ensures(Pool::<T, K>::put_back, (pool, pooled, now), task),
    ensures
        before.inner is Some && pooled.pool == Some(before.inner->0.id) ==> put_there(
            before,
            pooled.key,
            pooled.value,
            now,
            after,
            task,
        ),
        before.inner is None || pooled.pool != Some(before.inner->0.id) ==> same_pool(before, after)
            && task is None,
{
    lemma_seen(before);
    lemma_seen(after);
    assert(puts_back(before@, pooled, now, after@, task));
    if before.inner is Some && pooled.pool == Some(before.inner->0.id) {
        law_put(before, pooled.key, pooled.value, now, after, task);
    } else {
        lemma_same_view(before, after);
    }
}

/// [`Pool::drop_pooled`] puts a connection that is open into the pool that it belongs to, be it
/// new or reused. One that is closed is dropped, and a pool that it does not belong to is left
/// alone.
pub proof fn law_drop_pooled<T: Poolable, K: Key>(
    before: Pool<T, K>,
    pooled: Pooled<T, K>,
    now: Instant,
    after: Pool<T, K>,
    task: Option<IdleTask>,
)
    requires
        before.wf(),
        exists|pool: &mut Pool<T, K>| *pool == before && *final(pool) == after && #[trigger]
            call_ensures(Pool::<T, K>::drop_pooled, (pool, pooled, now), task),
    ensures
        before.inner is Some && pooled.pool == Some(before.inner->0.id) && !answers_open(
            pooled.value,
            false,
        ) ==> put_there(before, pooled.key, pooled.value, now, after, task),
        before.inner is None || pooled.pool != Some(before.inner->0.id) || !answers_open(
            pooled.value,
            true,
        ) ==> same_pool(before, after) && task is None,
{
    lemma_seen(before);
    lemma_seen(after);
    assert(gives_back(before@, pooled, now, after@, task));
    if before.inner is Some && pooled.pool == Some(before.inner->0.id) && !answers_open(
        pooled.value,
        false,
    ) {
        law_put(before, pooled.key, pooled.value, now, after, task);
    }
    if before.inner is None || pooled.pool != Some(before.inner->0.id) || !answers_open(
        pooled.value,
        true,
    ) {
        lemma_same_view(before, after);
    }
}

/// A connection that can be used by one at a time, is open, belongs to the pool and is given back
/// while checkouts wait under its key goes to the longest waiting one, if that is there and takes
/// what it is sent: it is handed the connection and leaves the queue, the others stay, and nothing
/// becomes idle. That the connection is new or was reused makes no difference.
pub proof fn law_first_waiter_is_served_on_return<T: Poolable, K: Key>(
    before: Pool<T, K>,
    pooled: Pooled<T, K>,
    now: Instant,
    after: Pool<T, K>,
    task: Option<IdleTask>,
)
    requires
        before.wf(),
        before.inner is Some,
        pooled.pool == Some(before.inner->0.id),
        !answers_open(pooled.value, false),
        !answers_shareable(pooled.value, true),
        forall|reservation: Reservation<T>| #[trigger]
            reserves_as(pooled.value, reservation) ==> reservation is Unique,
        waiting_in(before, pooled.key).len() > 0,
        is_eager(waiting_in(before, pooled.key)[0]),
        exists|pool: &mut Pool<T, K>| *pool == before && *final(pool) == after && #[trigger]
            call_ensures(Pool::<T, K>::drop_pooled, (pool, pooled, now), task),
    ensures
        exists|reservation: Reservation<T>| #[trigger]
            reserves_as(pooled.value, reservation) && send_replies(
                waiting_in(before, pooled.key)[0],
                reservation->Unique_0,
                Ok(()),
            ),
        waiting_in(after, pooled.key) == waiting_in(before, pooled.key).drop_first(),
        idle_in(after, pooled.key) == idle_in(before, pooled.key),
        task is None,
{
    lemma_seen(before);
    lemma_seen(after);
    assert(gives_back(before@, pooled, now, after@, task));
    let state = before@->0;
    law_first_waiter_is_served(state, pooled.key, pooled.value, now, after@->0, task);
    let reservation = choose|reservation: Reservation<T>| #[trigger]
        handed(state.waiting_at(pooled.key)[0], pooled.value, reservation, Ok(()));
    assert(reserves_as(pooled.value, reservation));
    assert(waiting_in(after, pooled.key) =~= waiting_in(before, pooled.key).drop_first());
}

/// Whatever giving back a connection comes to, giving it back with the mark of reuse turned round
/// can come to as well.
pub proof fn law_reuse_makes_no_difference<T: Poolable, K: Key>(
    before: Pool<T, K>,
    pooled: Pooled<T, K>,
    other: Pooled<T, K>,
    now: Instant,
    after: Pool<T, K>,
    task: Option<IdleTask>,
)
    requires
        other == (Pooled { is_reused: !pooled.is_reused, ..pooled }),
        gives_back(before@, pooled, now, after@, task),
    ensures
        gives_back(before@, other, now, after@, task),
{
    let open = choose|open: bool| #[trigger]
        answers_open(pooled.value, open) && if open {
            puts_back(before@, pooled, now, after@, task)
        } else {
            after@ == before@ && task is None
        };
    assert(answers_open(other.value, open));
}

} // verus!
