//! Who may connect, and what ends when a connect does.

use futures_channel::oneshot::Sender;
use vstd::prelude::*;

use crate::channel::send_replies;
use crate::inner::PoolInner;
use crate::interval::IdleTask;
use crate::pool::{connecting_dropped, connects, pools, Connecting, Pool, Pooled};
use crate::poolable::{answers_shareable, reserves_as, Key, Poolable, Reservation, Ver};
use crate::return_laws::lemma_shared_is_taken_and_left;
use crate::seen::{
    has_idle, has_waiting, idle_in, idle_stays, is_connecting, is_eager, is_shared, kept_if_room,
    left_is_kept, lemma_same_view, lemma_seen, same_at, same_but_at, same_pool, same_task, waiting_in,
};
use crate::state::{keeps, puts, PoolState};
use crate::time::Instant;
use crate::waiters::offered;

verus! {

/// What is filed under `key` is what was filed there, but for the mark that it is being connected
/// to.
pub open spec fn same_lists_at<T, K: Key>(before: Pool<T, K>, after: Pool<T, K>, key: K) -> bool {
    &&& has_idle(after, key) == has_idle(before, key)
    &&& idle_in(after, key) == idle_in(before, key)
    &&& has_waiting(after, key) == has_waiting(before, key)
    &&& waiting_in(after, key) == waiting_in(before, key)
}

/// The connect under `key` has ended: the key can be connected to anew, nobody waits there any
/// longer, and what is idle there and all that is filed under other keys stays.
pub open spec fn connect_ended<T, K: Key>(before: Pool<T, K>, after: Pool<T, K>, key: K) -> bool {
    &&& same_but_at(before, after, key)
    &&& same_task(before, after)
    &&& !is_connecting(after, key)
    &&& !has_waiting(after, key)
    &&& has_idle(after, key) == has_idle(before, key)
    &&& idle_in(after, key) == idle_in(before, key)
}

/// A call of [`Pool::connecting`] for HTTP/1 is always granted, holds nothing of the pool, and
/// leaves the pool as it was.
pub proof fn law_auto_connect_changes_nothing<T: Poolable, K: Key>(
    before: Pool<T, K>,
    key: K,
    after: Pool<T, K>,
    granted: Option<Connecting<K>>,
)
    requires
        exists|pool: &mut Pool<T, K>| *pool == before && *final(pool) == after && #[trigger]
            call_ensures(Pool::<T, K>::connecting, (pool, &key, Ver::Auto), granted),
    ensures
        granted is Some,
        granted->0.key == key,
        granted->0.pool is None,
        same_pool(before, after),
{
    assert(connects(before@, key, Ver::Auto, after@, granted));
    lemma_same_view(before, after);
}

/// An attempt to connect by HTTP/2 is refused exactly if the pool is enabled and has the key down
/// already. It changes nothing if it is refused or if the pool is disabled. If it is granted, the
/// key is down from then on, the right names the pool, and nothing else changes.
pub proof fn law_http2_connect<T: Poolable, K: Key>(
    before: Pool<T, K>,
    key: K,
    after: Pool<T, K>,
    granted: Option<Connecting<K>>,
)
    requires
        connects(before@, key, Ver::Http2, after@, granted),
    ensures
        granted is None <==> is_connecting(before, key),
        granted is Some ==> granted->0.key == key,
        granted is Some && before.inner is Some ==> granted->0.pool == Some(before.inner->0.id),
        granted is Some && before.inner is None ==> granted->0.pool is None,
        before.inner is Some ==> is_connecting(after, key),
        granted is None || before.inner is None ==> same_pool(before, after),
        same_but_at(before, after, key),
        same_task(before, after),
        same_lists_at(before, after, key),
{
    lemma_seen(before);
    lemma_seen(after);
    if granted is None || before.inner is None {
        lemma_same_view(before, after);
        assert(same_at(before, after, key));
    }
}

/// [`Pool::connecting`] for HTTP/2 is refused exactly if a connect under the key is pending.
pub proof fn law_connecting_http2<T: Poolable, K: Key>(
    before: Pool<T, K>,
    key: K,
    after: Pool<T, K>,
    granted: Option<Connecting<K>>,
)
    requires
        exists|pool: &mut Pool<T, K>| *pool == before && *final(pool) == after && #[trigger]
            call_ensures(Pool::<T, K>::connecting, (pool, &key, Ver::Http2), granted),
    ensures
        granted is None <==> is_connecting(before, key),
        granted is Some ==> granted->0.key == key,
        granted is Some && before.inner is Some ==> granted->0.pool == Some(before.inner->0.id),
        granted is Some && before.inner is None ==> granted->0.pool is None,
        before.inner is Some ==> is_connecting(after, key),
        granted is None || before.inner is None ==> same_pool(before, after),
        same_but_at(before, after, key),
        same_task(before, after),
        same_lists_at(before, after, key),
{
    law_http2_connect(before, key, after, granted);
}

/// [`Connecting::alpn_h2`] is an attempt to connect by HTTP/2 under the key of the right that it is
/// called on.
pub proof fn law_alpn_h2<T: Poolable, K: Key>(
    connecting: Connecting<K>,
    before: Pool<T, K>,
    after: Pool<T, K>,
    granted: Option<Connecting<K>>,
)
    requires
        exists|pool: &mut Pool<T, K>| *pool == before && *final(pool) == after && #[trigger]
            call_ensures(Connecting::<K>::alpn_h2::<T>, (connecting, pool), granted),
    ensures
        granted is None <==> is_connecting(before, connecting.key),
        granted is Some ==> granted->0.key == connecting.key,
        granted is Some && before.inner is Some ==> granted->0.pool == Some(before.inner->0.id),
        granted is Some && before.inner is None ==> granted->0.pool is None,
        before.inner is Some ==> is_connecting(after, connecting.key),
        granted is None || before.inner is None ==> same_pool(before, after),
        same_but_at(before, after, connecting.key),
        same_task(before, after),
        same_lists_at(before, after, connecting.key),
{
    law_http2_connect(before, connecting.key, after, granted);
}

/// A key with a pending HTTP/2 connect is refused to HTTP/2, after any number of attempts to
/// connect by HTTP/1, under whatever keys, and of refused attempts by HTTP/2.
pub proof fn law_pending_connect_outlasts_attempts<T: Poolable, K: Key>(
    pools: Seq<Pool<T, K>>,
    keys: Seq<K>,
    vers: Seq<Ver>,
    got: Seq<Option<Connecting<K>>>,
    key: K,
    last: Pool<T, K>,
    granted: Option<Connecting<K>>,
)
    requires
        pools.len() == keys.len() + 1,
        vers.len() == keys.len(),
        got.len() == keys.len(),
        is_connecting(pools[0], key),
        forall|i: int|
            #![trigger got[i]]
            0 <= i < keys.len() ==> exists|pool: &mut Pool<T, K>|
                *pool == pools[i] && *final(pool) == pools[i + 1] && #[trigger] call_ensures(
                    Pool::<T, K>::connecting,
                    (pool, &keys[i], vers[i]),
                    got[i],
                ),
        exists|pool: &mut Pool<T, K>| *pool == pools.last() && *final(pool) == last && #[trigger]
            call_ensures(Pool::<T, K>::connecting, (pool, &key, Ver::Http2), granted),
    ensures
        granted is None,
        same_pool(pools.last(), last),
{
    assert forall|i: int| 0 <= i < keys.len() implies connects(
        pools[i]@,
        keys[i],
        vers[i],
        pools[i + 1]@,
        #[trigger] got[i],
    ) by {}
    lemma_stays_connecting(pools, keys, vers, got, key, keys.len() as int);
    law_connecting_http2(pools.last(), key, last, granted);
}

/// A key with a pending HTTP/2 connect is still down after `count` attempts to connect.
proof fn lemma_stays_connecting<T: Poolable, K: Key>(
    pools: Seq<Pool<T, K>>,
    keys: Seq<K>,
    vers: Seq<Ver>,
    got: Seq<Option<Connecting<K>>>,
    key: K,
    count: int,
)
    requires
        pools.len() == keys.len() + 1,
        vers.len() == keys.len(),
        got.len() == keys.len(),
        is_connecting(pools[0], key),
        forall|i: int|
            0 <= i < keys.len() ==> connects(
                pools[i]@,
                keys[i],
                vers[i],
                pools[i + 1]@,
                #[trigger] got[i],
            ),
        0 <= count <= keys.len(),
    ensures
        is_connecting(pools[count], key),
    decreases count,
{
    if count > 0 {
        let place = count - 1;
        lemma_stays_connecting(pools, keys, vers, got, key, place);
        let (tried, ver) = (keys[place], vers[place]);
        let (before, after) = (pools[place], pools[place + 1]);
        assert(connects(before@, tried, ver, after@, got[place]));
        if ver == Ver::Http2 {
            law_http2_connect(before, tried, after, got[place]);
            if tried != key {
                assert(same_at(before, after, key));
            }
        } else {
            lemma_same_view(before, after);
            assert(same_at(before, after, key));
        }
    }
}

/// [`PoolInner::connected`] ends the connect under one key. The waiters under every other key stay.
pub proof fn law_connected<T, K: Key>(before: PoolInner<T, K>, key: K, after: PoolInner<T, K>)
    requires
        exists|inner: &mut PoolInner<T, K>| *inner == before && *final(inner) == after && #[trigger]
            call_ensures(PoolInner::<T, K>::connected, (inner, &key), ()),
    ensures
        connect_ended(Pool { inner: Some(before) }, Pool { inner: Some(after) }, key),
{
    lemma_seen(Pool { inner: Some(before) });
    lemma_seen(Pool { inner: Some(after) });
}

/// [`Pool::drop_connecting`] ends the connect under the key of the right, if this is the pool that
/// granted it. Otherwise the pool stays as it was.
pub proof fn law_drop_connecting<T, K: Key>(
    before: Pool<T, K>,
    connecting: Connecting<K>,
    after: Pool<T, K>,
)
    requires
        exists|pool: &mut Pool<T, K>| *pool == before && *final(pool) == after && #[trigger]
            call_ensures(Pool::<T, K>::drop_connecting, (pool, connecting), ()),
    ensures
        before.inner is Some && connecting.pool == Some(before.inner->0.id) ==> connect_ended(
            before,
            after,
            connecting.key,
        ),
        before.inner is None || connecting.pool != Some(before.inner->0.id) ==> same_pool(
            before,
            after,
        ),
{
    lemma_seen(before);
    lemma_seen(after);
    assert(after@ == connecting_dropped(before@, connecting));
    if before.inner is None || connecting.pool != Some(before.inner->0.id) {
        lemma_same_view(before, after);
    }
}

/// Ending a connect under one key leaves the waiters under every other key as they were, whether
/// it is given up or a connection comes of it.
pub proof fn law_other_waiters_outlast_connect<T: Poolable, K: Key>(
    before: Pool<T, K>,
    connecting: Connecting<K>,
    value: T,
    now: Instant,
    given_up: Pool<T, K>,
    pooled_in: Pool<T, K>,
    connecting_after: Connecting<K>,
    pooled: Pooled<T, K>,
    task: Option<IdleTask>,
    other: K,
)
    requires
        before.wf(),
        other != connecting.key,
        exists|pool: &mut Pool<T, K>| *pool == before && *final(pool) == given_up && #[trigger]
            call_ensures(Pool::<T, K>::drop_connecting, (pool, connecting), ()),
        exists|pool: &mut Pool<T, K>, right: &mut Connecting<K>|
            *pool == before && *final(pool) == pooled_in && *right == connecting && *final(right)
                == connecting_after && #[trigger] call_ensures(
                Pool::<T, K>::pooled,
                (pool, right, value, now),
                (pooled, task),
            ),
    ensures
        waiting_in(given_up, other) == waiting_in(before, other),
        waiting_in(pooled_in, other) == waiting_in(before, other),
        has_waiting(given_up, other) == has_waiting(before, other),
        has_waiting(pooled_in, other) == has_waiting(before, other),
{
    law_drop_connecting(before, connecting, given_up);
    law_pooled(
        before,
        connecting,
        value,
        now,
        pooled_in,
        connecting_after,
        pooled,
        task,
    );
    assert(same_at(before, given_up, other));
    assert(same_at(before, pooled_in, other));
}

/// What becomes of the half of a shared connection that goes to the pool: if it says that it can be
/// shared and there is an idle one already, it is not needed, and otherwise it is offered to those
/// who wait, and what they leave is kept if there is room.
pub open spec fn half_is_put<T: Poolable, K: Key>(
    before: Pool<T, K>,
    key: K,
    value: T,
    now: Instant,
    after: Pool<T, K>,
    task: Option<IdleTask>,
) -> bool {
    exists|shared: bool| #[trigger]
        answers_shareable(value, shared) && if shared && has_idle(before, key) {
            idle_stays(before, key, after, task)
        } else {
            exists|rest: Seq<Sender<T>>, left: Option<T>| #[trigger]
                offered(waiting_in(before, key), value, rest, left) && left_is_kept(
                    before,
                    key,
                    left,
                    now,
                    after,
                    task,
                )
        }
}

/// What becomes of a connection that was just established and is taken into use with a right to
/// connect.
///
/// It is handed out as new, under the key of the right, and nothing that is filed under other keys
/// changes. A pool that is disabled keeps nothing of it. One that is used by one at a time belongs
/// to the pool from then on, and ends the connect if this pool granted the right; otherwise the
/// right stays and the pool is as it was. One that is shared belongs to no pool: it ends the
/// connect in any case, the checkouts that wait under the key are sent it, and it is idle there
/// for others to use.
pub open spec fn taken_into_use<T: Poolable, K: Key>(
    before: Pool<T, K>,
    connecting: Connecting<K>,
    value: T,
    now: Instant,
    after: Pool<T, K>,
    connecting_after: Connecting<K>,
    pooled: Pooled<T, K>,
    task: Option<IdleTask>,
) -> bool {
    let key = connecting.key;
    let queue = waiting_in(before, key);
    &&& pooled.key == key
    &&& !pooled.is_reused
    &&& connecting_after.key == key
    &&& same_but_at(before, after, key)
    &&& before.inner is None ==> {
        &&& pooled.value == value
        &&& pooled.pool is None
        &&& connecting_after.pool == connecting.pool
        &&& task is None
    }
    &&& before.inner is Some ==> exists|reservation: Reservation<T>| #[trigger]
        reserves_as(value, reservation) && match reservation {
            Reservation::Shared(stays, goes) => {
                &&& pooled.value == goes
                &&& pooled.pool is None
                &&& connecting_after.pool is None
                &&& !is_connecting(after, key)
                &&& !has_waiting(after, key)
                &&& half_is_put(before, key, stays, now, after, task)
            },
            Reservation::Unique(goes) => {
                &&& pooled.value == goes
                &&& pooled.pool == Some(before.inner->0.id)
                &&& task is None
                &&& if connecting.pool == Some(before.inner->0.id) {
                    connect_ended(before, after, key) && connecting_after.pool is None
                } else {
                    same_pool(before, after) && connecting_after.pool == connecting.pool
                }
            },
        }
    &&& before.inner is Some && is_shared(value) && has_idle(before, key) ==> {
        &&& task is None
        &&& same_task(before, after)
        &&& has_idle(after, key)
        &&& idle_in(after, key) == idle_in(before, key)
    }
    &&& before.inner is Some && is_shared(value) && !has_idle(before, key) ==> {
        &&& kept_if_room(before, key, value, now, after, task)
        &&& has_idle(after, key)
        &&& forall|i: int|
            0 <= i < queue.len() && is_eager(#[trigger] queue[i]) ==> send_replies(
                queue[i],
                value,
                Ok(()),
            )
    }
}

/// Putting a shared connection and ending the connect under its key.
proof fn lemma_shared_put_then_connected<T: Poolable, K: Key>(
    before: Pool<T, K>,
    key: K,
    value: T,
    now: Instant,
    middle: PoolState<T, K>,
    after: Pool<T, K>,
    task: Option<IdleTask>,
)
    requires
        before.wf(),
        before.inner is Some,
        puts(before@->0, key, value, now, middle, task),
        after@ == Some(middle.connected(key)),
    ensures
        same_but_at(before, after, key),
        !is_connecting(after, key),
        !has_waiting(after, key),
        half_is_put(before, key, value, now, after, task),
        is_shared(value) && has_idle(before, key) ==> {
            &&& task is None
            &&& same_task(before, after)
            &&& has_idle(after, key)
            &&& idle_in(after, key) == idle_in(before, key)
        },
        is_shared(value) && !has_idle(before, key) ==> {
            &&& kept_if_room(before, key, value, now, after, task)
            &&& has_idle(after, key)
            &&& forall|i: int|
                0 <= i < waiting_in(before, key).len() && is_eager(
                    #[trigger] waiting_in(before, key)[i],
                ) ==> send_replies(waiting_in(before, key)[i], value, Ok(()))
        },
{
    lemma_seen(before);
    lemma_seen(after);
    let state = before@->0;
    let queue = waiting_in(before, key);
    let shared = choose|shared: bool| #[trigger]
        answers_shareable(value, shared) && if shared && state.idle.contains_key(key) {
            middle == state && task is None
        } else {
            exists|rest: Seq<Sender<T>>, left: Option<T>| #[trigger]
                offered(queue, value, rest, left) && keeps(
                    state.with_waiting(key, rest),
                    key,
                    left,
                    now,
                    middle,
                    task,
                )
        };
    assert(answers_shareable(value, shared));
    if shared && has_idle(before, key) {
        assert forall|other: K| other != key implies #[trigger] same_at(before, after, other) by {}
    } else {
        let (rest, left) = choose|rest: Seq<Sender<T>>, left: Option<T>| #[trigger]
            offered(queue, value, rest, left) && keeps(
                state.with_waiting(key, rest),
                key,
                left,
                now,
                middle,
                task,
            );
        let offered_to = state.with_waiting(key, rest);
        assert(offered_to.idle_at(key) == state.idle_at(key));
        assert forall|other: K| other != key implies #[trigger] same_at(before, after, other) by {
            assert(offered_to.waiting_at(other) == state.waiting_at(other));
        }
        assert(left_is_kept(before, key, left, now, after, task));
        if is_shared(value) {
            lemma_shared_is_taken_and_left(queue, value, rest, left);
        }
    }
}

/// [`Pool::pooled`] does what [`taken_into_use`] says.
pub proof fn law_pooled<T: Poolable, K: Key>(
    before: Pool<T, K>,
    connecting: Connecting<K>,
    value: T,
    now: Instant,
    after: Pool<T, K>,
    connecting_after: Connecting<K>,
    pooled: Pooled<T, K>,
    task: Option<IdleTask>,
)
    requires
        before.wf(),
        exists|pool: &mut Pool<T, K>, right: &mut Connecting<K>|
            *pool == before && *final(pool) == after && *right == connecting && *final(right)
                == connecting_after && #[trigger] call_ensures(
                Pool::<T, K>::pooled,
                (pool, right, value, now),
                (pooled, task),
            ),
    ensures
        taken_into_use(before, connecting, value, now, after, connecting_after, pooled, task),
{
    lemma_seen(before);
    lemma_seen(after);
    assert(pools(before@, connecting, value, now, after@, connecting_after, pooled, task));
    let key = connecting.key;
    if before.inner is None {
        lemma_same_view(before, after);
    } else {
        let state = before@->0;
        let reservation = choose|reservation: Reservation<T>| #[trigger]
            reserves_as(value, reservation) && match reservation {
                Reservation::Shared(to_insert, to_return) => {
                    &&& pooled.value == to_return
                    &&& pooled.pool is None
                    &&& connecting_after.pool is None
                    &&& exists|middle: PoolState<T, K>| #[trigger]
                        puts(state, key, to_insert, now, middle, task) && after@ == Some(
                            middle.connected(key),
                        )
                },
                Reservation::Unique(unique) => {
                    &&& pooled.value == unique
                    &&& pooled.pool == Some(state.id)
                    &&& task is None
                    &&& after@ == connecting_dropped(before@, connecting)
                },
            };
        assert(reserves_as(value, reservation));
        match reservation {
            Reservation::Shared(to_insert, _) => {
                let middle = choose|middle: PoolState<T, K>| #[trigger]
                    puts(state, key, to_insert, now, middle, task) && after@ == Some(
                        middle.connected(key),
                    );
                lemma_shared_put_then_connected(
                    before,
                    key,
                    to_insert,
                    now,
                    middle,
                    after,
                    task,
                );
            },
            Reservation::Unique(_) => {
                if connecting.pool != Some(before.inner->0.id) {
                    lemma_same_view(before, after);
                }
            },
        }
    }
}

} // verus!
