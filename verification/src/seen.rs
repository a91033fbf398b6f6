//! What a pool and its connections look like from outside, for laws to speak of.
//!
//! Everything here is read off the fields of a pool, or says how connections and waiters behave.
//! Of the relations by which the operations are described only [`offered`] is used, and
//! [`law_offer_step`](crate::return_laws::law_offer_step) says what that comes to.

use futures_channel::oneshot::Sender;
use vstd::prelude::*;

use crate::channel::{reports_canceled, same_channel, send_replies};
use crate::idle::Idle;
use crate::interval::IdleTask;
use crate::lists::kept;
use crate::pool::Pool;
use crate::poolable::{answers_open, answers_shareable, reserves_as, Key, Poolable, Reservation};
use crate::time::{Duration, Instant};
use crate::waiters::offered;

verus! {

/// The pool holds a list of idle connections under `key`.
pub open spec fn has_idle<T, K: Key>(pool: Pool<T, K>, key: K) -> bool {
    pool.inner is Some && pool.inner->0.idle@.contains_key(key)
}

/// The connections that are idle under `key`, oldest first.
pub open spec fn idle_in<T, K: Key>(pool: Pool<T, K>, key: K) -> Seq<Idle<T>> {
    if has_idle(pool, key) {
        pool.inner->0.idle@[key]@
    } else {
        Seq::empty()
    }
}

/// The pool holds a queue of waiting checkouts under `key`.
pub open spec fn has_waiting<T, K: Key>(pool: Pool<T, K>, key: K) -> bool {
    pool.inner is Some && pool.inner->0.waiters@.contains_key(key)
}

/// The checkouts that wait under `key`, longest waiting first.
pub open spec fn waiting_in<T, K: Key>(pool: Pool<T, K>, key: K) -> Seq<Sender<T>> {
    if has_waiting(pool, key) {
        pool.inner->0.waiters@[key]@
    } else {
        Seq::empty()
    }
}

/// The pool has `key` down as being connected to.
pub open spec fn is_connecting<T, K: Key>(pool: Pool<T, K>, key: K) -> bool {
    pool.inner is Some && pool.inner->0.connecting@.contains(key)
}

/// An idle task was started for the pool.
pub open spec fn has_task<T, K: Key>(pool: Pool<T, K>) -> bool {
    pool.inner is Some && pool.inner->0.idle_interval_ref is Some
}

/// The pool is set up as it was: nothing that is fixed when a pool is made has changed.
pub open spec fn same_setup<T, K: Key>(before: Pool<T, K>, after: Pool<T, K>) -> bool {
    &&& before.inner is Some <==> after.inner is Some
    &&& before.inner is Some ==> {
        &&& after.inner->0.id == before.inner->0.id
        &&& after.inner->0.max_idle_per_host == before.inner->0.max_idle_per_host
        &&& after.inner->0.has_timer == before.inner->0.has_timer
        &&& after.inner->0.timeout == before.inner->0.timeout
        &&& after.inner->0.timeout_http2 == before.inner->0.timeout_http2
    }
}

/// No idle task was started or given up.
pub open spec fn same_task<T, K: Key>(before: Pool<T, K>, after: Pool<T, K>) -> bool {
    before.inner is Some && after.inner is Some ==> after.inner->0.idle_interval_ref
        == before.inner->0.idle_interval_ref
}

/// What is filed under `key` is what was filed there.
pub open spec fn same_at<T, K: Key>(before: Pool<T, K>, after: Pool<T, K>, key: K) -> bool {
    &&& has_idle(after, key) == has_idle(before, key)
    &&& idle_in(after, key) == idle_in(before, key)
    &&& has_waiting(after, key) == has_waiting(before, key)
    &&& waiting_in(after, key) == waiting_in(before, key)
    &&& is_connecting(after, key) == is_connecting(before, key)
}

/// Nothing is filed otherwise than before, but perhaps under `key`.
pub open spec fn same_but_at<T, K: Key>(before: Pool<T, K>, after: Pool<T, K>, key: K) -> bool {
    &&& same_setup(before, after)
    &&& forall|other: K| other != key ==> #[trigger] same_at(before, after, other)
}

/// The pool holds what it held.
pub open spec fn same_pool<T, K: Key>(before: Pool<T, K>, after: Pool<T, K>) -> bool {
    &&& same_setup(before, after)
    &&& same_task(before, after)
    &&& forall|key: K| #[trigger] same_at(before, after, key)
}

/// More time has passed since `idle_at` than a connection may be idle: one that can be shared for
/// as long as `timeout_http2` says if that says anything, and every other for as long as `timeout`
/// says.
pub open spec fn idle_too_long(
    timeout: Option<Duration>,
    timeout_http2: Option<Duration>,
    shared: bool,
    idle_at: Instant,
    now: Instant,
) -> bool {
    let passed = now.nanos - idle_at.nanos;
    if shared && timeout_http2 is Some {
        passed > timeout_http2->0.nanos
    } else {
        timeout is Some && passed > timeout->0.nanos
    }
}

/// Each connection always answers alike: `open` says whether it is open, and `shared` whether it
/// can be shared.
pub open spec fn steady<T: Poolable>(open: spec_fn(T) -> bool, shared: spec_fn(T) -> bool) -> bool {
    &&& forall|value: T, answer: bool| #[trigger]
        answers_open(value, answer) ==> answer == open(value)
    &&& forall|value: T, answer: bool| #[trigger]
        answers_shareable(value, answer) ==> answer == shared(value)
}

/// The entry is open and has not been idle for too long.
pub open spec fn fit<T: Poolable>(
    open: spec_fn(T) -> bool,
    shared: spec_fn(T) -> bool,
    timeout: Option<Duration>,
    timeout_http2: Option<Duration>,
    now: Instant,
) -> spec_fn(Idle<T>) -> bool {
    |entry: Idle<T>|
        open(entry.value) && !idle_too_long(
            timeout,
            timeout_http2,
            shared(entry.value),
            entry.idle_at,
            now,
        )
}

/// `place` is where the last entry that `fits` stands.
pub open spec fn is_last_fit<T>(
    list: Seq<Idle<T>>,
    fits: spec_fn(Idle<T>) -> bool,
    place: int,
) -> bool {
    &&& 0 <= place < list.len()
    &&& fits(list[place])
    &&& forall|i: int| place < i < list.len() ==> !fits(#[trigger] list[i])
}

/// No entry fits.
pub open spec fn none_fits<T>(list: Seq<Idle<T>>, fits: spec_fn(Idle<T>) -> bool) -> bool {
    forall|i: int| 0 <= i < list.len() ==> !fits(#[trigger] list[i])
}

/// The connection `out` was handed out of the one at `place` in `before`, and `after` is left: all
/// that stood before that place and, of a connection that is shared, the other half, idle from
/// `now` on.
pub open spec fn handed_out<T: Poolable>(
    before: Seq<Idle<T>>,
    place: int,
    now: Instant,
    after: Seq<Idle<T>>,
    out: T,
) -> bool {
    exists|reservation: Reservation<T>| #[trigger]
        reserves_as(before[place].value, reservation) && match reservation {
            Reservation::Shared(stays, goes) => {
                &&& out == goes
                &&& after.len() == place + 1
                &&& forall|i: int| 0 <= i < place ==> #[trigger] after[i] == before[i]
                &&& after[place].value == stays
                &&& after[place].idle_at == now
            },
            Reservation::Unique(goes) => {
                &&& out == goes
                &&& after.len() == place
                &&& forall|i: int| 0 <= i < place ==> #[trigger] after[i] == before[i]
            },
        }
}

/// The waiter says that it is there if `live` says so, and never otherwise.
pub open spec fn steady_waiters<T>(live: spec_fn(Sender<T>) -> bool) -> bool {
    forall|tx: Sender<T>, canceled: bool| #[trigger]
        reports_canceled(tx, canceled) ==> canceled == !live(tx)
}

/// Whenever it is asked, the waiter is gone.
pub open spec fn is_gone<T>(tx: Sender<T>) -> bool {
    forall|canceled: bool| #[trigger] reports_canceled(tx, canceled) ==> canceled
}

/// Whatever it is sent, the waiter refuses.
pub open spec fn refuses<T>(tx: Sender<T>) -> bool {
    forall|value: T, reply: Result<(), T>| #[trigger]
        send_replies(tx, value, reply) ==> reply is Err
}

/// Whenever it is asked, the waiter is there, and it takes whatever it is sent.
pub open spec fn is_eager<T>(tx: Sender<T>) -> bool {
    &&& forall|canceled: bool| #[trigger] reports_canceled(tx, canceled) ==> !canceled
    &&& forall|value: T, reply: Result<(), T>| #[trigger]
        send_replies(tx, value, reply) ==> reply is Ok
}

/// The connection can be used by one at a time, and reserving it changes nothing about it.
pub open spec fn is_unique<T: Poolable>(value: T) -> bool {
    &&& forall|shared: bool| #[trigger] answers_shareable(value, shared) ==> !shared
    &&& forall|reservation: Reservation<T>| #[trigger]
        reserves_as(value, reservation) ==> reservation == Reservation::Unique(value)
}

/// The connection can be used by many at a time, and each half of it is as good as the whole.
pub open spec fn is_shared<T: Poolable>(value: T) -> bool {
    &&& forall|shared: bool| #[trigger] answers_shareable(value, shared) ==> shared
    &&& forall|reservation: Reservation<T>| #[trigger]
        reserves_as(value, reservation) ==> reservation == Reservation::Shared(value, value)
}

/// Whenever it is asked, the connection says that it can be shared.
pub open spec fn is_shareable<T: Poolable>(value: T) -> bool {
    forall|shared: bool| #[trigger] answers_shareable(value, shared) ==> shared
}

/// An idle task is wanted: none was started yet, there is a timer, and connections may be idle for
/// a while but not for ever.
pub open spec fn wants_task<T, K: Key>(pool: Pool<T, K>) -> bool {
    &&& pool.inner is Some
    &&& pool.inner->0.idle_interval_ref is None
    &&& pool.inner->0.has_timer
    &&& pool.inner->0.timeout is Some
    &&& pool.inner->0.timeout->0.nanos > 0
}

/// `task` checks as often as connections expire by the general limit, but not more often than every
/// 90 milliseconds, and the pool holds the other end of its channel.
pub open spec fn runs_for<T, K: Key>(pool: Pool<T, K>, task: IdleTask) -> bool {
    let limit = pool.inner->0.timeout->0.nanos;
    &&& task.duration.nanos >= limit
    &&& task.duration.nanos >= 90_000_000
    &&& task.duration.nanos == limit || task.duration.nanos == 90_000_000
    &&& pool.inner->0.idle_interval_ref is Some
    &&& same_channel(pool.inner->0.idle_interval_ref->0, task.pool_drop_notifier)
}

/// An idle task is started if one is wanted, and otherwise none is.
pub open spec fn task_started<T, K: Key>(
    before: Pool<T, K>,
    after: Pool<T, K>,
    task: Option<IdleTask>,
) -> bool {
    &&& wants_task(before) ==> task is Some && runs_for(after, task->0)
    &&& !wants_task(before) ==> task is None && same_task(before, after)
}

/// The idle connections under `key` stay as they are, and no idle task is started.
pub open spec fn idle_stays<T, K: Key>(
    before: Pool<T, K>,
    key: K,
    after: Pool<T, K>,
    task: Option<IdleTask>,
) -> bool {
    &&& has_idle(after, key) == has_idle(before, key)
    &&& idle_in(after, key) == idle_in(before, key)
    &&& same_task(before, after)
    &&& task is None
}

/// There was room for one more idle connection under `key`, and there is one more, idle from `now`
/// on and behind the others. An idle task is started if one is wanted.
pub open spec fn one_more_idle<T, K: Key>(
    before: Pool<T, K>,
    key: K,
    now: Instant,
    after: Pool<T, K>,
    task: Option<IdleTask>,
) -> bool {
    &&& idle_in(before, key).len() < before.inner->0.max_idle_per_host
    &&& has_idle(after, key)
    &&& idle_in(after, key).len() == idle_in(before, key).len() + 1
    &&& forall|i: int|
        0 <= i < idle_in(before, key).len() ==> #[trigger] idle_in(after, key)[i] == idle_in(
            before,
            key,
        )[i]
    &&& idle_in(after, key).last().idle_at == now
    &&& task_started(before, after, task)
}

/// If there is room, `value` is the last of the idle connections under `key`, from `now` on, and an
/// idle task is started if one is wanted. If there is none, they stay as they are.
pub open spec fn kept_if_room<T, K: Key>(
    before: Pool<T, K>,
    key: K,
    value: T,
    now: Instant,
    after: Pool<T, K>,
    task: Option<IdleTask>,
) -> bool {
    if idle_in(before, key).len() < before.inner->0.max_idle_per_host {
        &&& one_more_idle(before, key, now, after, task)
        &&& idle_in(after, key).last().value == value
    } else {
        idle_stays(before, key, after, task)
    }
}

/// All waiters in `queue` that stand before `place` are gone or refuse what they are sent.
pub open spec fn none_takes_before<T>(queue: Seq<Sender<T>>, place: int) -> bool {
    forall|i: int| 0 <= i < place ==> is_gone(#[trigger] queue[i]) || refuses(queue[i])
}

/// What becomes of the idle connections under `key` if a connection is offered to all who wait
/// there and `left` of it is left.
pub open spec fn left_is_kept<T, K: Key>(
    before: Pool<T, K>,
    key: K,
    left: Option<T>,
    now: Instant,
    after: Pool<T, K>,
    task: Option<IdleTask>,
) -> bool {
    match left {
        Some(value) => kept_if_room(before, key, value, now, after, task),
        None => idle_stays(before, key, after, task),
    }
}

/// What becomes of a connection that is put into an enabled pool under `key` at `now`.
///
/// One that says it can be shared is not needed if there is an idle one already. Any other is
/// offered to those who wait, and what they leave is kept if there is room.
///
/// In particular, one that can be shared is not needed if there is an idle one already. One that is used by one
/// at a time goes to the longest waiting checkout that takes it: those before it no longer wait,
/// those behind it still do. One that is shared goes to all who wait. What nobody took, or what is
/// left of a shared one, is kept if there is room. Nothing else changes.
///
/// Whatever the connection and the waiters answer, waiters are served from the front, at most one
/// connection becomes idle, and while somebody still waits none does.
pub open spec fn put_there<T: Poolable, K: Key>(
    before: Pool<T, K>,
    key: K,
    value: T,
    now: Instant,
    after: Pool<T, K>,
    task: Option<IdleTask>,
) -> bool {
    let queue = waiting_in(before, key);
    &&& same_but_at(before, after, key)
    &&& is_connecting(after, key) == is_connecting(before, key)
    &&& waiting_in(after, key).len() <= queue.len()
    &&& waiting_in(after, key) == queue.skip(queue.len() - waiting_in(after, key).len())
    &&& has_waiting(after, key) == (waiting_in(after, key).len() > 0)
    &&& idle_stays(before, key, after, task) || one_more_idle(before, key, now, after, task)
    &&& has_waiting(after, key) ==> idle_stays(before, key, after, task)
    &&& exists|shared: bool| #[trigger]
        answers_shareable(value, shared) && if shared && has_idle(before, key) {
            same_pool(before, after) && task is None
        } else {
            exists|left: Option<T>| #[trigger]
                offered(queue, value, waiting_in(after, key), left) && left_is_kept(
                    before,
                    key,
                    left,
                    now,
                    after,
                    task,
                )
        }
    &&& is_shareable(value) && has_idle(before, key) ==> same_pool(before, after) && task is None
    &&& is_unique(value) ==> forall|place: int|
        0 <= place < queue.len() && none_takes_before(queue, place) && is_eager(
            #[trigger] queue[place],
        ) ==> {
            &&& send_replies(queue[place], value, Ok(()))
            &&& waiting_in(after, key) == queue.skip(place + 1)
            &&& has_waiting(after, key) == (place + 1 < queue.len())
            &&& idle_stays(before, key, after, task)
        }
    &&& is_unique(value) && none_takes_before(queue, queue.len() as int) ==> {
        &&& !has_waiting(after, key)
        &&& kept_if_room(before, key, value, now, after, task)
    }
    &&& is_shared(value) && !has_idle(before, key) ==> {
        &&& !has_waiting(after, key)
        &&& forall|i: int|
            0 <= i < queue.len() && is_eager(#[trigger] queue[i]) ==> send_replies(
                queue[i],
                value,
                Ok(()),
            )
        &&& kept_if_room(before, key, value, now, after, task)
    }
}

/// What a pool shows is what its view holds.
pub proof fn lemma_seen<T, K: Key>(pool: Pool<T, K>)
    ensures
        pool@ is Some <==> pool.inner is Some,
        pool.inner is Some ==> {
            &&& pool@->0.id == pool.inner->0.id
            &&& pool@->0.max_idle_per_host == pool.inner->0.max_idle_per_host
            &&& pool@->0.has_timer == pool.inner->0.has_timer
            &&& pool@->0.timeout == pool.inner->0.timeout
            &&& pool@->0.timeout_http2 == pool.inner->0.timeout_http2
            &&& pool@->0.idle_interval_ref == pool.inner->0.idle_interval_ref
            &&& forall|key: K| #[trigger] has_idle(pool, key) == pool@->0.idle.contains_key(key)
            &&& forall|key: K| #[trigger] idle_in(pool, key) == pool@->0.idle_at(key)
            &&& forall|key: K| #[trigger]
                has_waiting(pool, key) == pool@->0.waiters.contains_key(key)
            &&& forall|key: K| #[trigger] waiting_in(pool, key) == pool@->0.waiting_at(key)
            &&& forall|key: K| #[trigger]
                is_connecting(pool, key) == pool@->0.connecting.contains(key)
        },
{
}

/// Two pools whose views are the same hold the same.
pub proof fn lemma_same_view<T, K: Key>(before: Pool<T, K>, after: Pool<T, K>)
    requires
        after@ == before@,
    ensures
        same_pool(before, after),
{
    lemma_seen(before);
    lemma_seen(after);
}

/// Keeping what is marked is filtering, if the marks say what the filter says.
pub proof fn lemma_kept_is_filter<A>(items: Seq<A>, keep: Seq<bool>, pred: spec_fn(A) -> bool)
    requires
        items.len() == keep.len(),
        forall|i: int| 0 <= i < items.len() ==> keep[i] == pred(#[trigger] items[i]),
    ensures
        kept(items, keep) == items.filter(pred),
    decreases items.len(),
{
    reveal(Seq::filter);
    if items.len() > 0 {
        let shorter = items.drop_last();
        assert forall|i: int| 0 <= i < shorter.len() implies keep.drop_last()[i] == pred(
            #[trigger] shorter[i],
        ) by {
            assert(shorter[i] == items[i]);
        }
        lemma_kept_is_filter(shorter, keep.drop_last(), pred);
        assert(keep[items.len() - 1] == pred(items[items.len() - 1]));
    } else {
        assert(kept(items, keep) =~= items.filter(pred));
    }
}

} // verus!
