//! What holds of the pool across operations.

use std::task::Context;

use futures_channel::oneshot::{Receiver, Sender};
use vstd::prelude::*;

use crate::channel::{
    lemma_value_was_sent, poll_replies, reports_canceled, same_channel, send_replies, Polled,
};
use crate::checkout::{checks_out, polls, waiter_answers, Checkout, Poll};
use crate::error::Error;
use crate::expiration::is_expired;
use crate::idle::{
    asked_open, counts_open, found_usable, judged, popped_at, pops, reserved_from, swept,
    turned_down, Idle,
};
use crate::interval::{IdleTask, MIN_CHECK_NANOS};
use crate::lists::{kept, lemma_kept_contains, lemma_kept_index, lemma_kept_len};
use crate::pool::{
    checkout_dropped, connecting_dropped, connects, gives_back, pools, reuses, Connecting, Pooled,
};
use crate::poolable::{
    answers_open, answers_shareable, reserves_as, Key, Poolable, Reservation, Ver,
};
use crate::state::{cleans, clears, id_of, keeps, parks, puts, spawns, takes, PoolState};
use crate::time::{Duration, Instant};
use crate::waiters::{asked_live, cleaned, given_half, handed, kept_half, left_by_reply, offered};

verus! {

/// Whenever it is asked, the connection is open.
pub open spec fn stays_open<T: Poolable>(value: T) -> bool {
    forall|answer: bool| #[trigger] answers_open(value, answer) ==> answer
}

/// Whenever it is asked, the connection is closed.
pub open spec fn stays_closed<T: Poolable>(value: T) -> bool {
    forall|answer: bool| #[trigger] answers_open(value, answer) ==> !answer
}

/// The connection is not expired at `now`, whether it says that it can be shared or that it
/// cannot.
pub open spec fn stays_fresh<T: Poolable>(
    entry: Idle<T>,
    timeout: Option<Duration>,
    timeout_http2: Option<Duration>,
    now: Instant,
) -> bool {
    forall|shared: bool| #[trigger]
        answers_shareable(entry.value, shared) ==> !is_expired(
            timeout,
            timeout_http2,
            shared,
            entry.idle_at,
            now,
        )
}

/// The connection is closed or expired at `now`, whatever it says.
pub open spec fn is_stale<T: Poolable>(
    entry: Idle<T>,
    timeout: Option<Duration>,
    timeout_http2: Option<Duration>,
    now: Instant,
) -> bool {
    ||| stays_closed(entry.value)
    ||| forall|shared: bool| #[trigger]
        answers_shareable(entry.value, shared) ==> is_expired(
            timeout,
            timeout_http2,
            shared,
            entry.idle_at,
            now,
        )
}

/// A connection that the pool keeps, and that is open and not expired, is what the next checkout
/// is given a reservation of: the connection last put is the first taken. If the reservation is
/// unique, the checkout undoes the put. If it is shared, the other half is kept.
pub proof fn law_put_then_take<T: Poolable, K>(
    before: PoolState<T, K>,
    key: K,
    value: T,
    at: Instant,
    middle: PoolState<T, K>,
    task: Option<IdleTask>,
    now: Instant,
    after: PoolState<T, K>,
    popped: Option<Idle<T>>,
) -> (reservation: Reservation<T>)
    requires
        before.wf(),
        before.waiting_at(key).len() == 0,
        before.idle_at(key).len() < before.max_idle_per_host,
        before.idle.contains_key(key) ==> !answers_shareable(value, true),
        puts(before, key, value, at, middle, task),
        stays_open(value),
        stays_fresh(
            Idle { idle_at: at, value },
            before.timeout,
            before.timeout_http2,
            now,
        ),
        takes(middle, key, now, after, popped),
    ensures
        reserves_as(value, reservation),
        popped == Some(Idle { idle_at: at, value: given_half(reservation) }),
        after.idle_at(key) == (match kept_half(reservation) {
            Some(half) => before.idle_at(key).push(Idle { idle_at: now, value: half }),
            None => before.idle_at(key),
        }),
        after.waiters == before.waiters,
        after.connecting == before.connecting,
{
    let entry = Idle { idle_at: at, value };
    let list = middle.idle_at(key);
    lemma_put_without_waiters(before, key, value, at, middle, task);
    assert(list =~= before.idle_at(key).push(entry));
    let left = choose|left: Seq<Idle<T>>| #[trigger]
        pops(list, middle.timeout, middle.timeout_http2, now, left, popped) && after
            == middle.with_idle(key, left);
    assert(!turned_down(entry, middle.timeout, middle.timeout_http2, now));
    assert(list[list.len() - 1] == entry);
    assert(popped is Some);
    let place = choose|place: int| #[trigger]
        popped_at(
            list,
            place,
            middle.timeout,
            middle.timeout_http2,
            now,
            left,
            popped->0,
        );
    assert(place == list.len() - 1);
    assert(list.take(place) =~= before.idle_at(key));
    let reservation = choose|reservation: Reservation<T>| #[trigger]
        reserves_as(value, reservation) && match reservation {
            Reservation::Shared(to_reinsert, to_checkout) => {
                &&& left == list.take(place).push(Idle { idle_at: now, value: to_reinsert })
                &&& popped->0.value == to_checkout
            },
            Reservation::Unique(unique) => {
                &&& left == list.take(place)
                &&& popped->0.value == unique
            },
        };
    assert(after.idle_at(key) =~= left);
    reservation
}

/// Without waiters, a connection that does not find another to share goes to the end of the idle
/// ones.
proof fn lemma_put_without_waiters<T: Poolable, K>(
    before: PoolState<T, K>,
    key: K,
    value: T,
    now: Instant,
    after: PoolState<T, K>,
    task: Option<IdleTask>,
)
    requires
        before.wf(),
        before.waiting_at(key).len() == 0,
        before.idle.contains_key(key) ==> !answers_shareable(value, true),
        puts(before, key, value, now, after, task),
    ensures
        keeps(before, key, Some(value), now, after, task),
{
    let (rest, left) = choose|rest: Seq<Sender<T>>, left: Option<T>| #[trigger]
        offered(before.waiting_at(key), value, rest, left) && keeps(
            before.with_waiting(key, rest),
            key,
            left,
            now,
            after,
            task,
        );
    assert(!before.waiters.contains_key(key));
    assert(before.with_waiting(key, rest) =~= before);
}

/// A checkout is only ever given a connection that was filed under its key, said that it is open
/// and was not expired.
pub proof fn law_taken_is_usable<T: Poolable, K>(
    before: PoolState<T, K>,
    key: K,
    now: Instant,
    after: PoolState<T, K>,
    popped: Option<Idle<T>>,
) -> (place: int)
    requires
        takes(before, key, now, after, popped),
        popped is Some,
    ensures
        0 <= place < before.idle_at(key).len(),
        found_usable(
            before.idle_at(key)[place],
            before.timeout,
            before.timeout_http2,
            now,
        ),
        popped->0.idle_at == before.idle_at(key)[place].idle_at,
        exists|reservation: Reservation<T>| #[trigger]
            reserves_as(before.idle_at(key)[place].value, reservation) && popped->0.value
                == given_half(reservation),
{
    let list = before.idle_at(key);
    let left = choose|left: Seq<Idle<T>>| #[trigger]
        pops(list, before.timeout, before.timeout_http2, now, left, popped) && after
            == before.with_idle(key, left);
    let place = choose|place: int| #[trigger]
        popped_at(
            list,
            place,
            before.timeout,
            before.timeout_http2,
            now,
            left,
            popped->0,
        );
    assert(reserved_from(list[place].value, list.take(place), now, left, popped->0.value));
    let reservation = choose|reservation: Reservation<T>| #[trigger]
        reserves_as(list[place].value, reservation) && match reservation {
            Reservation::Shared(_, to_checkout) => popped->0.value == to_checkout,
            Reservation::Unique(unique) => popped->0.value == unique,
        };
    assert(popped->0.value == given_half(reservation));
    place
}

/// If every connection filed under a key is closed or expired, a checkout is given none of them,
/// and all are gone.
pub proof fn law_stale_is_removed<T: Poolable, K>(
    before: PoolState<T, K>,
    key: K,
    now: Instant,
    after: PoolState<T, K>,
    popped: Option<Idle<T>>,
)
    requires
        forall|i: int|
            0 <= i < before.idle_at(key).len() ==> is_stale(
                #[trigger] before.idle_at(key)[i],
                before.timeout,
                before.timeout_http2,
                now,
            ),
        takes(before, key, now, after, popped),
    ensures
        popped is None,
        !after.idle.contains_key(key),
{
    if popped is Some {
        let place = law_taken_is_usable(before, key, now, after, popped);
        assert(is_stale(
            before.idle_at(key)[place],
            before.timeout,
            before.timeout_http2,
            now,
        ));
    }
}

/// A checkout that finds no usable connection leaves none behind under its key.
pub proof fn law_nothing_taken_nothing_left<T: Poolable, K>(
    before: PoolState<T, K>,
    key: K,
    now: Instant,
    after: PoolState<T, K>,
)
    requires
        takes(before, key, now, after, None),
    ensures
        !after.idle.contains_key(key),
        after.idle_at(key).len() == 0,
{
}

/// After a shared reservation was taken there is still an idle connection under the key: the pool
/// always keeps a copy.
pub proof fn law_shared_stays<T: Poolable, K>(
    before: PoolState<T, K>,
    key: K,
    now: Instant,
    after: PoolState<T, K>,
    popped: Option<Idle<T>>,
)
    requires
        forall|i: int, reservation: Reservation<T>|
            0 <= i < before.idle_at(key).len() && #[trigger] reserves_as(
                before.idle_at(key)[i].value,
                reservation,
            ) ==> reservation is Shared,
        takes(before, key, now, after, popped),
        popped is Some,
    ensures
        after.idle.contains_key(key),
        after.idle_at(key).last().idle_at == now,
{
    let list = before.idle_at(key);
    let left = choose|left: Seq<Idle<T>>| #[trigger]
        pops(list, before.timeout, before.timeout_http2, now, left, popped) && after
            == before.with_idle(key, left);
    let place = choose|place: int| #[trigger]
        popped_at(
            list,
            place,
            before.timeout,
            before.timeout_http2,
            now,
            left,
            popped->0,
        );
    assert(reserved_from(list[place].value, list.take(place), now, left, popped->0.value));
}

/// A connection for which there is neither a waiter nor room is dropped, and nothing changes: no
/// more connections are idle under a key than may be kept.
pub proof fn law_full_pool_drops<T: Poolable, K>(
    before: PoolState<T, K>,
    key: K,
    value: T,
    now: Instant,
    after: PoolState<T, K>,
    task: Option<IdleTask>,
)
    requires
        before.wf(),
        before.waiting_at(key).len() == 0,
        before.idle_at(key).len() >= before.max_idle_per_host,
        puts(before, key, value, now, after, task),
    ensures
        after == before,
        task is None,
{
    if exists|shared: bool| #[trigger]
        answers_shareable(value, shared) && shared && after == before && task is None {
    } else {
        let (rest, left) = choose|rest: Seq<Sender<T>>, left: Option<T>| #[trigger]
            offered(before.waiting_at(key), value, rest, left) && keeps(
                before.with_waiting(key, rest),
                key,
                left,
                now,
                after,
                task,
            );
        assert(!before.waiters.contains_key(key));
        assert(before.with_waiting(key, rest) =~= before);
    }
}

/// A connection that can be shared and finds another already idle under its key is dropped, and
/// nothing changes.
pub proof fn law_second_shared_is_dropped<T: Poolable, K>(
    before: PoolState<T, K>,
    key: K,
    value: T,
    now: Instant,
    after: PoolState<T, K>,
    task: Option<IdleTask>,
)
    requires
        before.idle.contains_key(key),
        !answers_shareable(value, false),
        puts(before, key, value, now, after, task),
    ensures
        after == before,
        task is None,
{
}

/// Putting a connection under one key leaves all that is filed under other keys as it was, and
/// so do the pending connects.
pub proof fn law_put_touches_one_key<T: Poolable, K>(
    before: PoolState<T, K>,
    key: K,
    value: T,
    now: Instant,
    after: PoolState<T, K>,
    task: Option<IdleTask>,
    other: K,
)
    requires
        puts(before, key, value, now, after, task),
        other != key,
    ensures
        after.idle_at(other) == before.idle_at(other),
        after.idle.contains_key(other) == before.idle.contains_key(other),
        after.waiting_at(other) == before.waiting_at(other),
        after.connecting == before.connecting,
{
    if after != before {
        let (rest, left) = choose|rest: Seq<Sender<T>>, left: Option<T>| #[trigger]
            offered(before.waiting_at(key), value, rest, left) && keeps(
                before.with_waiting(key, rest),
                key,
                left,
                now,
                after,
                task,
            );
        let offered_to = before.with_waiting(key, rest);
        assert(offered_to.waiting_at(other) == before.waiting_at(other));
    }
}

/// A checkout under one key leaves all that is filed under other keys as it was.
pub proof fn law_checkout_touches_one_key<T: Poolable, K: Key>(
    before: PoolState<T, K>,
    request: Checkout<T, K>,
    now: Instant,
    context: Context<'_>,
    after: PoolState<T, K>,
    request_after: Checkout<T, K>,
    got: Option<Pooled<T, K>>,
    other: K,
)
    requires
        checks_out(before, request, now, context, after, request_after, got),
        other != request.key,
    ensures
        after.idle_at(other) == before.idle_at(other),
        after.idle.contains_key(other) == before.idle.contains_key(other),
        after.waiting_at(other) == before.waiting_at(other),
        after.connecting == before.connecting,
{
    let (taken, popped) = choose|taken: PoolState<T, K>, popped: Option<Idle<T>>| #[trigger]
        takes(before, request.key, now, taken, popped) && if popped is Some {
            after == taken
        } else if request.waiter is Some {
            after == taken
        } else {
            parks(taken, request.key, context, after, request_after.waiter->0)
        };
    let left = choose|left: Seq<Idle<T>>| #[trigger]
        pops(
            before.idle_at(request.key),
            before.timeout,
            before.timeout_http2,
            now,
            left,
            popped,
        ) && taken == before.with_idle(request.key, left);
    assert(taken.idle_at(other) == before.idle_at(other));
    assert(taken.waiting_at(other) == before.waiting_at(other));
}

/// Dropping the waiters under one key that are gone leaves the waiters under other keys as they
/// were.
pub proof fn law_cleaning_touches_one_key<T, K>(
    before: PoolState<T, K>,
    key: K,
    after: PoolState<T, K>,
    other: K,
)
    requires
        cleans(before, key, after),
        other != key,
    ensures
        after.idle == before.idle,
        after.waiting_at(other) == before.waiting_at(other),
        after.connecting == before.connecting,
{
}

/// The waiters that are there whenever they are asked stay when those that are gone are dropped.
pub proof fn law_cleaning_spares_live<T, K>(
    before: PoolState<T, K>,
    key: K,
    after: PoolState<T, K>,
)
    requires
        cleans(before, key, after),
        forall|i: int|
            0 <= i < before.waiting_at(key).len() ==> !reports_canceled(
                #[trigger] before.waiting_at(key)[i],
                true,
            ),
    ensures
        after.waiting_at(key) == before.waiting_at(key),
{
    let queue = before.waiting_at(key);
    let left = choose|left: Seq<Sender<T>>| #[trigger]
        cleaned(queue, left) && after == before.with_waiting(key, left);
    let keep = choose|keep: Seq<bool>| #[trigger]
        asked_live(queue, keep) && left == kept(queue, keep);
    assert forall|i: int| 0 <= i < queue.len() implies #[trigger] keep[i] by {
        assert(reports_canceled(queue[i], !keep[i]));
    }
    lemma_kept_all(queue, keep);
    assert(after.waiting_at(key) =~= left);
}

/// If all waiters under a key are gone, none is left, and the key is not filed any longer.
pub proof fn law_cleaning_removes_gone<T, K>(
    before: PoolState<T, K>,
    key: K,
    after: PoolState<T, K>,
)
    requires
        cleans(before, key, after),
        forall|i: int|
            0 <= i < before.waiting_at(key).len() ==> !reports_canceled(
                #[trigger] before.waiting_at(key)[i],
                false,
            ),
    ensures
        !after.waiters.contains_key(key),
{
    let queue = before.waiting_at(key);
    let left = choose|left: Seq<Sender<T>>| #[trigger]
        cleaned(queue, left) && after == before.with_waiting(key, left);
    let keep = choose|keep: Seq<bool>| #[trigger]
        asked_live(queue, keep) && left == kept(queue, keep);
    if left.len() > 0 {
        let from = lemma_kept_index(queue, keep, 0);
        assert(reports_canceled(queue[from], !keep[from]));
    }
}

/// A checkout that is dropped while it waits is no longer among the waiters. The others stay, in
/// their order, if they are there whenever they are asked, and if there were no others, the key is
/// not filed any longer.
pub proof fn law_dropped_checkout_leaves_queue<T, K: Key>(
    before: PoolState<T, K>,
    checkout: Checkout<T, K>,
    place: int,
    after: Option<PoolState<T, K>>,
)
    requires
        checkout.waiter is Some,
        0 <= place < before.waiting_at(checkout.key).len(),
        same_channel(before.waiting_at(checkout.key)[place], checkout.waiter->0),
        forall|i: int|
            0 <= i < before.waiting_at(checkout.key).len() && i != place ==> !reports_canceled(
                #[trigger] before.waiting_at(checkout.key)[i],
                true,
            ),
        checkout_dropped(Some(before), checkout, after),
    ensures
        after is Some,
        after->0.waiting_at(checkout.key) == before.waiting_at(checkout.key).remove(place),
        before.waiting_at(checkout.key).len() == 1 ==> !after->0.waiters.contains_key(
            checkout.key,
        ),
        after->0.idle == before.idle,
        after->0.connecting == before.connecting,
{
    let queue = before.waiting_at(checkout.key);
    let left = choose|left: Seq<Sender<T>>| #[trigger]
        cleaned(queue, left) && after->0 == before.with_waiting(checkout.key, left);
    let keep = choose|keep: Seq<bool>| #[trigger]
        asked_live(queue, keep) && left == kept(queue, keep);
    assert(after->0.waiting_at(checkout.key) =~= left);
    if keep[place] {
        let at = lemma_kept_contains(queue, keep, place);
        assert(!same_channel(left[at], checkout.waiter->0));
    }
    assert forall|i: int| 0 <= i < queue.len() && i != place implies #[trigger] keep[i] by {
        assert(reports_canceled(queue[i], !keep[i]));
    }
    lemma_kept_all_but_one(queue, keep, place);
}

/// A checkout that starts to wait and is then dropped leaves the pool as it was, if the other
/// waiters under its key are there whenever they are asked.
pub proof fn law_park_then_drop<T, K: Key>(
    before: PoolState<T, K>,
    key: K,
    context: Context<'_>,
    middle: PoolState<T, K>,
    rx: Receiver<T>,
    after: Option<PoolState<T, K>>,
)
    requires
        before.wf(),
        parks(before, key, context, middle, rx),
        forall|i: int|
            0 <= i < before.waiting_at(key).len() ==> !reports_canceled(
                #[trigger] before.waiting_at(key)[i],
                true,
            ),
        checkout_dropped(Some(middle), Checkout { key, waiter: Some(rx) }, after),
    ensures
        after == Some(before),
{
    let queue = before.waiting_at(key);
    let tx = choose|tx: Sender<T>| #[trigger]
        same_channel(tx, rx) && middle == before.with_waiting(key, queue.push(tx));
    let checkout = Checkout::<T, K> { key, waiter: Some(rx) };
    assert(middle.waiting_at(key) =~= queue.push(tx));
    assert forall|i: int|
        0 <= i < middle.waiting_at(key).len() && i != queue.len() implies !reports_canceled(
        #[trigger] middle.waiting_at(key)[i],
        true,
    ) by {
        assert(middle.waiting_at(key)[i] == queue[i]);
    }
    law_dropped_checkout_leaves_queue(middle, checkout, queue.len() as int, after);
    assert(queue.push(tx).remove(queue.len() as int) =~= queue);
    assert(after->0.waiters =~= before.waiters);
    assert(after->0 =~= before);
}

/// If all but one are marked, all but that one are kept.
proof fn lemma_kept_all_but_one<A>(items: Seq<A>, keep: Seq<bool>, place: int)
    requires
        items.len() == keep.len(),
        0 <= place < items.len(),
        !keep[place],
        forall|i: int| 0 <= i < items.len() && i != place ==> #[trigger] keep[i],
    ensures
        kept(items, keep) == items.remove(place),
    decreases items.len(),
{
    assert forall|i: int| 0 <= i < items.len() - 1 && i != place implies #[trigger] keep.drop_last()[
        i] by {
        assert(keep[i]);
    }
    if place == items.len() - 1 {
        lemma_kept_all(items.drop_last(), keep.drop_last());
        assert(items.remove(place) =~= items.drop_last());
    } else {
        lemma_kept_all_but_one(items.drop_last(), keep.drop_last(), place);
        assert(keep[items.len() - 1]);
        assert(items.remove(place) =~= items.drop_last().remove(place).push(items.last()));
    }
}

/// Under no key are there both idle connections and checkouts that wait for one.
pub proof fn law_idle_or_waiting<T, K>(state: PoolState<T, K>, key: K)
    requires
        state.wf(),
    ensures
        state.idle_at(key).len() == 0 || state.waiting_at(key).len() == 0,
{
}

/// There is only ever one connecting task for HTTP/2 under a key: while one was granted and not
/// given up, another is refused and nothing changes.
pub proof fn law_one_connecting<T, K: Key>(
    before: PoolState<T, K>,
    key: K,
    middle: Option<PoolState<T, K>>,
    first: Option<Connecting<K>>,
    after: Option<PoolState<T, K>>,
    second: Option<Connecting<K>>,
)
    requires
        connects(Some(before), key, Ver::Http2, middle, first),
        connects(middle, key, Ver::Http2, after, second),
    ensures
        second is None,
        after == middle,
{
}

/// Once a granted connecting task for HTTP/2 is given up, another is granted under its key, nobody
/// waits there any longer, and no other key is affected.
pub proof fn law_connecting_again<T, K: Key>(
    before: PoolState<T, K>,
    key: K,
    middle: Option<PoolState<T, K>>,
    first: Connecting<K>,
    after: Option<PoolState<T, K>>,
    second: Option<Connecting<K>>,
)
    requires
        connects(Some(before), key, Ver::Http2, middle, Some(first)),
        connects(connecting_dropped(middle, first), key, Ver::Http2, after, second),
    ensures
        connecting_dropped(middle, first) is Some,
        connecting_dropped(middle, first)->0.connecting == before.connecting,
        connecting_dropped(middle, first)->0.waiting_at(key).len() == 0,
        connecting_dropped(middle, first)->0.idle == before.idle,
        second == Some(first),
{
    assert(middle->0.connecting.remove(key) =~= before.connecting);
}

/// The waiter is there whenever it is asked, and takes whatever it is sent.
pub open spec fn takes_anything<T>(tx: Sender<T>) -> bool {
    &&& forall|canceled: bool| #[trigger] reports_canceled(tx, canceled) ==> !canceled
    &&& forall|value: T, reply: Result<(), T>| #[trigger]
        send_replies(tx, value, reply) ==> reply is Ok
}

/// The waiter behind `tx` was handed its half of a connection, and took it.
pub open spec fn was_served<T: Poolable>(tx: Sender<T>) -> bool {
    exists|value: T, reservation: Reservation<T>| #[trigger]
        handed(tx, value, reservation, Ok(()))
}

/// A connection whose reservations are all shared is offered to every waiter: each that takes
/// what it is sent is handed a half, nobody is left waiting, and something of the connection is
/// left for the pool to keep.
pub proof fn law_shared_serves_all<T: Poolable>(
    queue: Seq<Sender<T>>,
    value: T,
    rest: Seq<Sender<T>>,
    left: Option<T>,
)
    requires
        forall|any: T, reservation: Reservation<T>| #[trigger]
            reserves_as(any, reservation) ==> reservation is Shared,
        offered(queue, value, rest, left),
    ensures
        rest.len() == 0,
        left is Some,
        forall|i: int|
            0 <= i < queue.len() && takes_anything(#[trigger] queue[i]) ==> was_served(queue[i]),
    decreases queue.len(),
{
    if queue.len() > 0 {
        let behind = queue.drop_first();
        let next = if reports_canceled(queue[0], true) && offered(behind, value, rest, left) {
            value
        } else {
            let (reservation, reply) = choose|reservation: Reservation<T>, reply: Result<(), T>|
                #[trigger]
                handed(queue[0], value, reservation, reply) && match left_by_reply(
                    kept_half(reservation),
                    reply,
                ) {
                    Some(next) => offered(behind, next, rest, left),
                    None => rest == behind && left is None,
                };
            if takes_anything(queue[0]) {
                match reply {
                    Ok(unit) => {
                        assert(unit == ());
                    },
                    Err(_) => {},
                }
            }
            left_by_reply(kept_half(reservation), reply)->0
        };
        law_shared_serves_all(behind, next, rest, left);
        assert forall|i: int|
            0 <= i < queue.len() && takes_anything(#[trigger] queue[i]) implies was_served(
            queue[i],
        ) by {
            if i > 0 {
                assert(behind[i - 1] == queue[i]);
            }
        }
    }
}

/// A connection that cannot be shared goes to the longest waiting checkout if that is still
/// there: it is sent the connection and no longer waits, the other waiters stay, and the idle
/// connections are not touched.
pub proof fn law_first_waiter_is_served<T: Poolable, K>(
    before: PoolState<T, K>,
    key: K,
    value: T,
    now: Instant,
    after: PoolState<T, K>,
    task: Option<IdleTask>,
)
    requires
        before.waiting_at(key).len() > 0,
        takes_anything(before.waiting_at(key)[0]),
        !answers_shareable(value, true),
        forall|reservation: Reservation<T>| #[trigger]
            reserves_as(value, reservation) ==> reservation is Unique,
        puts(before, key, value, now, after, task),
    ensures
        exists|reservation: Reservation<T>| #[trigger]
            handed(before.waiting_at(key)[0], value, reservation, Ok(())),
        after == before.with_waiting(key, before.waiting_at(key).drop_first()),
        task is None,
{
    let queue = before.waiting_at(key);
    let (rest, left) = choose|rest: Seq<Sender<T>>, left: Option<T>| #[trigger]
        offered(queue, value, rest, left) && keeps(
            before.with_waiting(key, rest),
            key,
            left,
            now,
            after,
            task,
        );
    assert(!reports_canceled(queue[0], true));
    let (reservation, reply) = choose|reservation: Reservation<T>, reply: Result<(), T>|
        #[trigger]
        handed(queue[0], value, reservation, reply) && match left_by_reply(
            kept_half(reservation),
            reply,
        ) {
            Some(next) => offered(queue.drop_first(), next, rest, left),
            None => rest == queue.drop_first() && left is None,
        };
    match reply {
        Ok(unit) => {
            assert(unit == ());
        },
        Err(_) => {},
    }
    assert(reply == Ok::<(), T>(()));
}

/// A checkout that waits alone and is still there when a connection is put under its key is sent
/// that connection, on the channel whose other end it holds.
pub proof fn law_parked_is_served<T: Poolable, K>(
    before: PoolState<T, K>,
    key: K,
    context: Context<'_>,
    middle: PoolState<T, K>,
    rx: Receiver<T>,
    value: T,
    now: Instant,
    after: PoolState<T, K>,
    task: Option<IdleTask>,
) -> (tx: Sender<T>)
    requires
        before.waiting_at(key).len() == 0,
        parks(before, key, context, middle, rx),
        forall|tx: Sender<T>| #[trigger] same_channel(tx, rx) ==> takes_anything(tx),
        !answers_shareable(value, true),
        forall|reservation: Reservation<T>| #[trigger]
            reserves_as(value, reservation) ==> reservation is Unique,
        puts(middle, key, value, now, after, task),
    ensures
        same_channel(tx, rx),
        exists|reservation: Reservation<T>| #[trigger] handed(tx, value, reservation, Ok(())),
        !after.waiters.contains_key(key),
        after.idle == before.idle,
{
    let tx = choose|tx: Sender<T>| #[trigger]
        same_channel(tx, rx) && middle == before.with_waiting(
            key,
            before.waiting_at(key).push(tx),
        );
    assert(middle.waiting_at(key) =~= seq![tx]);
    law_first_waiter_is_served(middle, key, value, now, after, task);
    tx
}

/// A checkout whose channel yields a connection that is open, if it yields anything, returns that
/// connection as one that was reused, or goes on waiting on the same channel. Either way the pool
/// stays as it was.
pub proof fn law_delivered_is_returned<T: Poolable, K: Key>(
    before: Option<PoolState<T, K>>,
    request: Checkout<T, K>,
    now: Instant,
    context: Context<'_>,
    after: Option<PoolState<T, K>>,
    request_after: Checkout<T, K>,
    answer: Poll<Result<Pooled<T, K>, Error>>,
    value: T,
)
    requires
        request.waiter is Some,
        forall|reply: Polled<T>| #[trigger]
            poll_replies(request.waiter->0, context, reply) ==> reply is Pending || reply
                == Polled::Value(value),
        stays_open(value),
        polls(before, request, now, context, after, request_after, answer),
    ensures
        after == before,
        match answer {
            Poll::Pending => request_after == request,
            Poll::Ready(result) => {
                &&& result is Ok
                &&& result->Ok_0.value == value
                &&& result->Ok_0.key == request.key
                &&& result->Ok_0.is_reused
                &&& request_after.waiter is None
            },
        },
{
}

/// What a checkout that waits returns was sent to it, on the channel whose other end it holds, and
/// the sender was told that it was taken.
pub proof fn law_returned_was_sent<T: Poolable, K: Key>(
    before: Option<PoolState<T, K>>,
    request: Checkout<T, K>,
    now: Instant,
    context: Context<'_>,
    after: Option<PoolState<T, K>>,
    request_after: Checkout<T, K>,
    pooled: Pooled<T, K>,
) -> (tx: Sender<T>)
    requires
        request.waiter is Some,
        polls(before, request, now, context, after, request_after, Poll::Ready(Ok(pooled))),
    ensures
        same_channel(tx, request.waiter->0),
        send_replies(tx, pooled.value, Ok(())),
{
    let answer = Poll::<Result<Pooled<T, K>, Error>>::Ready(Ok(pooled));
    let rx = request.waiter->0;
    let reply = choose|reply: Polled<T>| #[trigger]
        poll_replies(rx, context, reply) && waiter_answers(id_of(before), request.key, reply, answer);
    assert(reply == Polled::Value(pooled.value));
    lemma_value_was_sent(rx, context, pooled.value);
    choose|tx: Sender<T>| #[trigger]
        same_channel(tx, rx) && send_replies(tx, pooled.value, Ok(()))
}

/// A checkout that is told to wait is a waiter from then on, and the task that polled it is
/// registered on its channel. One that is answered waits for nothing.
pub proof fn law_pending_waits<T: Poolable, K: Key>(
    before: Option<PoolState<T, K>>,
    request: Checkout<T, K>,
    now: Instant,
    context: Context<'_>,
    after: Option<PoolState<T, K>>,
    request_after: Checkout<T, K>,
    answer: Poll<Result<Pooled<T, K>, Error>>,
)
    requires
        polls(before, request, now, context, after, request_after, answer),
    ensures
        answer is Pending <==> request_after.waiter is Some,
        answer is Pending ==> poll_replies(request_after.waiter->0, context, Polled::Pending),
        request_after.key == request.key,
{
    if request.waiter is None && before is Some {
        let got = choose|got: Option<Pooled<T, K>>| #[trigger]
            checks_out(before->0, request, now, context, after->0, request_after, got) && match got {
                Some(pooled) => answer == Poll::<Result<Pooled<T, K>, Error>>::Ready(Ok(pooled)),
                None => answer is Pending,
            };
    }
}

/// A connection that is given back, and that is open and not expired, is what the next checkout
/// under its key returns a reservation of, as one that was reused.
pub proof fn law_returned_is_checked_out<T: Poolable, K: Key>(
    before: PoolState<T, K>,
    pooled: Pooled<T, K>,
    at: Instant,
    middle: Option<PoolState<T, K>>,
    task: Option<IdleTask>,
    now: Instant,
    context: Context<'_>,
    after: Option<PoolState<T, K>>,
    request_after: Checkout<T, K>,
    answer: Poll<Result<Pooled<T, K>, Error>>,
) -> (reservation: Reservation<T>)
    requires
        before.wf(),
        before.waiting_at(pooled.key).len() == 0,
        before.idle_at(pooled.key).len() < before.max_idle_per_host,
        before.idle.contains_key(pooled.key) ==> !answers_shareable(pooled.value, true),
        pooled.pool == Some(before.id),
        stays_open(pooled.value),
        stays_fresh(
            Idle { idle_at: at, value: pooled.value },
            before.timeout,
            before.timeout_http2,
            now,
        ),
        gives_back(Some(before), pooled, at, middle, task),
        polls(
            middle,
            Checkout { key: pooled.key, waiter: None },
            now,
            context,
            after,
            request_after,
            answer,
        ),
    ensures
        reserves_as(pooled.value, reservation),
        answer is Ready,
        answer->0 is Ok,
        answer->0->Ok_0.value == given_half(reservation),
        answer->0->Ok_0.key == pooled.key,
        answer->0->Ok_0.is_reused,
        request_after.waiter is None,
{
    let key = pooled.key;
    let request = Checkout::<T, K> { key, waiter: None };
    let state = middle->0;
    assert(puts(before, key, pooled.value, at, state, task));
    let got = choose|got: Option<Pooled<T, K>>| #[trigger]
        checks_out(state, request, now, context, after->0, request_after, got) && match got {
            Some(found) => answer == Poll::<Result<Pooled<T, K>, Error>>::Ready(Ok(found)),
            None => answer is Pending,
        };
    let (taken, popped) = choose|taken: PoolState<T, K>, popped: Option<Idle<T>>| #[trigger]
        takes(state, key, now, taken, popped) && if popped is Some {
            &&& got is Some
            &&& reuses(Some(state.id), key, popped->0.value, got->0)
            &&& request_after == request
        } else {
            got is None
        };
    law_put_then_take(before, key, pooled.value, at, state, task, now, taken, popped)
}

/// If every connection filed under a key is closed or expired, a checkout that does not wait yet
/// starts to wait, and the connections are gone.
pub proof fn law_stale_makes_checkout_wait<T: Poolable, K: Key>(
    before: PoolState<T, K>,
    request: Checkout<T, K>,
    now: Instant,
    context: Context<'_>,
    after: Option<PoolState<T, K>>,
    request_after: Checkout<T, K>,
    answer: Poll<Result<Pooled<T, K>, Error>>,
)
    requires
        request.waiter is None,
        forall|i: int|
            0 <= i < before.idle_at(request.key).len() ==> is_stale(
                #[trigger] before.idle_at(request.key)[i],
                before.timeout,
                before.timeout_http2,
                now,
            ),
        polls(Some(before), request, now, context, after, request_after, answer),
    ensures
        answer is Pending,
        request_after.waiter is Some,
        after is Some,
        !after->0.idle.contains_key(request.key),
        after->0.waiting_at(request.key).len() == before.waiting_at(request.key).len() + 1,
        same_channel(after->0.waiting_at(request.key).last(), request_after.waiter->0),
{
    let got = choose|got: Option<Pooled<T, K>>| #[trigger]
        checks_out(before, request, now, context, after->0, request_after, got) && match got {
            Some(pooled) => answer == Poll::<Result<Pooled<T, K>, Error>>::Ready(Ok(pooled)),
            None => answer is Pending,
        };
    let (taken, popped) = choose|taken: PoolState<T, K>, popped: Option<Idle<T>>| #[trigger]
        takes(before, request.key, now, taken, popped) && if popped is Some {
            got is Some
        } else {
            &&& got is None
            &&& parks(taken, request.key, context, after->0, request_after.waiter->0)
        };
    law_stale_is_removed(before, request.key, now, taken, popped);
}

/// A handle that came from one pool leaves every other pool alone: the right to connect is not
/// given up there, and a connection is not put there.
pub proof fn law_other_pool_is_left_alone<T: Poolable, K: Key>(
    before: PoolState<T, K>,
    connecting: Connecting<K>,
    pooled: Pooled<T, K>,
    now: Instant,
    after: Option<PoolState<T, K>>,
    task: Option<IdleTask>,
)
    requires
        connecting.pool != Some(before.id),
        pooled.pool != Some(before.id),
        gives_back(Some(before), pooled, now, after, task),
    ensures
        connecting_dropped(Some(before), connecting) == Some(before),
        after == Some(before),
        task is None,
{
}

/// The right to connect ends exactly once, at the pool that granted it: a connection that is not
/// shared is taken into use with that right by any pool, and once what is left of the right is
/// given up to the pool that granted it, the key can be connected to anew there and nobody waits
/// for it. If that is another pool, the one that took the connection into use stays as it was.
pub proof fn law_right_ends_where_it_was_granted<T: Poolable, K: Key>(
    granting: PoolState<T, K>,
    using: PoolState<T, K>,
    connecting: Connecting<K>,
    value: T,
    now: Instant,
    after: Option<PoolState<T, K>>,
    connecting_after: Connecting<K>,
    pooled: Pooled<T, K>,
    task: Option<IdleTask>,
)
    requires
        connecting.pool == Some(granting.id),
        granting.id == using.id ==> granting == using,
        forall|reservation: Reservation<T>| #[trigger]
            reserves_as(value, reservation) ==> reservation is Unique,
        pools(
            Some(using),
            connecting,
            value,
            now,
            after,
            connecting_after,
            pooled,
            task,
        ),
    ensures
        pooled.pool == Some(using.id),
        granting.id == using.id ==> {
            &&& after == Some(granting.connected(connecting.key))
            &&& connecting_after.pool is None
        },
        granting.id != using.id ==> {
            &&& after == Some(using)
            &&& connecting_after == connecting
            &&& connecting_dropped(Some(granting), connecting_after) == Some(
                granting.connected(connecting.key),
            )
        },
{
}

/// A connection that is closed when it is no longer in use does not go back to the pool.
pub proof fn law_closed_is_not_put_back<T: Poolable, K: Key>(
    before: Option<PoolState<T, K>>,
    pooled: Pooled<T, K>,
    now: Instant,
    after: Option<PoolState<T, K>>,
    task: Option<IdleTask>,
)
    requires
        stays_closed(pooled.value),
        gives_back(before, pooled, now, after, task),
    ensures
        after == before,
        task is None,
{
}

/// A connection whose reservations are all shared serves every waiter under its key, and there is
/// an idle connection under that key afterwards.
pub proof fn law_shared_put_is_kept<T: Poolable, K>(
    before: PoolState<T, K>,
    key: K,
    value: T,
    now: Instant,
    after: PoolState<T, K>,
    task: Option<IdleTask>,
)
    requires
        before.wf(),
        forall|any: T, reservation: Reservation<T>| #[trigger]
            reserves_as(any, reservation) ==> reservation is Shared,
        puts(before, key, value, now, after, task),
    ensures
        after.idle.contains_key(key),
        after.waiting_at(key).len() == 0,
        forall|i: int|
            0 <= i < before.waiting_at(key).len() && takes_anything(
                #[trigger] before.waiting_at(key)[i],
            ) ==> was_served(before.waiting_at(key)[i]),
{
    if !before.idle.contains_key(key) {
        let (rest, left) = choose|rest: Seq<Sender<T>>, left: Option<T>| #[trigger]
            offered(before.waiting_at(key), value, rest, left) && keeps(
                before.with_waiting(key, rest),
                key,
                left,
                now,
                after,
                task,
            );
        law_shared_serves_all(before.waiting_at(key), value, rest, left);
    } else if after != before {
        let (rest, left) = choose|rest: Seq<Sender<T>>, left: Option<T>| #[trigger]
            offered(before.waiting_at(key), value, rest, left) && keeps(
                before.with_waiting(key, rest),
                key,
                left,
                now,
                after,
                task,
            );
    }
}

/// What is idle after the idle task has checked was idle before under the same key, and was found
/// open and not expired.
pub proof fn law_cleared_is_usable<T: Poolable, K>(
    before: PoolState<T, K>,
    now: Instant,
    after: PoolState<T, K>,
    key: K,
    at: int,
) -> (from: int)
    requires
        clears(before, now, after),
        0 <= at < after.idle_at(key).len(),
    ensures
        0 <= from < before.idle_at(key).len(),
        before.idle_at(key)[from] == after.idle_at(key)[at],
        found_usable(after.idle_at(key)[at], before.timeout, before.timeout_http2, now),
{
    let list = before.idle_at(key);
    assert(swept(list, before.timeout, before.timeout_http2, now, after.idle_at(key)));
    let keep = choose|keep: Seq<bool>| #[trigger]
        judged(list, before.timeout, before.timeout_http2, now, keep) && after.idle_at(key)
            == kept(list, keep);
    let from = lemma_kept_index(list, keep, at);
    assert(found_usable(list[from], before.timeout, before.timeout_http2, now));
    from
}

/// The idle task takes nothing away that is open and not expired: if that holds of all idle
/// connections under a key, they stay as they are.
pub proof fn law_clearing_spares_usable<T: Poolable, K>(
    before: PoolState<T, K>,
    now: Instant,
    after: PoolState<T, K>,
    key: K,
)
    requires
        clears(before, now, after),
        forall|i: int|
            0 <= i < before.idle_at(key).len() ==> stays_open(
                (#[trigger] before.idle_at(key)[i]).value,
            ) && stays_fresh(
                before.idle_at(key)[i],
                before.timeout,
                before.timeout_http2,
                now,
            ),
    ensures
        after.idle_at(key) == before.idle_at(key),
{
    let list = before.idle_at(key);
    assert(swept(list, before.timeout, before.timeout_http2, now, after.idle_at(key)));
    let keep = choose|keep: Seq<bool>| #[trigger]
        judged(list, before.timeout, before.timeout_http2, now, keep) && after.idle_at(key)
            == kept(list, keep);
    assert forall|i: int| 0 <= i < list.len() implies #[trigger] keep[i] by {
        assert(stays_open(list[i].value));
        if !keep[i] {
            assert(turned_down(list[i], before.timeout, before.timeout_http2, now));
        }
    }
    lemma_kept_all(list, keep);
}

/// If all connections under a key are closed or expired, none of them is left after the idle task
/// has checked.
pub proof fn law_clearing_removes_stale<T: Poolable, K>(
    before: PoolState<T, K>,
    now: Instant,
    after: PoolState<T, K>,
    key: K,
)
    requires
        clears(before, now, after),
        forall|i: int|
            0 <= i < before.idle_at(key).len() ==> is_stale(
                #[trigger] before.idle_at(key)[i],
                before.timeout,
                before.timeout_http2,
                now,
            ),
    ensures
        !after.idle.contains_key(key),
{
    if after.idle.contains_key(key) {
        let from = law_cleared_is_usable(before, now, after, key, 0);
        assert(is_stale(
            before.idle_at(key)[from],
            before.timeout,
            before.timeout_http2,
            now,
        ));
    }
}

/// Every connection always gives the same answers.
pub open spec fn answers_never_change<T: Poolable>() -> bool {
    &&& forall|value: T|
        !(#[trigger] answers_open(value, true) && answers_open(value, false))
    &&& forall|value: T|
        !(#[trigger] answers_shareable(value, true) && answers_shareable(value, false))
}

/// Checking a second time at the same moment changes nothing, provided that the connections give
/// the same answers as the first time.
pub proof fn law_clearing_is_idempotent<T: Poolable, K>(
    before: PoolState<T, K>,
    now: Instant,
    middle: PoolState<T, K>,
    after: PoolState<T, K>,
)
    requires
        answers_never_change::<T>(),
        clears(before, now, middle),
        clears(middle, now, after),
    ensures
        after == middle,
{
    assert forall|key: K| #[trigger] after.idle_at(key) == middle.idle_at(key) by {
        let list = middle.idle_at(key);
        assert(swept(list, middle.timeout, middle.timeout_http2, now, after.idle_at(key)));
        let keep = choose|keep: Seq<bool>| #[trigger]
            judged(list, middle.timeout, middle.timeout_http2, now, keep) && after.idle_at(key)
                == kept(list, keep);
        assert forall|i: int| 0 <= i < list.len() implies #[trigger] keep[i] by {
            let from = law_cleared_is_usable(before, now, middle, key, i);
            if !keep[i] {
                assert(turned_down(list[i], middle.timeout, middle.timeout_http2, now));
                assert(answers_open(list[i].value, true));
            }
        }
        lemma_kept_all(list, keep);
    }
    assert forall|key: K| #[trigger] after.idle.contains_key(key) == middle.idle.contains_key(
        key,
    ) by {
        assert(after.idle_at(key) == middle.idle_at(key));
    }
    assert forall|key: K| #[trigger]
        after.idle.contains_key(key) implies after.idle[key] == middle.idle[key] by {
        assert(after.idle_at(key) == middle.idle_at(key));
    }
    assert(after.idle =~= middle.idle);
}

/// If all is marked, all is kept.
proof fn lemma_kept_all<A>(items: Seq<A>, keep: Seq<bool>)
    requires
        items.len() == keep.len(),
        forall|i: int| 0 <= i < items.len() ==> #[trigger] keep[i],
    ensures
        kept(items, keep) == items,
    decreases items.len(),
{
    if items.len() > 0 {
        assert forall|i: int| 0 <= i < items.len() - 1 implies #[trigger] keep.drop_last()[i] by {
            assert(keep[i]);
        }
        lemma_kept_all(items.drop_last(), keep.drop_last());
        assert(keep[items.len() - 1]);
        assert(items.drop_last().push(items.last()) =~= items);
    } else {
        assert(kept(items, keep) =~= items);
    }
}

/// At most one idle task is started for a pool, and it never checks more often than at the least
/// interval, nor more often than connections expire.
pub proof fn law_one_idle_task<T, K>(
    before: PoolState<T, K>,
    middle: PoolState<T, K>,
    first: Option<IdleTask>,
    after: PoolState<T, K>,
    second: Option<IdleTask>,
)
    requires
        spawns(before, middle, first),
        first is Some,
        spawns(middle, after, second),
    ensures
        second is None,
        after == middle,
        first->0.duration.nanos >= MIN_CHECK_NANOS,
        before.timeout is Some,
        first->0.duration.nanos >= before.timeout->0.nanos,
        first->0.duration.nanos == MIN_CHECK_NANOS || first->0.duration == before.timeout->0,
{
}

/// Connections that cannot be shared expire by the general limit, whatever the dedicated one is.
/// Those that can be shared expire by the dedicated limit if there is one, whatever the general
/// one is, and by the general limit if there is none.
pub proof fn law_dedicated_limit(
    timeout: Option<Duration>,
    other_timeout: Option<Duration>,
    timeout_http2: Option<Duration>,
    dedicated: Duration,
    idle_at: Instant,
    now: Instant,
)
    ensures
        is_expired(timeout, timeout_http2, false, idle_at, now) == is_expired(
            timeout,
            None,
            false,
            idle_at,
            now,
        ),
        is_expired(timeout, Some(dedicated), true, idle_at, now) == is_expired(
            other_timeout,
            Some(dedicated),
            true,
            idle_at,
            now,
        ),
        is_expired(timeout, None, true, idle_at, now) == is_expired(
            timeout,
            None,
            false,
            idle_at,
            now,
        ),
{
}

/// Of the connections under a key that are all open, all are counted, and of those that are all
/// closed, none.
pub proof fn law_idle_count<T: Poolable>(list: Seq<Idle<T>>, count: int)
    requires
        counts_open(list, count),
    ensures
        0 <= count <= list.len(),
        (forall|i: int| 0 <= i < list.len() ==> stays_open(#[trigger] list[i].value)) ==> count
            == list.len(),
        (forall|i: int| 0 <= i < list.len() ==> stays_closed(#[trigger] list[i].value)) ==> count
            == 0,
{
    let open = choose|open: Seq<bool>| #[trigger]
        asked_open(list, open) && count == kept(list, open).len();
    lemma_kept_len(list, open);
    if forall|i: int| 0 <= i < list.len() ==> stays_open(#[trigger] list[i].value) {
        assert forall|i: int| 0 <= i < list.len() implies #[trigger] open[i] by {
            assert(answers_open(list[i].value, open[i]));
        }
        lemma_kept_all(list, open);
    }
    if forall|i: int| 0 <= i < list.len() ==> stays_closed(#[trigger] list[i].value) {
        if count > 0 {
            let from = lemma_kept_index(list, open, 0);
            assert(answers_open(list[from].value, open[from]));
        }
    }
}

/// The entries of `list` stand in the order in which they became idle.
pub open spec fn oldest_first<T>(list: Seq<Idle<T>>) -> bool {
    forall|i: int, j: int|
        0 <= i <= j < list.len() ==> (#[trigger] list[i]).idle_at.nanos <= (
        #[trigger] list[j]).idle_at.nanos
}

/// No entry of `list` became idle after `now`.
pub open spec fn idle_by<T>(list: Seq<Idle<T>>, now: Instant) -> bool {
    forall|i: int| 0 <= i < list.len() ==> (#[trigger] list[i]).idle_at.nanos <= now.nanos
}

/// In a list that stands in the order in which its entries became idle, everything before an
/// entry that is expired is expired too, by the same limit.
pub proof fn law_older_expires_first<T>(
    list: Seq<Idle<T>>,
    timeout: Option<Duration>,
    timeout_http2: Option<Duration>,
    shared: bool,
    now: Instant,
    earlier: int,
    later: int,
)
    requires
        oldest_first(list),
        0 <= earlier <= later < list.len(),
        is_expired(timeout, timeout_http2, shared, list[later].idle_at, now),
    ensures
        is_expired(timeout, timeout_http2, shared, list[earlier].idle_at, now),
{
}

/// As long as the clock does not go back, putting connections keeps the idle ones in the order in
/// which they became idle.
pub proof fn law_put_keeps_order<T: Poolable, K>(
    before: PoolState<T, K>,
    key: K,
    value: T,
    now: Instant,
    after: PoolState<T, K>,
    task: Option<IdleTask>,
)
    requires
        oldest_first(before.idle_at(key)),
        idle_by(before.idle_at(key), now),
        puts(before, key, value, now, after, task),
    ensures
        oldest_first(after.idle_at(key)),
        idle_by(after.idle_at(key), now),
{
    if after != before {
        let (rest, left) = choose|rest: Seq<Sender<T>>, left: Option<T>| #[trigger]
            offered(before.waiting_at(key), value, rest, left) && keeps(
                before.with_waiting(key, rest),
                key,
                left,
                now,
                after,
                task,
            );
        assert(before.with_waiting(key, rest).idle_at(key) == before.idle_at(key));
    }
}

/// As long as the clock does not go back, taking connections keeps the idle ones in the order in
/// which they became idle.
pub proof fn law_take_keeps_order<T: Poolable, K>(
    before: PoolState<T, K>,
    key: K,
    now: Instant,
    after: PoolState<T, K>,
    popped: Option<Idle<T>>,
)
    requires
        oldest_first(before.idle_at(key)),
        idle_by(before.idle_at(key), now),
        takes(before, key, now, after, popped),
    ensures
        oldest_first(after.idle_at(key)),
        idle_by(after.idle_at(key), now),
{
    let list = before.idle_at(key);
    let left = choose|left: Seq<Idle<T>>| #[trigger]
        pops(list, before.timeout, before.timeout_http2, now, left, popped) && after
            == before.with_idle(key, left);
    assert(after.idle_at(key) =~= left);
    if popped is Some {
        let place = choose|place: int| #[trigger]
            popped_at(
                list,
                place,
                before.timeout,
                before.timeout_http2,
                now,
                left,
                popped->0,
            );
        assert(reserved_from(list[place].value, list.take(place), now, left, popped->0.value));
    }
}

/// The idle task keeps the idle connections in the order in which they became idle.
pub proof fn law_clearing_keeps_order<T: Poolable, K>(
    before: PoolState<T, K>,
    now: Instant,
    after: PoolState<T, K>,
    key: K,
)
    requires
        oldest_first(before.idle_at(key)),
        clears(before, now, after),
    ensures
        oldest_first(after.idle_at(key)),
{
    let list = before.idle_at(key);
    assert(swept(list, before.timeout, before.timeout_http2, now, after.idle_at(key)));
    let keep = choose|keep: Seq<bool>| #[trigger]
        judged(list, before.timeout, before.timeout_http2, now, keep) && after.idle_at(key)
            == kept(list, keep);
    lemma_kept_ordered(list, keep);
}

/// What is kept of an ordered list is ordered.
proof fn lemma_kept_ordered<T>(list: Seq<Idle<T>>, keep: Seq<bool>)
    requires
        oldest_first(list),
        list.len() == keep.len(),
    ensures
        oldest_first(kept(list, keep)),
    decreases list.len(),
{
    if list.len() > 0 {
        let before = kept(list.drop_last(), keep.drop_last());
        lemma_kept_ordered(list.drop_last(), keep.drop_last());
        assert forall|i: int| 0 <= i < before.len() implies (#[trigger] before[i]).idle_at.nanos
            <= list.last().idle_at.nanos by {
            let from = lemma_kept_index(list.drop_last(), keep.drop_last(), i);
            assert(list[from] == before[i]);
        }
    }
}

} // verus!
