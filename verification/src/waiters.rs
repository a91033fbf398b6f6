//! The checkouts that wait for a connection, in the order in which they came.

use std::collections::VecDeque;

use futures_channel::oneshot::{Receiver, Sender};
use vstd::prelude::*;

use crate::channel::{
    hung_up, is_canceled_after, reports_canceled, same_channel, send_replies, Gone,
};
use crate::lists::{kept, lemma_kept_index, lemma_kept_push};
use crate::poolable::{reserves_as, Poolable, Reservation};

verus! {

/// The half of a reservation that goes to whoever asked.
pub open spec fn given_half<T>(reservation: Reservation<T>) -> T {
    match reservation {
        Reservation::Shared(_, to_send) => to_send,
        Reservation::Unique(unique) => unique,
    }
}

/// The half of a reservation that stays behind, if there is one.
pub open spec fn kept_half<T>(reservation: Reservation<T>) -> Option<T> {
    match reservation {
        Reservation::Shared(to_keep, _) => Some(to_keep),
        Reservation::Unique(_) => None,
    }
}

/// What there is to offer once a waiter has replied: what was kept if it took its half, that
/// half if it did not.
pub open spec fn left_by_reply<T>(kept: Option<T>, reply: Result<(), T>) -> Option<T> {
    match reply {
        Ok(()) => kept,
        Err(refused) => Some(refused),
    }
}

/// `value` was reserved as `reservation`, and the waiter behind `tx` replied `reply` to its half.
pub open spec fn handed<T: Poolable>(
    tx: Sender<T>,
    value: T,
    reservation: Reservation<T>,
    reply: Result<(), T>,
) -> bool {
    &&& reserves_as(value, reservation)
    &&& send_replies(tx, given_half(reservation), reply)
}

/// Offering `value` along `queue`, front to back, leaves the waiters `rest` and, unless a waiter
/// took all there is, the connection `left`. A waiter that is gone is passed over. The first
/// that takes a unique reservation ends the round; the half that a shared reservation leaves
/// behind, or what a waiter refused, goes on to the next.
pub open spec fn offered<T: Poolable>(
    queue: Seq<Sender<T>>,
    value: T,
    rest: Seq<Sender<T>>,
    left: Option<T>,
) -> bool
    decreases queue.len(),
{
    if queue.len() == 0 {
        rest == queue && left == Some(value)
    } else {
        ||| reports_canceled(queue[0], true) && offered(queue.drop_first(), value, rest, left)
        ||| reports_canceled(queue[0], false) && exists|
            reservation: Reservation<T>,
            reply: Result<(), T>,
        | #[trigger]
            handed(queue[0], value, reservation, reply) && match left_by_reply(
                kept_half(reservation),
                reply,
            ) {
                Some(next) => offered(queue.drop_first(), next, rest, left),
                None => rest == queue.drop_first() && left is None,
            }
    }
}

/// What is left of a queue that a connection was offered to is its end, and if the connection was
/// not used up, there is nothing left of the queue.
pub proof fn lemma_offer_leaves_end<T: Poolable>(
    queue: Seq<Sender<T>>,
    value: T,
    rest: Seq<Sender<T>>,
    left: Option<T>,
)
    requires
        offered(queue, value, rest, left),
    ensures
        rest.len() <= queue.len(),
        rest == queue.skip(queue.len() - rest.len()),
        left is Some ==> rest.len() == 0,
        left is None ==> rest.len() < queue.len(),
    decreases queue.len(),
{
    if queue.len() == 0 {
        assert(rest =~= queue.skip(0));
    } else {
        let behind = queue.drop_first();
        if offered(behind, value, rest, left) {
            lemma_offer_leaves_end(behind, value, rest, left);
        } else {
            let (reservation, reply) = choose|reservation: Reservation<T>, reply: Result<(), T>|
                #[trigger]
                handed(queue[0], value, reservation, reply) && match left_by_reply(
                    kept_half(reservation),
                    reply,
                ) {
                    Some(next) => offered(behind, next, rest, left),
                    None => rest == behind && left is None,
                };
            match left_by_reply(kept_half(reservation), reply) {
                Some(next) => {
                    lemma_offer_leaves_end(behind, next, rest, left);
                },
                None => {},
            }
        }
        assert(rest =~= queue.skip(queue.len() - rest.len()));
    }
}

/// What there is to offer once a waiter has replied.
pub fn after_send<T>(kept: Option<T>, reply: Result<(), T>) -> (left: Option<T>)
    ensures
        left == left_by_reply(kept, reply),
{
    match reply {
        Ok(()) => kept,
        Err(refused) => Some(refused),
    }
}

/// Offers `value` to the waiters in `queue`, front to back, and returns what none of them took.
pub fn offer<T: Poolable>(queue: &mut VecDeque<Sender<T>>, value: T) -> (left: Option<T>)
    ensures
        offered(old(queue)@, value, final(queue)@, left),
{
    let ghost before = queue@;
    let mut at_hand: T = value;
    loop
        invariant
            forall|rest: Seq<Sender<T>>, left: Option<T>|
                offered(queue@, at_hand, rest, left) ==> #[trigger] offered(
                    before,
                    value,
                    rest,
                    left,
                ),
            before == old(queue)@,
        decreases queue@.len(),
    {
        let ghost queued = queue@;
        let ghost current = at_hand;
        match queue.pop_front() {
            None => {
                assert(offered(queue@, at_hand, queue@, Some(at_hand)));
                return Some(at_hand);
            },
            Some(tx) => {
                assert(queue@ =~= queued.drop_first());
                if tx.is_canceled() {
                    assert(reports_canceled(tx, true));
                    continue ;
                }
                assert(reports_canceled(tx, false));
                let reservation: Reservation<T> = at_hand.reserve();
                let ghost reserved = reservation;
                let (kept, to_send): (Option<T>, T) = match reservation {
                    Reservation::Shared(to_keep, to_send) => (Some(to_keep), to_send),
                    Reservation::Unique(unique) => (None, unique),
                };
                let reply: Result<(), T> = tx.send(to_send);
                assert(handed(queued[0], current, reserved, reply));
                match after_send(kept, reply) {
                    None => {
                        assert(offered(queued, current, queue@, None));
                        return None;
                    },
                    Some(next) => {
                        at_hand = next;
                        assert forall|rest: Seq<Sender<T>>, left: Option<T>|
                            offered(queue@, at_hand, rest, left) implies #[trigger] offered(
                            before,
                            value,
                            rest,
                            left,
                        ) by {
                            assert(offered(queued, current, rest, left));
                        }
                    },
                }
            },
        }
    }
}

/// Each waiter in `queue` was asked whether it is gone, and `keep` marks those that are not.
pub open spec fn asked_live<T>(queue: Seq<Sender<T>>, keep: Seq<bool>) -> bool {
    &&& keep.len() == queue.len()
    &&& forall|i: int|
        0 <= i < queue.len() ==> reports_canceled(#[trigger] queue[i], !keep[i])
}

/// Dropping the waiters that are gone turns `before` into `after`.
pub open spec fn cleaned<T>(before: Seq<Sender<T>>, after: Seq<Sender<T>>) -> bool {
    exists|keep: Seq<bool>| #[trigger] asked_live(before, keep) && after == kept(before, keep)
}

/// None of the waiters in `queue` is the other end of `rx`.
pub open spec fn without<T>(queue: Seq<Sender<T>>, rx: Receiver<T>) -> bool {
    forall|i: int| 0 <= i < queue.len() ==> !same_channel(#[trigger] queue[i], rx)
}

/// Drops the waiters in `queue` that are gone, that whose receiving end `gone` stands for among
/// them.
pub fn drop_canceled<T>(queue: &mut VecDeque<Sender<T>>, gone: &Gone)
    ensures
        cleaned(old(queue)@, final(queue)@),
        forall|rx: Receiver<T>| #[trigger] hung_up(rx, *gone) ==> without(final(queue)@, rx),
{
    let ghost before = queue@;
    let ghost mut keep: Seq<bool> = Seq::empty();
    let count: usize = queue.len();
    let mut seen: usize = 0;
    proof {
        assert(before.skip(0) =~= before);
        assert(queue@ =~= before.skip(0) + kept(before.take(0), keep));
    }
    while seen < count
        invariant
            count == before.len(),
            seen <= count,
            keep.len() == seen,
            queue@ == before.skip(seen as int) + kept(before.take(seen as int), keep),
            forall|j: int|
                0 <= j < seen ==> reports_canceled(#[trigger] before[j], !keep[j]),
            forall|rx: Receiver<T>, j: int|
                0 <= j < seen && keep[j] && #[trigger] hung_up(rx, *gone) ==> !same_channel(
                    #[trigger] before[j],
                    rx,
                ),
        decreases count - seen,
    {
        let ghost queued = queue@;
        match queue.pop_front() {
            Some(tx) => {
                let live: bool = !is_canceled_after(&tx, gone);
                assert(tx == before[seen as int]);
                assert(reports_canceled(tx, !live));
                proof {
                    lemma_kept_push(before.take(seen as int), keep, tx, live);
                    assert(before.take(seen as int).push(tx) =~= before.take(seen + 1));
                    keep = keep.push(live);
                }
                if live {
                    queue.push_back(tx);
                }
                seen = seen + 1;
                assert(queue@ =~= before.skip(seen as int) + kept(
                    before.take(seen as int),
                    keep,
                ));
            },
            None => {
                assert(false);
                return ;
            },
        }
    }
    proof {
        assert(before.take(before.len() as int) =~= before);
        assert(queue@ =~= kept(before, keep));
        assert(asked_live(before, keep));
        assert forall|rx: Receiver<T>| #[trigger] hung_up(rx, *gone) implies without(
            queue@,
            rx,
        ) by {
            assert forall|i: int| 0 <= i < queue@.len() implies !same_channel(
                #[trigger] queue@[i],
                rx,
            ) by {
                lemma_kept_index(before, keep, i);
            }
        }
    }
}

} // verus!
