//! Connections that sit in the pool until they are asked for.

use vstd::prelude::*;

use crate::expiration::{is_expired, Expiration};
use crate::lists::{kept, lemma_kept_len, lemma_kept_push};
use crate::poolable::{answers_open, answers_shareable, reserves_as, Poolable, Reservation};
use crate::time::{Duration, Instant};

verus! {

/// A connection and the moment at which it became idle.
pub struct Idle<T> {
    pub idle_at: Instant,
    pub value: T,
}

/// A look at `entry` at `now` showed that it is closed, or open but expired.
pub open spec fn turned_down<T: Poolable>(
    entry: Idle<T>,
    timeout: Option<Duration>,
    timeout_http2: Option<Duration>,
    now: Instant,
) -> bool {
    ||| answers_open(entry.value, false)
    ||| answers_open(entry.value, true) && exists|shared: bool| #[trigger]
        answers_shareable(entry.value, shared) && is_expired(
            timeout,
            timeout_http2,
            shared,
            entry.idle_at,
            now,
        )
}

/// A look at `entry` at `now` showed that it is open and not expired.
pub open spec fn found_usable<T: Poolable>(
    entry: Idle<T>,
    timeout: Option<Duration>,
    timeout_http2: Option<Duration>,
    now: Instant,
) -> bool {
    &&& answers_open(entry.value, true)
    &&& exists|shared: bool| #[trigger]
        answers_shareable(entry.value, shared) && !is_expired(
            timeout,
            timeout_http2,
            shared,
            entry.idle_at,
            now,
        )
}

/// Reserving `value` gave `out` away. Of a shared reservation the other half is appended to
/// `below` as idle since `now`, of a unique one nothing remains.
pub open spec fn reserved_from<T: Poolable>(
    value: T,
    below: Seq<Idle<T>>,
    now: Instant,
    after: Seq<Idle<T>>,
    out: T,
) -> bool {
    exists|reservation: Reservation<T>| #[trigger]
        reserves_as(value, reservation) && match reservation {
            Reservation::Shared(to_reinsert, to_checkout) => {
                &&& after == below.push(Idle { idle_at: now, value: to_reinsert })
                &&& out == to_checkout
            },
            Reservation::Unique(unique) => {
                &&& after == below
                &&& out == unique
            },
        }
}

/// `popped` came from place `at` of `before`: all behind it were turned down and are gone, it
/// was found usable itself, and what is before it stays.
pub open spec fn popped_at<T: Poolable>(
    before: Seq<Idle<T>>,
    at: int,
    timeout: Option<Duration>,
    timeout_http2: Option<Duration>,
    now: Instant,
    after: Seq<Idle<T>>,
    popped: Idle<T>,
) -> bool {
    &&& 0 <= at < before.len()
    &&& forall|i: int|
        at < i < before.len() ==> turned_down(#[trigger] before[i], timeout, timeout_http2, now)
    &&& found_usable(before[at], timeout, timeout_http2, now)
    &&& popped.idle_at == before[at].idle_at
    &&& reserved_from(before[at].value, before.take(at), now, after, popped.value)
}

/// Taking the last usable connection off `before` leaves `after`, and yields `popped` if there
/// was one.
pub open spec fn pops<T: Poolable>(
    before: Seq<Idle<T>>,
    timeout: Option<Duration>,
    timeout_http2: Option<Duration>,
    now: Instant,
    after: Seq<Idle<T>>,
    popped: Option<Idle<T>>,
) -> bool {
    &&& popped is Some ==> exists|at: int| #[trigger]
        popped_at(before, at, timeout, timeout_http2, now, after, popped->0)
    &&& popped is None ==> {
        &&& after.len() == 0
        &&& forall|i: int|
            0 <= i < before.len() ==> turned_down(
                #[trigger] before[i],
                timeout,
                timeout_http2,
                now,
            )
    }
}

/// Pop off this list, looking for a usable connection that hasn't expired.
pub struct IdlePopper<'a, T> {
    pub list: &'a mut Vec<Idle<T>>,
    pub timeout_http2: Option<Duration>,
}

impl<'a, T: Poolable> IdlePopper<'a, T> {
    /// Takes the last usable connection off the list, and drops all behind it.
    pub fn pop(self, expiration: &Expiration, now: Instant) -> (popped: Option<Idle<T>>)
        ensures
            pops(
                old(self.list)@,
                expiration.0,
                self.timeout_http2,
                now,
                final(self.list)@,
                popped,
            ),
    {
        let list = self.list;
        let ghost before = list@;
        loop
            invariant
                before == old(self.list)@,
                *final(list) == *final(self.list),
                list@.len() <= before.len(),
                list@ == before.take(list@.len() as int),
                forall|i: int|
                    list@.len() <= i < before.len() ==> turned_down(
                        #[trigger] before[i],
                        expiration.0,
                        self.timeout_http2,
                        now,
                    ),
            decreases list@.len(),
        {
            let ghost at: int = list@.len() - 1;
            match list.pop() {
                None => {
                    return None;
                },
                Some(entry) => {
                    assert(entry == before[at]);
                    assert(list@ =~= before.take(at));
                    if !entry.value.is_open() {
                        continue ;
                    }
                    let shared: bool = entry.value.can_share();
                    let is_expired: bool = match (shared, self.timeout_http2) {
                        (true, Some(dur)) => now.saturating_duration_since(entry.idle_at).nanos
                            > dur.nanos,
                        _ => expiration.expires(entry.idle_at, now),
                    };
                    assert(answers_shareable(entry.value, shared));
                    if is_expired {
                        continue ;
                    }
                    assert(found_usable(before[at], expiration.0, self.timeout_http2, now));
                    let idle_at: Instant = entry.idle_at;
                    let reservation: Reservation<T> = entry.value.reserve();
                    assert(reserves_as(before[at].value, reservation));
                    let value: T = match reservation {
                        Reservation::Shared(to_reinsert, to_checkout) => {
                            list.push(Idle { idle_at: now, value: to_reinsert });
                            to_checkout
                        },
                        Reservation::Unique(unique) => unique,
                    };
                    let popped: Option<Idle<T>> = Some(Idle { idle_at, value });
                    assert(popped_at(
                        before,
                        at,
                        expiration.0,
                        self.timeout_http2,
                        now,
                        list@,
                        popped->0,
                    ));
                    return popped;
                },
            }
        }
    }
}

/// Each entry of `before` was looked at, and `keep` marks those that were found usable. The
/// others were turned down.
pub open spec fn judged<T: Poolable>(
    before: Seq<Idle<T>>,
    timeout: Option<Duration>,
    timeout_http2: Option<Duration>,
    now: Instant,
    keep: Seq<bool>,
) -> bool {
    &&& keep.len() == before.len()
    &&& forall|i: int|
        0 <= i < before.len() ==> if keep[i] {
            found_usable(#[trigger] before[i], timeout, timeout_http2, now)
        } else {
            turned_down(before[i], timeout, timeout_http2, now)
        }
}

/// Going over `before` once leaves `after`: the entries that were found usable, in their order.
pub open spec fn swept<T: Poolable>(
    before: Seq<Idle<T>>,
    timeout: Option<Duration>,
    timeout_http2: Option<Duration>,
    now: Instant,
    after: Seq<Idle<T>>,
) -> bool {
    exists|keep: Seq<bool>| #[trigger]
        judged(before, timeout, timeout_http2, now, keep) && after == kept(before, keep)
}

/// Going over a list never makes it longer.
pub proof fn lemma_swept_len<T: Poolable>(
    before: Seq<Idle<T>>,
    timeout: Option<Duration>,
    timeout_http2: Option<Duration>,
    now: Instant,
    after: Seq<Idle<T>>,
)
    requires
        swept(before, timeout, timeout_http2, now, after),
    ensures
        after.len() <= before.len(),
{
    let keep = choose|keep: Seq<bool>| #[trigger]
        judged(before, timeout, timeout_http2, now, keep) && after == kept(before, keep);
    lemma_kept_len(before, keep);
}

/// There is nothing to drop from an empty list.
pub proof fn lemma_swept_empty<T: Poolable>(
    timeout: Option<Duration>,
    timeout_http2: Option<Duration>,
    now: Instant,
)
    ensures
        swept(Seq::<Idle<T>>::empty(), timeout, timeout_http2, now, Seq::<Idle<T>>::empty()),
{
    let none = Seq::<Idle<T>>::empty();
    assert(judged(none, timeout, timeout_http2, now, Seq::empty()));
    assert(kept(none, Seq::empty()) =~= none);
}

/// Drops the entries of `list` that are closed or expired.
pub fn sweep<T: Poolable>(
    list: &mut Vec<Idle<T>>,
    timeout: Duration,
    timeout_http2: Option<Duration>,
    now: Instant,
)
    ensures
        swept(old(list)@, Some(timeout), timeout_http2, now, final(list)@),
{
    let ghost before = list@;
    let ghost mut keep: Seq<bool> = Seq::empty();
    let mut i: usize = 0;
    proof {
        assert(before.take(0) =~= Seq::empty());
        assert(before.skip(0) =~= before);
        assert(list@ =~= kept(before.take(0), keep) + before.skip(0));
    }
    while i < list.len()
        invariant
            keep.len() <= before.len(),
            i == kept(before.take(keep.len() as int), keep).len(),
            list@ == kept(before.take(keep.len() as int), keep) + before.skip(keep.len() as int),
            forall|j: int|
                0 <= j < keep.len() ==> if keep[j] {
                    found_usable(#[trigger] before[j], Some(timeout), timeout_http2, now)
                } else {
                    turned_down(before[j], Some(timeout), timeout_http2, now)
                },
        decreases list@.len() - i,
    {
        let ghost at: int = keep.len() as int;
        assert(list@[i as int] == before[at]);
        let mut usable: bool = list[i].value.is_open();
        if usable {
            let shared: bool = list[i].value.can_share();
            let effective_dur: Duration = match (shared, timeout_http2) {
                (true, Some(dur)) => dur,
                _ => timeout,
            };
            assert(answers_shareable(before[at].value, shared));
            if now.saturating_duration_since(list[i].idle_at).nanos > effective_dur.nanos {
                usable = false;
            }
        }
        proof {
            lemma_kept_push(before.take(at), keep, before[at], usable);
            assert(before.take(at).push(before[at]) =~= before.take(at + 1));
            keep = keep.push(usable);
        }
        if usable {
            i = i + 1;
        } else {
            list.remove(i);
        }
        assert(list@ =~= kept(before.take(keep.len() as int), keep) + before.skip(
            keep.len() as int,
        ));
    }
    proof {
        assert(keep.len() == before.len());
        assert(before.take(before.len() as int) =~= before);
        assert(list@ =~= kept(before, keep));
        assert(judged(before, Some(timeout), timeout_http2, now, keep));
    }
}

/// Each entry of `list` was asked whether it is open, and `open` holds the answers.
pub open spec fn asked_open<T: Poolable>(list: Seq<Idle<T>>, open: Seq<bool>) -> bool {
    &&& open.len() == list.len()
    &&& forall|i: int| 0 <= i < list.len() ==> answers_open(#[trigger] list[i].value, open[i])
}

/// `count` entries of `list` answered that they are open.
pub open spec fn counts_open<T: Poolable>(list: Seq<Idle<T>>, count: int) -> bool {
    exists|open: Seq<bool>| #[trigger] asked_open(list, open) && count == kept(list, open).len()
}

/// How many entries of `list` are open.
pub fn count_open<T: Poolable>(list: &Vec<Idle<T>>) -> (count: usize)
    ensures
        counts_open(list@, count as int),
{
    let ghost mut open: Seq<bool> = Seq::empty();
    let mut count: usize = 0;
    let mut i: usize = 0;
    while i < list.len()
        invariant
            i <= list@.len(),
            open.len() == i,
            count <= i,
            count == kept(list@.take(i as int), open).len(),
            forall|j: int| 0 <= j < i ==> answers_open(#[trigger] list@[j].value, open[j]),
        decreases list@.len() - i,
    {
        let answer: bool = list[i].value.is_open();
        proof {
            lemma_kept_push(list@.take(i as int), open, list@[i as int], answer);
            assert(list@.take(i as int).push(list@[i as int]) =~= list@.take(i + 1));
            open = open.push(answer);
        }
        if answer {
            count = count + 1;
        }
        i = i + 1;
    }
    proof {
        assert(list@.take(i as int) =~= list@);
        assert(asked_open(list@, open));
    }
    count
}

} // verus!
