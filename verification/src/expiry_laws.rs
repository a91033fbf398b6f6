//! Which idle connections are handed out, which are kept and which are dropped.

use vstd::prelude::*;

use crate::expiration::{is_expired, Expiration};
use crate::idle::{
    asked_open, count_open, counts_open, found_usable, judged, popped_at, pops, reserved_from,
    sweep, swept, turned_down, Idle, IdlePopper,
};
use crate::lists::kept;
use crate::poolable::{answers_open, answers_shareable, reserves_as, Poolable, Reservation};
use crate::seen::{
    fit, handed_out, idle_too_long, is_last_fit, lemma_kept_is_filter, none_fits, steady,
};
use crate::time::{Duration, Instant};

verus! {

/// A connection that can be shared, and for which there is a dedicated limit, is expired exactly
/// if it has been idle for longer than that limit. Any other is expired exactly if there is a
/// general limit and it has been idle for longer than that.
pub proof fn law_expired_iff_idle_too_long(
    timeout: Option<Duration>,
    timeout_http2: Option<Duration>,
    idle_at: Instant,
    now: Instant,
)
    ensures
        timeout_http2 is Some ==> (is_expired(timeout, timeout_http2, true, idle_at, now) <==> now
            .nanos - idle_at.nanos > timeout_http2->0.nanos),
        timeout_http2 is None ==> (is_expired(timeout, timeout_http2, true, idle_at, now) <==> (
        timeout is Some && now.nanos - idle_at.nanos > timeout->0.nanos)),
        is_expired(timeout, timeout_http2, false, idle_at, now) <==> (timeout is Some && now.nanos
            - idle_at.nanos > timeout->0.nanos),
{
}

/// Only the time that has passed counts: moving both the moment at which a connection became idle
/// and the present by the same span changes nothing.
pub proof fn law_expiry_depends_on_time_idle(
    timeout: Option<Duration>,
    timeout_http2: Option<Duration>,
    shared: bool,
    idle_at: Instant,
    now: Instant,
    moved_idle_at: Instant,
    moved_now: Instant,
)
    requires
        moved_now.nanos - moved_idle_at.nanos == now.nanos - idle_at.nanos,
    ensures
        is_expired(timeout, timeout_http2, shared, moved_idle_at, moved_now) == is_expired(
            timeout,
            timeout_http2,
            shared,
            idle_at,
            now,
        ),
{
}

/// What is expired stays so: later, if it became idle earlier, and under a shorter limit.
pub proof fn law_expiry_is_monotonic(
    limit: Duration,
    shared: bool,
    dedicated: bool,
    idle_at: Instant,
    now: Instant,
    shorter: Duration,
    earlier: Instant,
    later: Instant,
)
    requires
        shorter.nanos <= limit.nanos,
        earlier.nanos <= idle_at.nanos,
        now.nanos <= later.nanos,
        is_expired(
            if dedicated {
                None
            } else {
                Some(limit)
            },
            if dedicated {
                Some(limit)
            } else {
                None
            },
            shared,
            idle_at,
            now,
        ),
    ensures
        is_expired(
            if dedicated {
                None
            } else {
                Some(shorter)
            },
            if dedicated {
                Some(shorter)
            } else {
                None
            },
            shared,
            earlier,
            later,
        ),
{
}

/// [`Expiration::expires`] says whether more time has passed than the limit that
/// [`Expiration::new`] was given, and never if it was given none.
pub proof fn law_expires(
    limit: Option<Duration>,
    expiration: Expiration,
    instant: Instant,
    now: Instant,
    expired: bool,
)
    requires
        call_ensures(Expiration::new, (limit,), expiration),
        call_ensures(Expiration::expires, (&expiration, instant, now), expired),
    ensures
        expired <==> limit is Some && now.nanos - instant.nanos > limit->0.nanos,
{
}

/// Among connections that answer alike, an entry is found usable only if it fits, and turned down
/// only if it does not.
pub proof fn lemma_look_is_fit<T: Poolable>(
    open: spec_fn(T) -> bool,
    shared: spec_fn(T) -> bool,
    timeout: Option<Duration>,
    timeout_http2: Option<Duration>,
    now: Instant,
    entry: Idle<T>,
)
    requires
        steady(open, shared),
    ensures
        found_usable(entry, timeout, timeout_http2, now) ==> fit(
            open,
            shared,
            timeout,
            timeout_http2,
            now,
        )(entry),
        turned_down(entry, timeout, timeout_http2, now) ==> !fit(
            open,
            shared,
            timeout,
            timeout_http2,
            now,
        )(entry),
{
    assert forall|answer: bool| #[trigger] answers_shareable(entry.value, answer) implies is_expired(
        timeout,
        timeout_http2,
        answer,
        entry.idle_at,
        now,
    ) == idle_too_long(timeout, timeout_http2, shared(entry.value), entry.idle_at, now) by {
        law_expired_iff_idle_too_long(timeout, timeout_http2, entry.idle_at, now);
    }
    if turned_down(entry, timeout, timeout_http2, now) && open(entry.value) {
        assert(!answers_open(entry.value, false));
    }
    if found_usable(entry, timeout, timeout_http2, now) {
        assert(answers_open(entry.value, true));
    }
}

/// Looking over a list takes the last entry that fits and leaves what stands before it, with the
/// other half of a connection that is shared. If none fits, none is taken and none is left.
pub proof fn law_newest_fit_is_taken<T: Poolable>(
    open: spec_fn(T) -> bool,
    shared: spec_fn(T) -> bool,
    before: Seq<Idle<T>>,
    timeout: Option<Duration>,
    timeout_http2: Option<Duration>,
    now: Instant,
    after: Seq<Idle<T>>,
    popped: Option<Idle<T>>,
)
    requires
        steady(open, shared),
        pops(before, timeout, timeout_http2, now, after, popped),
    ensures
        none_fits(before, fit(open, shared, timeout, timeout_http2, now)) ==> popped is None
            && after.len() == 0,
        forall|place: int| #[trigger]
            is_last_fit(before, fit(open, shared, timeout, timeout_http2, now), place) ==> {
                &&& popped is Some
                &&& popped->0.idle_at == before[place].idle_at
                &&& handed_out(before, place, now, after, popped->0.value)
            },
{
    let fits = fit(open, shared, timeout, timeout_http2, now);
    assert forall|i: int| 0 <= i < before.len() implies (found_usable(
        #[trigger] before[i],
        timeout,
        timeout_http2,
        now,
    ) ==> fits(before[i])) && (turned_down(before[i], timeout, timeout_http2, now) ==> !fits(
        before[i],
    )) by {
        lemma_look_is_fit(open, shared, timeout, timeout_http2, now, before[i]);
    }
    if popped is Some {
        let at = choose|at: int| #[trigger]
            popped_at(before, at, timeout, timeout_http2, now, after, popped->0);
        assert(fits(before[at]));
        assert(reserved_from(before[at].value, before.take(at), now, after, popped->0.value));
        let reservation = choose|reservation: Reservation<T>| #[trigger]
            reserves_as(before[at].value, reservation) && match reservation {
                Reservation::Shared(to_reinsert, to_checkout) => {
                    &&& after == before.take(at).push(Idle { idle_at: now, value: to_reinsert })
                    &&& popped->0.value == to_checkout
                },
                Reservation::Unique(unique) => {
                    &&& after == before.take(at)
                    &&& popped->0.value == unique
                },
            };
        assert(reserves_as(before[at].value, reservation));
        assert(handed_out(before, at, now, after, popped->0.value));
        assert forall|place: int| #[trigger] is_last_fit(before, fits, place) implies place == at by {
            if place < at {
                assert(!fits(before[at]));
            }
            if at < place {
                assert(turned_down(before[place], timeout, timeout_http2, now));
            }
        }
    } else {
        assert forall|place: int| #[trigger] is_last_fit(before, fits, place) implies false by {
            assert(turned_down(before[place], timeout, timeout_http2, now));
        }
    }
}

/// [`IdlePopper::pop`] takes the last entry that fits, drops all behind it, and leaves what stands
/// before it, with the other half of a connection that is shared.
pub proof fn law_pop<T: Poolable>(
    open: spec_fn(T) -> bool,
    shared: spec_fn(T) -> bool,
    before: Vec<Idle<T>>,
    timeout_http2: Option<Duration>,
    expiration: Expiration,
    now: Instant,
    after: Vec<Idle<T>>,
    popped: Option<Idle<T>>,
)
    requires
        steady(open, shared),
        exists|list: &mut Vec<Idle<T>>| *list == before && *final(list) == after && #[trigger]
            call_ensures(
                IdlePopper::<'_, T>::pop,
                (IdlePopper { list, timeout_http2 }, &expiration, now),
                popped,
            ),
    ensures
        none_fits(before@, fit(open, shared, expiration.0, timeout_http2, now)) ==> popped is None
            && after@.len() == 0,
        forall|place: int| #[trigger]
            is_last_fit(before@, fit(open, shared, expiration.0, timeout_http2, now), place) ==> {
                &&& popped is Some
                &&& popped->0.idle_at == before@[place].idle_at
                &&& handed_out(before@, place, now, after@, popped->0.value)
            },
{
    law_newest_fit_is_taken(
        open,
        shared,
        before@,
        expiration.0,
        timeout_http2,
        now,
        after@,
        popped,
    );
}

/// Going over a list leaves the entries that fit, in their order.
pub proof fn law_swept_is_filtered<T: Poolable>(
    open: spec_fn(T) -> bool,
    shared: spec_fn(T) -> bool,
    before: Seq<Idle<T>>,
    timeout: Option<Duration>,
    timeout_http2: Option<Duration>,
    now: Instant,
    after: Seq<Idle<T>>,
)
    requires
        steady(open, shared),
        swept(before, timeout, timeout_http2, now, after),
    ensures
        after == before.filter(fit(open, shared, timeout, timeout_http2, now)),
{
    let fits = fit(open, shared, timeout, timeout_http2, now);
    let keep = choose|keep: Seq<bool>| #[trigger]
        judged(before, timeout, timeout_http2, now, keep) && after == kept(before, keep);
    assert forall|i: int| 0 <= i < before.len() implies keep[i] == fits(#[trigger] before[i]) by {
        lemma_look_is_fit(open, shared, timeout, timeout_http2, now, before[i]);
    }
    lemma_kept_is_filter(before, keep, fits);
}

/// [`sweep`] leaves the entries that fit, in their order.
pub proof fn law_sweep<T: Poolable>(
    open: spec_fn(T) -> bool,
    shared: spec_fn(T) -> bool,
    before: Vec<Idle<T>>,
    timeout: Duration,
    timeout_http2: Option<Duration>,
    now: Instant,
    after: Vec<Idle<T>>,
)
    requires
        steady(open, shared),
        exists|list: &mut Vec<Idle<T>>| *list == before && *final(list) == after && #[trigger]
            call_ensures(sweep::<T>, (list, timeout, timeout_http2, now), ()),
    ensures
        after@ == before@.filter(fit(open, shared, Some(timeout), timeout_http2, now)),
{
    law_swept_is_filtered(
        open,
        shared,
        before@,
        Some(timeout),
        timeout_http2,
        now,
        after@,
    );
}

/// As many are counted as there are open connections.
pub proof fn law_counted_is_open<T: Poolable>(
    open: spec_fn(T) -> bool,
    shared: spec_fn(T) -> bool,
    list: Seq<Idle<T>>,
    count: int,
)
    requires
        steady(open, shared),
        counts_open(list, count),
    ensures
        count == list.filter(|entry: Idle<T>| open(entry.value)).len(),
{
    let is_open = |entry: Idle<T>| open(entry.value);
    let answers = choose|answers: Seq<bool>| #[trigger]
        asked_open(list, answers) && count == kept(list, answers).len();
    assert forall|i: int| 0 <= i < list.len() implies answers[i] == is_open(#[trigger] list[i]) by {
        assert(answers_open(list[i].value, answers[i]));
    }
    lemma_kept_is_filter(list, answers, is_open);
}

/// [`count_open`] counts the open connections.
pub proof fn law_count_open<T: Poolable>(
    open: spec_fn(T) -> bool,
    shared: spec_fn(T) -> bool,
    list: Vec<Idle<T>>,
    count: usize,
)
    requires
        steady(open, shared),
        call_ensures(count_open::<T>, (&list,), count),
    ensures
        count == list@.filter(|entry: Idle<T>| open(entry.value)).len(),
{
    law_counted_is_open(open, shared, list@, count as int);
}

} // verus!
