//! The pool as a mathematical value, and how each operation changes it.

use std::convert::Infallible;
use std::task::Context;

use futures_channel::oneshot::{Receiver, Sender};
use vstd::prelude::*;

use crate::channel::{poll_replies, same_channel, Polled};
use crate::idle::{pops, swept, Idle};
use crate::interval::{interval_wanted, IdleTask};
use crate::lists::{list_at, no_empty_list, with_list};
use crate::poolable::{answers_shareable, Poolable};
use crate::time::{Duration, Instant};
use crate::waiters::{cleaned, offered};

verus! {

/// What an enabled pool holds.
#[verifier::ext_equal]
#[verifier::reject_recursive_types(T)]
#[verifier::reject_recursive_types(K)]
pub struct PoolState<T, K> {
    /// Tells the pool apart from all others.
    pub id: u64,
    /// The keys for which a connection that can be shared is being established.
    pub connecting: Set<K>,
    /// The idle connections, oldest first.
    pub idle: Map<K, Seq<Idle<T>>>,
    /// The checkouts that wait for a connection, longest waiting first.
    pub waiters: Map<K, Seq<Sender<T>>>,
    /// The end on which the idle task learns that the pool is gone, once there is such a task.
    pub idle_interval_ref: Option<Sender<Infallible>>,
    pub max_idle_per_host: usize,
    pub has_timer: bool,
    pub timeout: Option<Duration>,
    pub timeout_http2: Option<Duration>,
}

impl<T, K> PoolState<T, K> {
    /// No list is kept that is empty, none has more idle connections than may be kept, and no
    /// checkout waits under a key while there are idle connections.
    pub open spec fn wf(self) -> bool {
        &&& self.max_idle_per_host > 0
        &&& no_empty_list(self.idle)
        &&& no_empty_list(self.waiters)
        &&& forall|key: K| #[trigger]
            self.idle.contains_key(key) ==> self.idle[key].len() <= self.max_idle_per_host
                && !self.waiters.contains_key(key)
    }

    /// The idle connections filed under `key`, oldest first.
    pub open spec fn idle_at(self, key: K) -> Seq<Idle<T>> {
        list_at(self.idle, key)
    }

    /// The checkouts that wait under `key`, longest waiting first.
    pub open spec fn waiting_at(self, key: K) -> Seq<Sender<T>> {
        list_at(self.waiters, key)
    }

    /// This state with `list` as the idle connections filed under `key`.
    pub open spec fn with_idle(self, key: K, list: Seq<Idle<T>>) -> PoolState<T, K> {
        PoolState { idle: with_list(self.idle, key, list), ..self }
    }

    /// This state with `queue` as the checkouts that wait under `key`.
    pub open spec fn with_waiting(self, key: K, queue: Seq<Sender<T>>) -> PoolState<T, K> {
        PoolState { waiters: with_list(self.waiters, key, queue), ..self }
    }

    /// This state once the connection for `key` is established or given up: it can be
    /// established anew, and nobody waits for it.
    pub open spec fn connected(self, key: K) -> PoolState<T, K> {
        PoolState {
            connecting: self.connecting.remove(key),
            waiters: self.waiters.remove(key),
            ..self
        }
    }

    /// This state with `idle_interval_ref` as the end that stands for a running idle task.
    pub open spec fn with_interval(self, tx: Sender<Infallible>) -> PoolState<T, K> {
        PoolState { idle_interval_ref: Some(tx), ..self }
    }
}

/// What tells a pool that holds `state` apart from all others, `None` if it is disabled.
pub open spec fn id_of<T, K>(state: Option<PoolState<T, K>>) -> Option<u64> {
    match state {
        Some(held) => Some(held.id),
        None => None,
    }
}

/// An idle task is started exactly if one is wanted, and the pool then holds the end whose loss
/// tells the task that the pool is gone.
pub open spec fn spawns<T, K>(
    before: PoolState<T, K>,
    after: PoolState<T, K>,
    task: Option<IdleTask>,
) -> bool {
    match interval_wanted(
        before.idle_interval_ref is Some,
        before.timeout,
        before.has_timer,
    ) {
        Some(duration) => {
            &&& task is Some
            &&& task->0.duration == duration
            &&& exists|tx: Sender<Infallible>| #[trigger]
                same_channel(tx, task->0.pool_drop_notifier) && after == before.with_interval(tx)
        },
        None => after == before && task is None,
    }
}

/// What becomes of a connection that no waiter took: it is appended to the idle ones filed under
/// `key` if there is room, and dropped if there is none.
pub open spec fn keeps<T, K>(
    before: PoolState<T, K>,
    key: K,
    left: Option<T>,
    now: Instant,
    after: PoolState<T, K>,
    task: Option<IdleTask>,
) -> bool {
    if left is Some && before.idle_at(key).len() < before.max_idle_per_host {
        spawns(
            before.with_idle(key, before.idle_at(key).push(Idle { idle_at: now, value: left->0 })),
            after,
            task,
        )
    } else {
        after == before && task is None
    }
}

/// Putting `value` into the pool under `key` at `now`. One that can be shared is dropped if there
/// is an idle connection already. Otherwise it is offered to the waiters, and what they leave is
/// kept.
pub open spec fn puts<T: Poolable, K>(
    before: PoolState<T, K>,
    key: K,
    value: T,
    now: Instant,
    after: PoolState<T, K>,
    task: Option<IdleTask>,
) -> bool {
    exists|shared: bool| #[trigger]
        answers_shareable(value, shared) && if shared && before.idle.contains_key(key) {
            after == before && task is None
        } else {
            exists|rest: Seq<Sender<T>>, left: Option<T>| #[trigger]
                offered(before.waiting_at(key), value, rest, left) && keeps(
                    before.with_waiting(key, rest),
                    key,
                    left,
                    now,
                    after,
                    task,
                )
        }
}

/// Taking an idle connection filed under `key` at `now`.
pub open spec fn takes<T: Poolable, K>(
    before: PoolState<T, K>,
    key: K,
    now: Instant,
    after: PoolState<T, K>,
    popped: Option<Idle<T>>,
) -> bool {
    exists|list: Seq<Idle<T>>| #[trigger]
        pops(before.idle_at(key), before.timeout, before.timeout_http2, now, list, popped)
            && after == before.with_idle(key, list)
}

/// A checkout joins the waiters under `key`, at the end, and holds `rx` to be called on. `rx` was
/// polled for the task behind `context` and had nothing to say, so that the polling task will be
/// woken when there is something to receive.
pub open spec fn parks<T, K>(
    before: PoolState<T, K>,
    key: K,
    context: Context<'_>,
    after: PoolState<T, K>,
    rx: Receiver<T>,
) -> bool {
    &&& exists|tx: Sender<T>| #[trigger]
        same_channel(tx, rx) && after == before.with_waiting(key, before.waiting_at(key).push(tx))
    &&& poll_replies(rx, context, Polled::Pending)
}

/// Dropping the waiters under `key` that are gone.
pub open spec fn cleans<T, K>(before: PoolState<T, K>, key: K, after: PoolState<T, K>) -> bool {
    exists|queue: Seq<Sender<T>>| #[trigger]
        cleaned(before.waiting_at(key), queue) && after == before.with_waiting(key, queue)
}

/// Dropping every idle connection that is closed or expired at `now`.
pub open spec fn clears<T: Poolable, K>(
    before: PoolState<T, K>,
    now: Instant,
    after: PoolState<T, K>,
) -> bool {
    &&& forall|key: K|
        swept(
            #[trigger] before.idle_at(key),
            before.timeout,
            before.timeout_http2,
            now,
            after.idle_at(key),
        )
    &&& no_empty_list(after.idle)
    &&& after == (PoolState { idle: after.idle, ..before })
}

} // verus!
