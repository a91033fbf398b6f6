//! The pool's bookkeeping: idle connections, waiting checkouts and pending connects.

use std::collections::{HashMap, HashSet, VecDeque};
use std::convert::Infallible;
use std::task::Context;

use futures_channel::oneshot::{channel, Receiver, Sender};
use vstd::prelude::*;
use vstd::std_specs::iter::IteratorSpec;

use crate::channel::{hung_up, same_channel, waiting_channel, Gone};
use crate::config::Config;
use crate::expiration::Expiration;
use crate::idle::{
    lemma_swept_empty, lemma_swept_len, pops, sweep, swept, Idle, IdlePopper,
};
use crate::interval::{plan_interval, IdleTask};
use crate::lists::kept;
use crate::poolable::{answers_shareable, clone_key, lawful_key, Key, Poolable};
use crate::state::{clears, cleans, keeps, parks, puts, spawns, takes, PoolState};
use crate::time::{Duration, Instant};
use crate::waiters::{
    asked_live, cleaned, drop_canceled, lemma_offer_leaves_end, offer, offered, without,
};

verus! {

/// What an enabled pool holds.
#[verifier::reject_recursive_types(T)]
#[verifier::reject_recursive_types(K)]
pub struct PoolInner<T, K: Key> {
    /// Tells the pool apart from all others.
    pub id: u64,
    /// A flag that a connection is being established, and the connection should be shared. This
    /// prevents making multiple HTTP/2 connections to the same host.
    pub connecting: HashSet<K>,
    /// These are internal connections sitting in the event loop in the keep-alive state, waiting
    /// to receive a new request to send on the socket.
    pub idle: HashMap<K, Vec<Idle<T>>>,
    pub max_idle_per_host: usize,
    /// These are outstanding checkouts that are waiting for a socket to be able to send a
    /// request on. This is used when "racing" for a new connection.
    ///
    /// The client starts two tasks, one to connect a new socket, and one to wait for the pool to
    /// receive an idle connection. When a connection becomes idle, this list is checked for any
    /// parked checkouts, and tries to notify them that the connection could be used instead of
    /// waiting for a brand new connection.
    pub waiters: HashMap<K, VecDeque<Sender<T>>>,
    /// A channel is used to allow the interval to be notified when the pool completely drops.
    /// That way, the interval can cancel immediately.
    pub idle_interval_ref: Option<Sender<Infallible>>,
    /// Whether there is a timer that an idle task could sleep by.
    pub has_timer: bool,
    pub timeout: Option<Duration>,
    pub timeout_http2: Option<Duration>,
}

impl<T, K: Key> PoolInner<T, K> {
    /// What the pool holds, as a mathematical value.
    pub open spec fn view(&self) -> PoolState<T, K> {
        PoolState {
            id: self.id,
            connecting: self.connecting@,
            idle: self.idle@.map_values(|list: Vec<Idle<T>>| list@),
            waiters: self.waiters@.map_values(|queue: VecDeque<Sender<T>>| queue@),
            idle_interval_ref: self.idle_interval_ref,
            max_idle_per_host: self.max_idle_per_host,
            has_timer: self.has_timer,
            timeout: self.timeout,
            timeout_http2: self.timeout_http2,
        }
    }

    /// The keys are fit to be looked up, and the lists obey their limits.
    pub open spec fn wf(&self) -> bool {
        &&& lawful_key::<K>()
        &&& self@.wf()
    }

    /// An empty pool.
    pub fn new(config: Config, has_timer: bool, id: u64) -> (inner: PoolInner<T, K>)
        requires
            lawful_key::<K>(),
            config.max_idle_per_host > 0,
        ensures
            inner.wf(),
            inner@ == empty_state::<T, K>(config, has_timer, id),
    {
        let inner: PoolInner<T, K> = PoolInner {
            id,
            connecting: HashSet::new(),
            idle: HashMap::new(),
            idle_interval_ref: None,
            max_idle_per_host: config.max_idle_per_host,
            waiters: HashMap::new(),
            has_timer,
            timeout: config.idle_timeout,
            timeout_http2: config.idle_timeout_http2,
        };
        assert(inner@ =~= empty_state::<T, K>(config, has_timer, id));
        inner
    }

    /// A connecting task is complete. Not necessarily successfully, but the lock is going away,
    /// so clean up. Any waiters are canceled: if there are any, it's because the connecting task
    /// didn't complete successfully, and they would never receive a connection.
    pub fn connected(&mut self, key: &K)
        requires
            old(self).wf(),
        ensures
            final(self).wf(),
            final(self)@ == old(self)@.connected(*key),
    {
        self.connecting.remove(key);
        self.waiters.remove(key);
        assert(self@ =~= old(self)@.connected(*key));
    }

    /// Any response future that was created will have made a checkout, and possibly inserted into
    /// the pool that it is waiting for an idle connection. If a user ever dropped that future, we
    /// need to clean out those parked senders, that of the checkout whose end `gone` stands for
    /// among them.
    pub fn clean_waiters(&mut self, key: &K, gone: &Gone)
        requires
            old(self).wf(),
        ensures
            final(self).wf(),
            cleans(old(self)@, *key, final(self)@),
            forall|rx: Receiver<T>| #[trigger]
                hung_up(rx, *gone) ==> without(final(self)@.waiting_at(*key), rx),
    {
        match self.waiters.remove(key) {
            Some(waiting) => {
                let mut queue: VecDeque<Sender<T>> = waiting;
                assert(old(self)@.waiting_at(*key) == queue@);
                drop_canceled(&mut queue, gone);
                let ghost after = queue@;
                if queue.len() > 0 {
                    self.waiters.insert(clone_key(key), queue);
                }
                assert(self@ =~= old(self)@.with_waiting(*key, after));
            },
            None => {
                let ghost none: Seq<Sender<T>> = Seq::empty();
                assert(old(self)@.waiting_at(*key) =~= none);
                assert(asked_live(none, Seq::empty()));
                assert(cleaned(none, kept(none, Seq::empty())));
                assert(self@ =~= old(self)@.with_waiting(*key, none));
            },
        }
    }
}

impl<T: Poolable, K: Key> PoolInner<T, K> {
    /// Puts a connection into the pool under `key`. If an idle task is to be started on that
    /// account, it is returned.
    #[must_use]
    pub fn put(&mut self, key: K, value: T, now: Instant) -> (task: Option<IdleTask>)
        requires
            old(self).wf(),
        ensures
            final(self).wf(),
            puts(old(self)@, key, value, now, final(self)@, task),
    {
        let shared: bool = value.can_share();
        assert(answers_shareable(value, shared));
        if shared && self.idle.contains_key(&key) {
            assert(self@ =~= old(self)@);
            return None;
        }
        let ghost mut rest: Seq<Sender<T>> = Seq::empty();
        let left: Option<T> = match self.waiters.remove(&key) {
            Some(waiting) => {
                let mut queue: VecDeque<Sender<T>> = waiting;
                assert(old(self)@.waiting_at(key) == queue@);
                let left: Option<T> = offer(&mut queue, value);
                proof {
                    rest = queue@;
                }
                if queue.len() > 0 {
                    self.waiters.insert(clone_key(&key), queue);
                }
                left
            },
            None => {
                assert(old(self)@.waiting_at(key) =~= rest);
                assert(offered(rest, value, rest, Some(value)));
                Some(value)
            },
        };
        assert(offered(old(self)@.waiting_at(key), value, rest, left));
        assert(self@ =~= old(self)@.with_waiting(key, rest));
        proof {
            lemma_offer_leaves_end(old(self)@.waiting_at(key), value, rest, left);
        }
        self.keep_idle(key, left, now)
    }

    /// Keeps a connection that no waiter took, if there is one and there is room for it.
    #[must_use]
    pub fn keep_idle(&mut self, key: K, left: Option<T>, now: Instant) -> (task: Option<IdleTask>)
        requires
            old(self).wf(),
            left is Some ==> !old(self)@.waiters.contains_key(key),
        ensures
            final(self).wf(),
            keeps(old(self)@, key, left, now, final(self)@, task),
    {
        match left {
            Some(value) => {
                let max_idle_per_host: usize = self.max_idle_per_host;
                let full: bool;
                {
                    let idle_list: &mut Vec<Idle<T>> = self.idle.entry(key).or_insert(Vec::new());
                    if max_idle_per_host <= idle_list.len() {
                        full = true;
                    } else {
                        idle_list.push(Idle { idle_at: now, value });
                        full = false;
                    }
                }
                let ghost before = old(self)@.idle_at(key);
                if full {
                    assert(self@.idle =~= old(self)@.idle);
                    assert(self@ =~= old(self)@);
                    return None;
                }
                assert(self@ =~= old(self)@.with_idle(
                    key,
                    before.push(Idle { idle_at: now, value }),
                ));
                self.spawn_idle_interval()
            },
            None => None,
        }
    }

    /// The idle task to be started, if one is wanted and none was started before.
    #[must_use]
    pub fn spawn_idle_interval(&mut self) -> (task: Option<IdleTask>)
        requires
            old(self).wf(),
        ensures
            final(self).wf(),
            spawns(old(self)@, final(self)@, task),
    {
        match plan_interval(self.idle_interval_ref.is_some(), self.timeout, self.has_timer) {
            Some(duration) => {
                let (tx, rx): (Sender<Infallible>, Receiver<Infallible>) = channel();
                assert(same_channel(tx, rx));
                self.idle_interval_ref = Some(tx);
                assert(self@ =~= old(self)@.with_interval(tx));
                let task: Option<IdleTask> = Some(IdleTask { duration, pool_drop_notifier: rx });
                assert(same_channel(tx, task->0.pool_drop_notifier));
                task
            },
            None => None,
        }
    }

    /// Takes an idle connection filed under `key`, and drops those that are found closed or
    /// expired on the way.
    pub fn take_idle(&mut self, key: &K, now: Instant) -> (popped: Option<Idle<T>>)
        requires
            old(self).wf(),
        ensures
            final(self).wf(),
            takes(old(self)@, *key, now, final(self)@, popped),
    {
        let expiration: Expiration = Expiration::new(self.timeout);
        let timeout_http2: Option<Duration> = self.timeout_http2;
        match self.idle.remove(key) {
            Some(idle) => {
                let mut list: Vec<Idle<T>> = idle;
                let ghost before = list@;
                assert(old(self)@.idle_at(*key) == before);
                let popped: Option<Idle<T>> = {
                    let popper: IdlePopper<'_, T> = IdlePopper { list: &mut list, timeout_http2 };
                    popper.pop(&expiration, now)
                };
                let ghost after = list@;
                assert(pops(before, self.timeout, self.timeout_http2, now, after, popped));
                if list.len() > 0 {
                    self.idle.insert(clone_key(key), list);
                }
                assert(self@ =~= old(self)@.with_idle(*key, after));
                popped
            },
            None => {
                let ghost none: Seq<Idle<T>> = Seq::empty();
                assert(old(self)@.idle_at(*key) =~= none);
                assert(pops(none, self.timeout, self.timeout_http2, now, none, None));
                assert(self@ =~= old(self)@.with_idle(*key, none));
                None
            },
        }
    }

    /// Drops every idle connection that is closed or expired. This should only be called by the
    /// idle task.
    pub fn clear_expired(&mut self, now: Instant)
        requires
            old(self).wf(),
            old(self)@.timeout is Some,
        ensures
            final(self).wf(),
            clears(old(self)@, now, final(self)@),
    {
        let ghost before = self@;
        let dur: Duration = match self.timeout {
            Some(dur) => dur,
            None => {
                return ;
            },
        };
        let dur_http2: Option<Duration> = self.timeout_http2;
        let mut keys: Vec<K> = self.idle_keys();
        proof {
            lemma_swept_empty::<T>(Some(dur), dur_http2, now);
        }
        while keys.len() > 0
            invariant
                lawful_key::<K>(),
                before.wf(),
                before == old(self)@,
                before.timeout == Some(dur),
                before.timeout_http2 == dur_http2,
                keys@.no_duplicates(),
                self@ == (PoolState { idle: self@.idle, ..before }),
                self@.wf(),
                forall|key: K| #[trigger]
                    keys@.contains(key) ==> before.idle.contains_key(key) && self@.idle_at(key)
                        == before.idle_at(key),
                forall|key: K|
                    !keys@.contains(key) ==> swept(
                        #[trigger] before.idle_at(key),
                        Some(dur),
                        dur_http2,
                        now,
                        self@.idle_at(key),
                    ),
            decreases keys@.len(),
        {
            let ghost unswept = keys@;
            let ghost prior = self@;
            match keys.pop() {
                Some(key) => {
                    let ghost current = key;
                    assert(unswept =~= keys@.push(key));
                    assert(unswept[keys@.len() as int] == key);
                    assert(unswept.contains(key));
                    assert forall|other: K| #[trigger] keys@.contains(other) implies other != key
                        && unswept.contains(other) by {
                        let place = choose|i: int| 0 <= i < keys@.len() && keys@[i] == other;
                        assert(unswept[place] == other);
                    }
                    match self.idle.remove(&key) {
                        Some(idle) => {
                            let mut list: Vec<Idle<T>> = idle;
                            assert(prior.idle_at(key) == list@);
                            sweep(&mut list, dur, dur_http2, now);
                            let ghost after = list@;
                            if list.len() > 0 {
                                self.idle.insert(key, list);
                            }
                            assert(self@ =~= prior.with_idle(current, after));
                            proof {
                                lemma_swept_len(
                                    before.idle_at(current),
                                    Some(dur),
                                    dur_http2,
                                    now,
                                    after,
                                );
                            }
                            assert(self@.idle_at(current) =~= after);
                            assert forall|other: K| !keys@.contains(other) implies swept(
                                #[trigger] before.idle_at(other),
                                Some(dur),
                                dur_http2,
                                now,
                                self@.idle_at(other),
                            ) by {
                                if other != current {
                                    if unswept.contains(other) {
                                        let place = choose|i: int|
                                            0 <= i < unswept.len() && unswept[i] == other;
                                        assert(keys@[place] == other);
                                    }
                                    assert(self@.idle_at(other) == prior.idle_at(other));
                                }
                            }
                        },
                        None => {
                            assert(before.idle_at(key).len() > 0);
                            assert(false);
                        },
                    }
                },
                None => {},
            }
        }
    }

    /// The keys under which there are idle connections, each once.
    fn idle_keys(&self) -> (keys: Vec<K>)
        requires
            self.wf(),
        ensures
            keys@.no_duplicates(),
            forall|key: K| #[trigger] keys@.contains(key) <==> self@.idle.contains_key(key),
    {
        let mut keys: Vec<K> = Vec::new();
        let ghost all = self.idle.keys().remaining().unref();
        for key in iter: self.idle.keys()
            invariant
                lawful_key::<K>(),
                iter.seq().unref() == all,
                iter.seq().len() == all.len(),
                keys@ == all.take(iter.index() as int),
        {
            keys.push(clone_key(key));
        }
        assert(keys@ =~= all);
        assert forall|key: K| #[trigger] keys@.contains(key) <==> self@.idle.contains_key(key) by {
            assert(all.to_set().contains(key) <==> self.idle@.dom().contains(key));
        }
        keys
    }

    /// Adds a waiter under `key`, and registers the task that `cx` stands for to be woken when
    /// the waiter is given a connection.
    pub fn park(&mut self, key: &K, cx: &mut Context<'_>) -> (rx: Receiver<T>)
        requires
            old(self).wf(),
            !old(self)@.idle.contains_key(*key),
        ensures
            final(self).wf(),
            parks(old(self)@, *key, *old(cx), final(self)@, rx),
            *final(cx) == *old(cx),
    {
        let (tx, rx): (Sender<T>, Receiver<T>) = waiting_channel(cx);
        let ghost sender = tx;
        let ghost before = old(self)@.waiting_at(*key);
        self.waiters.entry(clone_key(key)).or_insert(VecDeque::new()).push_back(tx);
        assert(self@ =~= old(self)@.with_waiting(*key, before.push(sender)));
        rx
    }
}

/// The state of a pool that was just made.
pub open spec fn empty_state<T, K>(config: Config, has_timer: bool, id: u64) -> PoolState<T, K> {
    PoolState {
        id,
        connecting: Set::empty(),
        idle: Map::empty(),
        waiters: Map::empty(),
        idle_interval_ref: None,
        max_idle_per_host: config.max_idle_per_host,
        has_timer,
        timeout: config.idle_timeout,
        timeout_http2: config.idle_timeout_http2,
    }
}

} // verus!
