//! The connection pool and the handles it gives out.
//!
//! A pool is driven by one owner at a time, which reads the clock, runs the idle task and returns
//! the handles that it is done with.

use std::convert::Infallible;

use futures_channel::oneshot::{channel, Receiver, Sender};
use vstd::prelude::*;

use crate::channel::{hang_up, Gone};
use crate::checkout::Checkout;
use crate::config::Config;
use crate::idle::{asked_open, count_open, counts_open, Idle};
use crate::inner::{empty_state, PoolInner};
use crate::interval::IdleTask;
use crate::lists::kept;
use crate::poolable::{
    answers_open, answers_shareable, clone_key, lawful_key, reserves_as, Key, Poolable,
    Reservation, Ver,
};
use crate::state::{cleans, clears, id_of, puts, PoolState};
use crate::time::Instant;
use crate::waiters::without;

verus! {

/// A pool of connections.
#[verifier::reject_recursive_types(T)]
#[verifier::reject_recursive_types(K)]
pub struct Pool<T, K: Key> {
    /// If the pool is disabled, this is `None`.
    pub inner: Option<PoolInner<T, K>>,
}

/// A pooled connection that is in use.
pub struct Pooled<T: Poolable, K: Key> {
    pub value: T,
    pub is_reused: bool,
    pub key: K,
    /// The pool that the connection goes back to when it is no longer in use, if it goes back.
    pub pool: Option<u64>,
}

/// The right to establish a connection.
pub struct Connecting<K: Key> {
    pub key: K,
    /// The pool that has the key down as being connected to, if there is one.
    pub pool: Option<u64>,
}

/// What becomes of an attempt to connect: of a connection that can be shared only one is
/// established at a time, of any other as many as are asked for.
pub open spec fn connects<T, K: Key>(
    before: Option<PoolState<T, K>>,
    key: K,
    ver: Ver,
    after: Option<PoolState<T, K>>,
    granted: Option<Connecting<K>>,
) -> bool {
    if ver == Ver::Http2 && before is Some {
        if before->0.connecting.contains(key) {
            after == before && granted is None
        } else {
            &&& after == Some(
                PoolState { connecting: before->0.connecting.insert(key), ..before->0 },
            )
            &&& granted == Some(Connecting { key, pool: Some(before->0.id) })
        }
    } else {
        after == before && granted == Some(Connecting { key, pool: None })
    }
}

/// `connecting` was granted by the enabled pool that holds `state`.
pub open spec fn granted_here<T, K: Key>(
    state: Option<PoolState<T, K>>,
    connecting: Connecting<K>,
) -> bool {
    state is Some && connecting.pool == id_of(state)
}

/// The state once the right to connect is given up: only the pool that granted it is affected.
pub open spec fn connecting_dropped<T, K: Key>(
    before: Option<PoolState<T, K>>,
    connecting: Connecting<K>,
) -> Option<PoolState<T, K>> {
    if granted_here(before, connecting) {
        Some(before->0.connected(connecting.key))
    } else {
        before
    }
}

/// A connection that was just established goes into use. Of a shared reservation the other half
/// is put into the pool, and the connection does not go back there. A unique one does. The right
/// to connect is used up if the reservation is shared or if this pool granted it. Otherwise it
/// stays, to be given up to the pool that did.
pub open spec fn pools<T: Poolable, K: Key>(
    before: Option<PoolState<T, K>>,
    connecting: Connecting<K>,
    value: T,
    now: Instant,
    after: Option<PoolState<T, K>>,
    connecting_after: Connecting<K>,
    pooled: Pooled<T, K>,
    task: Option<IdleTask>,
) -> bool {
    &&& pooled.key == connecting.key
    &&& connecting_after.key == connecting.key
    &&& !pooled.is_reused
    &&& match before {
        Some(state) => exists|reservation: Reservation<T>| #[trigger]
            reserves_as(value, reservation) && match reservation {
                Reservation::Shared(to_insert, to_return) => {
                    &&& pooled.value == to_return
                    &&& pooled.pool is None
                    &&& connecting_after.pool is None
                    &&& exists|middle: PoolState<T, K>| #[trigger]
                        puts(state, connecting.key, to_insert, now, middle, task) && after == Some(
                            middle.connected(connecting.key),
                        )
                },
                Reservation::Unique(unique) => {
                    &&& pooled.value == unique
                    &&& pooled.pool == Some(state.id)
                    &&& connecting_after.pool == (if granted_here(before, connecting) {
                        None
                    } else {
                        connecting.pool
                    })
                    &&& after == connecting_dropped(before, connecting)
                    &&& task is None
                },
            },
        None => {
            &&& pooled.value == value
            &&& pooled.pool is None
            &&& connecting_after.pool == connecting.pool
            &&& after is None
            &&& task is None
        },
    }
}

/// A connection that was idle goes into use again. Unless it can be shared, it goes back to
/// `pool` afterwards, if there is such a pool.
pub open spec fn reuses<T: Poolable, K: Key>(
    pool: Option<u64>,
    key: K,
    value: T,
    pooled: Pooled<T, K>,
) -> bool {
    &&& pooled.key == key
    &&& pooled.value == value
    &&& pooled.is_reused
    &&& exists|shared: bool| #[trigger]
        answers_shareable(value, shared) && pooled.pool == (if shared {
            None
        } else {
            pool
        })
}

/// A connection that is still open and no longer in use is put back if this is the pool that it
/// goes back to. Any other pool is left alone.
pub open spec fn puts_back<T: Poolable, K: Key>(
    before: Option<PoolState<T, K>>,
    pooled: Pooled<T, K>,
    now: Instant,
    after: Option<PoolState<T, K>>,
    task: Option<IdleTask>,
) -> bool {
    if before is Some && pooled.pool == id_of(before) {
        &&& after is Some
        &&& puts(before->0, pooled.key, pooled.value, now, after->0, task)
    } else {
        after == before && task is None
    }
}

/// A connection is no longer in use. It is put back if it is still open.
pub open spec fn gives_back<T: Poolable, K: Key>(
    before: Option<PoolState<T, K>>,
    pooled: Pooled<T, K>,
    now: Instant,
    after: Option<PoolState<T, K>>,
    task: Option<IdleTask>,
) -> bool {
    exists|open: bool| #[trigger]
        answers_open(pooled.value, open) && if open {
            puts_back(before, pooled, now, after, task)
        } else {
            after == before && task is None
        }
}

impl<T, K: Key> Pool<T, K> {
    /// What the pool holds, `None` if it is disabled.
    pub open spec fn view(&self) -> Option<PoolState<T, K>> {
        match self.inner {
            Some(inner) => Some(inner@),
            None => None,
        }
    }

    /// The keys are fit to be looked up, and the lists obey their limits.
    pub open spec fn wf(&self) -> bool {
        &&& lawful_key::<K>()
        &&& self.inner is Some ==> self.inner->0.wf()
    }

    /// An empty pool, or a disabled one if the configuration says that nothing is to be kept.
    /// `has_timer` says whether the owner has a timer that an idle task could sleep by. `id` is
    /// for the owner to choose, for each pool another.
    pub fn new(config: Config, has_timer: bool, id: u64) -> (pool: Pool<T, K>)
        requires
            lawful_key::<K>(),
        ensures
            pool.wf(),
            pool@ == (if config.max_idle_per_host > 0 {
                Some(empty_state::<T, K>(config, has_timer, id))
            } else {
                None
            }),
    {
        let inner: Option<PoolInner<T, K>> = if config.is_enabled() {
            Some(PoolInner::new(config, has_timer, id))
        } else {
            None
        };
        Pool { inner }
    }

    /// Whether connections are pooled at all.
    pub fn is_enabled(&self) -> (enabled: bool)
        ensures
            enabled == (self@ is Some),
    {
        self.inner.is_some()
    }

    /// What tells the pool apart from all others, `None` if it is disabled.
    pub fn id(&self) -> (id: Option<u64>)
        ensures
            id == id_of(self@),
    {
        match &self.inner {
            Some(inner) => Some(inner.id),
            None => None,
        }
    }

    /// Prevents an idle task from ever being started for this pool.
    pub fn no_timer(&mut self)
        requires
            old(self).wf(),
            old(self)@ is Some,
            old(self)@->0.idle_interval_ref is None,
        ensures
            final(self).wf(),
            final(self)@ is Some,
            final(self)@->0.idle_interval_ref is Some,
            final(self)@->0 == old(self)@->0.with_interval(
                final(self)@->0.idle_interval_ref->0,
            ),
    {
        match self.inner.take() {
            Some(inner) => {
                let mut inner: PoolInner<T, K> = inner;
                let (tx, _rx): (Sender<Infallible>, Receiver<Infallible>) = channel();
                inner.idle_interval_ref = Some(tx);
                assert(inner@ =~= old(self)@->0.with_interval(tx));
                self.inner = Some(inner);
            },
            None => {},
        }
    }

    /// What an enabled pool holds.
    pub fn locked(&self) -> (inner: &PoolInner<T, K>)
        requires
            self@ is Some,
        ensures
            Some(inner@) == self@,
            Some(*inner) == self.inner,
    {
        self.inner.as_ref().unwrap()
    }

    /// Gives up the right to connect, if this is the pool that granted it. The key can then be
    /// connected to anew, and whoever waits for it no longer does.
    pub fn drop_connecting(&mut self, connecting: Connecting<K>)
        requires
            old(self).wf(),
        ensures
            final(self).wf(),
            final(self)@ == connecting_dropped(old(self)@, connecting),
    {
        match &mut self.inner {
            Some(inner) => {
                if is_pool(connecting.pool, inner.id) {
                    inner.connected(&connecting.key);
                }
            },
            None => {},
        }
    }

    /// Gives up a checkout. If it waits, the waiters that are gone are dropped, itself among
    /// them.
    pub fn drop_checkout(&mut self, checkout: Checkout<T, K>)
        requires
            old(self).wf(),
        ensures
            final(self).wf(),
            checkout_dropped(old(self)@, checkout, final(self)@),
    {
        let Checkout { key, waiter } = checkout;
        match waiter {
            Some(rx) => {
                // Gone before the waiters are looked at, so that they are seen without it.
                let gone: Gone = hang_up(rx);
                match &mut self.inner {
                    Some(inner) => {
                        inner.clean_waiters(&key, &gone);
                    },
                    None => {},
                }
            },
            None => {},
        }
    }
}

/// The state once a checkout is given up. If it waited, the waiters that are gone are dropped, and
/// it is not among those that are left.
pub open spec fn checkout_dropped<T, K: Key>(
    before: Option<PoolState<T, K>>,
    checkout: Checkout<T, K>,
    after: Option<PoolState<T, K>>,
) -> bool {
    if checkout.waiter is Some && before is Some {
        &&& after is Some
        &&& cleans(before->0, checkout.key, after->0)
        &&& without(after->0.waiting_at(checkout.key), checkout.waiter->0)
    } else {
        after == before
    }
}

impl<T: Poolable, K: Key> Pool<T, K> {
    /// Returns a `Checkout` which resolves if an idle connection becomes available.
    pub fn checkout(&self, key: K) -> (checkout: Checkout<T, K>)
        ensures
            checkout.key == key,
            checkout.waiter is None,
    {
        Checkout { key, waiter: None }
    }

    /// Count of currently-idle, currently-usable (`is_open()`) connections for `key`.
    pub fn idle_count(&self, key: &K) -> (count: usize)
        requires
            self.wf(),
        ensures
            self@ is None ==> count == 0,
            self@ is Some ==> counts_open(self@->0.idle_at(*key), count as int),
    {
        match &self.inner {
            Some(inner) => match inner.idle.get(key) {
                Some(list) => {
                    assert(self@->0.idle_at(*key) == list@);
                    count_open(list)
                },
                None => {
                    let ghost none: Seq<Idle<T>> = Seq::empty();
                    assert(self@->0.idle_at(*key) =~= none);
                    assert(asked_open(none, Seq::empty()));
                    assert(kept(none, Seq::empty()).len() == 0);
                    0
                },
            },
            None => 0,
        }
    }

    /// Ensure that there is only ever 1 connecting task for HTTP/2 connections. This does nothing
    /// for HTTP/1.
    pub fn connecting(&mut self, key: &K, ver: Ver) -> (granted: Option<Connecting<K>>)
        requires
            old(self).wf(),
        ensures
            final(self).wf(),
            connects(old(self)@, *key, ver, final(self)@, granted),
    {
        if ver == Ver::Http2 {
            match &mut self.inner {
                Some(inner) => {
                    let ghost before = inner@;
                    if inner.connecting.insert(clone_key(key)) {
                        assert(inner@ =~= (PoolState {
                            connecting: before.connecting.insert(*key),
                            ..before
                        }));
                        return Some(Connecting { key: clone_key(key), pool: Some(inner.id) });
                    } else {
                        assert(inner@ =~= before);
                        return None;
                    }
                },
                None => {},
            }
        }
        // In HTTP/1's case there is never a lock, so there is nothing to give up later.
        Some(Connecting { key: clone_key(key), pool: None })
    }

    /// Takes a connection that was just established into use. If an idle task is to be started
    /// on that account, it is returned too. What is left of the right to connect is then to be
    /// given up to the pool that granted it.
    pub fn pooled(&mut self, connecting: &mut Connecting<K>, value: T, now: Instant) -> (pooled: (
        Pooled<T, K>,
        Option<IdleTask>,
    ))
        requires
            old(self).wf(),
        ensures
            final(self).wf(),
            pools(
                old(self)@,
                *old(connecting),
                value,
                now,
                final(self)@,
                *final(connecting),
                pooled.0,
                pooled.1,
            ),
    {
        match &mut self.inner {
            Some(inner) => {
                let ghost before = inner@;
                let reservation: Reservation<T> = value.reserve();
                assert(reserves_as(value, reservation));
                match reservation {
                    Reservation::Shared(to_insert, to_return) => {
                        let task: Option<IdleTask> = inner.put(
                            clone_key(&connecting.key),
                            to_insert,
                            now,
                        );
                        let ghost middle = inner@;
                        assert(puts(before, connecting.key, to_insert, now, middle, task));
                        inner.connected(&connecting.key);
                        // Prevents the connecting from being given up a second time.
                        connecting.pool = None;
                        // Shared reservations don't need a reference to the pool, since the pool
                        // always keeps a copy.
                        let pooled: Pooled<T, K> = Pooled {
                            key: clone_key(&connecting.key),
                            is_reused: false,
                            pool: None,
                            value: to_return,
                        };
                        (pooled, task)
                    },
                    Reservation::Unique(unique) => {
                        let key: K = clone_key(&connecting.key);
                        if is_pool(connecting.pool, inner.id) {
                            inner.connected(&key);
                            connecting.pool = None;
                        }
                        // Unique reservations must take a reference to the pool since they hope
                        // to reinsert once the reservation is completed.
                        let pooled: Pooled<T, K> = Pooled {
                            key,
                            is_reused: false,
                            pool: Some(inner.id),
                            value: unique,
                        };
                        (pooled, None)
                    },
                }
            },
            None => {
                let pooled: Pooled<T, K> = Pooled {
                    key: clone_key(&connecting.key),
                    is_reused: false,
                    pool: None,
                    value,
                };
                (pooled, None)
            },
        }
    }

    /// Takes a connection that was idle into use.
    pub fn reuse(&self, key: &K, value: T) -> (pooled: Pooled<T, K>)
        requires
            self.wf(),
        ensures
            reuses(id_of(self@), *key, value, pooled),
    {
        reuse_value(self.id(), key, value)
    }

    /// Ends the use of a connection, which is asked whether it is still open. If an idle task is
    /// to be started on that account, it is returned.
    #[must_use]
    pub fn drop_pooled(&mut self, pooled: Pooled<T, K>, now: Instant) -> (task: Option<IdleTask>)
        requires
            old(self).wf(),
        ensures
            final(self).wf(),
            gives_back(old(self)@, pooled, now, final(self)@, task),
    {
        let open: bool = pooled.value.is_open();
        assert(answers_open(pooled.value, open));
        if !open {
            // If we already know the connection is done here, it shouldn't be re-inserted back
            // into the pool.
            return None;
        }
        self.put_back(pooled, now)
    }

    /// Ends the use of a connection that was found to be open, and that goes back to this pool if
    /// it goes back to any. If an idle task is to be started on that account, it is returned.
    #[must_use]
    pub fn put_back(&mut self, pooled: Pooled<T, K>, now: Instant) -> (task: Option<IdleTask>)
        requires
            old(self).wf(),
        ensures
            final(self).wf(),
            puts_back(old(self)@, pooled, now, final(self)@, task),
    {
        match &mut self.inner {
            Some(inner) => {
                if is_pool(pooled.pool, inner.id) {
                    let Pooled { value, key, .. } = pooled;
                    return inner.put(key, value, now);
                }
            },
            None => {},
        }
        None
    }

    /// Drops every idle connection that is closed or expired. For the idle task alone.
    pub fn clear_expired(&mut self, now: Instant)
        requires
            old(self).wf(),
            old(self)@ is Some,
            old(self)@->0.timeout is Some,
        ensures
            final(self).wf(),
            final(self)@ is Some,
            clears(old(self)@->0, now, final(self)@->0),
    {
        match &mut self.inner {
            Some(inner) => {
                inner.clear_expired(now);
            },
            None => {},
        }
    }
}

/// Whether a handle that belongs to `pool` belongs to the pool that `id` stands for.
pub fn is_pool(pool: Option<u64>, id: u64) -> (own: bool)
    ensures
        own == (pool == Some(id)),
{
    match pool {
        Some(other) => other == id,
        None => false,
    }
}

/// Takes a connection that was idle into use. `pool` is the pool for it to go back to, if there is
/// one.
pub fn reuse_value<T: Poolable, K: Key>(pool: Option<u64>, key: &K, value: T) -> (pooled: Pooled<
    T,
    K,
>)
    requires
        lawful_key::<K>(),
    ensures
        reuses(pool, *key, value, pooled),
{
    let shared: bool = value.can_share();
    assert(answers_shareable(value, shared));
    let pool_ref: Option<u64> = if shared {
        None
    } else {
        pool
    };
    Pooled { is_reused: true, key: clone_key(key), pool: pool_ref, value }
}

impl<T: Poolable, K: Key> Pooled<T, K> {
    /// Whether the connection was idle before.
    pub fn is_reused(&self) -> (reused: bool)
        ensures
            reused == self.is_reused,
    {
        self.is_reused
    }

    /// Whether the connection goes back to the pool when it is no longer in use.
    pub fn is_pool_enabled(&self) -> (enabled: bool)
        ensures
            enabled == (self.pool is Some),
    {
        self.pool.is_some()
    }

    /// The connection.
    pub fn as_ref(&self) -> (value: &T)
        ensures
            *value == self.value,
    {
        &self.value
    }

    /// The connection, to be changed.
    pub fn as_mut(&mut self) -> (value: &mut T)
        ensures
            *value == old(self).value,
            *final(self) == (Pooled { value: *final(value), ..*old(self) }),
    {
        &mut self.value
    }
}

impl<T: Poolable, K: Key> std::ops::Deref for Pooled<T, K> {
    type Target = T;

    fn deref(&self) -> (value: &T)
        ensures
            *value == self.value,
    {
        self.as_ref()
    }
}

impl<K: Key> Connecting<K> {
    /// Turns the right to establish a connection into one to establish a connection that is
    /// shared.
    pub fn alpn_h2<T: Poolable>(self, pool: &mut Pool<T, K>) -> (granted: Option<Connecting<K>>)
        requires
            old(pool).wf(),
            self.pool is None,
        ensures
            final(pool).wf(),
            connects(old(pool)@, self.key, Ver::Http2, final(pool)@, granted),
    {
        pool.connecting(&self.key, Ver::Http2)
    }
}

} // verus!
