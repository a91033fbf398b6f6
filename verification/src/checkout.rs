//! Waiting for a connection.

use std::task::Context;

use futures_channel::oneshot::Receiver;
use vstd::prelude::*;

use crate::channel::{left_by_poll, poll_once, poll_replies, Polled};
use crate::error::Error;
use crate::idle::Idle;
use crate::pool::{reuse_value, reuses, Pool, Pooled};
use crate::poolable::{answers_open, lawful_key, Key, Poolable};
use crate::state::{id_of, parks, takes, PoolState};
use crate::time::Instant;

verus! {

/// Whether something is there yet.
pub enum Poll<V> {
    /// It is there.
    Ready(V),
    /// It is not, and the polling task will be woken when that may have changed.
    Pending,
}

/// A request for a connection, to be polled until it is met.
#[verifier::reject_recursive_types(T)]
pub struct Checkout<T, K: Key> {
    pub key: K,
    /// The end on which a connection arrives, once the request waits for one.
    pub waiter: Option<Receiver<T>>,
}

/// What a request that waits makes of the reply of its channel: a connection that is open is
/// used, one that is not is an error, and so is a channel on which none will come.
pub open spec fn waiter_answers<T: Poolable, K: Key>(
    pool: Option<u64>,
    key: K,
    reply: Polled<T>,
    answer: Poll<Result<Pooled<T, K>, Error>>,
) -> bool {
    match reply {
        Polled::Value(value) => exists|open: bool| #[trigger]
            answers_open(value, open) && if open {
                &&& answer is Ready
                &&& answer->0 is Ok
                &&& reuses(pool, key, value, answer->0->Ok_0)
            } else {
                answer == Poll::<Result<Pooled<T, K>, Error>>::Ready(
                    Err(Error::CheckedOutClosedValue),
                )
            },
        Polled::Pending => answer is Pending,
        Polled::Canceled => answer == Poll::<Result<Pooled<T, K>, Error>>::Ready(
            Err(Error::CheckoutNoLongerWanted),
        ),
    }
}

/// Asking an enabled pool for a connection: an idle one is taken if there is a usable one, and
/// otherwise the request waits, if it does not wait already, and the task that `context` stands
/// for is woken when there is something to receive.
pub open spec fn checks_out<T: Poolable, K: Key>(
    before: PoolState<T, K>,
    request: Checkout<T, K>,
    now: Instant,
    context: Context<'_>,
    after: PoolState<T, K>,
    request_after: Checkout<T, K>,
    got: Option<Pooled<T, K>>,
) -> bool {
    exists|taken: PoolState<T, K>, popped: Option<Idle<T>>| #[trigger]
        takes(before, request.key, now, taken, popped) && if popped is Some {
            &&& got is Some
            &&& reuses(Some(before.id), request.key, popped->0.value, got->0)
            &&& after == taken
            &&& request_after == request
        } else {
            &&& got is None
            &&& request_after.key == request.key
            &&& request_after.waiter is Some
            &&& if request.waiter is Some {
                &&& after == taken
                &&& request_after == request
            } else {
                parks(taken, request.key, context, after, request_after.waiter->0)
            }
        }
}

/// One poll of a request, on behalf of the task that `context` stands for. While it waits, all
/// depends on what its channel has to say. If it does not wait, the pool is asked, and a pool that
/// is disabled is an error.
pub open spec fn polls<T: Poolable, K: Key>(
    before: Option<PoolState<T, K>>,
    request: Checkout<T, K>,
    now: Instant,
    context: Context<'_>,
    after: Option<PoolState<T, K>>,
    request_after: Checkout<T, K>,
    answer: Poll<Result<Pooled<T, K>, Error>>,
) -> bool {
    if request.waiter is Some {
        &&& after == before
        &&& request_after.key == request.key
        &&& exists|reply: Polled<T>| #[trigger]
            poll_replies(request.waiter->0, context, reply) && waiter_answers(
                id_of(before),
                request.key,
                reply,
                answer,
            ) && request_after.waiter == left_by_poll(request.waiter->0, reply)
    } else if before is Some {
        &&& after is Some
        &&& exists|got: Option<Pooled<T, K>>| #[trigger]
            checks_out(before->0, request, now, context, after->0, request_after, got) && match got {
                Some(pooled) => answer == Poll::<Result<Pooled<T, K>, Error>>::Ready(Ok(pooled)),
                None => answer is Pending,
            }
    } else {
        &&& after is None
        &&& request_after == request
        &&& answer == Poll::<Result<Pooled<T, K>, Error>>::Ready(Err(Error::PoolDisabled))
    }
}

/// What a request for a connection filed under `key` makes of the reply of its channel. `pool` is
/// the pool for the connection to go back to, if there is one.
pub fn answer_waiter<T: Poolable, K: Key>(
    pool: Option<u64>,
    key: &K,
    reply: Polled<T>,
) -> (answer: Poll<Result<Pooled<T, K>, Error>>)
    requires
        lawful_key::<K>(),
    ensures
        waiter_answers(pool, *key, reply, answer),
{
    match reply {
        Polled::Value(value) => {
            let open: bool = value.is_open();
            assert(answers_open(value, open));
            if open {
                Poll::Ready(Ok(reuse_value(pool, key, value)))
            } else {
                Poll::Ready(Err(Error::CheckedOutClosedValue))
            }
        },
        Polled::Pending => Poll::Pending,
        Polled::Canceled => Poll::Ready(Err(Error::CheckoutNoLongerWanted)),
    }
}

impl<T: Poolable, K: Key> Checkout<T, K> {
    /// Polls the channel of a request that waits, `Ready(None)` if it does not. `pool` is the pool
    /// for a connection to go back to, if there is one.
    pub fn poll_waiter(&mut self, pool: Option<u64>, cx: &mut Context<'_>) -> (answer: Poll<
        Option<Result<Pooled<T, K>, Error>>,
    >)
        requires
            lawful_key::<K>(),
        ensures
            final(self).key == old(self).key,
            old(self).waiter is None ==> {
                &&& final(self).waiter is None
                &&& answer == Poll::<Option<Result<Pooled<T, K>, Error>>>::Ready(None)
            },
            *final(cx) == *old(cx),
            old(self).waiter is Some ==> exists|reply: Polled<T>| #[trigger]
                poll_replies(old(self).waiter->0, *old(cx), reply) && match reply {
                    Polled::Pending => {
                        &&& answer is Pending
                        &&& final(self).waiter == old(self).waiter
                    },
                    _ => {
                        &&& final(self).waiter is None
                        &&& answer is Ready
                        &&& answer->0 is Some
                        &&& waiter_answers(
                            pool,
                            old(self).key,
                            reply,
                            Poll::Ready(answer->0->0),
                        )
                    },
                },
    {
        match self.waiter.take() {
            Some(rx) => {
                let (left, reply): (Option<Receiver<T>>, Polled<T>) = poll_once(rx, cx);
                self.waiter = left;
                match answer_waiter(pool, &self.key, reply) {
                    Poll::Pending => Poll::Pending,
                    Poll::Ready(answer) => Poll::Ready(Some(answer)),
                }
            },
            None => Poll::Ready(None),
        }
    }

    /// Asks the pool for a connection, and starts to wait for one if there is none.
    pub fn checkout(&mut self, pool: &mut Pool<T, K>, now: Instant, cx: &mut Context<'_>) -> (got:
        Option<Pooled<T, K>>)
        requires
            old(pool).wf(),
        ensures
            final(pool).wf(),
            *final(cx) == *old(cx),
            old(pool)@ is None ==> {
                &&& final(pool)@ is None
                &&& *final(self) == *old(self)
                &&& got is None
            },
            old(pool)@ is Some ==> {
                &&& final(pool)@ is Some
                &&& checks_out(
                    old(pool)@->0,
                    *old(self),
                    now,
                    *old(cx),
                    final(pool)@->0,
                    *final(self),
                    got,
                )
            },
    {
        let popped: Option<Idle<T>> = match &mut pool.inner {
            Some(inner) => {
                let popped: Option<Idle<T>> = inner.take_idle(&self.key, now);
                let ghost taken = inner@;
                assert(takes(old(pool)@->0, self.key, now, taken, popped));
                if popped.is_none() && self.waiter.is_none() {
                    self.waiter = Some(inner.park(&self.key, cx));
                }
                popped
            },
            None => None,
        };
        match popped {
            Some(entry) => Some(pool.reuse(&self.key, entry.value)),
            None => None,
        }
    }

    /// Polls the request once: `Ready` with a connection or with the reason why there will be
    /// none, or `Pending`.
    pub fn poll(&mut self, pool: &mut Pool<T, K>, now: Instant, cx: &mut Context<'_>) -> (answer:
        Poll<Result<Pooled<T, K>, Error>>)
        requires
            old(pool).wf(),
        ensures
            final(pool).wf(),
            *final(cx) == *old(cx),
            polls(old(pool)@, *old(self), now, *old(cx), final(pool)@, *final(self), answer),
    {
        match self.poll_waiter(pool.id(), cx) {
            Poll::Pending => {
                return Poll::Pending;
            },
            Poll::Ready(Some(answer)) => {
                return Poll::Ready(answer);
            },
            Poll::Ready(None) => {},
        }
        match self.checkout(pool, now, cx) {
            Some(pooled) => Poll::Ready(Ok(pooled)),
            None => {
                if !pool.is_enabled() {
                    Poll::Ready(Err(Error::PoolDisabled))
                } else {
                    Poll::Pending
                }
            },
        }
    }
}

} // verus!
