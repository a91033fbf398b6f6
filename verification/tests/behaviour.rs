use std::sync::atomic::{AtomicBool, AtomicUsize, Ordering};
use std::sync::Arc;
use std::task::Context;

use conn_pool::channel::Polled;
use conn_pool::checkout::answer_waiter;
use conn_pool::expiration::Expiration;
use conn_pool::idle::{sweep, Idle, IdlePopper};
use conn_pool::interval::plan_interval;
use conn_pool::waiters::after_send;
use conn_pool::{
    Checkout, Config, Connecting, Duration, Error, IdleEvent, Instant, Poll, Pool, Poolable, Pooled,
    Reservation, Ver,
};
use futures_util::task::{noop_waker_ref, waker, ArcWake};

/// A connection that can be closed from outside.
#[derive(Clone, Debug)]
struct Conn {
    id: u32,
    shared: bool,
    closed: Arc<AtomicBool>,
}

impl Conn {
    fn unique(id: u32) -> Conn {
        Conn { id, shared: false, closed: Arc::new(AtomicBool::new(false)) }
    }

    fn shared(id: u32) -> Conn {
        Conn { id, shared: true, closed: Arc::new(AtomicBool::new(false)) }
    }

    fn close(&self) {
        self.closed.store(true, Ordering::SeqCst);
    }
}

impl Poolable for Conn {
    fn is_open(&self) -> bool {
        !self.closed.load(Ordering::SeqCst)
    }

    fn reserve(self) -> Reservation<Self> {
        if self.shared {
            Reservation::Shared(self.clone(), self)
        } else {
            Reservation::Unique(self)
        }
    }

    fn can_share(&self) -> bool {
        self.shared
    }
}

/// Counts how often it is woken.
struct Alarm(AtomicUsize);

impl ArcWake for Alarm {
    fn wake_by_ref(arc_self: &Arc<Self>) {
        arc_self.0.fetch_add(1, Ordering::SeqCst);
    }
}

fn at(millis: u64) -> Instant {
    Instant::from_nanos(0).after(Duration::from_millis(millis))
}

fn config(max_idle_per_host: usize) -> Config {
    Config {
        idle_timeout: Some(Duration::from_millis(100)),
        idle_timeout_http2: None,
        max_idle_per_host,
    }
}

fn new_pool(max_idle_per_host: usize) -> Pool<Conn, u64> {
    Pool::new(config(max_idle_per_host), false, 0)
}

fn unlinked(key: u64) -> Connecting<u64> {
    Connecting { key, pool: None }
}

/// Establishes a connection and ends its use at once.
fn put(pool: &mut Pool<Conn, u64>, key: u64, conn: Conn, now: Instant) {
    let (pooled, _) = pool.pooled(&mut unlinked(key), conn, now);
    assert!(pool.drop_pooled(pooled, now).is_none());
}

fn poll(
    checkout: &mut Checkout<Conn, u64>,
    pool: &mut Pool<Conn, u64>,
    now: Instant,
) -> Poll<Result<Pooled<Conn, u64>, Error>> {
    let mut cx = Context::from_waker(noop_waker_ref());
    checkout.poll(pool, now, &mut cx)
}

fn ready(poll: Poll<Result<Pooled<Conn, u64>, Error>>) -> Pooled<Conn, u64> {
    match poll {
        Poll::Ready(Ok(pooled)) => pooled,
        Poll::Ready(Err(error)) => panic!("{}", error.message()),
        Poll::Pending => panic!("pending"),
    }
}

fn refused(poll: Poll<Result<Pooled<Conn, u64>, Error>>) -> Error {
    match poll {
        Poll::Ready(Err(error)) => error,
        _ => panic!("not refused"),
    }
}

fn is_pending(poll: Poll<Result<Pooled<Conn, u64>, Error>>) -> bool {
    matches!(poll, Poll::Pending)
}

fn idle_ids(pool: &Pool<Conn, u64>, key: u64) -> Vec<u32> {
    match pool.locked().idle.get(&key) {
        Some(list) => list.iter().map(|entry| entry.value.id).collect(),
        None => vec![],
    }
}

fn waiting(pool: &Pool<Conn, u64>, key: u64) -> usize {
    pool.locked().waiters.get(&key).map(|queue| queue.len()).unwrap_or(0)
}

#[test]
fn last_put_is_first_taken() {
    let mut pool = new_pool(5);
    put(&mut pool, 1, Conn::unique(1), at(0));
    put(&mut pool, 1, Conn::unique(2), at(1));
    assert_eq!(idle_ids(&pool, 1), vec![1, 2]);

    let mut checkout = pool.checkout(1);
    let pooled = ready(poll(&mut checkout, &mut pool, at(2)));
    assert_eq!(pooled.id, 2);
    assert!(pooled.is_reused());
    assert!(pooled.is_pool_enabled());
    assert_eq!(idle_ids(&pool, 1), vec![1]);
}

#[test]
fn checkout_drops_what_is_behind_the_usable_one() {
    let mut pool = new_pool(5);
    let closed = Conn::unique(3);
    put(&mut pool, 1, Conn::unique(1), at(0));
    put(&mut pool, 1, Conn::unique(2), at(0));
    put(&mut pool, 1, closed.clone(), at(0));
    closed.close();

    let mut checkout = pool.checkout(1);
    assert_eq!(ready(poll(&mut checkout, &mut pool, at(2))).id, 2);
    assert_eq!(idle_ids(&pool, 1), vec![1]);
}

#[test]
fn other_keys_are_not_touched() {
    let mut pool = new_pool(5);
    put(&mut pool, 1, Conn::unique(1), at(0));
    put(&mut pool, 2, Conn::unique(2), at(0));
    let mut checkout = pool.checkout(1);
    assert_eq!(ready(poll(&mut checkout, &mut pool, at(2))).id, 1);
    assert_eq!(idle_ids(&pool, 2), vec![2]);
    assert!(!pool.locked().idle.contains_key(&1));
}

#[test]
fn limit_is_exclusive() {
    let limit = Expiration::new(Some(Duration::from_millis(100)));
    assert!(!limit.expires(at(50), at(150)));
    assert!(limit.expires(at(50), at(150).after(Duration::from_nanos(1))));
    assert!(!limit.expires(at(50), at(10)));
    assert!(!Expiration::new(None).expires(at(0), at(1_000_000)));
}

#[test]
fn connection_at_its_limit_is_still_taken() {
    let mut pool = new_pool(5);
    put(&mut pool, 1, Conn::unique(1), at(0));
    let mut checkout = pool.checkout(1);
    assert_eq!(ready(poll(&mut checkout, &mut pool, at(100))).id, 1);
}

#[test]
fn popper_pops_by_the_dedicated_limit() {
    let mut list = vec![
        Idle { idle_at: at(0), value: Conn::shared(1) },
        Idle { idle_at: at(0), value: Conn::unique(2) },
    ];
    let popper = IdlePopper { list: &mut list, timeout_http2: Some(Duration::from_millis(200)) };
    let popped = popper.pop(&Expiration::new(Some(Duration::from_millis(20))), at(60)).unwrap();
    assert_eq!(popped.value.id, 1);
    assert_eq!(popped.idle_at, at(0));
    assert_eq!(list.len(), 1);
    assert_eq!(list[0].value.id, 1);
    assert_eq!(list[0].idle_at, at(60));
}

#[test]
fn shared_connection_stays_in_the_pool() {
    let mut pool = new_pool(5);
    let mut connecting = pool.connecting(&1, Ver::Http2).unwrap();
    let (pooled, _) = pool.pooled(&mut connecting, Conn::shared(7), at(0));
    assert!(!pooled.is_reused());
    assert!(!pooled.is_pool_enabled());
    assert_eq!(idle_ids(&pool, 1), vec![7]);

    let mut checkout = pool.checkout(1);
    let reused = ready(poll(&mut checkout, &mut pool, at(30)));
    assert_eq!(reused.id, 7);
    assert!(!reused.is_pool_enabled());
    assert_eq!(idle_ids(&pool, 1), vec![7]);
    assert_eq!(pool.locked().idle.get(&1).unwrap()[0].idle_at, at(30));

    // It does not go back a second time.
    assert!(pool.drop_pooled(reused, at(31)).is_none());
    assert_eq!(idle_ids(&pool, 1), vec![7]);
}

#[test]
fn second_shared_connection_is_dropped() {
    let mut pool = new_pool(5);
    let (_, _) = pool.pooled(&mut unlinked(1), Conn::shared(7), at(0));
    let (_, _) = pool.pooled(&mut unlinked(1), Conn::shared(8), at(0));
    assert_eq!(idle_ids(&pool, 1), vec![7]);
}

#[test]
fn put_serves_the_longest_waiting_first() {
    let mut pool = new_pool(5);
    let mut first = pool.checkout(1);
    let mut second = pool.checkout(1);
    assert!(is_pending(poll(&mut first, &mut pool, at(0))));
    assert!(is_pending(poll(&mut second, &mut pool, at(0))));
    assert_eq!(waiting(&pool, 1), 2);

    put(&mut pool, 1, Conn::unique(9), at(1));
    assert_eq!(waiting(&pool, 1), 1);
    assert!(!pool.locked().idle.contains_key(&1));
    assert!(is_pending(poll(&mut second, &mut pool, at(1))));
    let pooled = ready(poll(&mut first, &mut pool, at(1)));
    assert_eq!(pooled.id, 9);
    assert!(pooled.is_reused());
    assert!(pooled.is_pool_enabled());
}

#[test]
fn put_passes_over_waiters_that_are_gone() {
    let mut pool = new_pool(5);
    let mut first = pool.checkout(1);
    let mut second = pool.checkout(1);
    assert!(is_pending(poll(&mut first, &mut pool, at(0))));
    assert!(is_pending(poll(&mut second, &mut pool, at(0))));

    drop(first);
    put(&mut pool, 1, Conn::unique(9), at(1));
    assert_eq!(waiting(&pool, 1), 0);
    assert!(!pool.locked().waiters.contains_key(&1));
    assert_eq!(ready(poll(&mut second, &mut pool, at(1))).id, 9);
}

#[test]
fn put_keeps_what_no_waiter_is_there_for() {
    let mut pool = new_pool(5);
    let mut first = pool.checkout(1);
    assert!(is_pending(poll(&mut first, &mut pool, at(0))));
    drop(first);
    put(&mut pool, 1, Conn::unique(9), at(1));
    assert_eq!(idle_ids(&pool, 1), vec![9]);
    assert_eq!(waiting(&pool, 1), 0);
}

#[test]
fn shared_connection_serves_every_waiter() {
    let mut pool = new_pool(5);
    let mut first = pool.checkout(1);
    let mut second = pool.checkout(1);
    assert!(is_pending(poll(&mut first, &mut pool, at(0))));
    assert!(is_pending(poll(&mut second, &mut pool, at(0))));

    let mut connecting = pool.connecting(&1, Ver::Http2).unwrap();
    let (_, _) = pool.pooled(&mut connecting, Conn::shared(7), at(1));
    assert_eq!(waiting(&pool, 1), 0);
    assert_eq!(idle_ids(&pool, 1), vec![7]);
    assert_eq!(ready(poll(&mut first, &mut pool, at(1))).id, 7);
    assert_eq!(ready(poll(&mut second, &mut pool, at(1))).id, 7);
}

#[test]
fn waiting_task_is_woken() {
    let mut pool = new_pool(5);
    let alarm = Arc::new(Alarm(AtomicUsize::new(0)));
    let alarm_waker = waker(alarm.clone());
    let mut cx = Context::from_waker(&alarm_waker);
    let mut checkout = pool.checkout(1);
    assert!(is_pending(checkout.poll(&mut pool, at(0), &mut cx)));
    assert_eq!(alarm.0.load(Ordering::SeqCst), 0);
    put(&mut pool, 1, Conn::unique(9), at(1));
    assert_eq!(alarm.0.load(Ordering::SeqCst), 1);
    assert_eq!(ready(checkout.poll(&mut pool, at(1), &mut cx)).id, 9);
}

#[test]
fn connection_closed_on_the_way_is_an_error() {
    let mut pool = new_pool(5);
    let mut checkout = pool.checkout(1);
    assert!(is_pending(poll(&mut checkout, &mut pool, at(0))));
    let conn = Conn::unique(9);
    put(&mut pool, 1, conn.clone(), at(1));
    conn.close();
    let error = refused(poll(&mut checkout, &mut pool, at(1)));
    assert_eq!(error, Error::CheckedOutClosedValue);
    assert!(error.is_canceled());
    assert_eq!(error.message(), "checked out connection was closed");
    assert!(checkout.waiter.is_none());
}

#[test]
fn waiters_of_a_failed_connect_are_canceled() {
    let mut pool = new_pool(5);
    let connecting = pool.connecting(&1, Ver::Http2).unwrap();
    let mut checkout = pool.checkout(1);
    assert!(is_pending(poll(&mut checkout, &mut pool, at(0))));
    pool.drop_connecting(connecting);
    assert_eq!(waiting(&pool, 1), 0);
    let error = refused(poll(&mut checkout, &mut pool, at(1)));
    assert_eq!(error, Error::CheckoutNoLongerWanted);
    assert!(!error.is_canceled());
    assert_eq!(error.message(), "request was canceled");
}

#[test]
fn disabled_pool_refuses() {
    let mut pool = new_pool(0);
    assert!(!pool.is_enabled());
    let mut checkout = pool.checkout(1);
    let error = refused(poll(&mut checkout, &mut pool, at(0)));
    assert_eq!(error, Error::PoolDisabled);
    assert!(!error.is_canceled());
    assert_eq!(error.message(), "pool is disabled");
    assert_eq!(pool.idle_count(&1), 0);

    let mut connecting = pool.connecting(&1, Ver::Http2).unwrap();
    assert!(connecting.pool.is_none());
    assert!(pool.connecting(&1, Ver::Http2).is_some());
    let (pooled, task) = pool.pooled(&mut connecting, Conn::shared(7), at(0));
    assert!(task.is_none());
    assert!(!pooled.is_pool_enabled());
    assert_eq!(pooled.id, 7);
    assert!(pool.drop_pooled(pooled, at(0)).is_none());
    assert_eq!(pool.idle_count(&1), 0);
}

#[test]
fn one_http2_connect_at_a_time() {
    let mut pool = new_pool(5);
    assert!(config(5).is_enabled());
    assert!(!config(0).is_enabled());
    let first = pool.connecting(&1, Ver::Http2).unwrap();
    assert!(first.pool == Some(0));
    assert!(pool.connecting(&1, Ver::Http2).is_none());
    assert!(pool.connecting(&2, Ver::Http2).is_some());
    assert!(pool.connecting(&1, Ver::Auto).unwrap().pool.is_none());
    pool.drop_connecting(first);
    assert!(pool.connecting(&1, Ver::Http2).is_some());
}

#[test]
fn unique_connection_ends_its_connect() {
    let mut pool = new_pool(5);
    let mut connecting = pool.connecting(&1, Ver::Http2).unwrap();
    let (pooled, _) = pool.pooled(&mut connecting, Conn::unique(3), at(0));
    assert!(pooled.is_pool_enabled());
    assert!(!pool.locked().connecting.contains(&1));
    assert!(pool.connecting(&1, Ver::Http2).is_some());
}

#[test]
fn connecting_is_upgraded_to_http2() {
    let mut pool = new_pool(5);
    let first = pool.connecting(&1, Ver::Auto).unwrap();
    let second = pool.connecting(&1, Ver::Auto).unwrap();
    assert!(first.alpn_h2(&mut pool).unwrap().pool.is_some());
    assert!(second.alpn_h2(&mut pool).is_none());
}

#[test]
fn idle_count_counts_what_is_open() {
    let mut pool = new_pool(5);
    let closing = Conn::unique(2);
    put(&mut pool, 1, Conn::unique(1), at(0));
    put(&mut pool, 1, closing.clone(), at(0));
    put(&mut pool, 1, Conn::unique(3), at(0));
    assert_eq!(pool.idle_count(&1), 3);
    closing.close();
    assert_eq!(pool.idle_count(&1), 2);
    assert_eq!(idle_ids(&pool, 1), vec![1, 2, 3]);
}

#[test]
fn clearing_keeps_usable_connections_in_order() {
    let mut pool: Pool<Conn, u64> = Pool::new(
        Config {
            idle_timeout: Some(Duration::from_millis(20)),
            idle_timeout_http2: Some(Duration::from_millis(200)),
            max_idle_per_host: 5,
        },
        false,
        0,
    );
    let closing = Conn::unique(3);
    put(&mut pool, 1, Conn::unique(1), at(0));
    put(&mut pool, 1, Conn::unique(2), at(50));
    put(&mut pool, 1, closing.clone(), at(50));
    put(&mut pool, 1, Conn::unique(4), at(55));
    put(&mut pool, 2, Conn::unique(5), at(0));
    let (_, _) = pool.pooled(&mut unlinked(3), Conn::shared(6), at(0));
    closing.close();

    pool.clear_expired(at(60));
    assert_eq!(idle_ids(&pool, 1), vec![2, 4]);
    assert!(!pool.locked().idle.contains_key(&2));
    assert_eq!(idle_ids(&pool, 3), vec![6]);

    pool.clear_expired(at(60));
    assert_eq!(idle_ids(&pool, 1), vec![2, 4]);
    assert_eq!(idle_ids(&pool, 3), vec![6]);

    pool.clear_expired(at(201));
    assert_eq!(pool.locked().idle.len(), 0);
}

#[test]
fn sweep_drops_closed_and_expired() {
    let closed = Conn::unique(2);
    closed.close();
    let mut list = vec![
        Idle { idle_at: at(0), value: Conn::unique(1) },
        Idle { idle_at: at(90), value: closed },
        Idle { idle_at: at(90), value: Conn::unique(3) },
    ];
    sweep(&mut list, Duration::from_millis(50), None, at(100));
    assert_eq!(list.len(), 1);
    assert_eq!(list[0].value.id, 3);
}

#[test]
fn interval_is_planned_once_and_not_too_short() {
    let millis = Duration::from_millis;
    assert_eq!(plan_interval(false, Some(millis(10)), true), Some(millis(90)));
    assert_eq!(plan_interval(false, Some(millis(200)), true), Some(millis(200)));
    assert_eq!(plan_interval(true, Some(millis(200)), true), None);
    assert_eq!(plan_interval(false, Some(millis(0)), true), None);
    assert_eq!(plan_interval(false, Some(millis(200)), false), None);
    assert_eq!(plan_interval(false, None, true), None);
}

#[test]
fn idle_task_is_started_once_and_learns_of_the_end() {
    let mut pool: Pool<Conn, u64> = Pool::new(config(5), true, 0);
    let (pooled, task) = pool.pooled(&mut unlinked(1), Conn::unique(1), at(0));
    assert!(task.is_none());
    let mut task = pool.drop_pooled(pooled, at(0)).expect("idle task");
    assert_eq!(task.duration, Duration::from_millis(100));
    assert_eq!(task.next_check(at(5)), at(105));
    put(&mut pool, 1, Conn::unique(2), at(0));

    assert!(!task.wake(IdleEvent::PoolDropped, Some(&mut pool), at(1000)));
    assert_eq!(idle_ids(&pool, 1), vec![1, 2]);
    assert!(task.wake::<Conn, u64>(IdleEvent::Elapsed, None, at(1000)));
    assert!(task.wake(IdleEvent::Elapsed, Some(&mut pool), at(1000)));
    assert!(!pool.locked().idle.contains_key(&1));

    assert!(matches!(task.pool_drop_notifier.try_recv(), Ok(None)));
    drop(pool);
    assert!(task.pool_drop_notifier.try_recv().is_err());
}

#[test]
fn shared_connection_starts_the_idle_task() {
    let mut pool: Pool<Conn, u64> = Pool::new(config(5), true, 0);
    let mut connecting = pool.connecting(&1, Ver::Http2).unwrap();
    let (_, task) = pool.pooled(&mut connecting, Conn::shared(1), at(0));
    assert!(task.is_some());
}

#[test]
fn reply_of_a_waiter_decides_what_is_left() {
    assert_eq!(after_send(Some(1), Ok(())), Some(1));
    assert_eq!(after_send::<u32>(None, Ok(())), None);
    assert_eq!(after_send(Some(1), Err(2)), Some(2));
    assert_eq!(after_send(None, Err(2)), Some(2));
}

#[test]
fn reply_of_the_channel_decides_the_answer() {
    let pooled = ready(answer_waiter(Some(0), &1, Polled::Value(Conn::unique(4))));
    assert_eq!(pooled.id, 4);
    assert!(pooled.is_pool_enabled());
    let pooled = ready(answer_waiter(None, &1, Polled::Value(Conn::unique(4))));
    assert!(!pooled.is_pool_enabled());
    let pooled = ready(answer_waiter(Some(0), &1, Polled::Value(Conn::shared(4))));
    assert!(!pooled.is_pool_enabled());
    let closed = Conn::unique(5);
    closed.close();
    assert_eq!(
        refused(answer_waiter(Some(0), &1, Polled::Value(closed))),
        Error::CheckedOutClosedValue
    );
    assert_eq!(
        refused(answer_waiter(Some(0), &1, Polled::Canceled)),
        Error::CheckoutNoLongerWanted
    );
    assert!(is_pending(answer_waiter(Some(0), &1, Polled::Pending)));
}

#[test]
fn dropped_checkout_leaves_the_others_waiting_in_order() {
    let mut pool = new_pool(5);
    let mut first = pool.checkout(1);
    let mut second = pool.checkout(1);
    let mut third = pool.checkout(1);
    assert!(is_pending(poll(&mut first, &mut pool, at(0))));
    assert!(is_pending(poll(&mut second, &mut pool, at(0))));
    assert!(is_pending(poll(&mut third, &mut pool, at(0))));

    pool.drop_checkout(second);
    assert_eq!(waiting(&pool, 1), 2);
    put(&mut pool, 1, Conn::unique(8), at(1));
    put(&mut pool, 1, Conn::unique(9), at(1));
    assert_eq!(ready(poll(&mut first, &mut pool, at(1))).id, 8);
    assert_eq!(ready(poll(&mut third, &mut pool, at(1))).id, 9);
}

#[test]
fn checkout_that_waits_and_is_dropped_leaves_no_trace() {
    let mut pool = new_pool(5);
    let mut other = pool.checkout(2);
    assert!(is_pending(poll(&mut other, &mut pool, at(0))));
    let mut checkout = pool.checkout(1);
    assert!(is_pending(poll(&mut checkout, &mut pool, at(0))));
    assert!(pool.locked().waiters.contains_key(&1));
    pool.drop_checkout(checkout);
    assert!(!pool.locked().waiters.contains_key(&1));
    assert_eq!(waiting(&pool, 2), 1);
}

#[test]
fn checkout_that_does_not_wait_cleans_nothing() {
    let mut pool = new_pool(5);
    let mut gone = pool.checkout(1);
    assert!(is_pending(poll(&mut gone, &mut pool, at(0))));
    drop(gone);
    let idle = pool.checkout(1);
    pool.drop_checkout(idle);
    assert_eq!(waiting(&pool, 1), 1);
}

#[test]
fn no_key_has_both_idle_connections_and_waiters() {
    let mut pool = new_pool(5);
    put(&mut pool, 1, Conn::unique(1), at(0));
    let mut checkout = pool.checkout(1);
    assert!(is_pending(poll(&mut checkout, &mut pool, at(1000))));
    assert_eq!(waiting(&pool, 1), 1);
    assert!(!pool.locked().idle.contains_key(&1));

    put(&mut pool, 1, Conn::unique(2), at(1000));
    assert_eq!(waiting(&pool, 1), 0);
    assert!(!pool.locked().idle.contains_key(&1));
    put(&mut pool, 1, Conn::unique(3), at(1000));
    assert_eq!(idle_ids(&pool, 1), vec![3]);
    assert_eq!(ready(poll(&mut checkout, &mut pool, at(1000))).id, 2);
}

#[test]
fn sent_connection_is_delivered_without_the_pool() {
    let mut cx = Context::from_waker(noop_waker_ref());
    let mut pool = new_pool(5);
    let mut checkout = pool.checkout(1);
    assert!(matches!(checkout.poll_waiter(Some(0), &mut cx), Poll::Ready(None)));
    assert!(is_pending(poll(&mut checkout, &mut pool, at(0))));
    assert!(matches!(checkout.poll_waiter(Some(0), &mut cx), Poll::Pending));
    put(&mut pool, 1, Conn::unique(9), at(1));
    match checkout.poll_waiter(Some(0), &mut cx) {
        Poll::Ready(Some(Ok(pooled))) => {
            assert_eq!(pooled.id, 9);
            assert!(pooled.is_reused());
        }
        _ => panic!("not delivered"),
    }
    assert!(matches!(checkout.poll_waiter(Some(0), &mut cx), Poll::Ready(None)));
}

#[test]
fn connection_found_open_is_put_back() {
    let mut pool = new_pool(5);
    let (pooled, _) = pool.pooled(&mut unlinked(1), Conn::unique(1), at(0));
    assert!(pool.put_back(pooled, at(0)).is_none());
    assert_eq!(idle_ids(&pool, 1), vec![1]);
    let (pooled, _) = pool.pooled(&mut unlinked(2), Conn::shared(2), at(0));
    assert!(pool.put_back(pooled, at(0)).is_none());
    assert_eq!(idle_ids(&pool, 2), vec![2]);
}

#[test]
fn right_to_connect_ends_where_it_was_granted() {
    let mut granting = new_pool(5);
    let mut using: Pool<Conn, u64> = Pool::new(config(5), false, 1);
    assert_eq!((granting.id(), using.id()), (Some(0), Some(1)));
    let mut connecting = granting.connecting(&1, Ver::Http2).unwrap();
    let _own = using.connecting(&1, Ver::Http2).unwrap();
    let mut waits = using.checkout(1);
    assert!(is_pending(poll(&mut waits, &mut using, at(0))));

    let (pooled, _) = using.pooled(&mut connecting, Conn::unique(3), at(0));
    assert_eq!(pooled.pool, Some(1));
    assert_eq!(connecting.pool, Some(0));
    assert!(using.locked().connecting.contains(&1));
    assert_eq!(waiting(&using, 1), 1);
    assert!(granting.locked().connecting.contains(&1));

    using.drop_connecting(Connecting { key: 1, pool: connecting.pool });
    assert!(using.locked().connecting.contains(&1));
    granting.drop_connecting(connecting);
    assert!(!granting.locked().connecting.contains(&1));
}

#[test]
fn shared_connection_uses_the_right_up() {
    let mut pool = new_pool(5);
    let mut connecting = pool.connecting(&1, Ver::Http2).unwrap();
    let (_, _) = pool.pooled(&mut connecting, Conn::shared(7), at(0));
    assert!(connecting.pool.is_none());
    let _again = pool.connecting(&1, Ver::Http2).unwrap();
    pool.drop_connecting(connecting);
    assert!(pool.locked().connecting.contains(&1));
}

#[test]
fn connection_goes_back_to_its_own_pool_only() {
    let mut pool = new_pool(5);
    let mut other: Pool<Conn, u64> = Pool::new(config(5), false, 1);
    let (first, _) = pool.pooled(&mut unlinked(1), Conn::unique(1), at(0));
    let (second, _) = pool.pooled(&mut unlinked(1), Conn::unique(2), at(0));
    assert!(other.drop_pooled(first, at(0)).is_none());
    assert!(!other.locked().idle.contains_key(&1));
    assert!(pool.drop_pooled(second, at(0)).is_none());
    assert_eq!(idle_ids(&pool, 1), vec![2]);
}

#[test]
fn task_that_polled_last_is_woken() {
    let mut pool = new_pool(5);
    let early = Arc::new(Alarm(AtomicUsize::new(0)));
    let late = Arc::new(Alarm(AtomicUsize::new(0)));
    let (early_waker, late_waker) = (waker(early.clone()), waker(late.clone()));
    let mut checkout = pool.checkout(1);
    let mut cx = Context::from_waker(&early_waker);
    assert!(is_pending(checkout.poll(&mut pool, at(0), &mut cx)));
    let mut cx = Context::from_waker(&late_waker);
    assert!(is_pending(checkout.poll(&mut pool, at(0), &mut cx)));
    put(&mut pool, 1, Conn::unique(1), at(1));
    assert_eq!(early.0.load(Ordering::SeqCst), 0);
    assert_eq!(late.0.load(Ordering::SeqCst), 1);
    assert_eq!(ready(checkout.poll(&mut pool, at(1), &mut cx)).id, 1);
}

#[test]
fn pooled_connection_can_be_changed() {
    let mut pool = new_pool(5);
    let (mut pooled, _) = pool.pooled(&mut unlinked(1), Conn::unique(1), at(0));
    pooled.as_mut().id = 12;
    assert_eq!(pooled.as_ref().id, 12);
    assert!(pool.drop_pooled(pooled, at(0)).is_none());
    assert_eq!(idle_ids(&pool, 1), vec![12]);
}

#[test]
fn idle_connections_stand_oldest_first() {
    let mut pool = new_pool(5);
    put(&mut pool, 1, Conn::unique(1), at(1));
    put(&mut pool, 1, Conn::unique(2), at(2));
    put(&mut pool, 1, Conn::unique(3), at(3));
    let mut checkout = pool.checkout(1);
    let pooled = ready(poll(&mut checkout, &mut pool, at(4)));
    assert!(pool.drop_pooled(pooled, at(5)).is_none());
    let times: Vec<Instant> =
        pool.locked().idle.get(&1).unwrap().iter().map(|entry| entry.idle_at).collect();
    assert_eq!(times, vec![at(1), at(2), at(5)]);
}

#[test]
fn spans_and_readings() {
    let millis = Duration::from_millis;
    assert_eq!(millis(3), Duration::from_nanos(3_000_000));
    assert!(millis(0).is_zero());
    assert!(!millis(1).is_zero());
    assert_eq!(millis(1).max(millis(2)), millis(2));
    assert_eq!(millis(2).max(millis(1)), millis(2));
    assert_eq!(at(5).saturating_duration_since(at(2)), millis(3));
    assert_eq!(at(2).saturating_duration_since(at(5)), millis(0));
}
