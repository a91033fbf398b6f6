use std::task::Context;

use conn_pool::{
    Checkout, Config, Connecting, Duration, Error, IdleEvent, IdleTask, Instant, Key, Poll, Pool,
    Poolable, Pooled, Reservation, Ver,
};
use futures_util::task::noop_waker_ref;

#[derive(Clone, Debug, PartialEq, Eq, Hash)]
struct KeyImpl(http::uri::Scheme, http::uri::Authority);

/// Test unique reservations.
#[derive(Debug, PartialEq, Eq)]
struct Uniq<T>(T);

impl<T: Send + 'static> Poolable for Uniq<T> {
    fn is_open(&self) -> bool {
        true
    }

    fn reserve(self) -> Reservation<Self> {
        Reservation::Unique(self)
    }

    fn can_share(&self) -> bool {
        false
    }
}

fn c<K: Key>(key: K) -> Connecting<K> {
    Connecting { key, pool: None }
}

fn host_key(s: &str) -> KeyImpl {
    KeyImpl(http::uri::Scheme::HTTP, s.parse().expect("host key"))
}

fn pool_no_timer<T, K: Key>() -> Pool<T, K> {
    pool_max_idle_no_timer(usize::MAX)
}

fn pool_max_idle_no_timer<T, K: Key>(max_idle: usize) -> Pool<T, K> {
    let mut pool = Pool::new(
        Config {
            idle_timeout: Some(Duration::from_millis(100)),
            idle_timeout_http2: None,
            max_idle_per_host: max_idle,
        },
        false,
        0,
    );
    pool.no_timer();
    pool
}

/// The moment `millis` milliseconds after the clock was started.
fn at(millis: u64) -> Instant {
    Instant::from_nanos(0).after(Duration::from_millis(millis))
}

/// Establishes a connection, to be used.
fn pooled<T: Poolable, K: Key>(pool: &mut Pool<T, K>, key: K, value: T, now: Instant) -> Pooled<T, K> {
    let (pooled, task) = pool.pooled(&mut c(key), value, now);
    assert!(task.is_none());
    pooled
}

/// Establishes a connection and ends its use at once.
fn pooled_and_dropped<T: Poolable, K: Key>(pool: &mut Pool<T, K>, key: K, value: T, now: Instant) {
    let pooled = pooled(pool, key, value, now);
    assert!(pool.drop_pooled(pooled, now).is_none());
}

fn poll<T: Poolable, K: Key>(
    checkout: &mut Checkout<T, K>,
    pool: &mut Pool<T, K>,
    now: Instant,
) -> Poll<Result<Pooled<T, K>, Error>> {
    let mut cx = Context::from_waker(noop_waker_ref());
    checkout.poll(pool, now, &mut cx)
}

fn is_ready<V>(poll: &Poll<V>) -> bool {
    matches!(poll, Poll::Ready(_))
}

#[test]
fn test_pool_checkout_smoke() {
    let mut pool = pool_no_timer();
    let key = host_key("foo");
    let pooled = pooled(&mut pool, key.clone(), Uniq(41), at(0));

    assert!(pool.drop_pooled(pooled, at(0)).is_none());

    let mut checkout = pool.checkout(key);
    match poll(&mut checkout, &mut pool, at(0)) {
        Poll::Ready(Ok(pooled)) => assert_eq!(*pooled, Uniq(41)),
        _ => panic!("not ready"),
    };
}

#[test]
fn test_pool_checkout_returns_none_if_expired() {
    let mut pool = pool_no_timer();
    let key = host_key("foo");
    let pooled = pooled(&mut pool, key.clone(), Uniq(41), at(0));

    assert!(pool.drop_pooled(pooled, at(0)).is_none());
    let later = at(0)
        .after(pool.locked().timeout.unwrap())
        .after(Duration::from_nanos(1));
    let mut checkout = pool.checkout(key);
    let is_not_ready = !is_ready(&poll(&mut checkout, &mut pool, later));
    assert!(is_not_ready);
}

#[test]
fn test_pool_checkout_removes_expired() {
    let mut pool = pool_no_timer();
    let key = host_key("foo");

    pooled_and_dropped(&mut pool, key.clone(), Uniq(41), at(0));
    pooled_and_dropped(&mut pool, key.clone(), Uniq(5), at(0));
    pooled_and_dropped(&mut pool, key.clone(), Uniq(99), at(0));

    assert_eq!(
        pool.locked().idle.get(&key).map(|entries| entries.len()),
        Some(3)
    );
    let later = at(0)
        .after(pool.locked().timeout.unwrap())
        .after(Duration::from_nanos(1));

    let mut checkout = pool.checkout(key.clone());
    // polling the checkout should clean out the expired
    poll(&mut checkout, &mut pool, later);
    assert!(!pool.locked().idle.contains_key(&key));
}

#[test]
fn test_pool_max_idle_per_host() {
    let mut pool = pool_max_idle_no_timer(2);
    let key = host_key("foo");

    pooled_and_dropped(&mut pool, key.clone(), Uniq(41), at(0));
    pooled_and_dropped(&mut pool, key.clone(), Uniq(5), at(0));
    pooled_and_dropped(&mut pool, key.clone(), Uniq(99), at(0));

    // pooled and dropped 3, max_idle should only allow 2
    assert_eq!(
        pool.locked().idle.get(&key).map(|entries| entries.len()),
        Some(2)
    );
}

#[test]
fn test_pool_timer_removes_expired_realtime() {
    let start = std::time::Instant::now();
    test_pool_timer_removes_expired_inner(
        || Instant::from_nanos(start.elapsed().as_nanos()),
        |until| while start.elapsed().as_nanos() < until.nanos {},
    )
}

#[test]
fn test_pool_timer_removes_expired_faketime() {
    let clock = std::cell::Cell::new(at(0));
    test_pool_timer_removes_expired_inner(|| clock.get(), |until| clock.set(until))
}

/// Runs the idle task up to `until`, and moves the clock there.
fn run_until<T: Poolable, K: Key>(
    task: &IdleTask,
    next_check: &mut Instant,
    pool: &mut Pool<T, K>,
    until: Instant,
    now: &impl Fn() -> Instant,
    sleep_until: &impl Fn(Instant),
) {
    while next_check.nanos <= until.nanos {
        sleep_until(*next_check);
        assert!(task.wake(IdleEvent::Elapsed, Some(&mut *pool), now()));
        *next_check = task.next_check(now());
    }
    sleep_until(until);
}

fn test_pool_timer_removes_expired_inner(
    now: impl Fn() -> Instant,
    sleep_until: impl Fn(Instant),
) {
    let mut pool = Pool::new(
        Config {
            idle_timeout: Some(Duration::from_millis(10)),
            idle_timeout_http2: None,
            max_idle_per_host: usize::MAX,
        },
        true,
        0,
    );

    let key = host_key("foo");

    // The first connection to become idle starts the idle task.
    let first = pooled(&mut pool, key.clone(), Uniq(41), now());
    let task = pool.drop_pooled(first, now()).expect("idle task");
    let mut next_check = task.next_check(now());
    let started = now();
    pooled_and_dropped(&mut pool, key.clone(), Uniq(5), now());
    pooled_and_dropped(&mut pool, key.clone(), Uniq(99), now());

    assert_eq!(
        pool.locked().idle.get(&key).map(|entries| entries.len()),
        Some(3)
    );

    // Let the timer tick passed the expiration...
    let until = started.after(Duration::from_millis(30));
    run_until(&task, &mut next_check, &mut pool, until, &now, &sleep_until);

    // But minimum interval is higher, so nothing should have been reaped
    assert_eq!(
        pool.locked().idle.get(&key).map(|entries| entries.len()),
        Some(3)
    );

    // Now wait passed the minimum interval more
    let until = started.after(Duration::from_millis(100));
    run_until(&task, &mut next_check, &mut pool, until, &now, &sleep_until);

    assert!(!pool.locked().idle.contains_key(&key));
}

#[test]
fn test_pool_checkout_task_unparked() {
    let mut pool = pool_no_timer();
    let key = host_key("foo");
    let pooled = pooled(&mut pool, key.clone(), Uniq(41), at(0));

    // the checkout will park first, and then the pooled is inserted back into the pool
    //
    // this test makes sure that doing so will unpark the checkout
    let mut checkout = pool.checkout(key);
    assert!(!is_ready(&poll(&mut checkout, &mut pool, at(0))));
    assert!(pool.drop_pooled(pooled, at(1)).is_none());

    match poll(&mut checkout, &mut pool, at(1)) {
        Poll::Ready(Ok(pooled)) => assert_eq!(*pooled, Uniq(41)),
        _ => panic!("not ready"),
    }
}

#[test]
fn test_pool_checkout_drop_cleans_up_waiters() {
    let mut pool = pool_no_timer::<Uniq<i32>, KeyImpl>();
    let key = host_key("foo");

    let mut checkout1 = pool.checkout(key.clone());
    let mut checkout2 = pool.checkout(key.clone());

    // first poll needed to get into Pool's parked
    poll(&mut checkout1, &mut pool, at(0));
    assert_eq!(pool.locked().waiters.get(&key).unwrap().len(), 1);
    poll(&mut checkout2, &mut pool, at(0));
    assert_eq!(pool.locked().waiters.get(&key).unwrap().len(), 2);

    // on drop, clean up Pool
    pool.drop_checkout(checkout1);
    assert_eq!(pool.locked().waiters.get(&key).unwrap().len(), 1);

    pool.drop_checkout(checkout2);
    assert!(!pool.locked().waiters.contains_key(&key));
}

#[derive(Debug)]
struct CanClose {
    #[allow(unused)]
    val: i32,
    closed: bool,
}

impl Poolable for CanClose {
    fn is_open(&self) -> bool {
        !self.closed
    }

    fn reserve(self) -> Reservation<Self> {
        Reservation::Unique(self)
    }

    fn can_share(&self) -> bool {
        false
    }
}

#[test]
fn pooled_drop_if_closed_doesnt_reinsert() {
    let mut pool = pool_no_timer();
    let key = host_key("foo");
    pooled_and_dropped(
        &mut pool,
        key.clone(),
        CanClose {
            val: 57,
            closed: true,
        },
        at(0),
    );

    assert!(!pool.locked().idle.contains_key(&key));
}

#[test]
fn test_idle_count() {
    let mut pool = pool_no_timer::<CanClose, KeyImpl>();
    let key = host_key("foo");

    assert_eq!(pool.idle_count(&key), 0, "nothing pooled yet for this key");

    let open = pooled(&mut pool, key.clone(), CanClose { val: 1, closed: false }, at(0));
    assert_eq!(pool.idle_count(&key), 0, "not idle until returned");
    assert!(pool.drop_pooled(open, at(0)).is_none());
    assert_eq!(pool.idle_count(&key), 1, "one live connection now idle");

    let closed_pooled = pooled(&mut pool, key.clone(), CanClose { val: 2, closed: true }, at(0));
    assert!(pool.drop_pooled(closed_pooled, at(0)).is_none());
    assert_eq!(pool.idle_count(&key), 1, "closed connection was not reinserted, count unchanged");

    // Checking the count is read-only: repeated calls don't evict or otherwise change anything.
    assert_eq!(pool.idle_count(&key), 1);
    assert_eq!(pool.locked().idle.get(&key).map(|l| l.len()), Some(1));

    assert_eq!(pool.idle_count(&host_key("bar")), 0, "unrelated key stays unaffected");
}

/// A `Poolable` whose sharing behavior is chosen per-instance, so a single pool can hold both an
/// HTTP/1-like (unique) and an HTTP/2-like (shared) entry to exercise `idle_timeout` vs
/// `idle_timeout_http2` independently.
#[derive(Debug, Clone)]
struct MixedPoolable {
    shared: bool,
}

impl Poolable for MixedPoolable {
    fn is_open(&self) -> bool {
        true
    }

    fn reserve(self) -> Reservation<Self> {
        if self.shared {
            Reservation::Shared(self.clone(), self)
        } else {
            Reservation::Unique(self)
        }
    }

    fn can_share(&self) -> bool {
        self.shared
    }
}

fn pool_dual_timeout_no_timer(
    idle_timeout: Duration,
    idle_timeout_http2: Duration,
) -> Pool<MixedPoolable, KeyImpl> {
    let mut pool = Pool::new(
        Config {
            idle_timeout: Some(idle_timeout),
            idle_timeout_http2: Some(idle_timeout_http2),
            max_idle_per_host: usize::MAX,
        },
        false,
        0,
    );
    pool.no_timer();
    pool
}

#[test]
fn test_http2_dedicated_idle_timeout() {
    let mut pool =
        pool_dual_timeout_no_timer(Duration::from_millis(20), Duration::from_millis(200));

    let h1_key = host_key("h1-origin");
    let h2_key = host_key("h2-origin");

    // An HTTP/1-like (unique) entry: dropping it re-inserts into idle via its pool reference.
    pooled_and_dropped(&mut pool, h1_key.clone(), MixedPoolable { shared: false }, at(0));

    // An HTTP/2-like (shared) entry: `pooled()` already inserts a copy into idle synchronously
    // for shared reservations; dropping the returned `Pooled` is a no-op here.
    let mut h2_connecting = pool.connecting(&h2_key, Ver::Http2).unwrap();
    let (h2_pooled, task) = pool.pooled(&mut h2_connecting, MixedPoolable { shared: true }, at(0));
    assert!(task.is_none());
    assert!(pool.drop_pooled(h2_pooled, at(0)).is_none());

    // Wait past the short (H1) timeout, but within the longer (H2) one.
    let later = at(60);

    let mut h1_checkout = pool.checkout(h1_key);
    let h1_found = is_ready(&poll(&mut h1_checkout, &mut pool, later));
    assert!(
        !h1_found,
        "HTTP/1 entry should have been evicted at checkout past its dedicated idle_timeout"
    );

    let mut h2_checkout = pool.checkout(h2_key);
    let h2_found = is_ready(&poll(&mut h2_checkout, &mut pool, later));
    assert!(
        h2_found,
        "HTTP/2 entry should still be usable within its own, longer idle_timeout_http2"
    );
}
