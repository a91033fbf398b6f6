//! A pool of client connections.
//!
//! Connections that are not in use sit in the pool, filed under the host that they lead to. A
//! [`Checkout`] takes one out, or waits until one is put back. Connections that have been idle
//! for too long, or that were closed, are dropped at checkout and by a task that checks at
//! regular intervals.
//!
//! [`pool`] and [`checkout`] are what callers use, [`inner`] keeps the books, [`state`] says
//! what each operation does to them, and [`laws`] says what holds across operations.
//!
//! The modules whose names end in `_laws` say what a call comes to, in terms of what a pool and its
//! connections look like from outside, for which [`seen`] has the words: [`connect_laws`] of
//! connecting, [`return_laws`] of putting and giving back, [`checkout_laws`] of checkouts,
//! [`expiry_laws`] of idle connections, [`task_laws`] of the idle task and [`basic_laws`] of the
//! rest.

pub mod basic_laws;
pub mod channel;
pub mod checkout;
pub mod checkout_laws;
pub mod config;
pub mod connect_laws;
pub mod error;
pub mod expiration;
pub mod expiry_laws;
pub mod idle;
pub mod inner;
pub mod interval;
pub mod laws;
pub mod lists;
pub mod pool;
pub mod poolable;
pub mod return_laws;
pub mod seen;
pub mod state;
pub mod task_laws;
pub mod time;
pub mod waiters;

pub use checkout::{Checkout, Poll};
pub use config::Config;
pub use error::Error;
pub use interval::{IdleEvent, IdleTask};
pub use pool::{Connecting, Pool, Pooled};
pub use poolable::{Key, Poolable, Reservation, Ver};
pub use time::{Duration, Instant};
