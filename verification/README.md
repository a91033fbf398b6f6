# conn_pool

A pool of client connections, verified with Verus.

Connections that are not in use sit in the pool, filed under the host that they lead to. A
checkout takes one out, or waits until one is put back. HTTP/1 connections are used by one request
at a time and go back afterwards; an HTTP/2 connection is shared, and the pool always keeps a copy.
Connections that were idle for too long, or that were closed, are dropped at checkout and by a
task that checks at regular intervals.

- `src/` is the verified library. `pool` and `checkout` are what callers use, `inner` keeps the
  books, `idle`, `waiters` and `interval` hold the algorithms, `state` says what each operation
  does, and `laws` says what holds across operations. `channel` holds all that is trusted: the
  one-shot channels of `futures_channel`.
- `app/` shares a pool between tasks: the lock, the futures, the handles that return themselves
  when they are dropped, the timer and the executor.
- `tests/` runs the library.

The library reads no clock. Whoever drives a pool passes in the time, and gives each pool a number
of its own, by which handles tell the pool that they go back to. A connection may answer
differently each time it is asked whether it is open, and the task at the other end of a channel
may go at any time. Contracts therefore relate the outcome of an operation to the answers that
were given in its course; they can only be met by asking.
