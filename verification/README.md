# crossbeam_channel

Channels for message passing between threads and futures, with their
protocols stated as contracts and proved with Verus.

- `src/` is the verified library. Each channel is the state it keeps, and each
  operation is one step of its protocol: what the step observes from outside
  (the current task, the current time) comes in as arguments, and what must be
  done outside (tasks to wake, time to sleep) comes back as values.
  - `flavors::queue`: a FIFO queue, bounded or unbounded, that can be
    disconnected and still drains.
  - `flavors::after`: a channel that materialises one message at a deadline.
  - `futures::sender_task`: the one-shot notifier on which a sender parks.
  - `futures::mpsc`: a bounded futures-aware MPSC channel with back pressure.
  - `broadcast`: sends one message to many senders and drops disconnected ones.
  - `err`: the errors and readiness values the operations return.
- `app/` shares that state between threads (`Mutex`, `parking_lot::RwLock`),
  implements the `futures` 0.1 `Sink` and `Stream` traits on top of it, runs
  the clock and the sleeps of the timer channel, and holds the queue
  benchmarks (crossbeam's `SegQueue`, the `mpmc` crate).
- `tests/` exercises the library on concrete values.
