# epox

The scheduling core of `epox`, an async executor for Linux built on epoll,
written in Verus and verified.

- `src/` is the verified library: the FIFO run queues of the three priorities
  and the sleep queue (`queue`, `executor`), the task records, the decisions of
  the run loop and of `block_on`, the readiness state of each registered file
  descriptor with its burst limit, how a waker reaches its task, the yielding
  futures (`task`, `yield_task`), how a descriptor is registered (`fd`), and the
  check of a signal set (`signal`). `laws` proves the properties that span
  several operations: a task is on at most one queue, tasks run from high to
  low priority and in arrival order within one, a woken or yielding task runs
  after every runnable task of equal or higher priority, a completed task is on
  no queue, so the task handed out to run has never completed, and it is
  never run again through a wake-up, an aborted task is on no queue, a shut
  down executor stays shut down, repeated epoll events wake once, and a
  descriptor that stays ready makes its task yield after `BURST_LIMIT` results.
- `app/` is the executor around it: the thread-local executor with its epoll
  instance and wake-up pipe, the polling of futures, `Fd`, `Timer`,
  `AsyncSignal`, timeouts, threads and the futures-rs adapters.
- `tests/` runs the library on concrete scenarios.
