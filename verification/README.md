# async_test

Hand-written futures, wakers and executors, whose state machines (when a
future is ready, when a timer thread starts, which task runs next, when an
executor stops) are verified in Verus; waking, threads and locks are not.

- `src/` — the verified library: the countdown future (`countdown`), tasks
  that await countdowns in turn (`task`), the round-robin executor
  (`simple_executor`), the watched timer and the channel executor's
  scheduling rules (`myfuture`), the sleeping future's shared state
  (`timefuture`), the fizz/buzz cycles, the philosophers' forks and thoughts,
  random delays, and the announcing waker.
- `app/` — the programs: threads, mutexes, condition variables, `Future` and
  `ArcWake` impls, the `futures` and `tokio` runtimes, and printing, all
  driving the library's state machines.
- `tests/` — scenarios and examples for each part.
