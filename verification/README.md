# Nagoya

Futures, synchronous closures and parallel ranges on one pool, with timers,
synchronisation, sockets, signals and child processes, on Linux.

`src/` is the verified library. It holds the state of each part of the runtime
and the steps that change it, with contracts that Verus proves. It is written
without locks and without a clock: a step takes what the outside answered and
hands back what is to be done next. A waker is a type parameter there, so a
contract can say exactly which waker is called, which is kept and which is
destroyed.

- `sync`: the wait queue, `Notify`, `Semaphore`, `RwLock`, `Barrier`
- `time`: the timer heap, sleeps and timeouts
- `io`: byte streams, their errors, and transfers that are all or an error
- `reactor`: the poller, registrations and their wakers, the local task set,
  sockets and addresses, name lookup, signals
- `process`: children, their exits and their pipes
- `par`, `fork`, `task`, `runtime`, `block_on`, `yield_now`: the pool

What holds across several steps stands beside them as proof functions whose
names begin with `law_`.

`reactor::platform` is the one place that is trusted rather than proved: it
gives the numbers that the C library has for errors, address families, signals
and readiness flags.

`app/` is ordinary Rust around the library: futures, locks, threads, and the
calls into the kernel.

`tests/` runs the library on concrete values.
