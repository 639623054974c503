# nb_sync

Non-blocking synchronization structures, verified with Verus: a first-in first-out channel over a
slice that the caller lends, and a polled mutex.

- `src/fifo.rs`: `Channel`, its two ends `Receiver` and `Sender`, and `SendCompletion`
- `src/fifo/ring.rs`: the decisions behind every send and receive, as functions of the indices
- `src/fifo/laws.rs`: what holds over any sequence of calls
- `src/fifo/interleaving.rs`: what holds when the two ends work at the same time, step by step
- `src/mutex.rs`, `src/mutex/laws.rs`: `Mutex`, `MutexGuard`, and mutual exclusion
- `src/external.rs`: the types of `nb` and `bare-metal` that the signatures carry
- `app/`: handles that are shared by reference between contexts, built on the same decisions with
  `UnsafeCell`

In `src/`, channels and mutexes are used through exclusive borrows: a `Sender` is lent the
`Receiver` of the same split for the time of a call, and a `MutexGuard` holds on to the borrow of
its mutex. The contracts of the sending side require that receiver and no other; callers that are
not verified have to keep to it themselves.
