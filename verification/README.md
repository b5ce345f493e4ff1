# observe

Generation-safe completion publication and observation for concurrent Rust,
verified with [Verus](https://github.com/verus-lang/verus).

Concurrent systems often need to publish one terminal outcome and let any number
of observers retrieve it, whether they arrive before, during, or after
completion. `observe` is that primitive, without runtime, task-tree, transport or
application-specific concepts:

- completion racing observation cannot lose the outcome;
- generations sharing a key, or a recycled slot, remain isolated;
- retiring an old generation cannot affect its replacement;
- cancelling an observer disarms no other;
- retained state is bounded by explicit ownership;
- a panicking waker cannot strand other waiters (the library hands all wakers
  over; `app/`, which is not verified, wakes each whatever the others do).

```rust
use observe::space::ObservationSpace;

let space = ObservationSpace::<u64, &'static str>::new();
let mut subject = space.subject(7)?;
let observation = space.observe(&7)?;

for waker in subject.complete("done") {
    waker.wake();
}
assert_eq!(observation.try_get(), Some("done"));
subject.retire();
```

## Layout

- `src/` is the verified library. The completion cell (`slot`), the key table
  (`small_map`) and the bookkeeping (`entries`) have exact contracts. The shared
  handles (`space`, `pair`, `observation`) run such operations in critical
  sections: what a lock guards is up to all threads, so a handle's contract says
  which lock it took, which section it ran there on which argument, and what it
  made of the answer. Each section is a public function with a contract of its
  own.
- `waiting` proves what holds of a cell under those sections, and `world` what
  holds over all histories of a namespace. The histories rest on three things that
  no contract can say, which `world` names: that a lock guards what was left
  there, that a pointer count of one means that nobody observes, and that wakers
  of one task are told to be.
- `src/sync.rs` holds what is taken on trust about locks, shared pointers and
  wakers.
- `app/` has the handles with destructors, blocking waits and `Future`s, and the
  measurement harness.
- `tests/` runs the library.
