# ref_count

A reference counter with standard and exclusive references, verified with Verus.

Many standard references can be had at once. An exclusive one blocks all new references and is had
once no standard one is left. Futures that cannot have their reference yet wait in a bounded queue
and are woken in the order in which they came. With this a readers-writer lock, among other things,
takes a few lines.

- `src/` is the verified library.
  - `array_queue`, `refcount`, `futures`, `waiter`: the bounded queue, the counter, its futures and
    those that wait, as a thread sees them that has them to itself. The contracts say exactly what
    each operation does.
  - `stamp`, `ring`, `state`: the words that all of this is kept in.
  - `backoff`, `hints`, `discard`: how long to wait, and what was told to the processor or dropped, as
    far as the contracts speak of it.
  - `queue_steps`, `poll_steps`, `state::Attempt`: every operation as a sequence of single accesses
    to memory, with the decisions in between. The modules above run on these steps, and so do threads
    that share the memory.
  - `queue_laws`, `ref_laws`, `wake_laws`: what holds when any number of threads make the accesses of
    their operations in any order. Values come out in the order in which they went in, each exactly
    once; no two threads are ever at the value in one slot; an exclusive reference is alone; the count
    is exact; no wake-up is lost.
  - `traced`, `shared`: the state word in an atomic, and the requests on it. Each access is noted with
    the words that it was given, and the contracts say which accesses a request makes, for every word
    that it may find. References and the block give themselves back when they are dropped. That an
    atomic does what it is given to do is taken on trust.
- `app/` keeps the words in atomics and the slots in cells, and hands wakers and futures to the core
  library's traits.
- `tests/` runs the library, and the steps under the interleavings that `loom` tries.

The laws take all accesses to be made one after another. They say nothing of weaker memory orders.
The laws on waking take the waiter queue as what its own laws make of it: a line that is joined at the
back and left at the front.
