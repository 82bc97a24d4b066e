# multiqueue

A bounded queue with any number of senders, whose values are broadcast to any number of independent
streams. Each stream receives every value, in order, from where it was subscribed. A stream can have
several consumers, which share its values out.

The library is written in Rust and proved with Verus.

- `src/model.rs` says what a queue is: one log of all values, a position in it for each stream, and
  the bookkeeping. All contracts are stated over this model.
- `src/laws.rs` states what holds over any number of operations: every stream receives the log once
  and in order, each sender's values come in the order in which it claimed their places, no stream
  falls behind by more than the capacity, no wake-up is lost, and so on. `src/strategies.rs` states
  that how receivers wait makes no difference to what a queue answers.
- `src/multiqueue.rs` is the ring itself: claiming a place and filling it, finding the slowest
  stream, receiving a value or looking at it in its place.
- `src/countedindex.rs` holds the counts that number the places, and what becomes of them when they
  wrap around.
- `src/read_cursor.rs` and `src/memory.rs` keep the streams, and the places of removed streams until
  nobody can be looking at them.
- `src/sender.rs`, `src/receiver.rs` and `src/iterators.rs` are the handles, and `src/multicast.rs`
  and `src/mpmc.rs` the two flavours of the queue.
- `src/wait.rs` says how receivers wait; `src/futures_wait.rs` and `src/futures_queue.rs` are for
  tasks instead of threads. `src/inline.rs` holds the only trusted items, for a list of the
  `smallvec` crate.

The library decides; it does not block. The queue is a value that is handed to each operation, and an
operation that has to wait says what for. `app/` shares the queue between threads and tasks: it puts
it behind a lock, sleeps, yields, parks tasks and calls them.
