# self_stream

Actors that consume a stream held in one of their own fields.

- `src/` is the verified library:
  - `digits.rs`: the decimal digits of a `u64`, most significant first, produced on
    demand from an estimate of the digit count taken from the bit length.
  - `alloc_log.rs`: the report lines of the logging allocator, built on the stack.
  - `stream_gen.rs`: the state machine of a stream paced by an interval.
  - `forwarding.rs`: forwarding stream items to an actor through a weak address, and
    the supervisor that drives the actor and the forwarding task together.
  - `swarm.rs`: the value side of the network's swarm.
  - `messages.rs`: the messages the actors accept.
- `app/` runs the actors (actix, tokio): the global allocator, the paced streams, the
  forwarding and supervising tasks, and the handlers that print.
- `tests/` exercises the library.
