//! Actors that consume a stream held in one of their own fields, and the pieces they are
//! built from: paced streams, the forwarding of stream items to an actor, and an
//! allocator that reports every allocation.
pub mod alloc_log;
pub mod digits;
pub mod forwarding;
pub mod messages;
pub mod stream_gen;
pub mod swarm;
