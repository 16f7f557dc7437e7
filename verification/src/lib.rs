//! A message-broker core: a queue that orders messages by the time at which
//! they become available and then by priority, hands them out one at a time
//! or in batches, and reschedules failed deliveries with exponential backoff
//! until their retry budget is spent, after which they are dead letters.
//!
//! * [`message`]: messages and the order in which they are served.
//! * [`index`]: the ordering index, a binary heap of messages.
//! * [`queue`]: the delayed priority queue with its retry policy.
//! * [`laws`]: laws that relate the queue's operations.
//! * [`clock`]: the monotonic clock that the queue reads.
//! * [`producer`], [`consumer`]: callers that fill and drain a queue.
//! * [`cluster`]: the nodes of a cluster, their liveness and their leader.
//! * [`ident`]: random identifiers.
//! * [`storage`]: the keys under which messages are persisted.
//! * [`plain`]: a plain named queue of raw messages.

pub mod clock;
pub mod cluster;
pub mod consumer;
pub mod ident;
pub mod index;
pub mod laws;
pub mod message;
pub mod plain;
pub mod producer;
pub mod queue;
pub mod storage;
