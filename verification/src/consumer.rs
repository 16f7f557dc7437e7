//! Consumers: callers that take messages off a queue, process them and
//! confirm them.

use crate::clock::NANOS_PER_SECOND;
use crate::ident::{is_random_identifier, random_identifier};
use crate::message::Message;
use crate::queue::{Queue, QueueView};
use vstd::prelude::*;

verus! {

/// How long a consumer waits, in nanoseconds, after it found no message
/// ready, unless it was made with another wait.
pub const IDLE_WAIT: u64 = 5 * NANOS_PER_SECOND;

/// What one round of consumption did.
#[derive(Debug)]
pub enum Round {
    /// This message was served, processed and acknowledged.
    Processed(Message),
    /// No message was ready; the consumer is to wait this many nanoseconds
    /// before its next round.
    Idle(u64),
}

/// `round` is what one round of consumption at `now` does to the queue
/// `before`: it serves a message that may be handed out, hands its payload to
/// `process_message` and leaves the queue without it and without any other
/// message of its identifier; or nothing is ready, the queue stays as it is
/// and the consumer is told to wait for `idle_wait`.
pub open spec fn is_round<F: Fn(&str)>(
    before: QueueView,
    process_message: &F,
    now: u64,
    idle_wait: u64,
    round: Round,
    after: QueueView,
) -> bool {
    match round {
        Round::Processed(m) => {
            &&& before.serves(now, m@)
            &&& exists|content: &str|
                content@ == m.content@ && #[trigger] call_ensures(process_message, (content,), ())
            &&& after == before.without(m@).after_acknowledge(m.id)
        },
        Round::Idle(wait) => {
            &&& wait == idle_wait
            &&& before.none_ready(now)
            &&& after == before
        },
    }
}

/// A consumer, known by a random identifier, with the time it waits after a
/// round that found nothing ready.
#[derive(Debug, Clone)]
pub struct Consumer {
    id: u128,
    idle_wait: u64,
}

impl Consumer {
    /// The consumer's identifier.
    pub closed spec fn spec_id(&self) -> u128 {
        self.id
    }

    /// The wait after an idle round, in nanoseconds.
    pub closed spec fn spec_idle_wait(&self) -> u64 {
        self.idle_wait
    }

    /// A consumer with a fresh random identifier that waits [`IDLE_WAIT`]
    /// after an idle round.
    pub fn new() -> (consumer: Consumer)
        ensures
            is_random_identifier(consumer.spec_id()),
            consumer.spec_idle_wait() == IDLE_WAIT,
    {
        Consumer { id: random_identifier(), idle_wait: IDLE_WAIT }
    }

    /// A consumer with a fresh random identifier that waits `idle_wait`
    /// nanoseconds after an idle round.
    pub fn with_idle_wait(idle_wait: u64) -> (consumer: Consumer)
        ensures
            is_random_identifier(consumer.spec_id()),
            consumer.spec_idle_wait() == idle_wait,
    {
        Consumer { id: random_identifier(), idle_wait }
    }

    /// The wait after an idle round, in nanoseconds.
    #[verifier::when_used_as_spec(spec_idle_wait)]
    pub fn idle_wait(&self) -> (wait: u64)
        ensures
            wait == self.spec_idle_wait(),
    {
        self.idle_wait
    }

    /// The consumer's identifier.
    #[verifier::when_used_as_spec(spec_id)]
    pub fn id(&self) -> (id: u128)
        ensures
            id == self.spec_id(),
    {
        self.id
    }

    /// One round of consumption at clock reading `now`. When the queue
    /// serves a message, its payload is handed to `process_message` and the
    /// message is then acknowledged by its identifier, which also removes any
    /// other pending message with that identifier. When nothing is ready the
    /// queue is left as it is.
    pub fn consume_at<F: Fn(&str)>(&self, queue: &mut Queue, process_message: &F, now: u64) -> (round:
        Round)
        requires
            forall|content: &str| call_requires(process_message, (content,)),
        ensures
            is_round(
                old(queue)@,
                process_message,
                now,
                self.spec_idle_wait(),
                round,
                final(queue)@,
            ),
    {
        match queue.pop_at(now) {
            Some(message) => {
                process_message(message.content.as_str());
                let _ = queue.acknowledge(message.id);
                Round::Processed(message)
            },
            None => Round::Idle(self.idle_wait),
        }
    }

    /// One round of consumption at the queue's present clock reading.
    pub fn consume<F: Fn(&str)>(&self, queue: &mut Queue, process_message: &F) -> (round: Round)
        requires
            forall|content: &str| call_requires(process_message, (content,)),
        ensures
            exists|now: u64|
                now >= old(queue)@.clock && #[trigger] is_round(
                    old(queue)@.at(now),
                    process_message,
                    now,
                    self.spec_idle_wait(),
                    round,
                    final(queue)@,
                ),
    {
        let now: u64 = queue.now();
        self.consume_at(queue, process_message, now)
    }
}

} // verus!
