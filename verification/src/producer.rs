//! Producers: callers that compose messages and schedule them on a queue.

use crate::ident::{is_random_identifier, low_half, low_half_of, random_identifier};
use crate::message::{Message, MessageView};
use crate::queue::Queue;
use vstd::prelude::*;

verus! {

/// The retry budget of every message that a producer sends.
pub const DEFAULT_MAX_RETRIES: u8 = 5;

/// The message that a producer composes from an identifier, a payload and a
/// priority: never retried so far, with the default retry budget.
pub open spec fn composed(id: u64, content: Seq<char>, priority: u8) -> MessageView {
    MessageView {
        id,
        content,
        priority,
        available_at: 0,
        retry_count: 0,
        max_retries: DEFAULT_MAX_RETRIES,
    }
}

/// Computes [`composed`].
pub fn compose(id: u64, content: String, priority: u8) -> (message: Message)
    ensures
        message@ == composed(id, content@, priority),
{
    Message {
        id,
        content,
        priority,
        available_at: 0,
        retry_count: 0,
        max_retries: DEFAULT_MAX_RETRIES,
    }
}

/// A producer, known by a random identifier.
#[derive(Debug, Clone)]
pub struct Producer {
    id: u128,
}

impl Producer {
    /// The producer's identifier.
    pub closed spec fn spec_id(&self) -> u128 {
        self.id
    }

    /// A producer with a fresh random identifier.
    pub fn new() -> (producer: Producer)
        ensures
            is_random_identifier(producer.spec_id()),
    {
        Producer { id: random_identifier() }
    }

    /// The producer's identifier.
    #[verifier::when_used_as_spec(spec_id)]
    pub fn id(&self) -> (id: u128)
        ensures
            id == self.spec_id(),
    {
        self.id
    }

    /// Composes a message with a fresh identifier, the low half of a random
    /// one, and schedules it on `queue` to become available `delay`
    /// nanoseconds from now.
    pub fn send_message(&self, queue: &mut Queue, content: String, priority: u8, delay: u64)
        ensures
            exists|identifier: u128, now: u64|
                {
                    &&& is_random_identifier(identifier)
                    &&& now >= old(queue)@.clock
                    &&& final(queue)@ == #[trigger] old(queue)@.at(now).after_push(
                        composed(low_half(identifier), content@, priority),
                        delay,
                        now,
                    )
                },
    {
        let identifier: u128 = random_identifier();
        let now: u64 = queue.now();
        let message = compose(low_half_of(identifier), content, priority);
        queue.push_at(message, delay, now);
        proof {
            assert(queue@ == old(queue)@.at(now).after_push(
                composed(low_half(identifier), content@, priority),
                delay,
                now,
            ));
        }
    }
}

} // verus!
