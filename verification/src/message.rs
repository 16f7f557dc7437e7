//! Messages and the order in which the queue serves them.

use core::cmp::Ordering;
use vstd::prelude::*;

verus! {

/// The mathematical value of a [`Message`].
pub struct MessageView {
    pub id: u64,
    pub content: Seq<char>,
    pub priority: u8,
    pub available_at: u64,
    pub retry_count: u8,
    pub max_retries: u8,
}

impl MessageView {
    /// Strict service order: `self` is served before `other` when it becomes
    /// available earlier, or at the same instant with a higher priority.
    pub open spec fn precedes(self, other: MessageView) -> bool {
        self.available_at < other.available_at || (self.available_at == other.available_at
            && self.priority > other.priority)
    }

    /// Neither message is served strictly before the other.
    pub open spec fn ties_with(self, other: MessageView) -> bool {
        self.available_at == other.available_at && self.priority == other.priority
    }

    /// A message is ready once the clock has reached its availability time.
    pub open spec fn is_ready(self, now: u64) -> bool {
        self.available_at <= now
    }

    /// The same message with another availability time.
    pub open spec fn scheduled_at(self, available_at: u64) -> MessageView {
        MessageView { available_at, ..self }
    }
}

/// A message held by the queue.
///
/// `available_at` is a reading of the queue's monotonic clock, in nanoseconds
/// since the clock's origin. A higher `priority` is more urgent.
#[derive(Debug, Clone)]
pub struct Message {
    /// Identifier assigned by the producer; the queue never generates one.
    pub id: u64,
    /// Payload, never interpreted by the queue.
    pub content: String,
    /// Urgency; a higher value is served first among equally available messages.
    pub priority: u8,
    /// Clock reading before which the message is not handed out.
    pub available_at: u64,
    /// Number of redeliveries so far.
    pub retry_count: u8,
    /// Ceiling on `retry_count`.
    pub max_retries: u8,
}

impl View for Message {
    type V = MessageView;

    open spec fn view(&self) -> MessageView {
        MessageView {
            id: self.id,
            content: self.content@,
            priority: self.priority,
            available_at: self.available_at,
            retry_count: self.retry_count,
            max_retries: self.max_retries,
        }
    }
}

/// The values of a sequence of messages, position by position.
pub open spec fn views(messages: Seq<Message>) -> Seq<MessageView> {
    messages.map_values(|m: Message| m@)
}

/// The value of a message that may be absent.
pub open spec fn view_of(message: Option<Message>) -> Option<MessageView> {
    match message {
        Some(m) => Some(m@),
        None => None,
    }
}

impl Message {
    /// Whether `self` is served strictly before `other`.
    pub fn precedes(&self, other: &Message) -> (earlier: bool)
        ensures
            earlier == self@.precedes(other@),
    {
        self.available_at < other.available_at || (self.available_at == other.available_at
            && self.priority > other.priority)
    }

    /// Whether the message may be handed out at clock reading `now`.
    pub fn is_ready(&self, now: u64) -> (ready: bool)
        ensures
            ready == self@.is_ready(now),
    {
        self.available_at <= now
    }
}

/// Two messages are the same message when their identifiers agree; payload,
/// priority and timing take no part in identity.
impl PartialEq for Message {
    fn eq(&self, other: &Message) -> (same: bool) {
        self.id == other.id
    }
}

impl vstd::std_specs::cmp::PartialEqSpecImpl for Message {
    open spec fn obeys_eq_spec() -> bool {
        true
    }

    open spec fn eq_spec(&self, other: &Message) -> bool {
        self.id == other.id
    }
}

impl Eq for Message {

}

/// The message that is served first compares as the greater one, so the
/// greatest pending message is always the next to leave the queue.
impl PartialOrd for Message {
    fn partial_cmp(&self, other: &Message) -> (order: Option<Ordering>) {
        if self.precedes(other) {
            Some(Ordering::Greater)
        } else if other.precedes(self) {
            Some(Ordering::Less)
        } else {
            Some(Ordering::Equal)
        }
    }
}

impl vstd::std_specs::cmp::PartialOrdSpecImpl for Message {
    open spec fn obeys_partial_cmp_spec() -> bool {
        true
    }

    open spec fn partial_cmp_spec(&self, other: &Message) -> Option<Ordering> {
        if self@.precedes(other@) {
            Some(Ordering::Greater)
        } else if other@.precedes(self@) {
            Some(Ordering::Less)
        } else {
            Some(Ordering::Equal)
        }
    }
}

} // verus!
