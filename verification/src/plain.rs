//! A plain named queue of raw messages, without priorities or delays: the
//! message enqueued last is the first to be dequeued.

use vstd::prelude::*;

verus! {

/// The mathematical value of a raw [`Message`].
pub struct MessageView {
    pub id: Seq<char>,
    pub body: Seq<u8>,
}

/// A raw message: an identifier and an uninterpreted body.
#[derive(Debug)]
pub struct Message {
    pub id: String,
    pub body: Vec<u8>,
}

impl View for Message {
    type V = MessageView;

    open spec fn view(&self) -> MessageView {
        MessageView { id: self.id@, body: self.body@ }
    }
}

/// A named queue that counts the messages it holds.
#[derive(Debug)]
pub struct Queue {
    pub name: String,
    messages: Vec<Message>,
    message_count: u32,
}

/// The mathematical value of a [`Queue`]: its name and the messages held,
/// oldest first.
pub struct QueueView {
    pub name: Seq<char>,
    pub messages: Seq<MessageView>,
}

impl View for Queue {
    type V = QueueView;

    closed spec fn view(&self) -> QueueView {
        QueueView { name: self.name@, messages: self.messages@.map_values(|m: Message| m@) }
    }
}

impl Queue {
    /// The counter agrees with the number of messages held.
    pub closed spec fn well_formed(&self) -> bool {
        self.message_count == self.messages@.len()
    }

    /// An empty queue called `name`.
    pub fn new(name: &str) -> (queue: Queue)
        ensures
            queue.well_formed(),
            queue@ == (QueueView { name: name@, messages: Seq::empty() }),
    {
        let queue = Queue { name: name.to_owned(), messages: Vec::new(), message_count: 0 };
        proof {
            assert(queue@.messages =~= Seq::<MessageView>::empty());
        }
        queue
    }

    /// The number of messages held.
    pub fn get_message_count(&self) -> (count: u32)
        requires
            self.well_formed(),
        ensures
            count == self@.messages.len(),
    {
        self.message_count
    }

    /// Puts `message` behind all messages held. The counter has room for
    /// `u32::MAX` messages and no more.
    pub fn enqueue(&mut self, message: Message)
        requires
            old(self).well_formed(),
            old(self)@.messages.len() < u32::MAX,
        ensures
            final(self).well_formed(),
            final(self)@ == (QueueView {
                messages: old(self)@.messages.push(message@),
                ..old(self)@
            }),
    {
        self.messages.push(message);
        self.message_count += 1;
        proof {
            assert(self@.messages =~= old(self)@.messages.push(message@));
        }
    }

    /// Takes out the message that was enqueued last; `None`, and no change,
    /// when the queue is empty.
    pub fn dequeue(&mut self) -> (message: Option<Message>)
        requires
            old(self).well_formed(),
        ensures
            final(self).well_formed(),
            match message {
                Some(m) => {
                    &&& old(self)@.messages.len() > 0
                    &&& m@ == old(self)@.messages.last()
                    &&& final(self)@ == (QueueView {
                        messages: old(self)@.messages.drop_last(),
                        ..old(self)@
                    })
                },
                None => old(self)@.messages.len() == 0 && final(self)@ == old(self)@,
            },
    {
        let message = self.messages.pop();
        if message.is_some() {
            self.message_count -= 1;
            proof {
                assert(self@.messages =~= old(self)@.messages.drop_last());
            }
        }
        message
    }
}

} // verus!
