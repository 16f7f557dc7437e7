//! The delayed priority queue: scheduling, delivery, acknowledgement, and the
//! retry and dead-letter policy.

use crate::clock::{Clock, NANOS_PER_SECOND};
use crate::index::{is_front, without_id, OrderingIndex};
use crate::message::{view_of, views};
pub use crate::message::{Message, MessageView};
use vstd::arithmetic::power2::{lemma_pow2_pos, lemma_pow2_unfold, pow2};
use vstd::multiset::Multiset;
use vstd::prelude::*;

verus! {

/// Errors of queue operations.
#[derive(Debug, Clone, Copy, PartialEq, Eq)]
pub enum QueueError {
    /// Exclusive access to the queue could not be obtained.
    LockError,
}

/// The clock reading at which a message scheduled at `now` with `delay`
/// becomes available: `now + delay`, held at the largest reading the clock
/// can show.
pub open spec fn deadline(now: u64, delay: u64) -> u64 {
    if now + delay > u64::MAX {
        u64::MAX
    } else {
        (now + delay) as u64
    }
}

/// The delay imposed before redelivery number `retry_count`:
/// `2^retry_count` seconds, in nanoseconds, capped at the largest `u64`.
pub open spec fn backoff(retry_count: u8) -> u64 {
    if pow2(retry_count as nat) * NANOS_PER_SECOND > u64::MAX {
        u64::MAX
    } else {
        (pow2(retry_count as nat) * NANOS_PER_SECOND) as u64
    }
}

/// The message that `retry` puts back for a failed delivery of `m` at `now`.
pub open spec fn retried(m: MessageView, now: u64) -> MessageView {
    MessageView {
        retry_count: (m.retry_count + 1) as u8,
        available_at: deadline(now, backoff((m.retry_count + 1) as u8)),
        ..m
    }
}

/// The mathematical value of a [`Queue`]: the messages waiting for delivery,
/// the dead letters in the order in which they were recorded, and the latest
/// reading of the queue's clock that an operation has acted on.
pub struct QueueView {
    pub pending: Multiset<MessageView>,
    pub dead_letters: Seq<MessageView>,
    pub clock: u64,
}

impl QueueView {
    /// The queue once its clock has been read as `now`.
    pub open spec fn at(self, now: u64) -> QueueView {
        QueueView { clock: now, ..self }
    }

    /// `m` may be handed out at `now`: it is ready and no pending message is
    /// served before it.
    pub open spec fn serves(self, now: u64, m: MessageView) -> bool {
        is_front(self.pending, m) && m.is_ready(now)
    }

    /// No pending message is ready at `now`.
    pub open spec fn none_ready(self, now: u64) -> bool {
        forall|x: MessageView| #[trigger] self.pending.contains(x) ==> !x.is_ready(now)
    }

    /// The queue once one occurrence of `m` has left it.
    pub open spec fn without(self, m: MessageView) -> QueueView {
        QueueView { pending: self.pending.remove(m), ..self }
    }

    /// One delivery attempt at `now`: either `served` is a message that may
    /// be handed out and it leaves, or nothing is ready and nothing changes.
    pub open spec fn pop_step(self, now: u64, served: Option<MessageView>, after: QueueView) -> bool {
        match served {
            Some(m) => self.serves(now, m) && after == self.without(m),
            None => self.none_ready(now) && after == self,
        }
    }

    /// The queue once the messages of `served` have left it, first to last.
    pub open spec fn without_all(self, served: Seq<MessageView>) -> QueueView
        decreases served.len(),
    {
        if served.len() == 0 {
            self
        } else {
            self.without_all(served.drop_last()).without(served.last())
        }
    }

    /// Each message of `served` is one that a delivery attempt at `now` may
    /// hand out from the queue as the messages before it have left it.
    pub open spec fn serves_in_order(self, now: u64, served: Seq<MessageView>) -> bool
        decreases served.len(),
    {
        served.len() == 0 || (self.serves_in_order(now, served.drop_last()) && self.without_all(
            served.drop_last(),
        ).serves(now, served.last()))
    }

    /// The queue once `m` has been scheduled at `now` with `delay`.
    pub open spec fn after_push(self, m: MessageView, delay: u64, now: u64) -> QueueView {
        QueueView { pending: self.pending.insert(m.scheduled_at(deadline(now, delay))), ..self }
    }

    /// The queue once every pending message with identifier `id` is gone.
    pub open spec fn after_acknowledge(self, id: u64) -> QueueView {
        QueueView { pending: without_id(self.pending, id), ..self }
    }

    /// The queue once `m` has been recorded as a dead letter.
    pub open spec fn after_dead_letter(self, m: MessageView) -> QueueView {
        QueueView { dead_letters: self.dead_letters.push(m), ..self }
    }

    /// The queue once a failed delivery of `m` has been reported at `now`:
    /// with its retry budget spent the message becomes a dead letter,
    /// otherwise it is rescheduled after its backoff.
    pub open spec fn after_retry(self, m: MessageView, now: u64) -> QueueView {
        if m.retry_count >= m.max_retries {
            self.after_dead_letter(m)
        } else {
            QueueView { pending: self.pending.insert(retried(m, now)), ..self }
        }
    }
}

/// Computes [`deadline`].
pub fn deadline_of(now: u64, delay: u64) -> (at: u64)
    ensures
        at == deadline(now, delay),
{
    if delay > u64::MAX - now {
        u64::MAX
    } else {
        now + delay
    }
}

/// Computes [`backoff`].
pub fn backoff_delay(retry_count: u8) -> (delay: u64)
    ensures
        delay == backoff(retry_count),
{
    let mut delay: u64 = NANOS_PER_SECOND;
    let mut doubled: u8 = 0;
    proof {
        vstd::arithmetic::power2::lemma2_to64();
    }
    while doubled < retry_count
        invariant
            doubled <= retry_count,
            delay == backoff(doubled),
        decreases retry_count - doubled,
    {
        proof {
            lemma_pow2_unfold((doubled + 1) as nat);
            lemma_pow2_pos(doubled as nat);
        }
        delay = if delay > u64::MAX / 2 {
            u64::MAX
        } else {
            delay * 2
        };
        doubled += 1;
    }
    delay
}

/// A queue that hands out messages in order of availability time, then
/// priority, and never before they are available.
///
/// Every operation that changes the queue takes it by `&mut`, so each one
/// sees and leaves a consistent queue. The operations named without `_at`
/// read the queue's own clock; each has a twin that takes the clock reading
/// as an argument and whose effect is stated exactly.
#[derive(Debug)]
pub struct Queue {
    pending: OrderingIndex,
    dead_letters: Vec<Message>,
    clock: Clock,
}

impl View for Queue {
    type V = QueueView;

    closed spec fn view(&self) -> QueueView {
        QueueView {
            pending: self.pending@,
            dead_letters: views(self.dead_letters@),
            clock: self.clock@,
        }
    }
}

impl Queue {
    /// An empty queue whose clock starts now.
    pub fn new() -> (queue: Queue)
        ensures
            queue@ == (QueueView { pending: Multiset::empty(), dead_letters: Seq::empty(), clock: 0 }),
    {
        let queue = Queue {
            pending: OrderingIndex::new(),
            dead_letters: Vec::new(),
            clock: Clock::start(),
        };
        proof {
            assert(views(queue.dead_letters@) =~= Seq::<MessageView>::empty());
        }
        queue
    }

    /// Reads the queue's clock: nanoseconds since the queue was created,
    /// and never less than an earlier reading.
    pub fn now(&mut self) -> (reading: u64)
        ensures
            reading >= old(self)@.clock,
            final(self)@ == old(self)@.at(reading),
    {
        self.clock.now()
    }

    /// Schedules `message` to become available `delay` nanoseconds after
    /// `now`, whatever availability time it carried.
    pub fn push_at(&mut self, message: Message, delay: u64, now: u64)
        ensures
            final(self)@ == old(self)@.after_push(message@, delay, now),
    {
        let mut scheduled = message;
        scheduled.available_at = deadline_of(now, delay);
        self.pending.push(scheduled);
    }

    /// Schedules `message` to become available `delay` nanoseconds from now.
    pub fn push(&mut self, message: Message, delay: u64) -> (done: Result<(), QueueError>)
        ensures
            done is Ok,
            exists|now: u64|
                now >= old(self)@.clock && final(self)@ == #[trigger] old(self)@.at(
                    now,
                ).after_push(message@, delay, now),
    {
        let now: u64 = self.clock.now();
        self.push_at(message, delay, now);
        proof {
            assert(self@ == old(self)@.at(now).after_push(message@, delay, now));
        }
        Ok(())
    }

    /// One delivery attempt at clock reading `now`: removes and returns a
    /// ready message that no pending message is served before, or returns
    /// `None` and changes nothing when no pending message is ready.
    pub fn pop_at(&mut self, now: u64) -> (served: Option<Message>)
        ensures
            old(self)@.pop_step(now, view_of(served), final(self)@),
    {
        broadcast use vstd::multiset::group_multiset_axioms;

        let ready = match self.pending.peek() {
            Some(top) => top.is_ready(now),
            None => false,
        };
        if ready {
            let served = self.pending.pop();
            proof {
                let m = served->Some_0@;
                assert(old(self)@.pending.contains(m));
            }
            served
        } else {
            None
        }
    }

    /// One delivery attempt at the present clock reading.
    pub fn pop(&mut self) -> (served: Result<Option<Message>, QueueError>)
        ensures
            served is Ok,
            exists|now: u64|
                now >= old(self)@.clock && #[trigger] old(self)@.at(now).pop_step(
                    now,
                    view_of(served->Ok_0),
                    final(self)@,
                ),
    {
        let now: u64 = self.clock.now();
        let served = self.pop_at(now);
        proof {
            assert(old(self)@.at(now).pop_step(now, view_of(served), self@));
        }
        Ok(served)
    }

    /// Repeats the delivery attempt at clock reading `now` until
    /// `batch_size` messages have been served or no pending message is
    /// ready, and returns the served messages in the order of service.
    pub fn pop_batch_at(&mut self, batch_size: usize, now: u64) -> (batch: Vec<Message>)
        ensures
            batch@.len() <= batch_size,
            old(self)@.serves_in_order(now, views(batch@)),
            final(self)@ == old(self)@.without_all(views(batch@)),
            batch@.len() < batch_size ==> final(self)@.none_ready(now),
    {
        let mut batch: Vec<Message> = Vec::new();
        proof {
            assert(views(batch@) =~= Seq::<MessageView>::empty());
        }
        while batch.len() < batch_size
            invariant
                batch@.len() <= batch_size,
                old(self)@.serves_in_order(now, views(batch@)),
                self@ == old(self)@.without_all(views(batch@)),
            ensures
                batch@.len() <= batch_size,
                old(self)@.serves_in_order(now, views(batch@)),
                self@ == old(self)@.without_all(views(batch@)),
                batch@.len() < batch_size ==> self@.none_ready(now),
            decreases batch_size - batch@.len(),
        {
            let ghost served_before = views(batch@);
            match self.pop_at(now) {
                Some(message) => {
                    batch.push(message);
                    proof {
                        let served = views(batch@);
                        assert(served =~= served_before.push(message@));
                        assert(served.drop_last() =~= served_before);
                        assert(served.last() == message@);
                    }
                },
                None => {
                    break ;
                },
            }
        }
        batch
    }

    /// Serves up to `batch_size` messages that are ready at the present
    /// clock reading.
    pub fn pop_batch(&mut self, batch_size: usize) -> (batch: Result<Vec<Message>, QueueError>)
        ensures
            batch is Ok,
            batch->Ok_0@.len() <= batch_size,
            exists|now: u64|
                {
                    &&& now >= old(self)@.clock
                    &&& #[trigger] old(self)@.at(now).serves_in_order(now, views(batch->Ok_0@))
                    &&& final(self)@ == old(self)@.at(now).without_all(views(batch->Ok_0@))
                    &&& batch->Ok_0@.len() < batch_size ==> final(self)@.none_ready(now)
                },
    {
        let now: u64 = self.clock.now();
        let batch = self.pop_batch_at(batch_size, now);
        proof {
            assert(old(self)@.at(now).serves_in_order(now, views(batch@)));
        }
        Ok(batch)
    }

    /// The number of pending messages.
    pub fn size(&self) -> (count: Result<usize, QueueError>)
        ensures
            count is Ok,
            count->Ok_0 == self@.pending.len(),
    {
        Ok(self.pending.len())
    }

    /// Confirms that message `message_id` has been processed: every pending
    /// message with that identifier is removed, all others stay, and nothing
    /// happens when there is none.
    pub fn acknowledge(&mut self, message_id: u64) -> (done: Result<(), QueueError>)
        ensures
            done is Ok,
            final(self)@ == old(self)@.after_acknowledge(message_id),
    {
        self.pending.remove_id(message_id);
        Ok(())
    }

    /// Records `message` as a dead letter. It is never pending again unless
    /// a caller pushes it anew.
    pub fn push_to_dead_letter(&mut self, message: Message) -> (done: Result<(), QueueError>)
        ensures
            done is Ok,
            final(self)@ == old(self)@.after_dead_letter(message@),
    {
        let ghost before = views(self.dead_letters@);
        self.dead_letters.push(message);
        proof {
            assert(views(self.dead_letters@) =~= before.push(message@));
        }
        Ok(())
    }

    /// Reports at clock reading `now` that a delivery of `message` failed.
    /// With its retry budget spent the message becomes a dead letter;
    /// otherwise its retry count grows by one and it is pending again once
    /// its backoff has passed.
    pub fn retry_at(&mut self, message: Message, now: u64)
        ensures
            final(self)@ == old(self)@.after_retry(message@, now),
    {
        if message.retry_count >= message.max_retries {
            let _ = self.push_to_dead_letter(message);
        } else {
            let mut again = message;
            again.retry_count = again.retry_count + 1;
            again.available_at = deadline_of(now, backoff_delay(again.retry_count));
            self.pending.push(again);
        }
    }

    /// Reports that a delivery of `message` failed, at the present clock
    /// reading. The call returns at once: the backoff is enforced by the
    /// availability time of the rescheduled message.
    pub fn retry(&mut self, message: Message) -> (done: Result<(), QueueError>)
        ensures
            done is Ok,
            exists|now: u64|
                now >= old(self)@.clock && final(self)@ == #[trigger] old(self)@.at(
                    now,
                ).after_retry(message@, now),
    {
        let now: u64 = self.clock.now();
        self.retry_at(message, now);
        proof {
            assert(self@ == old(self)@.at(now).after_retry(message@, now));
        }
        Ok(())
    }

    /// Hands over the dead letters recorded so far, oldest first, and
    /// forgets them.
    pub fn take_dead_letters(&mut self) -> (letters: Vec<Message>)
        ensures
            views(letters@) == old(self)@.dead_letters,
            final(self)@ == (QueueView { dead_letters: Seq::empty(), ..old(self)@ }),
    {
        let mut letters: Vec<Message> = Vec::new();
        core::mem::swap(&mut letters, &mut self.dead_letters);
        proof {
            assert(views(self.dead_letters@) =~= Seq::<MessageView>::empty());
        }
        letters
    }
}

} // verus!
