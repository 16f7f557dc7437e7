//! Laws of the queue: statements that relate several of its operations,
//! proved from the operations' contracts.

use crate::message::MessageView;
use crate::queue::{deadline, retried, QueueView};
use vstd::prelude::*;

verus! {

/// A served message is among the first available of all pending messages,
/// and has the highest priority of those that became available with it.
pub proof fn lemma_pop_serves_earliest_then_highest(
    q: QueueView,
    now: u64,
    served: MessageView,
    after: QueueView,
)
    requires
        q.pop_step(now, Some(served), after),
    ensures
        q.pending.contains(served),
        served.is_ready(now),
        forall|x: MessageView| #[trigger]
            q.pending.contains(x) ==> served.available_at <= x.available_at,
        forall|x: MessageView| #[trigger]
            q.pending.contains(x) && x.available_at == served.available_at ==> x.priority
                <= served.priority,
{
    assert forall|x: MessageView| #[trigger] q.pending.contains(x) implies served.available_at
        <= x.available_at && (x.available_at == served.available_at ==> x.priority
        <= served.priority) by {
        assert(!x.precedes(served));
    }
}

/// A delivery attempt serves a ready message of the highest priority among
/// the ready ones, and so never skips a ready message of strictly higher
/// priority, whenever some ready message of highest priority (`highest`) is
/// also among the first available. Availability time is compared before
/// priority, so without that condition an earlier, less urgent message goes
/// first.
pub proof fn lemma_pop_serves_highest_priority(
    q: QueueView,
    now: u64,
    served: MessageView,
    after: QueueView,
    highest: MessageView,
)
    requires
        q.pop_step(now, Some(served), after),
        q.pending.contains(highest),
        highest.is_ready(now),
        forall|x: MessageView|
            q.pending.contains(x) && x.is_ready(now) ==> x.priority <= highest.priority,
        forall|x: MessageView| q.pending.contains(x) ==> highest.available_at <= x.available_at,
    ensures
        served.priority == highest.priority,
        forall|x: MessageView| #[trigger]
            q.pending.contains(x) && x.is_ready(now) ==> x.priority <= served.priority,
{
    assert(!highest.precedes(served));
    assert(!served.precedes(highest));
}

/// A message scheduled at `pushed_at` with `delay` is not served by a
/// delivery attempt at `now` while `now` lies before its deadline, which is
/// `pushed_at + delay` wherever the clock can show that reading. Once the
/// deadline has come, and no message that was pending before is served
/// before it, the attempt serves it or a message that ties with it, and
/// serves it for certain when it is served before every message that was
/// pending before.
pub proof fn lemma_delay_gating(
    q: QueueView,
    m: MessageView,
    delay: u64,
    pushed_at: u64,
    now: u64,
    served: Option<MessageView>,
    after: QueueView,
)
    requires
        q.after_push(m, delay, pushed_at).pop_step(now, served, after),
    ensures
        ({
            let due = deadline(pushed_at, delay);
            let scheduled = m.scheduled_at(due);
            &&& pushed_at + delay <= u64::MAX ==> due == pushed_at + delay
            &&& now < due ==> served != Some(scheduled)
            &&& now >= due && (forall|x: MessageView|
                q.pending.contains(x) ==> !x.precedes(scheduled)) ==> served is Some
                && served->Some_0.ties_with(scheduled)
            &&& now >= due && (forall|x: MessageView|
                q.pending.contains(x) ==> scheduled.precedes(x)) ==> served == Some(scheduled)
        }),
{
    broadcast use vstd::multiset::group_multiset_axioms;

    let scheduled = m.scheduled_at(deadline(pushed_at, delay));
    let pushed = q.after_push(m, delay, pushed_at);
    assert(pushed.pending.contains(scheduled));
    if served == Some(scheduled) {
        assert(scheduled.is_ready(now));
    }
    if now >= deadline(pushed_at, delay) {
        assert(scheduled.is_ready(now));
        assert(served is Some);
        let s = served->Some_0;
        assert(pushed.pending.contains(s));
        assert(s == scheduled || q.pending.contains(s));
        assert(!scheduled.precedes(s));
        if forall|x: MessageView| q.pending.contains(x) ==> !x.precedes(scheduled) {
            assert(!s.precedes(scheduled));
        }
        if forall|x: MessageView| q.pending.contains(x) ==> scheduled.precedes(x) {
            assert(s == scheduled);
        }
    }
}

/// What a run of delivery attempts leaves behind was pending before it.
pub proof fn lemma_batch_leaves_pending(q: QueueView, served: Seq<MessageView>, x: MessageView)
    ensures
        q.without_all(served).pending.count(x) <= q.pending.count(x),
        q.without_all(served).dead_letters == q.dead_letters,
        q.without_all(served).clock == q.clock,
    decreases served.len(),
{
    broadcast use vstd::multiset::group_multiset_axioms;

    if served.len() > 0 {
        lemma_batch_leaves_pending(q, served.drop_last(), x);
    }
}

/// A batch followed by one more successful delivery attempt is the batch
/// that is one message longer, so a batch is exactly a run of single
/// deliveries.
pub proof fn lemma_batch_extends_by_pop(
    q: QueueView,
    now: u64,
    served: Seq<MessageView>,
    next: MessageView,
    after: QueueView,
)
    requires
        q.serves_in_order(now, served),
        q.without_all(served).pop_step(now, Some(next), after),
    ensures
        q.serves_in_order(now, served.push(next)),
        after == q.without_all(served.push(next)),
{
    assert(served.push(next).drop_last() =~= served);
}

/// The first message of a batch is one that a single delivery attempt may
/// serve from the queue as it stood, and the rest of the batch is a batch
/// taken from what that attempt leaves.
pub proof fn lemma_batch_starts_with_pop(q: QueueView, now: u64, served: Seq<MessageView>)
    requires
        q.serves_in_order(now, served),
        served.len() > 0,
    ensures
        q.pop_step(now, Some(served.first()), q.without(served.first())),
        q.without(served.first()).serves_in_order(now, served.drop_first()),
        q.without(served.first()).without_all(served.drop_first()) == q.without_all(served),
    decreases served.len(),
{
    let rest = served.drop_first();
    if served.len() == 1 {
        assert(served.drop_last() =~= Seq::<MessageView>::empty());
        assert(q.without_all(served.drop_last()) == q);
        assert(rest =~= Seq::<MessageView>::empty());
    } else {
        lemma_batch_starts_with_pop(q, now, served.drop_last());
        assert(served.drop_last().first() == served.first());
        assert(served.drop_last().drop_first() =~= rest.drop_last());
        assert(rest.last() == served.last());
    }
}

/// Every message of a batch was pending and ready, and no message of a
/// batch is served before one that stands earlier in it.
pub proof fn lemma_batch_in_service_order(q: QueueView, now: u64, served: Seq<MessageView>)
    requires
        q.serves_in_order(now, served),
    ensures
        forall|i: int|
            0 <= i < served.len() ==> q.pending.contains(#[trigger] served[i]) && served[i].is_ready(
                now,
            ),
        forall|i: int, j: int|
            0 <= i < j < served.len() ==> !(#[trigger] served[j]).precedes(#[trigger] served[i]),
    decreases served.len(),
{
    if served.len() > 0 {
        let front = served.drop_last();
        let last = served.last();
        lemma_batch_in_service_order(q, now, front);
        lemma_batch_leaves_pending(q, front, last);
        assert(q.pending.contains(last));
        assert forall|i: int, j: int| 0 <= i < j < served.len() implies !(#[trigger] served[j]).precedes(
            #[trigger] served[i],
        ) by {
            if j == served.len() - 1 {
                lemma_front_not_preceded_by_later(q, now, served, i);
            } else {
                assert(front[i] == served[i] && front[j] == served[j]);
            }
        }
        assert forall|i: int| 0 <= i < served.len() implies q.pending.contains(
            #[trigger] served[i],
        ) && served[i].is_ready(now) by {
            if i < served.len() - 1 {
                assert(front[i] == served[i]);
            }
        }
    }
}

/// The message served at position `i` of a batch is not preceded by the
/// last message of the batch.
proof fn lemma_front_not_preceded_by_later(
    q: QueueView,
    now: u64,
    served: Seq<MessageView>,
    i: int,
)
    requires
        q.serves_in_order(now, served),
        0 <= i < served.len() - 1,
    ensures
        !served.last().precedes(served[i]),
{
    let last = served.last();
    let upto = served.take(i);
    lemma_batch_prefix(q, now, served, i + 1);
    let through = served.take(i + 1);
    assert(through.drop_last() =~= upto);
    assert(through.last() == served[i]);
    // `last` is still pending when `served[i]` is served
    assert(q.without_all(upto).serves(now, served[i]));
    assert(q.without_all(served.drop_last()).serves(now, last));
    lemma_later_still_pending(q, served.drop_last(), i, last);
    assert(served.drop_last().take(i) =~= upto);
    assert(q.without_all(upto).pending.contains(last));
}

/// A prefix of a batch is a batch.
proof fn lemma_batch_prefix(q: QueueView, now: u64, served: Seq<MessageView>, n: int)
    requires
        q.serves_in_order(now, served),
        0 <= n <= served.len(),
    ensures
        q.serves_in_order(now, served.take(n)),
    decreases served.len(),
{
    if n < served.len() {
        lemma_batch_prefix(q, now, served.drop_last(), n);
        assert(served.drop_last().take(n) =~= served.take(n));
    } else {
        assert(served.take(n) =~= served);
    }
}

/// A message pending after all of `served` has left was pending after the
/// first `i` of them had left.
proof fn lemma_later_still_pending(q: QueueView, served: Seq<MessageView>, i: int, x: MessageView)
    requires
        0 <= i <= served.len(),
        q.without_all(served).pending.contains(x),
    ensures
        q.without_all(served.take(i)).pending.contains(x),
    decreases served.len(),
{
    broadcast use vstd::multiset::group_multiset_axioms;

    if i < served.len() {
        lemma_later_still_pending(q, served.drop_last(), i, x);
        assert(served.drop_last().take(i) =~= served.take(i));
    } else {
        assert(served.take(i) =~= served);
    }
}

/// A failed message with one retry left is put back exactly once, with its
/// retry budget then spent. The next failure report for it, at whatever time
/// and in whatever state of the queue, moves it to the dead letters and
/// leaves the pending messages as they are, so that a message which is not
/// pending then is not served again.
pub proof fn lemma_retry_terminates(
    q: QueueView,
    m: MessageView,
    first: u64,
    later: QueueView,
    second: u64,
)
    requires
        m.retry_count + 1 == m.max_retries,
    ensures
        ({
            let again = retried(m, first);
            &&& q.after_retry(m, first).pending == q.pending.insert(again)
            &&& q.after_retry(m, first).dead_letters == q.dead_letters
            &&& again.retry_count == again.max_retries
            &&& again.id == m.id
            &&& later.after_retry(again, second).pending == later.pending
            &&& later.after_retry(again, second).dead_letters == later.dead_letters.push(again)
            &&& !later.pending.contains(again) ==> forall|now: u64, after: QueueView|
                !#[trigger] later.after_retry(again, second).pop_step(now, Some(again), after)
        }),
{
}

/// A failure report never takes a message beyond its retry budget: whatever
/// it puts back or records as a dead letter has used at most as many
/// retries as the message allows, provided the reported message had.
pub proof fn lemma_retry_respects_budget(q: QueueView, m: MessageView, now: u64)
    requires
        m.retry_count <= m.max_retries,
    ensures
        m.retry_count < m.max_retries ==> retried(m, now).retry_count == m.retry_count + 1
            && retried(m, now).retry_count <= retried(m, now).max_retries,
        m.retry_count < m.max_retries ==> q.after_retry(m, now).pending.count(retried(m, now))
            == q.pending.count(retried(m, now)) + 1,
        m.retry_count == m.max_retries ==> q.after_retry(m, now).dead_letters
            == q.dead_letters.push(m) && q.after_retry(m, now).pending == q.pending,
{
    broadcast use vstd::multiset::group_multiset_axioms;

}

/// Acknowledging an identifier a second time changes nothing, acknowledging
/// one that no pending message carries changes nothing, and no
/// acknowledgement touches a message with another identifier or the dead
/// letters.
pub proof fn lemma_acknowledge_idempotent(q: QueueView, id: u64)
    ensures
        q.after_acknowledge(id).after_acknowledge(id) == q.after_acknowledge(id),
        (forall|m: MessageView| q.pending.contains(m) ==> m.id != id) ==> q.after_acknowledge(id)
            == q,
        forall|m: MessageView|
            m.id != id ==> #[trigger] q.after_acknowledge(id).pending.count(m) == q.pending.count(
                m,
            ),
        forall|m: MessageView| m.id == id ==> !#[trigger] q.after_acknowledge(id).pending.contains(m),
        q.after_acknowledge(id).dead_letters == q.dead_letters,
{
    broadcast use vstd::multiset::group_multiset_axioms;

    let once = q.after_acknowledge(id);
    assert(once.after_acknowledge(id).pending =~= once.pending);
    if forall|m: MessageView| q.pending.contains(m) ==> m.id != id {
        assert forall|m: MessageView| once.pending.count(m) == q.pending.count(m) by {
            if m.id == id {
                assert(!q.pending.contains(m));
            }
        }
        assert(once.pending =~= q.pending);
    }
}

} // verus!
