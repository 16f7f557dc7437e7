//! The ordering index: a binary heap of messages whose root is always a
//! message that no other pending message is served before.

use crate::message::{views, Message, MessageView};
use vstd::multiset::Multiset;
use vstd::prelude::*;
use vstd::seq_lib::group_to_multiset_ensures;

verus! {

/// `m` is pending and no pending message is served strictly before it.
pub open spec fn is_front(pending: Multiset<MessageView>, m: MessageView) -> bool {
    pending.contains(m) && forall|x: MessageView| #[trigger] pending.contains(x) ==> !x.precedes(m)
}

/// What is left of `pending` once every message with identifier `id` is gone.
pub open spec fn without_id(pending: Multiset<MessageView>, id: u64) -> Multiset<MessageView> {
    pending.filter(|m: MessageView| m.id != id)
}

/// Position of the parent of heap node `i`.
spec fn parent(i: int) -> int {
    (i - 1) / 2
}

/// Every node but `hole` is served no earlier than its parent.
spec fn ordered_except(vs: Seq<MessageView>, hole: int) -> bool {
    forall|i: int| 0 < i < vs.len() && i != hole ==> !(#[trigger] vs[i]).precedes(vs[parent(i)])
}

/// Every node is served no earlier than its parent.
spec fn ordered(vs: Seq<MessageView>) -> bool {
    forall|i: int| 0 < i < vs.len() ==> !(#[trigger] vs[i]).precedes(vs[parent(i)])
}

/// The children of `hole` are served no earlier than the parent of `hole`.
spec fn children_respect_grandparent(vs: Seq<MessageView>, hole: int) -> bool {
    forall|i: int|
        0 < i < vs.len() && hole > 0 && parent(i) == hole ==> !(#[trigger] vs[i]).precedes(
            vs[parent(hole)],
        )
}

/// Every node whose parent is not `top` is served no earlier than its parent.
spec fn ordered_below(vs: Seq<MessageView>, top: int) -> bool {
    forall|i: int|
        0 < i < vs.len() && parent(i) != top ==> !(#[trigger] vs[i]).precedes(vs[parent(i)])
}

proof fn lemma_root_precedes_none(vs: Seq<MessageView>, i: int)
    requires
        ordered(vs),
        0 <= i < vs.len(),
    ensures
        !vs[i].precedes(vs[0]),
    decreases i,
{
    if i > 0 {
        lemma_root_precedes_none(vs, parent(i));
    }
}

proof fn lemma_root_is_front(vs: Seq<MessageView>)
    requires
        ordered(vs),
        vs.len() > 0,
    ensures
        is_front(vs.to_multiset(), vs[0]),
{
    broadcast use group_to_multiset_ensures;

    assert(vs.contains(vs[0]));
    assert forall|x: MessageView| vs.to_multiset().contains(x) implies !x.precedes(vs[0]) by {
        assert(vs.contains(x));
        let i = choose|i: int| 0 <= i < vs.len() && vs[i] == x;
        lemma_root_precedes_none(vs, i);
    }
}

proof fn lemma_exchange_keeps_contents(vs: Seq<MessageView>, i: int, j: int)
    requires
        0 <= i < vs.len(),
        0 <= j < vs.len(),
    ensures
        vs.update(i, vs[j]).update(j, vs[i]).to_multiset() == vs.to_multiset(),
{
    broadcast use group_to_multiset_ensures;
    broadcast use vstd::multiset::group_multiset_axioms;

    let once = vs.update(i, vs[j]);
    assert(vs.contains(vs[i]));
    assert(vs.contains(vs[j]));
    assert(once.update(j, vs[i]).to_multiset() =~= vs.to_multiset());
}

/// Exchanges the entries at positions `i` and `j`, by way of a spare message
/// that stands in for each of them in turn.
fn exchange(entries: &mut Vec<Message>, i: usize, j: usize)
    requires
        i < old(entries)@.len(),
        j < old(entries)@.len(),
    ensures
        final(entries)@ == old(entries)@.update(i as int, old(entries)@[j as int]).update(
            j as int,
            old(entries)@[i as int],
        ),
{
    if i != j {
        let mut spare = Message {
            id: 0,
            content: String::new(),
            priority: 0,
            available_at: 0,
            retry_count: 0,
            max_retries: 0,
        };
        core::mem::swap(&mut entries[i], &mut spare);
        core::mem::swap(&mut entries[j], &mut spare);
        core::mem::swap(&mut entries[i], &mut spare);
    }
    proof {
        assert(entries@ =~= old(entries)@.update(i as int, old(entries)@[j as int]).update(
            j as int,
            old(entries)@[i as int],
        ));
    }
}

/// Moves the entry at `start` towards the root until its parent is served no
/// later than it.
fn sift_up(entries: &mut Vec<Message>, start: usize)
    requires
        start < old(entries)@.len(),
        ordered_except(views(old(entries)@), start as int),
        children_respect_grandparent(views(old(entries)@), start as int),
    ensures
        ordered(views(final(entries)@)),
        views(final(entries)@).to_multiset() == views(old(entries)@).to_multiset(),
        final(entries)@.len() == old(entries)@.len(),
{
    let mut pos: usize = start;
    while pos > 0
        invariant
            pos < entries@.len(),
            entries@.len() == old(entries)@.len(),
            ordered_except(views(entries@), pos as int),
            children_respect_grandparent(views(entries@), pos as int),
            views(entries@).to_multiset() == views(old(entries)@).to_multiset(),
        ensures
            ordered(views(entries@)),
        decreases pos,
    {
        let up: usize = (pos - 1) / 2;
        if !entries[pos].precedes(&entries[up]) {
            break ;
        }
        let ghost before = views(entries@);
        exchange(entries, pos, up);
        proof {
            let after = views(entries@);
            assert(after =~= before.update(pos as int, before[up as int]).update(
                up as int,
                before[pos as int],
            ));
            lemma_exchange_keeps_contents(before, pos as int, up as int);
            assert forall|i: int| 0 < i < after.len() && i != up implies !(#[trigger] after[i]).precedes(
                after[parent(i)],
            ) by {
                if i != pos {
                    assert(!before[i].precedes(before[parent(i)]));
                }
            }
            assert forall|i: int| 0 < i < after.len() && up > 0 && parent(i) == up implies !(
            #[trigger] after[i]).precedes(after[parent(up as int)]) by {
                assert(!before[up as int].precedes(before[parent(up as int)]));
                if i != pos {
                    assert(!before[i].precedes(before[parent(i)]));
                }
            }
        }
        pos = up;
    }
}

/// Moves the entry at `start` away from the root until neither child is served
/// before it.
fn sift_down(entries: &mut Vec<Message>, start: usize)
    requires
        start < old(entries)@.len(),
        ordered_below(views(old(entries)@), start as int),
        children_respect_grandparent(views(old(entries)@), start as int),
    ensures
        ordered(views(final(entries)@)),
        views(final(entries)@).to_multiset() == views(old(entries)@).to_multiset(),
        final(entries)@.len() == old(entries)@.len(),
{
    let len: usize = entries.len();
    let mut pos: usize = start;
    while pos < len / 2
        invariant
            pos < len,
            len == entries@.len(),
            len == old(entries)@.len(),
            ordered_below(views(entries@), pos as int),
            children_respect_grandparent(views(entries@), pos as int),
            views(entries@).to_multiset() == views(old(entries)@).to_multiset(),
        ensures
            ordered(views(entries@)),
        decreases len - pos,
    {
        let left: usize = 2 * pos + 1;
        let right: usize = left + 1;
        let child: usize = if right < len && entries[right].precedes(&entries[left]) {
            right
        } else {
            left
        };
        if !entries[child].precedes(&entries[pos]) {
            proof {
                let vs = views(entries@);
                assert forall|i: int| 0 < i < vs.len() implies !(#[trigger] vs[i]).precedes(
                    vs[parent(i)],
                ) by {
                    if parent(i) == pos {
                        assert(i == left || i == right);
                    }
                }
            }
            break ;
        }
        let ghost before = views(entries@);
        exchange(entries, pos, child);
        proof {
            let after = views(entries@);
            assert(after =~= before.update(pos as int, before[child as int]).update(
                child as int,
                before[pos as int],
            ));
            lemma_exchange_keeps_contents(before, pos as int, child as int);
            assert forall|i: int| 0 < i < after.len() && parent(i) != child implies !(
            #[trigger] after[i]).precedes(after[parent(i)]) by {
                if parent(i) == pos {
                    assert(i == left || i == right);
                } else if i == pos {
                    assert(!before[child as int].precedes(before[parent(pos as int)]));
                } else {
                    assert(!before[i].precedes(before[parent(i)]));
                }
            }
            assert forall|i: int| 0 < i < after.len() && child > 0 && parent(i) == child implies !(
            #[trigger] after[i]).precedes(after[parent(child as int)]) by {
                assert(!before[i].precedes(before[parent(i)]));
            }
        }
        pos = child;
    }
}

/// A multiset of messages from which the next message to serve can be read
/// and removed in logarithmic time.
#[derive(Debug)]
pub struct OrderingIndex {
    entries: Vec<Message>,
}

impl View for OrderingIndex {
    type V = Multiset<MessageView>;

    /// The messages held, without regard to where they are stored.
    closed spec fn view(&self) -> Multiset<MessageView> {
        views(self.entries@).to_multiset()
    }
}

impl OrderingIndex {
    #[verifier::type_invariant]
    spec fn heap_ordered(self) -> bool {
        ordered(views(self.entries@))
    }

    /// An index that holds nothing.
    pub fn new() -> (index: OrderingIndex)
        ensures
            index@ == Multiset::<MessageView>::empty(),
    {
        broadcast use group_to_multiset_ensures;

        let index = OrderingIndex { entries: Vec::new() };
        proof {
            assert(views(index.entries@) =~= Seq::<MessageView>::empty());
            assert(index@ =~= Multiset::<MessageView>::empty());
        }
        index
    }

    /// The number of messages held.
    pub fn len(&self) -> (count: usize)
        ensures
            count == self@.len(),
    {
        broadcast use group_to_multiset_ensures;

        self.entries.len()
    }

    /// The message that `pop` would remove, if there is one.
    pub fn peek(&self) -> (top: Option<&Message>)
        ensures
            match top {
                Some(m) => is_front(self@, m@),
                None => self@.len() == 0,
            },
    {
        broadcast use group_to_multiset_ensures;

        proof {
            use_type_invariant(self);
        }
        if self.entries.len() == 0 {
            None
        } else {
            proof {
                lemma_root_is_front(views(self.entries@));
            }
            Some(&self.entries[0])
        }
    }

    /// Adds a message.
    pub fn push(&mut self, message: Message)
        ensures
            final(self)@ == old(self)@.insert(message@),
    {
        broadcast use group_to_multiset_ensures;

        proof {
            use_type_invariant(&*self);
        }
        let mut entries: Vec<Message> = Vec::new();
        core::mem::swap(&mut entries, &mut self.entries);
        let ghost before = views(entries@);
        entries.push(message);
        proof {
            assert(views(entries@) =~= before.push(message@));
        }
        let last: usize = entries.len() - 1;
        sift_up(&mut entries, last);
        self.entries = entries;
    }

    /// Removes and returns a message that no other held message is served
    /// before; among several such messages, any one of them.
    pub fn pop(&mut self) -> (top: Option<Message>)
        ensures
            match top {
                Some(m) => is_front(old(self)@, m@) && final(self)@ == old(self)@.remove(m@),
                None => old(self)@.len() == 0 && final(self)@ == old(self)@,
            },
    {
        broadcast use group_to_multiset_ensures;

        proof {
            use_type_invariant(&*self);
        }
        if self.entries.len() == 0 {
            return None;
        }
        let mut entries: Vec<Message> = Vec::new();
        core::mem::swap(&mut entries, &mut self.entries);
        let ghost before = views(entries@);
        proof {
            lemma_root_is_front(before);
        }
        let top = entries.swap_remove(0);
        proof {
            let after = views(entries@);
            assert(after =~= before.update(0, before.last()).drop_last());
            assert(before.update(0, before.last()).remove(before.len() - 1) =~= after);
            assert(after.to_multiset() =~= before.to_multiset().remove(before[0])) by {
                broadcast use vstd::multiset::group_multiset_axioms;

                assert(before.contains(before.last()));
                assert(before.contains(before[0]));
            }
        }
        if entries.len() > 0 {
            sift_down(&mut entries, 0);
        }
        self.entries = entries;
        Some(top)
    }

    /// Whether some held message has identifier `id`.
    pub fn holds_id(&self, id: u64) -> (found: bool)
        ensures
            found == exists|m: MessageView| self@.contains(m) && m.id == id,
    {
        broadcast use group_to_multiset_ensures;

        let ghost vs = views(self.entries@);
        let mut i: usize = 0;
        while i < self.entries.len()
            invariant
                i <= self.entries@.len(),
                vs == views(self.entries@),
                forall|j: int| 0 <= j < i ==> (#[trigger] vs[j]).id != id,
            decreases self.entries@.len() - i,
        {
            if self.entries[i].id == id {
                proof {
                    broadcast use group_to_multiset_ensures;

                    assert(vs.contains(vs[i as int]));
                    assert(self@.contains(vs[i as int]) && vs[i as int].id == id);
                }
                return true;
            }
            i += 1;
        }
        proof {
            assert forall|m: MessageView| self@.contains(m) implies m.id != id by {
                assert(vs.contains(m));
            }
        }
        false
    }

    /// Removes every held message whose identifier is `id`; the others stay.
    pub fn remove_id(&mut self, id: u64)
        ensures
            final(self)@ == without_id(old(self)@, id),
    {
        broadcast use group_to_multiset_ensures;
        broadcast use vstd::multiset::group_multiset_axioms;

        if !self.holds_id(id) {
            proof {
                assert forall|m: MessageView| self@.count(m) == without_id(self@, id).count(m) by {
                    if m.id == id {
                        assert(!self@.contains(m));
                    }
                }
                assert(self@ =~= without_id(self@, id));
            }
            return ;
        }
        proof {
            use_type_invariant(&*self);
        }
        let mut entries: Vec<Message> = Vec::new();
        core::mem::swap(&mut entries, &mut self.entries);
        let ghost all = views(entries@).to_multiset();
        let mut kept: Vec<Message> = Vec::new();
        proof {
            assert(views(kept@) =~= Seq::<MessageView>::empty());
            assert(views(kept@).to_multiset() =~= Multiset::<MessageView>::empty());
            assert(views(kept@).to_multiset().add(without_id(all, id)) =~= without_id(all, id));
        }
        while entries.len() > 0
            invariant
                ordered(views(kept@)),
                views(kept@).to_multiset().add(without_id(views(entries@).to_multiset(), id))
                    == without_id(all, id),
            decreases entries@.len(),
        {
            broadcast use group_to_multiset_ensures;

            let ghost rest_before = views(entries@);
            let ghost kept_before = views(kept@);
            let message = entries.pop().unwrap();
            proof {
                assert(views(entries@) =~= rest_before.remove(rest_before.len() - 1));
                assert(rest_before[rest_before.len() - 1] == message@);
                assert(rest_before.contains(message@));
            }
            if message.id != id {
                kept.push(message);
                proof {
                    assert(views(kept@) =~= kept_before.push(message@));
                }
                let last: usize = kept.len() - 1;
                sift_up(&mut kept, last);
            }
            proof {
                assert(views(kept@).to_multiset().add(
                    without_id(views(entries@).to_multiset(), id),
                ) =~= kept_before.to_multiset().add(without_id(rest_before.to_multiset(), id)));
            }
        }
        proof {
            assert(views(entries@).to_multiset().len() == 0);
            assert(views(kept@).to_multiset() =~= views(kept@).to_multiset().add(
                without_id(views(entries@).to_multiset(), id),
            ));
        }
        self.entries = kept;
    }
}

} // verus!
