use hexboltmq::index::OrderingIndex;
use hexboltmq::message::Message;
use std::cmp::Ordering;

fn message(id: u64, available_at: u64, priority: u8) -> Message {
    Message {
        id,
        content: String::new(),
        priority,
        available_at,
        retry_count: 0,
        max_retries: 0,
    }
}

#[test]
fn empty_index_has_nothing_to_give() {
    let mut index = OrderingIndex::new();
    assert_eq!(index.len(), 0);
    assert!(index.peek().is_none());
    assert!(index.pop().is_none());
    assert!(!index.holds_id(0));
    index.remove_id(0);
    assert_eq!(index.len(), 0);
}

#[test]
fn peek_shows_what_pop_removes() {
    let mut index = OrderingIndex::new();
    index.push(message(1, 30, 0));
    index.push(message(2, 10, 0));
    index.push(message(3, 20, 0));
    index.push(message(4, 10, 8));

    assert_eq!(index.len(), 4);
    assert_eq!(index.peek().map(|m| m.id), Some(4));
    assert_eq!(index.len(), 4);
    assert_eq!(index.pop().map(|m| m.id), Some(4));
    assert_eq!(index.peek().map(|m| m.id), Some(2));
    assert_eq!(index.pop().map(|m| m.id), Some(2));
    assert_eq!(index.pop().map(|m| m.id), Some(3));
    assert_eq!(index.pop().map(|m| m.id), Some(1));
    assert!(index.pop().is_none());
    assert_eq!(index.len(), 0);
}

#[test]
fn descending_and_ascending_insertions_give_one_order() {
    let mut down = OrderingIndex::new();
    let mut up = OrderingIndex::new();
    for t in 0..64u64 {
        down.push(message(t, 63 - t, 0));
        up.push(message(t, t, 0));
    }
    for t in 0..64u64 {
        assert_eq!(down.pop().map(|m| m.available_at), Some(t));
        assert_eq!(up.pop().map(|m| m.available_at), Some(t));
    }
    assert!(down.pop().is_none());
    assert!(up.pop().is_none());
}

#[test]
fn remove_id_keeps_the_order_of_the_rest() {
    let mut index = OrderingIndex::new();
    for t in 0..40u64 {
        index.push(message(t % 4, 100 - t, (t % 3) as u8));
    }
    assert!(index.holds_id(2));
    index.remove_id(2);
    assert!(!index.holds_id(2));
    assert!(index.holds_id(0) && index.holds_id(1) && index.holds_id(3));
    assert_eq!(index.len(), 30);

    let mut last = 0;
    let mut count = 0;
    while let Some(m) = index.pop() {
        assert!(m.id != 2);
        assert!(m.available_at >= last);
        last = m.available_at;
        count += 1;
    }
    assert_eq!(count, 30);
}

#[test]
fn remove_id_of_the_only_message_empties_the_index() {
    let mut index = OrderingIndex::new();
    index.push(message(5, 1, 1));
    index.remove_id(5);
    assert_eq!(index.len(), 0);
    assert!(index.peek().is_none());
}

#[test]
fn messages_are_the_same_when_their_identifiers_agree() {
    let a = message(1, 10, 3);
    let mut b = message(1, 99, 200);
    b.content = "another payload".to_string();
    b.retry_count = 2;
    let c = message(2, 10, 3);

    assert!(a == b);
    assert!(a != c);
    assert_eq!(a, b.clone());
}

#[test]
fn the_message_served_first_compares_as_greater() {
    let early = message(1, 10, 0);
    let late = message(2, 20, 255);
    let urgent = message(3, 10, 9);
    let twin = message(4, 10, 9);

    assert!(early.precedes(&late));
    assert!(!late.precedes(&early));
    assert!(urgent.precedes(&early));
    assert!(!urgent.precedes(&twin));
    assert!(!twin.precedes(&urgent));

    assert_eq!(early.partial_cmp(&late), Some(Ordering::Greater));
    assert_eq!(late.partial_cmp(&early), Some(Ordering::Less));
    assert_eq!(urgent.partial_cmp(&early), Some(Ordering::Greater));
    assert_eq!(urgent.partial_cmp(&twin), Some(Ordering::Equal));
    assert!(early > late);
    assert!(early < urgent);
}

#[test]
fn readiness_begins_at_the_availability_time() {
    let m = message(1, 10, 0);
    assert!(!m.is_ready(0));
    assert!(!m.is_ready(9));
    assert!(m.is_ready(10));
    assert!(m.is_ready(u64::MAX));
}
