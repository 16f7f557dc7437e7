use hexboltmq::consumer::{Consumer, Round, IDLE_WAIT};
use hexboltmq::message::Message;
use hexboltmq::producer::{compose, Producer, DEFAULT_MAX_RETRIES};
use hexboltmq::queue::Queue;
use std::cell::RefCell;

const VERSION_AND_VARIANT: u128 = 0x0000_0000_0000_f000_c000_0000_0000_0000;
const RANDOM: u128 = 0x0000_0000_0000_4000_8000_0000_0000_0000;

#[test]
fn composed_message_starts_with_the_default_budget() {
    let message = compose(17, "payload".to_string(), 3);
    assert_eq!(message.id, 17);
    assert_eq!(message.content, "payload");
    assert_eq!(message.priority, 3);
    assert_eq!(message.available_at, 0);
    assert_eq!(message.retry_count, 0);
    assert_eq!(message.max_retries, 5);
    assert_eq!(DEFAULT_MAX_RETRIES, 5);
}

#[test]
fn identifiers_are_random_version_four() {
    let producer = Producer::new();
    let other = Producer::new();
    let consumer = Consumer::new();
    assert_eq!(producer.id() & VERSION_AND_VARIANT, RANDOM);
    assert_eq!(other.id() & VERSION_AND_VARIANT, RANDOM);
    assert_eq!(consumer.id() & VERSION_AND_VARIANT, RANDOM);
    assert!(producer.id() != other.id());
    assert!(producer.id() != consumer.id());
}

#[test]
fn producer_schedules_what_it_composes() {
    let producer = Producer::new();
    let mut queue = Queue::new();

    producer.send_message(&mut queue, "first".to_string(), 2, 0);
    producer.send_message(&mut queue, "later".to_string(), 9, 3_600_000_000_000);
    assert_eq!(queue.size().unwrap(), 2);

    let served = queue.pop().unwrap().unwrap();
    assert_eq!(served.content, "first");
    assert_eq!(served.priority, 2);
    assert_eq!(served.retry_count, 0);
    assert_eq!(served.max_retries, 5);
    // The identifier is the low half of a random identifier, which holds
    // the variant bits.
    assert_eq!(served.id >> 62, 0b10);

    assert!(queue.pop().unwrap().is_none());
    let later = queue.pop_at(u64::MAX).unwrap();
    assert_eq!(later.content, "later");
    assert!(later.id != served.id);
}

#[test]
fn consumer_processes_and_acknowledges() {
    let consumer = Consumer::new();
    let mut queue = Queue::new();
    let seen: RefCell<Vec<String>> = RefCell::new(Vec::new());
    let process = |content: &str| seen.borrow_mut().push(content.to_string());

    for (id, priority) in [(1u64, 1u8), (2, 7), (1, 3)] {
        queue.push_at(
            Message {
                id,
                content: format!("{}-{}", id, priority),
                priority,
                available_at: 0,
                retry_count: 0,
                max_retries: 3,
            },
            0,
            10,
        );
    }

    match consumer.consume_at(&mut queue, &process, 10) {
        Round::Processed(message) => assert_eq!(message.id, 2),
        Round::Idle(_) => panic!("a message was ready"),
    }
    assert_eq!(queue.size().unwrap(), 2);

    // Serving one message of identifier 1 acknowledges the other as well.
    match consumer.consume_at(&mut queue, &process, 10) {
        Round::Processed(message) => {
            assert_eq!(message.id, 1);
            assert_eq!(message.priority, 3);
        }
        Round::Idle(_) => panic!("a message was ready"),
    }
    assert_eq!(queue.size().unwrap(), 0);
    assert_eq!(*seen.borrow(), vec!["2-7".to_string(), "1-3".to_string()]);
}

#[test]
fn consumer_waits_five_seconds_when_nothing_is_ready() {
    let consumer = Consumer::new();
    let mut queue = Queue::new();
    let calls = RefCell::new(0u32);
    let process = |_: &str| *calls.borrow_mut() += 1;

    match consumer.consume(&mut queue, &process) {
        Round::Idle(wait) => assert_eq!(wait, 5_000_000_000),
        Round::Processed(_) => panic!("the queue is empty"),
    }

    queue.push_at(
        Message {
            id: 1,
            content: String::new(),
            priority: 1,
            available_at: 0,
            retry_count: 0,
            max_retries: 3,
        },
        100,
        0,
    );
    match consumer.consume_at(&mut queue, &process, 99) {
        Round::Idle(wait) => assert_eq!(wait, IDLE_WAIT),
        Round::Processed(_) => panic!("the message is not ready"),
    }
    assert_eq!(queue.size().unwrap(), 1);
    assert_eq!(*calls.borrow(), 0);

    let eager = Consumer::with_idle_wait(250);
    assert_eq!(consumer.idle_wait(), 5_000_000_000);
    assert_eq!(eager.idle_wait(), 250);
    match eager.consume_at(&mut queue, &process, 99) {
        Round::Idle(wait) => assert_eq!(wait, 250),
        Round::Processed(_) => panic!("the message is not ready"),
    }
    match eager.consume_at(&mut queue, &process, 100) {
        Round::Processed(message) => assert_eq!(message.id, 1),
        Round::Idle(_) => panic!("the message is ready"),
    }
    assert_eq!(*calls.borrow(), 1);
}
