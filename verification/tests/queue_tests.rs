use hexboltmq::queue::{Message, Queue, QueueError};
use std::time::Duration;

const SECOND: u64 = 1_000_000_000;

fn sleep(duration: Duration) {
    let runtime = tokio::runtime::Builder::new_current_thread()
        .enable_time()
        .build()
        .unwrap();
    runtime.block_on(async { tokio::time::sleep(duration).await });
}

/// Returns once the queue's clock shows a later reading than `reading`.
fn wait_past(queue: &mut Queue, reading: u64) {
    while queue.now() <= reading {
        std::hint::spin_loop();
    }
}

#[test]
fn test_queue_push_and_pop() -> Result<(), QueueError> {
    let mut queue = Queue::new();

    let msg1 = Message {
        id: 1,
        content: "Test message 1".to_string(),
        priority: 1,
        available_at: queue.now(),
        retry_count: 0,
        max_retries: 3,
    };

    queue.push(msg1.clone(), 0)?;

    let popped_msg = queue.pop()?;
    assert_eq!(popped_msg, Some(msg1));

    Ok(())
}

#[test]
fn queue_tests_test_queue_push_and_pop() -> Result<(), QueueError> {
    let mut queue = Queue::new();

    let msg1 = Message {
        id: 1,
        content: "Test message 1".to_string(),
        priority: 1,
        available_at: 0,
        retry_count: 0,
        max_retries: 3,
    };
    let msg2 = Message {
        id: 2,
        content: "Test message 2".to_string(),
        priority: 2,
        available_at: 0,
        retry_count: 0,
        max_retries: 3,
    };

    queue.push(msg1.clone(), 0)?;
    let pushed = queue.now();
    wait_past(&mut queue, pushed);
    queue.push(msg2.clone(), 0)?;

    assert_eq!(queue.size()?, 2);

    let popped_msg1 = queue.pop()?;
    assert_eq!(popped_msg1, Some(msg1));

    let popped_msg2 = queue.pop()?;
    assert_eq!(popped_msg2, Some(msg2));

    assert_eq!(queue.size()?, 0);

    Ok(())
}

#[test]
fn test_queue_empty_pop() -> Result<(), QueueError> {
    let mut queue = Queue::new();

    let popped_msg = queue.pop()?;
    assert_eq!(popped_msg, None);

    Ok(())
}

#[test]
fn queue_tests_test_queue_empty_pop() {
    let mut queue = Queue::new();

    let popped_msg = queue.pop_at(0);
    assert_eq!(popped_msg, None);
    let popped_msg = queue.pop_at(u64::MAX);
    assert_eq!(popped_msg, None);
}

#[test]
fn test_queue_size() -> Result<(), QueueError> {
    let mut queue = Queue::new();

    assert_eq!(queue.size()?, 0);

    queue.push(
        Message {
            id: 1,
            content: "Message 1".to_string(),
            priority: 1,
            available_at: 0,
            retry_count: 0,
            max_retries: 3,
        },
        0,
    )?;
    assert_eq!(queue.size()?, 1);

    queue.push(
        Message {
            id: 2,
            content: "Message 2".to_string(),
            priority: 2,
            available_at: 0,
            retry_count: 0,
            max_retries: 3,
        },
        0,
    )?;
    assert_eq!(queue.size()?, 2);

    assert!(queue.pop()?.is_some());
    assert_eq!(queue.size()?, 1);

    Ok(())
}

#[test]
fn test_priority_queue_push_and_pop() -> Result<(), QueueError> {
    let mut queue = Queue::new();
    let now = queue.now();

    let msg1 = Message {
        id: 1,
        content: "Low priority message".to_string(),
        priority: 1,
        available_at: now,
        retry_count: 0,
        max_retries: 3,
    };
    let msg2 = Message {
        id: 2,
        content: "High priority message".to_string(),
        priority: 10,
        available_at: now,
        retry_count: 0,
        max_retries: 3,
    };
    let msg3 = Message {
        id: 3,
        content: "Medium priority message".to_string(),
        priority: 5,
        available_at: now,
        retry_count: 0,
        max_retries: 3,
    };

    queue.push_at(msg1.clone(), 0, now);
    queue.push_at(msg2.clone(), 0, now);
    queue.push_at(msg3.clone(), 0, now);

    assert_eq!(queue.size()?, 3);

    let popped_msg1 = queue.pop_at(now);
    assert_eq!(popped_msg1, Some(msg2));

    let popped_msg2 = queue.pop_at(now);
    assert_eq!(popped_msg2, Some(msg3));

    let popped_msg3 = queue.pop_at(now);
    assert_eq!(popped_msg3, Some(msg1));

    assert_eq!(queue.size()?, 0);
    assert_eq!(queue.pop_at(now), None);

    Ok(())
}

#[test]
fn test_delayed_message_push_and_pop() -> Result<(), QueueError> {
    let mut queue = Queue::new();

    let msg = Message {
        id: 1,
        content: "Delayed message".to_string(),
        priority: 1,
        available_at: queue.now() + 2 * SECOND,
        retry_count: 0,
        max_retries: 3,
    };

    queue.push(msg.clone(), 2 * SECOND)?;

    assert!(queue.pop()?.is_none());

    sleep(Duration::from_secs(2));

    let popped_msg = queue.pop()?;
    assert_eq!(popped_msg, Some(msg));

    Ok(())
}

#[test]
fn queue_tests_test_delayed_message_push_and_pop() {
    let mut queue = Queue::new();
    let start = 5 * SECOND;

    let msg = Message {
        id: 1,
        content: "Delayed message".to_string(),
        priority: 1,
        available_at: 0,
        retry_count: 0,
        max_retries: 3,
    };

    queue.push_at(msg.clone(), 2 * SECOND, start);

    assert!(queue.pop_at(start).is_none());
    assert!(queue.pop_at(start + 2 * SECOND - 1).is_none());

    let popped_msg = queue.pop_at(start + 2 * SECOND);
    assert_eq!(popped_msg, Some(msg));
    assert_eq!(popped_msg.unwrap().available_at, start + 2 * SECOND);
}

#[test]
fn test_batch_processing() -> Result<(), QueueError> {
    let mut queue = Queue::new();

    let msg1 = Message {
        id: 1,
        content: "Message 1".to_string(),
        priority: 1,
        available_at: queue.now() + SECOND,
        retry_count: 0,
        max_retries: 3,
    };
    let msg2 = Message {
        id: 2,
        content: "Message 2".to_string(),
        priority: 5,
        available_at: queue.now(),
        retry_count: 0,
        max_retries: 3,
    };
    let msg3 = Message {
        id: 3,
        content: "Message 3".to_string(),
        priority: 10,
        available_at: queue.now() + 2 * SECOND,
        retry_count: 0,
        max_retries: 3,
    };

    queue.push(msg1.clone(), SECOND)?;
    queue.push(msg2.clone(), 0)?;
    queue.push(msg3.clone(), 2 * SECOND)?;

    sleep(Duration::from_millis(50));

    println!("Attempting first batch pop:");
    let batch = queue.pop_batch(3)?;
    assert_eq!(batch.len(), 1);
    assert_eq!(batch[0].id, msg2.id);

    sleep(Duration::from_secs(1));

    println!("Attempting second batch pop:");
    let batch = queue.pop_batch(3)?;
    assert_eq!(batch.len(), 1);
    assert_eq!(batch[0].id, msg1.id);

    sleep(Duration::from_secs(1));

    println!("Attempting third batch pop:");
    let batch = queue.pop_batch(3)?;
    assert_eq!(batch.len(), 1);
    assert_eq!(batch[0].id, msg3.id);

    Ok(())
}

#[test]
fn test_message_acknowledgment_and_retries() {
    let mut queue = Queue::new();

    let message = Message {
        id: 1,
        content: String::from("Retry message"),
        priority: 5,
        available_at: queue.now(),
        retry_count: 0,
        max_retries: 3,
    };

    queue.push(message.clone(), 0).unwrap();

    let served = queue.pop().unwrap();
    assert_eq!(served, Some(message));
}

#[test]
fn clock_never_runs_backwards() {
    let mut queue = Queue::new();
    let first = queue.now();
    let second = queue.now();
    assert!(second >= first);

    sleep(Duration::from_millis(20));
    let third = queue.now();
    assert!(third >= second + 20_000_000);
    assert!(third < 10 * SECOND);
}

#[test]
fn retry_through_the_clock_delays_by_the_backoff() -> Result<(), QueueError> {
    let mut queue = Queue::new();
    let failed = Message {
        id: 8,
        content: "failed once".to_string(),
        priority: 1,
        available_at: 0,
        retry_count: 0,
        max_retries: 2,
    };

    let before = queue.now();
    queue.retry(failed)?;
    let after = queue.now();
    assert_eq!(queue.size()?, 1);
    assert!(queue.pop()?.is_none());

    let again = queue.pop_at(u64::MAX).unwrap();
    assert_eq!(again.retry_count, 1);
    assert!(again.available_at >= before + 2 * SECOND);
    assert!(again.available_at <= after + 2 * SECOND);
    Ok(())
}
