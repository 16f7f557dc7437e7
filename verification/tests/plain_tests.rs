use hexboltmq::plain::{Message, Queue};

#[test]
fn test_enqueue_dequeue() {
    let mut queue = Queue::new("test_queue");
    let message = Message {
        id: "1".to_string(),
        body: b"Hello, Hexbolt!".to_vec(),
    };

    queue.enqueue(message);
    assert_eq!(queue.get_message_count(), 1);

    let dequeued_message = queue.dequeue().unwrap();
    assert_eq!(dequeued_message.id, "1");
    assert_eq!(dequeued_message.body, b"Hello, Hexbolt!".to_vec());
}

#[test]
fn plain_queue_keeps_its_name() {
    let queue = Queue::new("example_queue");
    assert_eq!(queue.name, "example_queue");
    assert_eq!(queue.get_message_count(), 0);
}

#[test]
fn plain_queue_gives_the_newest_message_first() {
    let mut queue = Queue::new("q");
    for id in ["a", "b", "c"] {
        queue.enqueue(Message {
            id: id.to_string(),
            body: id.as_bytes().to_vec(),
        });
    }
    assert_eq!(queue.get_message_count(), 3);
    assert_eq!(queue.dequeue().unwrap().id, "c");
    assert_eq!(queue.get_message_count(), 2);
    assert_eq!(queue.dequeue().unwrap().id, "b");
    assert_eq!(queue.dequeue().unwrap().id, "a");
    assert_eq!(queue.get_message_count(), 0);
}

#[test]
fn plain_queue_has_nothing_to_give_when_empty() {
    let mut queue = Queue::new("q");
    assert!(queue.dequeue().is_none());
    assert_eq!(queue.get_message_count(), 0);
    queue.enqueue(Message {
        id: "x".to_string(),
        body: Vec::new(),
    });
    assert!(queue.dequeue().is_some());
    assert!(queue.dequeue().is_none());
    assert_eq!(queue.get_message_count(), 0);
}
