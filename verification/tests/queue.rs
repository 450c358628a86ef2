use ockam_node::queue::{Dequeue, Enqueue, MemQueue, QueueMeta};

#[test]
fn test_queue_enqueue() {
    let limit = 100;
    let mut queue = MemQueue::new(limit);

    for i in 0..limit {
        queue.enqueue(i.to_string());
        assert_eq!(i + 1, queue.len())
    }
    assert_eq!(limit, queue.len())
}

#[test]
fn test_dequeue() {
    let limit = 100;

    let mut queue = MemQueue::new(limit);

    assert_eq!(0, queue.len());
    queue.dequeue();
    assert_eq!(0, queue.len());

    queue.enqueue("a".to_string());
    assert_eq!(1, queue.len());
    queue.dequeue();
    assert_eq!(0, queue.len());

    for i in 0..limit {
        let s = i.to_string();
        queue.enqueue(s.clone());
    }
    assert_eq!(limit, queue.len());

    let l = queue.len();

    // Ensure FIFO order is preserved
    for i in 0..l {
        let m = queue.dequeue().unwrap();
        assert_eq!(i.to_string(), m)
    }
    assert_eq!(0, queue.len());
}

#[test]
fn test_has_messages() {
    let mut queue = MemQueue::new(1);
    queue.enqueue("a".to_string());
    assert!(queue.has_messages());
    queue.dequeue();
    assert!(!queue.has_messages());
}

#[test]
fn full_queue_drops_the_incoming_item() {
    let mut queue = MemQueue::new(3);
    for i in 0..5u32 {
        queue.enqueue(i);
    }
    assert_eq!(3, queue.len());
    assert_eq!(2, queue.dropped_messages());
    assert_eq!(3, queue.message_limit());
    assert_eq!(Some(0), queue.dequeue());
    assert_eq!(Some(1), queue.dequeue());
    assert_eq!(Some(2), queue.dequeue());
    assert_eq!(None, queue.dequeue());
    assert_eq!(2, queue.dropped_messages());
}

#[test]
fn zero_limit_means_unbounded() {
    let mut queue = MemQueue::new(0);
    for i in 0..1000u32 {
        queue.enqueue(i);
    }
    assert_eq!(1000, queue.len());
    assert_eq!(0, queue.dropped_messages());
    for i in 0..1000u32 {
        assert_eq!(Some(i), queue.dequeue());
    }
    assert!(!queue.has_messages());
}
