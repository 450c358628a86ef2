use ockam_node::topic::{
    MemSubscription, MemTopic, MemTopicWorker, Subscription, Topic, TopicQueueContainer,
    TopicWorker,
};

#[test]
fn test_topic_address() {
    let topic = MemTopic::create("a");
    assert_eq!("a", topic.topic_address());
}

#[test]
fn test_mem_subscription() {
    let sub = MemSubscription { topic: "a".to_string(), subscriber_address: "".to_string() };

    let sub_b = sub.clone();
    assert_eq!("a", sub_b.topic);
}

#[test]
fn subscription_knows_its_topic_and_its_subscriber() {
    let sub = MemSubscription::create("a", "0_a");
    assert_eq!("a", sub.topic());
    assert_eq!("0_a", sub.subscriber_address());
    let copy = sub.clone();
    assert_eq!("0_a", copy.subscriber_address);
}

#[test]
fn queues_are_created_on_demand() {
    let mut container: TopicQueueContainer<String> = TopicQueueContainer::new("q1", 2);
    assert_eq!("q1", container.address());
    assert_eq!(None, container.get_queue(""));
    let a = container.get_queue("a").unwrap();
    let b = container.get_queue("b").unwrap();
    assert_ne!(a, b);
    assert_eq!(Some(a), container.get_queue("a"));

    assert!(!container.has_messages(a));
    assert!(container.enqueue(a, "one".to_string()));
    assert!(container.enqueue(a, "two".to_string()));
    // the default capacity is 2: the third message is dropped
    assert!(container.enqueue(a, "three".to_string()));
    assert!(container.enqueue(b, "other".to_string()));
    assert!(container.has_messages(a));
    assert_eq!(Some("one".to_string()), container.dequeue(a));
    assert_eq!(Some("two".to_string()), container.dequeue(a));
    assert_eq!(None, container.dequeue(a));
    assert_eq!(Some("other".to_string()), container.dequeue(b));
}

#[test]
fn removed_queue_is_gone() {
    let mut container = TopicQueueContainer::create_unbound("q1");
    let a = container.get_queue("a").unwrap();
    assert!(container.enqueue(a, 1u8));
    container.remove_queue("a");
    container.remove_queue("never there");
    assert!(!container.enqueue(a, 2u8));
    assert_eq!(None, container.dequeue(a));
    assert!(!container.has_messages(a));
    // the name can be used again, for a new and empty queue
    let again = container.get_queue("a").unwrap();
    assert_ne!(a, again);
    assert!(!container.has_messages(again));
    for i in 0..100u8 {
        assert!(container.enqueue(again, i));
    }
    assert_eq!(Some(0), container.dequeue(again));
}

#[test]
fn topic_worker_has_no_subscriptions() {
    let container = TopicQueueContainer::create("q1", 0);
    let mut worker = MemTopicWorker::new(container);
    assert_eq!(None, worker.subscribe("a"));
    worker.publish("a", "ockam".to_string());
    assert!(worker.consume_messages("0_a").is_empty());
    worker.unsubscribe("0_a");
    let boxed = MemTopicWorker::create(TopicQueueContainer::<String>::create_unbound("q2"));
    drop(boxed);
}
