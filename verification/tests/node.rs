use ockam_node::error::Error;
use ockam_node::message::{Address, AddressType, Endpoint, Host, Message, MessageType, Route};
use ockam_node::node::{next_step, Node, Polled, Step, TICK_INTERVAL_MS};
use ockam_node::queue::{Enqueue, MemQueue};
use ockam_node::traits::{decide, Flow, Poll, ProcessMessage};
use std::cell::RefCell;
use std::rc::Rc;

fn worker_id() -> Vec<u8> {
    vec![0xaa, 0xbb, 0xcc, 0xdd]
}

pub struct TestWorker {
    address: Vec<u8>,
    count: usize,
}

#[derive(Clone)]
struct TestWorkerHandle(Rc<RefCell<TestWorker>>);

impl Poll for TestWorkerHandle {
    fn poll(&mut self, queue: &mut MemQueue<Message>) -> Result<bool, Error> {
        let worker = self.0.borrow();
        let msg_text = "sent to you by TestWorker".as_bytes();
        let m = Message {
            onward_route: Route { addresses: vec![Address::Worker(worker_id())] },
            return_route: Route { addresses: vec![Address::Worker(worker.address.clone())] },
            message_type: MessageType::Payload,
            message_body: msg_text.to_vec(),
        };
        queue.enqueue(m);
        Ok(true)
    }
}

impl ProcessMessage for TestWorkerHandle {
    fn process_message(
        &mut self,
        _message: Message,
        _queue: &mut MemQueue<Message>,
    ) -> Result<bool, Error> {
        let mut worker = self.0.borrow_mut();
        worker.count += 1;
        if worker.count > 3 {
            return Ok(false);
        }
        Ok(true)
    }
}

fn run(node: &mut Node, most: usize) -> (Result<(), Error>, usize) {
    let mut ticks = 0;
    loop {
        ticks += 1;
        match next_step(node.tick()) {
            Step::Sleep(millis) => {
                assert_eq!(TICK_INTERVAL_MS, millis);
                assert!(ticks < most, "the node did not stop");
            }
            Step::Exit(result) => return (result, ticks),
        }
    }
}

#[test]
fn test_node() {
    // create node
    let mut node = Node::new("").unwrap();
    // Now create the worker(s) and register them with the worker manager
    let test_worker = TestWorkerHandle(Rc::new(RefCell::new(TestWorker {
        address: worker_id(),
        count: 0,
    })));

    node.register_worker(
        worker_id(),
        Some(Box::new(test_worker.clone())),
        Some(Box::new(test_worker.clone())),
    )
    .expect("failed to register worker");

    let (result, ticks) = run(&mut node, 100);
    if let Err(_s) = result {
        assert!(false);
    } else {
        assert!(true);
    }
    assert_eq!(4, test_worker.0.borrow().count);
    // the message of the fourth poll is dispatched in the fifth tick
    assert_eq!(5, ticks);
}

struct Sender {
    own: Vec<u8>,
    to: Vec<u8>,
    polls: Rc<RefCell<usize>>,
}

impl Poll for Sender {
    fn poll(&mut self, queue: &mut MemQueue<Message>) -> Result<bool, Error> {
        *self.polls.borrow_mut() += 1;
        queue.enqueue(Message {
            onward_route: Route { addresses: vec![Address::Worker(self.to.clone())] },
            return_route: Route { addresses: vec![Address::Worker(self.own.clone())] },
            message_type: MessageType::Payload,
            message_body: b"from A".to_vec(),
        });
        Ok(true)
    }
}

struct Receiver {
    got: Rc<RefCell<Vec<Message>>>,
}

impl ProcessMessage for Receiver {
    fn process_message(
        &mut self,
        message: Message,
        _queue: &mut MemQueue<Message>,
    ) -> Result<bool, Error> {
        self.got.borrow_mut().push(message);
        Ok(true)
    }
}

#[test]
fn end_to_end_between_two_workers() {
    let got = Rc::new(RefCell::new(Vec::new()));
    let polls = Rc::new(RefCell::new(0));
    let mut node = Node::new("pair").unwrap();
    node.register_worker(
        b"A".to_vec(),
        None,
        Some(Box::new(Sender { own: b"A".to_vec(), to: b"B".to_vec(), polls: polls.clone() })),
    )
    .unwrap();
    node.register_worker(b"B".to_vec(), Some(Box::new(Receiver { got: got.clone() })), None)
        .unwrap();

    // the tick in which A is polled
    assert!(node.outcomes().is_empty());
    assert_eq!(Ok(true), node.tick());
    // the drain and the worker registry
    assert_eq!(&vec![Ok(true), Ok(true)], node.outcomes());
    assert_eq!(1, *polls.borrow());
    assert_eq!(1, node.queued());
    assert!(got.borrow().is_empty());

    // one tick delivers what A enqueued
    assert_eq!(Ok(true), node.tick());
    let expected = Message {
        onward_route: Route { addresses: vec![] },
        return_route: Route { addresses: vec![Address::Worker(b"A".to_vec())] },
        message_type: MessageType::Payload,
        message_body: b"from A".to_vec(),
    };
    assert_eq!(vec![expected], *got.borrow());
    assert_eq!(0, node.unknown_worker_count());
}

struct Chain {
    hops: usize,
    seen: Rc<RefCell<usize>>,
}

impl ProcessMessage for Chain {
    fn process_message(
        &mut self,
        message: Message,
        queue: &mut MemQueue<Message>,
    ) -> Result<bool, Error> {
        *self.seen.borrow_mut() += 1;
        if message.message_body.len() < self.hops {
            let mut body = message.message_body;
            body.push(0);
            queue.enqueue(Message {
                onward_route: Route { addresses: vec![Address::Worker(b"chain".to_vec())] },
                return_route: Route { addresses: vec![] },
                message_type: MessageType::Payload,
                message_body: body,
            });
        }
        Ok(true)
    }
}

#[test]
fn follow_up_messages_are_dispatched_within_the_same_tick() {
    let seen = Rc::new(RefCell::new(0));
    let mut node = Node::new("chain").unwrap();
    node.register_worker(
        b"chain".to_vec(),
        Some(Box::new(Chain { hops: 10, seen: seen.clone() })),
        None,
    )
    .unwrap();
    node.enqueue_message(Message {
        onward_route: Route { addresses: vec![Address::Worker(b"chain".to_vec())] },
        return_route: Route { addresses: vec![] },
        message_type: MessageType::Payload,
        message_body: vec![],
    });
    assert_eq!(Ok(true), node.tick());
    assert_eq!(11, *seen.borrow());
    assert_eq!(0, node.queued());
}

struct Counter {
    polls: Rc<RefCell<usize>>,
    stop_at: Option<usize>,
}

impl Poll for Counter {
    fn poll(&mut self, _queue: &mut MemQueue<Message>) -> Result<bool, Error> {
        *self.polls.borrow_mut() += 1;
        Ok(Some(*self.polls.borrow()) != self.stop_at)
    }
}

struct Refuser;

impl ProcessMessage for Refuser {
    fn process_message(
        &mut self,
        _message: Message,
        _queue: &mut MemQueue<Message>,
    ) -> Result<bool, Error> {
        Ok(true)
    }
}

#[test]
fn stop_signal_halts_the_loop_in_the_tick_it_is_given() {
    let first = Rc::new(RefCell::new(0));
    let second = Rc::new(RefCell::new(0));
    let third = Rc::new(RefCell::new(0));
    let mut node = Node::new("stopper").unwrap();
    node.register_transport(
        AddressType::Tcp,
        Box::new(Refuser),
        Box::new(Counter { polls: first.clone(), stop_at: None }),
    );
    node.register_transport(
        AddressType::Udp,
        Box::new(Refuser),
        Box::new(Counter { polls: second.clone(), stop_at: Some(3) }),
    );
    node.register_worker(
        b"late".to_vec(),
        None,
        Some(Box::new(Counter { polls: third.clone(), stop_at: None })),
    )
    .unwrap();

    let (result, ticks) = run(&mut node, 100);
    assert_eq!(Ok(()), result);
    assert_eq!(3, ticks);
    assert_eq!(3, *first.borrow());
    assert_eq!(3, *second.borrow());
    // the worker registry comes last, and was not polled in the tick of the stop
    assert_eq!(2, *third.borrow());
    // the drain, the first target, and the second, which asked to stop
    assert_eq!(&vec![Ok(true), Ok(true), Ok(false)], node.outcomes());
    assert_eq!(&vec![Polled::Drain, Polled::Target(0), Polled::Target(1)], node.served());
}

struct Marker {
    name: &'static str,
    log: Rc<RefCell<Vec<&'static str>>>,
}

impl Poll for Marker {
    fn poll(&mut self, _queue: &mut MemQueue<Message>) -> Result<bool, Error> {
        self.log.borrow_mut().push(self.name);
        Ok(true)
    }
}

#[test]
fn poll_targets_are_polled_in_registration_order_and_the_registry_last() {
    let log = Rc::new(RefCell::new(Vec::new()));
    let mut node = Node::new("order").unwrap();
    node.register_worker(
        b"w".to_vec(),
        None,
        Some(Box::new(Marker { name: "worker", log: log.clone() })),
    )
    .unwrap();
    for (address_type, name) in
        [(AddressType::Tcp, "first"), (AddressType::Udp, "second"), (AddressType::Channel, "third")]
    {
        node.register_transport(
            address_type,
            Box::new(Refuser),
            Box::new(Marker { name, log: log.clone() }),
        );
    }
    assert_eq!(Ok(true), node.tick());
    assert_eq!(vec!["first", "second", "third", "worker"], *log.borrow());
    assert_eq!(
        &vec![
            Polled::Drain,
            Polled::Target(0),
            Polled::Target(1),
            Polled::Target(2),
            Polled::Registry
        ],
        node.served()
    );
    assert_eq!(&vec![Ok(true); 5], node.outcomes());
}

#[test]
fn dropped_messages_do_not_hold_the_drain_up() {
    let polls = Rc::new(RefCell::new(0));
    let mut node = Node::new("drops").unwrap();
    node.register_worker(
        b"w".to_vec(),
        None,
        Some(Box::new(Counter { polls: polls.clone(), stop_at: None })),
    )
    .unwrap();
    for to in [&b"nobody"[..], &b"w"[..], &b"gone"[..]] {
        node.enqueue_message(Message {
            onward_route: Route { addresses: vec![Address::Worker(to.to_vec())] },
            return_route: Route { addresses: vec![] },
            message_type: MessageType::Payload,
            message_body: vec![],
        });
    }
    // behind the three that are dropped: one that cannot be routed, and one more
    for channel in [1, 2] {
        node.enqueue_message(Message {
            onward_route: Route { addresses: vec![Address::Channel(channel)] },
            return_route: Route { addresses: vec![] },
            message_type: MessageType::Payload,
            message_body: vec![],
        });
    }
    assert_eq!(Err(Error::Routing), node.tick());
    assert_eq!(3, node.unknown_worker_count());
    assert_eq!(1, node.queued());
    assert_eq!(0, *polls.borrow());
    assert_eq!(&vec![Polled::Drain], node.served());

    // with nothing but messages that are dropped, the tick goes through
    let mut node = Node::new("drops").unwrap();
    for to in [&b"nobody"[..], &b"gone"[..]] {
        node.enqueue_message(Message {
            onward_route: Route { addresses: vec![Address::Worker(to.to_vec())] },
            return_route: Route { addresses: vec![] },
            message_type: MessageType::Payload,
            message_body: vec![],
        });
    }
    assert_eq!(Ok(true), node.tick());
    assert_eq!(2, node.unknown_worker_count());
    assert_eq!(0, node.queued());
    assert_eq!(&vec![Polled::Drain, Polled::Registry], node.served());
}

struct StopOnPoll;

impl Poll for StopOnPoll {
    fn poll(&mut self, queue: &mut MemQueue<Message>) -> Result<bool, Error> {
        queue.enqueue(Message {
            onward_route: Route { addresses: vec![Address::Channel(1)] },
            return_route: Route { addresses: vec![] },
            message_type: MessageType::Payload,
            message_body: vec![],
        });
        Ok(false)
    }
}

#[test]
fn stop_signal_halts_whatever_is_still_queued() {
    let mut node = Node::new("stopper").unwrap();
    node.register_worker(b"w".to_vec(), None, Some(Box::new(StopOnPoll))).unwrap();
    assert_eq!(Ok(false), node.tick());
    assert_eq!(1, node.queued());
    assert_eq!(Step::Exit(Ok(())), next_step(Ok(false)));
}

#[test]
fn steps_after_a_tick() {
    assert_eq!(Step::Sleep(100), next_step(Ok(true)));
    assert_eq!(Step::Exit(Ok(())), next_step(Ok(false)));
    assert_eq!(Step::Exit(Err(Error::Routing)), next_step(Err(Error::Routing)));
    assert_eq!(Flow::Continue, decide(Ok(true)));
    assert_eq!(Flow::Halt(Ok(false)), decide(Ok(false)));
    assert_eq!(Flow::Halt(Err(Error::Transport)), decide(Err(Error::Transport)));
}

#[test]
fn message_without_handler_ends_the_tick_with_a_routing_error() {
    let polls = Rc::new(RefCell::new(0));
    let mut node = Node::new("lost").unwrap();
    node.register_worker(
        b"w".to_vec(),
        None,
        Some(Box::new(Counter { polls: polls.clone(), stop_at: None })),
    )
    .unwrap();
    node.enqueue_message(Message {
        onward_route: Route {
            addresses: vec![Address::Tcp(Endpoint { host: Host::V4(1), port: 1 })],
        },
        return_route: Route { addresses: vec![] },
        message_type: MessageType::Payload,
        message_body: vec![],
    });
    node.enqueue_message(Message {
        onward_route: Route { addresses: vec![Address::Worker(b"w".to_vec())] },
        return_route: Route { addresses: vec![] },
        message_type: MessageType::Payload,
        message_body: vec![],
    });
    assert_eq!(Err(Error::Routing), node.tick());
    assert_eq!(&vec![Err(Error::Routing)], node.outcomes());
    assert_eq!(1, node.queued());
    assert_eq!(0, *polls.borrow());
    assert_eq!(Step::Exit(Err(Error::Routing)), next_step(Err(Error::Routing)));
}

#[test]
fn message_without_onward_route_is_malformed() {
    let mut node = Node::new("bare").unwrap();
    node.enqueue_message(Message {
        onward_route: Route { addresses: vec![] },
        return_route: Route { addresses: vec![] },
        message_type: MessageType::Payload,
        message_body: vec![],
    });
    assert_eq!(Err(Error::Configuration), node.tick());
}

#[test]
fn message_for_an_unknown_worker_is_dropped_and_counted() {
    let got = Rc::new(RefCell::new(Vec::new()));
    let mut node = Node::new("drop").unwrap();
    node.register_worker(b"known".to_vec(), Some(Box::new(Receiver { got: got.clone() })), None)
        .unwrap();
    node.register_worker(b"mute".to_vec(), None, None).unwrap();
    for to in [&b"nobody"[..], &b"mute"[..], &b"known"[..]] {
        node.enqueue_message(Message {
            onward_route: Route { addresses: vec![Address::Worker(to.to_vec())] },
            return_route: Route { addresses: vec![] },
            message_type: MessageType::Payload,
            message_body: to.to_vec(),
        });
    }
    assert_eq!(Ok(true), node.tick());
    assert_eq!(2, node.unknown_worker_count());
    assert_eq!(1, got.borrow().len());
    assert_eq!(b"known".to_vec(), got.borrow()[0].message_body);
    assert_eq!(0, node.queued());
}

#[test]
fn transport_handler_gets_transport_messages() {
    let got = Rc::new(RefCell::new(Vec::new()));
    let polls = Rc::new(RefCell::new(0));
    let mut node = Node::new("transport").unwrap();
    node.register_transport(
        AddressType::Tcp,
        Box::new(Receiver { got: got.clone() }),
        Box::new(Counter { polls: polls.clone(), stop_at: None }),
    );
    let message = Message {
        onward_route: Route {
            addresses: vec![
                Address::Tcp(Endpoint { host: Host::V4(0x7f00_0001), port: 4052 }),
                Address::Worker(vec![0, 0x11, 0x22, 0x33]),
            ],
        },
        return_route: Route { addresses: vec![Address::Worker(worker_id())] },
        message_type: MessageType::Payload,
        message_body: b"hello".to_vec(),
    };
    node.enqueue_message(message.clone());
    assert_eq!(Ok(true), node.tick());
    // the router hands the message on as it is: the handler takes its own address off
    assert_eq!(vec![message], *got.borrow());
    assert_eq!(1, *polls.borrow());
}

#[test]
fn workers_can_be_unregistered() {
    let got = Rc::new(RefCell::new(Vec::new()));
    let mut node = Node::new("leave").unwrap();
    node.register_worker(b"w".to_vec(), Some(Box::new(Receiver { got: got.clone() })), None)
        .unwrap();
    assert!(node.unregister_worker(b"w"));
    assert!(!node.unregister_worker(b"w"));
    node.get_enqueue_ref().enqueue(Message {
        onward_route: Route { addresses: vec![Address::Worker(b"w".to_vec())] },
        return_route: Route { addresses: vec![] },
        message_type: MessageType::Payload,
        message_body: vec![],
    });
    assert_eq!(1, node.queued());
    assert_eq!(Ok(true), node.tick());
    assert!(got.borrow().is_empty());
    assert_eq!(1, node.unknown_worker_count());
    assert_eq!(Ok(true), node.create_secure_channel(vec![Address::Channel(1)]));
}
