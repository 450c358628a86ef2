use ockam_node::error::Error;
use ockam_node::message::{Address, Message, MessageType, Route};
use ockam_node::queue::{Enqueue, MemQueue};
use ockam_node::traits::{Poll, ProcessMessage};
use ockam_node::worker_manager::WorkerManager;
use std::cell::RefCell;
use std::rc::Rc;

struct Named {
    name: &'static str,
    log: Rc<RefCell<Vec<String>>>,
    answer: Result<bool, Error>,
}

impl ProcessMessage for Named {
    fn process_message(
        &mut self,
        message: Message,
        _queue: &mut MemQueue<Message>,
    ) -> Result<bool, Error> {
        self.log.borrow_mut().push(format!(
            "{} got {} hops left, body {:?}",
            self.name,
            message.onward_route.len(),
            message.message_body
        ));
        self.answer
    }
}

impl Poll for Named {
    fn poll(&mut self, queue: &mut MemQueue<Message>) -> Result<bool, Error> {
        self.log.borrow_mut().push(format!("{} polled", self.name));
        queue.enqueue(message_to(b"x", 0));
        self.answer
    }
}

fn named(
    name: &'static str,
    log: &Rc<RefCell<Vec<String>>>,
    answer: Result<bool, Error>,
) -> Box<Named> {
    Box::new(Named { name, log: log.clone(), answer })
}

fn message_to(id: &[u8], body: u8) -> Message {
    Message {
        onward_route: Route {
            addresses: vec![Address::Worker(id.to_vec()), Address::Channel(5)],
        },
        return_route: Route { addresses: vec![] },
        message_type: MessageType::Payload,
        message_body: vec![body],
    }
}

#[test]
fn registering_again_replaces_the_handlers_in_place() {
    let log = Rc::new(RefCell::new(Vec::new()));
    let mut manager = WorkerManager::new();
    assert_eq!(
        Ok(true),
        manager.register_worker(b"a".to_vec(), None, Some(named("a1", &log, Ok(true))))
    );
    assert_eq!(
        Ok(true),
        manager.register_worker(b"b".to_vec(), None, Some(named("b", &log, Ok(true))))
    );
    assert_eq!(
        Ok(true),
        manager.register_worker(b"a".to_vec(), None, Some(named("a2", &log, Ok(true))))
    );
    assert_eq!(2, manager.len());
    assert_eq!(Some(0), manager.position(b"a"));
    assert_eq!(Some(1), manager.position(b"b"));
    assert_eq!(None, manager.position(b"c"));
    assert!(manager.is_registered(b"b"));

    let mut queue = MemQueue::new(0);
    assert_eq!(Ok(true), manager.poll(&mut queue));
    assert_eq!(vec!["a2 polled".to_string(), "b polled".to_string()], *log.borrow());
    assert_eq!(2, queue.len());
}

#[test]
fn unregistering_removes_the_worker() {
    let log = Rc::new(RefCell::new(Vec::new()));
    let mut manager = WorkerManager::new();
    manager.register_worker(b"a".to_vec(), Some(named("a", &log, Ok(true))), None).unwrap();
    manager.register_worker(b"b".to_vec(), Some(named("b", &log, Ok(true))), None).unwrap();
    assert!(manager.unregister_worker(b"a"));
    assert!(!manager.unregister_worker(b"a"));
    assert_eq!(1, manager.len());
    assert_eq!(Some(0), manager.position(b"b"));

    let mut queue = MemQueue::new(0);
    assert_eq!(Ok(true), manager.process_message(message_to(b"a", 1), &mut queue));
    assert_eq!(1, manager.unknown_worker_count());
    assert_eq!(Ok(true), manager.process_message(message_to(b"b", 2), &mut queue));
    assert_eq!(vec!["b got 1 hops left, body [2]".to_string()], *log.borrow());
    assert_eq!(1, manager.unknown_worker_count());
}

#[test]
fn handler_outcome_is_handed_back() {
    let log = Rc::new(RefCell::new(Vec::new()));
    let mut manager = WorkerManager::new();
    manager.register_worker(b"stop".to_vec(), Some(named("stop", &log, Ok(false))), None).unwrap();
    manager
        .register_worker(b"fail".to_vec(), Some(named("fail", &log, Err(Error::Transport))), None)
        .unwrap();
    let mut queue = MemQueue::new(0);
    assert_eq!(Ok(false), manager.process_message(message_to(b"stop", 0), &mut queue));
    assert_eq!(Err(Error::Transport), manager.process_message(message_to(b"fail", 0), &mut queue));
    assert_eq!(0, manager.unknown_worker_count());
}

#[test]
fn message_that_names_no_worker_is_dropped_and_counted() {
    let mut manager = WorkerManager::new();
    let mut queue = MemQueue::new(0);
    let mut not_a_worker = message_to(b"a", 0);
    not_a_worker.onward_route.addresses[0] = Address::Channel(1);
    assert_eq!(Ok(true), manager.process_message(not_a_worker, &mut queue));
    let mut nowhere = message_to(b"a", 0);
    nowhere.onward_route.addresses.clear();
    assert_eq!(Ok(true), manager.process_message(nowhere, &mut queue));
    assert_eq!(2, manager.unknown_worker_count());
    assert_eq!(0, queue.len());
}

#[test]
fn first_stop_ends_the_round_of_polls() {
    let log = Rc::new(RefCell::new(Vec::new()));
    let mut manager = WorkerManager::new();
    manager.register_worker(b"a".to_vec(), None, Some(named("a", &log, Ok(true)))).unwrap();
    manager.register_worker(b"quiet".to_vec(), Some(named("quiet", &log, Ok(true))), None).unwrap();
    manager.register_worker(b"b".to_vec(), None, Some(named("b", &log, Ok(false)))).unwrap();
    manager.register_worker(b"c".to_vec(), None, Some(named("c", &log, Ok(true)))).unwrap();
    let mut queue = MemQueue::new(0);
    assert!(manager.round().is_empty());
    assert_eq!(Ok(false), manager.poll(&mut queue));
    assert_eq!(vec!["a polled".to_string(), "b polled".to_string()], *log.borrow());
    // the round came to three workers: one polled, one without a poll handler, one that stopped
    assert_eq!(&vec![Some(Ok(true)), None, Some(Ok(false))], manager.round());
}

#[test]
fn round_that_nobody_ends_comes_to_every_worker() {
    let log = Rc::new(RefCell::new(Vec::new()));
    let mut manager = WorkerManager::new();
    manager.register_worker(b"a".to_vec(), None, Some(named("a", &log, Ok(true)))).unwrap();
    manager.register_worker(b"quiet".to_vec(), None, None).unwrap();
    manager.register_worker(b"b".to_vec(), None, Some(named("b", &log, Ok(true)))).unwrap();
    let mut queue = MemQueue::new(0);
    assert_eq!(Ok(true), manager.poll(&mut queue));
    assert_eq!(&vec![Some(Ok(true)), None, Some(Ok(true))], manager.round());
    assert_eq!(2, queue.len());

    manager
        .register_worker(b"c".to_vec(), None, Some(named("c", &log, Err(Error::Transport))))
        .unwrap();
    manager.register_worker(b"d".to_vec(), None, Some(named("d", &log, Ok(true)))).unwrap();
    assert_eq!(Err(Error::Transport), manager.poll(&mut queue));
    assert_eq!(
        &vec![Some(Ok(true)), None, Some(Ok(true)), Some(Err(Error::Transport))],
        manager.round()
    );
}

#[test]
fn hand_over_names_the_worker_and_trims_the_route() {
    let log = Rc::new(RefCell::new(Vec::new()));
    let mut manager = WorkerManager::new();
    manager.register_worker(b"mute".to_vec(), None, Some(named("mute", &log, Ok(true)))).unwrap();
    manager.register_worker(b"b".to_vec(), Some(named("b", &log, Ok(true))), None).unwrap();

    let (place, handed) = manager.hand_over(message_to(b"b", 7)).unwrap();
    assert_eq!(1, place);
    assert_eq!(Route { addresses: vec![Address::Channel(5)] }, handed.onward_route);
    assert_eq!(vec![7], handed.message_body);

    assert_eq!(Err(Error::UnknownWorker), manager.hand_over(message_to(b"nobody", 0)));
    assert_eq!(Err(Error::UnknownWorker), manager.hand_over(message_to(b"mute", 0)));
    let mut nowhere = message_to(b"b", 0);
    nowhere.onward_route.addresses.clear();
    assert_eq!(Err(Error::UnknownWorker), manager.hand_over(nowhere));
    assert_eq!(0, manager.unknown_worker_count());
}

#[test]
fn registering_again_replaces_the_message_handler() {
    let log = Rc::new(RefCell::new(Vec::new()));
    let mut manager = WorkerManager::new();
    manager.register_worker(b"a".to_vec(), Some(named("old", &log, Ok(true))), None).unwrap();
    manager.register_worker(b"a".to_vec(), Some(named("new", &log, Ok(false))), None).unwrap();
    let mut queue = MemQueue::new(0);
    assert_eq!(Ok(false), manager.process_message(message_to(b"a", 3), &mut queue));
    assert_eq!(vec!["new got 1 hops left, body [3]".to_string()], *log.borrow());
    assert_eq!(1, manager.len());
}
