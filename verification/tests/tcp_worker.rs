use ockam_node::error::Error;
use ockam_node::message::{Address, Endpoint, Host, Message, MessageType, Route};
use ockam_node::queue::{Dequeue, MemQueue};
use ockam_node::tcp_worker::{ReadOutcome, TcpWorker};
use ockam_node::traits::ProcessMessage;

fn local() -> Endpoint {
    Endpoint { host: Host::V4(0x0a00_0001), port: 4050 }
}

fn peer() -> Endpoint {
    Endpoint { host: Host::V4(0x0a00_0002), port: 4052 }
}

fn claimed() -> Endpoint {
    Endpoint { host: Host::V4(0xc0a8_0001), port: 1 }
}

fn message(body_len: usize) -> Message {
    Message {
        onward_route: Route { addresses: vec![Address::Worker(vec![0xaa, 0xbb])] },
        return_route: Route {
            addresses: vec![Address::Tcp(claimed()), Address::Worker(vec![0xcc])],
        },
        message_type: MessageType::Payload,
        message_body: (0..body_len).map(|i| i as u8).collect(),
    }
}

fn frame(message: &Message) -> Vec<u8> {
    let payload = message.encode().unwrap();
    let mut bytes = if payload.len() < 128 {
        vec![payload.len() as u8]
    } else {
        vec![(128 + payload.len() % 128) as u8, (payload.len() / 128) as u8]
    };
    bytes.extend_from_slice(&payload);
    bytes
}

fn as_received(message: &Message) -> Message {
    let mut received = message.clone();
    received.return_route.addresses[0] = Address::Tcp(peer());
    received
}

#[test]
fn send_path_trims_prepends_and_frames() {
    let mut worker = TcpWorker::new_connection(local(), peer());
    let outgoing = Message {
        onward_route: Route {
            addresses: vec![Address::Tcp(peer()), Address::Worker(vec![0x00, 0x11])],
        },
        return_route: Route { addresses: vec![Address::Worker(vec![0xaa])] },
        message_type: MessageType::Payload,
        message_body: b"hello".to_vec(),
    };
    assert_eq!(Ok(()), worker.send_message(outgoing));
    let expected: Vec<u8> = vec![
        25, // length prefix
        1, // version
        1, 0, 2, 0x00, 0x11, // onward: worker 0011
        2, 1, 7, 4, 10, 0, 0, 1, 0x0f, 0xd2, 0, 1, 0xaa, // return: local endpoint, worker aa
        0, b'h', b'e', b'l', b'l', b'o',
    ];
    assert_eq!(expected, worker.take_outgoing());
    assert!(worker.take_outgoing().is_empty());
}

#[test]
fn long_frames_get_a_two_byte_prefix() {
    let mut worker = TcpWorker::new_connection(local(), peer());
    let mut outgoing = message(300);
    outgoing.onward_route.addresses.insert(0, Address::Tcp(peer()));
    let mut sent = outgoing.clone();
    sent.onward_route.addresses.remove(0);
    sent.return_route.addresses.insert(0, Address::Tcp(local()));
    let payload = sent.encode().unwrap();
    assert_eq!(329, payload.len());
    worker.send_message(outgoing).unwrap();
    let written = worker.take_outgoing();
    assert_eq!(&[128 + 73, 2], &written[..2]);
    assert_eq!(&payload[..], &written[2..]);
}

#[test]
fn prefix_width_changes_at_128() {
    for (body_len, width) in [(98usize, 1usize), (99, 2)] {
        let mut worker = TcpWorker::new_connection(local(), peer());
        let mut outgoing = message(body_len);
        outgoing.onward_route.addresses.insert(0, Address::Tcp(peer()));
        worker.send_message(outgoing).unwrap();
        let written = worker.take_outgoing();
        let payload_len = written.len() - width;
        assert_eq!(body_len + 29, payload_len);
        if width == 1 {
            assert_eq!(127, written[0]);
        } else {
            assert_eq!(&[128, 1], &written[..2]);
        }
    }
}

#[test]
fn frame_split_anywhere_yields_the_message_once() {
    for body_len in [5usize, 300] {
        let framed = message(body_len);
        let bytes = frame(&framed);
        for cut in 0..=bytes.len() {
            let mut worker = TcpWorker::new_connection(local(), peer());
            let first = worker.receive(&bytes[..cut]);
            assert_eq!(None, first.failure);
            let second = worker.receive(&bytes[cut..]);
            assert_eq!(None, second.failure);
            let mut yielded = first.messages;
            yielded.extend(second.messages);
            assert_eq!(vec![as_received(&framed)], yielded);
            assert!(worker.take_outgoing().is_empty());
            assert!(!worker.has_failed());
        }
    }
}

#[test]
fn frame_fed_byte_by_byte_yields_the_message_once() {
    let framed = message(200);
    let bytes = frame(&framed);
    let mut worker = TcpWorker::new_connection(local(), peer());
    let mut yielded = Vec::new();
    for byte in &bytes {
        let arrivals = worker.receive(&[*byte]);
        assert_eq!(None, arrivals.failure);
        yielded.extend(arrivals.messages);
    }
    assert_eq!(vec![as_received(&framed)], yielded);
}

#[test]
fn one_read_may_hold_many_frames() {
    let a = message(1);
    let b = message(150);
    let c = message(3);
    let mut bytes = frame(&a);
    bytes.extend(frame(&b));
    bytes.extend(frame(&c));
    let partial = bytes.len() - 2;
    let mut worker = TcpWorker::new_connection(local(), peer());
    let first = worker.receive(&bytes[..partial]);
    assert_eq!(vec![as_received(&a), as_received(&b)], first.messages);
    let second = worker.receive(&bytes[partial..]);
    assert_eq!(vec![as_received(&c)], second.messages);
}

#[test]
fn message_for_another_transport_is_sent_on() {
    let mut relayed = message(4);
    let next = Endpoint { host: Host::V4(0x0a00_0003), port: 9 };
    relayed.onward_route.addresses.insert(0, Address::Tcp(next));
    let mut worker = TcpWorker::new_connection(local(), peer());
    let arrivals = worker.receive(&frame(&relayed));
    assert!(arrivals.messages.is_empty());
    assert_eq!(None, arrivals.failure);

    let mut expected = as_received(&relayed);
    expected.onward_route.addresses.remove(0);
    expected.return_route.addresses.insert(0, Address::Tcp(local()));
    assert_eq!(frame(&expected), worker.take_outgoing());
}

#[test]
fn undecodable_frame_ends_the_connection() {
    let good = message(2);
    let mut bytes = frame(&good);
    bytes.extend_from_slice(&[3, 9, 9, 9]);
    bytes.extend(frame(&good));
    let mut worker = TcpWorker::new_connection(local(), peer());
    let arrivals = worker.receive(&bytes);
    assert_eq!(vec![as_received(&good)], arrivals.messages);
    assert_eq!(Some(Error::Protocol), arrivals.failure);
    assert!(worker.has_failed());

    let later = worker.receive(&frame(&good));
    assert!(later.messages.is_empty());
    assert_eq!(Some(Error::Transport), later.failure);
    assert_eq!(Err(Error::Transport), worker.send_message(message(1)));
}

#[test]
fn message_without_return_route_is_a_protocol_error() {
    let mut bare = message(1);
    bare.return_route.addresses.clear();
    let mut worker = TcpWorker::new_connection(local(), peer());
    let arrivals = worker.receive(&frame(&bare));
    assert_eq!(Some(Error::Protocol), arrivals.failure);
}

#[test]
fn message_without_onward_route_cannot_be_sent() {
    let mut worker = TcpWorker::new_connection(local(), peer());
    let mut stuck = message(1);
    stuck.onward_route.addresses.clear();
    assert_eq!(Err(Error::Configuration), worker.send_message(stuck));
    assert!(!worker.has_failed());
}

#[test]
fn message_too_long_for_a_frame_cannot_be_sent() {
    let mut worker = TcpWorker::new_connection(local(), peer());
    // with its routes the message takes 25 bytes besides its body
    let fits = message(0x7fff - 25);
    assert_eq!(Ok(()), worker.send_message(fits));
    assert_eq!(2 + 0x7fff, worker.take_outgoing().len());
    let too_long = message(0x7fff - 24);
    assert_eq!(Err(Error::Protocol), worker.send_message(too_long));
    assert!(worker.take_outgoing().is_empty());
}

#[test]
fn read_outcomes() {
    let mut queue = MemQueue::new(0);
    let mut worker = TcpWorker::new_connection(local(), peer());
    assert_eq!(Ok(true), worker.on_read(ReadOutcome::WouldBlock, &mut queue));
    assert_eq!(Ok(false), worker.on_read(ReadOutcome::Closed, &mut queue));
    assert_eq!(0, queue.len());

    let a = message(1);
    let b = message(2);
    let mut bytes = frame(&a);
    bytes.extend(frame(&b));
    assert_eq!(Ok(true), worker.on_read(ReadOutcome::Data(bytes), &mut queue));
    assert_eq!(Some(as_received(&a)), queue.dequeue());
    assert_eq!(Some(as_received(&b)), queue.dequeue());
    assert_eq!(None, queue.dequeue());

    assert_eq!(Err(Error::Transport), worker.on_read(ReadOutcome::Failed, &mut queue));
    assert!(worker.has_failed());
    assert_eq!(
        Err(Error::Transport),
        worker.on_read(ReadOutcome::Data(frame(&a)), &mut queue)
    );
    assert_eq!(0, queue.len());
}

#[test]
fn transport_handles_messages_through_the_send_path() {
    let mut queue = MemQueue::new(0);
    let mut worker = TcpWorker::new_connection(local(), peer());
    let mut outgoing = message(3);
    outgoing.onward_route.addresses.insert(0, Address::Tcp(peer()));
    assert_eq!(Ok(true), worker.process_message(outgoing.clone(), &mut queue));
    assert_eq!(0, queue.len());
    let mut sent = outgoing;
    sent.onward_route.addresses.remove(0);
    sent.return_route.addresses.insert(0, Address::Tcp(local()));
    assert_eq!(frame(&sent), worker.take_outgoing());
    assert_eq!(Error::Transport, worker.write_failed());
    assert_eq!(Err(Error::Transport), worker.process_message(message(1), &mut queue));
}
