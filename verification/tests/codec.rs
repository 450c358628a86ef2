use ockam_node::error::Error;
use ockam_node::message::{Address, Endpoint, Host, Message, MessageType, Route};

fn sample() -> Message {
    Message {
        onward_route: Route {
            addresses: vec![
                Address::Tcp(Endpoint { host: Host::V4(0x7f00_0001), port: 4052 }),
                Address::Worker(vec![0x00, 0x11, 0x22, 0x33]),
            ],
        },
        return_route: Route { addresses: vec![Address::Channel(0x0102_0304)] },
        message_type: MessageType::Payload,
        message_body: b"hello".to_vec(),
    }
}

#[test]
fn encoding_is_byte_exact() {
    let bytes = sample().encode().unwrap();
    let expected: Vec<u8> = vec![
        1, // version
        2, // onward route: two addresses
        1, 7, 4, 127, 0, 0, 1, 0x0f, 0xd4, // tcp 127.0.0.1:4052
        0, 4, 0x00, 0x11, 0x22, 0x33, // worker 00112233
        1, // return route: one address
        3, 4, 1, 2, 3, 4, // channel 0x01020304
        0, // payload
        b'h', b'e', b'l', b'l', b'o',
    ];
    assert_eq!(expected, bytes);
}

#[test]
fn decoding_undoes_encoding() {
    let message = sample();
    let bytes = message.encode().unwrap();
    assert_eq!(Ok(message), Message::decode(&bytes));
}

#[test]
fn six_byte_hosts_and_handshakes_round_trip() {
    let message = Message {
        onward_route: Route {
            addresses: vec![Address::Udp(Endpoint {
                host: Host::V6(0x2001_0db8_0000_0000_0000_0000_0000_0001),
                port: 65535,
            })],
        },
        return_route: Route { addresses: vec![] },
        message_type: MessageType::Handshake,
        message_body: vec![],
    };
    let bytes = message.encode().unwrap();
    assert_eq!(
        vec![
            1, 1, 2, 19, 6, 0x20, 0x01, 0x0d, 0xb8, 0, 0, 0, 0, 0, 0, 0, 0, 0, 0, 0, 1, 0xff,
            0xff, 0, 1
        ],
        bytes
    );
    assert_eq!(Ok(message), Message::decode(&bytes));
}

#[test]
fn overlong_worker_identifier_is_malformed() {
    let mut message = sample();
    message.onward_route.addresses.push(Address::Worker(vec![7; 256]));
    assert_eq!(Err(Error::Configuration), message.encode());
    let mut message = sample();
    message.onward_route.addresses.push(Address::Worker(vec![7; 255]));
    assert!(message.encode().is_ok());
}

#[test]
fn overlong_route_is_malformed() {
    let mut message = sample();
    message.return_route.addresses = (0..256u32).map(Address::Channel).collect();
    assert_eq!(Err(Error::Configuration), message.encode());
    message.return_route.addresses.pop();
    let bytes = message.encode().unwrap();
    assert_eq!(Ok(message), Message::decode(&bytes));
}

#[test]
fn bytes_that_spell_no_message_are_a_protocol_error() {
    assert_eq!(Err(Error::Protocol), Message::decode(&[]));
    // wrong version
    assert_eq!(Err(Error::Protocol), Message::decode(&[2, 0, 0, 0]));
    // no message type
    assert_eq!(Err(Error::Protocol), Message::decode(&[1, 0, 0]));
    // unknown message type
    assert_eq!(Err(Error::Protocol), Message::decode(&[1, 0, 0, 9]));
    // unknown address type
    assert_eq!(Err(Error::Protocol), Message::decode(&[1, 1, 9, 0, 0, 0]));
    // address cut short
    assert_eq!(Err(Error::Protocol), Message::decode(&[1, 1, 0, 4, 1, 2]));
    // channel number of the wrong width
    assert_eq!(Err(Error::Protocol), Message::decode(&[1, 1, 3, 2, 1, 2, 0, 0]));
    // socket address without a host marker
    assert_eq!(
        Err(Error::Protocol),
        Message::decode(&[1, 1, 1, 7, 5, 127, 0, 0, 1, 0, 80, 0, 0])
    );
    // the least message
    let least = Message::decode(&[1, 0, 0, 0]).unwrap();
    assert_eq!(0, least.onward_route.len());
    assert_eq!(MessageType::Payload, least.message_type);
    assert!(least.message_body.is_empty());
}
