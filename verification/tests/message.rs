use ockam_node::error::Error;
use ockam_node::message::{
    bytes_equal, copy_bytes, hex_vec_from_str, Address, AddressType, Endpoint, Host, Message,
    MessageType, Route,
};

#[test]
fn hexadecimal_text_spells_bytes() {
    assert_eq!(Ok(vec![0xaa, 0xbb, 0xcc, 0xdd]), hex_vec_from_str("aabbccdd"));
    assert_eq!(Ok(vec![0x00, 0x11, 0x22, 0x33]), hex_vec_from_str("00112233"));
    assert_eq!(Ok(vec![0x0f, 0xa9, 0xff]), hex_vec_from_str("0Fa9Ff"));
    assert_eq!(Ok(vec![]), hex_vec_from_str(""));
}

#[test]
fn text_that_spells_no_bytes_is_malformed() {
    assert_eq!(Err(Error::Configuration), hex_vec_from_str("abc"));
    assert_eq!(Err(Error::Configuration), hex_vec_from_str("zz"));
    assert_eq!(Err(Error::Configuration), hex_vec_from_str("0g"));
    assert_eq!(Err(Error::Configuration), hex_vec_from_str("g0"));
    assert_eq!(Err(Error::Configuration), hex_vec_from_str("00 11"));
    assert_eq!(Err(Error::Configuration), hex_vec_from_str("/0"));
    assert_eq!(Err(Error::Configuration), hex_vec_from_str(":0"));
    assert_eq!(Err(Error::Configuration), hex_vec_from_str("@0"));
    assert_eq!(Err(Error::Configuration), hex_vec_from_str("G0"));
    assert_eq!(Err(Error::Configuration), hex_vec_from_str("`0"));
    assert_eq!(Err(Error::Configuration), hex_vec_from_str("é0"));
}

#[test]
fn worker_address_from_hexadecimal_text() {
    assert_eq!(
        Ok(Address::Worker(vec![0xaa, 0xbb, 0xcc, 0xdd])),
        Address::worker_address_from_string("aabbccdd")
    );
    assert_eq!(Err(Error::Configuration), Address::worker_address_from_string("aabbccd"));
}

#[test]
fn address_types_and_their_tags() {
    let endpoint = Endpoint { host: Host::V4(1), port: 2 };
    let all = [
        (Address::Worker(vec![1]), AddressType::Worker, 0u8, false),
        (Address::Tcp(endpoint), AddressType::Tcp, 1, true),
        (Address::Udp(endpoint), AddressType::Udp, 2, true),
        (Address::Channel(3), AddressType::Channel, 3, false),
    ];
    for (address, address_type, tag, transport) in all {
        assert_eq!(address_type, address.address_type());
        assert_eq!(tag, address_type.tag());
        assert_eq!(Some(address_type), AddressType::from_tag(tag));
        assert_eq!(transport, address_type.transport());
    }
    assert_eq!(None, AddressType::from_tag(4));
    assert_eq!(None, AddressType::from_tag(255));
    assert_eq!(0, MessageType::Payload.tag());
    assert_eq!(1, MessageType::Handshake.tag());
    assert_eq!(Some(MessageType::Handshake), MessageType::from_tag(1));
    assert_eq!(None, MessageType::from_tag(2));
}

#[test]
fn routes_are_consumed_from_the_front() {
    let mut route = Route::new();
    assert_eq!(0, route.len());
    assert_eq!(None, route.first_type());
    assert_eq!(None, route.pop_front());
    route.prepend(Address::Channel(1));
    route.prepend(Address::Worker(vec![2]));
    assert_eq!(2, route.len());
    assert_eq!(Some(AddressType::Worker), route.first_type());
    assert_eq!(
        Route { addresses: vec![Address::Worker(vec![2]), Address::Channel(1)] },
        route
    );
    assert_eq!(Some(Address::Worker(vec![2])), route.pop_front());
    assert_eq!(Some(Address::Channel(1)), route.pop_front());
    assert_eq!(None, route.pop_front());
}

#[test]
fn equality_goes_by_content() {
    let message = Message {
        onward_route: Route { addresses: vec![Address::Worker(vec![1, 2])] },
        return_route: Route { addresses: vec![Address::Channel(9)] },
        message_type: MessageType::Payload,
        message_body: vec![1, 2, 3],
    };
    assert_eq!(Some(AddressType::Worker), message.next_hop_type());
    let copy = message.clone();
    assert_eq!(message, copy);

    let mut other = message.clone();
    other.message_body.push(4);
    assert_ne!(message, other);
    let mut other = message.clone();
    other.message_type = MessageType::Handshake;
    assert_ne!(message, other);
    let mut other = message.clone();
    other.onward_route.addresses[0] = Address::Worker(vec![1, 3]);
    assert_ne!(message, other);
    let mut other = message.clone();
    other.return_route.addresses.push(Address::Channel(9));
    assert_ne!(message, other);
    let mut other = message.clone();
    other.return_route.addresses[0] = Address::Channel(8);
    assert_ne!(message, other);

    assert_ne!(Address::Tcp(Endpoint { host: Host::V4(1), port: 2 }),
        Address::Udp(Endpoint { host: Host::V4(1), port: 2 }));
    assert!(bytes_equal(&[1, 2], &[1, 2]));
    assert!(!bytes_equal(&[1, 2], &[1, 2, 3]));
    assert!(!bytes_equal(&[1, 2], &[1, 3]));
    assert_eq!(vec![5, 6], copy_bytes(&[5, 6]));
}

#[test]
fn errors_describe_themselves() {
    assert_eq!("no handler for message type", Error::Routing.describe());
    assert_eq!("channel not established", Error::ChannelState.describe());
    assert_eq!("message decode failed", Error::Protocol.describe());
    assert_eq!("transport failed", Error::Transport.describe());
    assert_eq!("unknown worker", Error::UnknownWorker.describe());
    assert_eq!("malformed address or route", Error::Configuration.describe());
    assert_eq!("handshake authentication failed", Error::HandshakeAuth.describe());
}
