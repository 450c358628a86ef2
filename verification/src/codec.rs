//! The wire encoding of messages.
//!
//! ```text
//! message  := version route route type body
//! version  := 1                               one byte
//! route    := count address*                  count: one byte
//! address  := tag length payload              tag, length: one byte each
//! type     := 0 (payload) | 1 (handshake)     one byte
//! body     := the rest of the message
//! ```
//!
//! The payload of a worker address is the worker's identifier; that of a
//! channel address is the channel's number in four bytes; that of a socket
//! address is `4`, four bytes of host and two of port, or `6`, sixteen bytes
//! of host and two of port. Numbers are written most significant byte first.
//! A route holds at most 255 addresses and a worker identifier at most 255
//! bytes.

use crate::error::Error;
use crate::message::{
    address_views, Address, AddressType, AddressView, Endpoint, Host, Message, MessageType,
    MessageView, Route,
};
use vstd::prelude::*;

verus! {

/// The version byte every encoded message starts with.
pub const VERSION: u8 = 1;

/// The byte that introduces a four-byte host.
pub const HOST_V4: u8 = 4;

/// The byte that introduces a sixteen-byte host.
pub const HOST_V6: u8 = 6;

/// A 16-bit number in two bytes.
pub open spec fn bytes16(value: u16) -> Seq<u8> {
    seq![(value / 0x100) as u8, (value % 0x100) as u8]
}

/// A 32-bit number in four bytes.
pub open spec fn bytes32(value: u32) -> Seq<u8> {
    bytes16((value / 0x1_0000) as u16) + bytes16((value % 0x1_0000) as u16)
}

/// A 64-bit number in eight bytes.
pub open spec fn bytes64(value: u64) -> Seq<u8> {
    bytes32((value / 0x1_0000_0000) as u32) + bytes32((value % 0x1_0000_0000) as u32)
}

/// A 128-bit number in sixteen bytes.
pub open spec fn bytes128(value: u128) -> Seq<u8> {
    bytes64((value / 0x1_0000_0000_0000_0000) as u64) + bytes64(
        (value % 0x1_0000_0000_0000_0000) as u64,
    )
}

/// The 16-bit number that the two bytes from `at` on spell.
pub open spec fn be16(bytes: Seq<u8>, at: int) -> u16 {
    (bytes[at] as int * 0x100 + bytes[at + 1] as int) as u16
}

/// The 32-bit number that the four bytes from `at` on spell.
pub open spec fn be32(bytes: Seq<u8>, at: int) -> u32 {
    (be16(bytes, at) as int * 0x1_0000 + be16(bytes, at + 2) as int) as u32
}

/// The 64-bit number that the eight bytes from `at` on spell.
pub open spec fn be64(bytes: Seq<u8>, at: int) -> u64 {
    (be32(bytes, at) as int * 0x1_0000_0000 + be32(bytes, at + 4) as int) as u64
}

/// The 128-bit number that the sixteen bytes from `at` on spell.
pub open spec fn be128(bytes: Seq<u8>, at: int) -> u128 {
    (be64(bytes, at) as int * 0x1_0000_0000_0000_0000 + be64(bytes, at + 8) as int) as u128
}

/// Where the two bytes of a number stand, they spell that number.
proof fn lemma_be16(bytes: Seq<u8>, at: int, value: u16)
    requires
        0 <= at,
        at + 2 <= bytes.len(),
        bytes.subrange(at, at + 2) == bytes16(value),
    ensures
        be16(bytes, at) == value,
{
}

/// Where the four bytes of a number stand, they spell that number.
proof fn lemma_be32(bytes: Seq<u8>, at: int, value: u32)
    requires
        0 <= at,
        at + 4 <= bytes.len(),
        bytes.subrange(at, at + 4) == bytes32(value),
    ensures
        be32(bytes, at) == value,
{
    let part = bytes.subrange(at, at + 4);
    let high = (value / 0x1_0000) as u16;
    let low = (value % 0x1_0000) as u16;
    assert(bytes.subrange(at, at + 2) =~= part.subrange(0, 2));
    assert(bytes.subrange(at + 2, at + 4) =~= part.subrange(2, 4));
    assert(part.subrange(0, 2) =~= bytes16(high));
    assert(part.subrange(2, 4) =~= bytes16(low));
    lemma_be16(bytes, at, high);
    lemma_be16(bytes, at + 2, low);
}

/// Where the eight bytes of a number stand, they spell that number.
proof fn lemma_be64(bytes: Seq<u8>, at: int, value: u64)
    requires
        0 <= at,
        at + 8 <= bytes.len(),
        bytes.subrange(at, at + 8) == bytes64(value),
    ensures
        be64(bytes, at) == value,
{
    let part = bytes.subrange(at, at + 8);
    let high = (value / 0x1_0000_0000) as u32;
    let low = (value % 0x1_0000_0000) as u32;
    assert(bytes.subrange(at, at + 4) =~= part.subrange(0, 4));
    assert(bytes.subrange(at + 4, at + 8) =~= part.subrange(4, 8));
    assert(part.subrange(0, 4) =~= bytes32(high));
    assert(part.subrange(4, 8) =~= bytes32(low));
    lemma_be32(bytes, at, high);
    lemma_be32(bytes, at + 4, low);
}

/// Where the sixteen bytes of a number stand, they spell that number.
proof fn lemma_be128(bytes: Seq<u8>, at: int, value: u128)
    requires
        0 <= at,
        at + 16 <= bytes.len(),
        bytes.subrange(at, at + 16) == bytes128(value),
    ensures
        be128(bytes, at) == value,
{
    let part = bytes.subrange(at, at + 16);
    let high = (value / 0x1_0000_0000_0000_0000) as u64;
    let low = (value % 0x1_0000_0000_0000_0000) as u64;
    assert(bytes.subrange(at, at + 8) =~= part.subrange(0, 8));
    assert(bytes.subrange(at + 8, at + 16) =~= part.subrange(8, 16));
    assert(part.subrange(0, 8) =~= bytes64(high));
    assert(part.subrange(8, 16) =~= bytes64(low));
    lemma_be64(bytes, at, high);
    lemma_be64(bytes, at + 8, low);
}

/// Appends `bytes` to `out`.
pub fn append_bytes(out: &mut Vec<u8>, bytes: &[u8])
    ensures
        final(out)@ == old(out)@ + bytes@,
{
    let mut i: usize = 0;
    while i < bytes.len()
        invariant
            i <= bytes.len(),
            out@ == old(out)@ + bytes@.take(i as int),
        decreases bytes.len() - i,
    {
        out.push(bytes[i]);
        i += 1;
    }
}

/// The bytes of `bytes` from `from` up to `to`.
pub fn slice_bytes(bytes: &[u8], from: usize, to: usize) -> (part: Vec<u8>)
    requires
        from <= to <= bytes.len(),
    ensures
        part@ == bytes@.subrange(from as int, to as int),
{
    let mut part: Vec<u8> = Vec::new();
    let mut i: usize = from;
    while i < to
        invariant
            from <= i <= to <= bytes.len(),
            part@ == bytes@.subrange(from as int, i as int),
        decreases to - i,
    {
        part.push(bytes[i]);
        i += 1;
    }
    part
}

/// Appends a 16-bit number, most significant byte first.
fn push16(out: &mut Vec<u8>, value: u16)
    ensures
        final(out)@ == old(out)@ + bytes16(value),
{
    out.push((value / 0x100) as u8);
    out.push((value % 0x100) as u8);
}

/// Appends a 32-bit number, most significant byte first.
fn push32(out: &mut Vec<u8>, value: u32)
    ensures
        final(out)@ == old(out)@ + bytes32(value),
{
    push16(out, (value / 0x1_0000) as u16);
    push16(out, (value % 0x1_0000) as u16);
}

/// Appends a 64-bit number, most significant byte first.
fn push64(out: &mut Vec<u8>, value: u64)
    ensures
        final(out)@ == old(out)@ + bytes64(value),
{
    push32(out, (value / 0x1_0000_0000) as u32);
    push32(out, (value % 0x1_0000_0000) as u32);
}

/// Appends a 128-bit number, most significant byte first.
fn push128(out: &mut Vec<u8>, value: u128)
    ensures
        final(out)@ == old(out)@ + bytes128(value),
{
    push64(out, (value / 0x1_0000_0000_0000_0000) as u64);
    push64(out, (value % 0x1_0000_0000_0000_0000) as u64);
}

/// Reads the 16-bit number that starts at `at`.
fn read16(bytes: &[u8], at: usize) -> (value: u16)
    requires
        at + 2 <= bytes.len(),
    ensures
        value == be16(bytes@, at as int),
{
    let high: u16 = bytes[at] as u16;
    let low: u16 = bytes[at + 1] as u16;
    high * 0x100 + low
}

/// Reads the 32-bit number that starts at `at`.
fn read32(bytes: &[u8], at: usize) -> (value: u32)
    requires
        at + 4 <= bytes.len(),
    ensures
        value == be32(bytes@, at as int),
{
    let high: u32 = read16(bytes, at) as u32;
    let low: u32 = read16(bytes, at + 2) as u32;
    high * 0x1_0000 + low
}

/// Reads the 64-bit number that starts at `at`.
fn read64(bytes: &[u8], at: usize) -> (value: u64)
    requires
        at + 8 <= bytes.len(),
    ensures
        value == be64(bytes@, at as int),
{
    let high: u64 = read32(bytes, at) as u64;
    let low: u64 = read32(bytes, at + 4) as u64;
    high * 0x1_0000_0000 + low
}

/// Reads the 128-bit number that starts at `at`.
fn read128(bytes: &[u8], at: usize) -> (value: u128)
    requires
        at + 16 <= bytes.len(),
    ensures
        value == be128(bytes@, at as int),
{
    let high: u128 = read64(bytes, at) as u128;
    let low: u128 = read64(bytes, at + 8) as u128;
    high * 0x1_0000_0000_0000_0000 + low
}

/// The bytes of a socket endpoint.
pub open spec fn endpoint_bytes(endpoint: Endpoint) -> Seq<u8> {
    match endpoint.host {
        Host::V4(host) => seq![HOST_V4] + bytes32(host) + bytes16(endpoint.port),
        Host::V6(host) => seq![HOST_V6] + bytes128(host) + bytes16(endpoint.port),
    }
}

/// The payload of an address.
pub open spec fn address_payload(address: AddressView) -> Seq<u8> {
    match address {
        AddressView::Worker(id) => id,
        AddressView::Tcp(endpoint) => endpoint_bytes(endpoint),
        AddressView::Udp(endpoint) => endpoint_bytes(endpoint),
        AddressView::Channel(id) => bytes32(id),
    }
}

/// Whether an address can be encoded: its payload fits the length byte.
pub open spec fn address_ok(address: AddressView) -> bool {
    address matches AddressView::Worker(id) ==> id.len() <= 255
}

/// The bytes of an address.
pub open spec fn address_bytes(address: AddressView) -> Seq<u8> {
    seq![address.address_type().tag_of(), address_payload(address).len() as u8] + address_payload(
        address,
    )
}

/// The bytes of a list of addresses, one after the other.
pub open spec fn addresses_bytes(addresses: Seq<AddressView>) -> Seq<u8>
    decreases addresses.len(),
{
    if addresses.len() == 0 {
        Seq::empty()
    } else {
        addresses_bytes(addresses.drop_last()) + address_bytes(addresses.last())
    }
}

/// Whether a route can be encoded.
pub open spec fn route_ok(route: Seq<AddressView>) -> bool {
    &&& route.len() <= 255
    &&& forall|i: int| 0 <= i < route.len() ==> address_ok(#[trigger] route[i])
}

/// The bytes of a route.
pub open spec fn route_bytes(route: Seq<AddressView>) -> Seq<u8> {
    seq![route.len() as u8] + addresses_bytes(route)
}

/// Whether a message can be encoded.
pub open spec fn encodable(message: MessageView) -> bool {
    route_ok(message.onward_route) && route_ok(message.return_route)
}

/// The bytes of a message.
pub open spec fn message_bytes(message: MessageView) -> Seq<u8> {
    seq![VERSION] + route_bytes(message.onward_route) + route_bytes(message.return_route)
        + seq![message.message_type.tag_of()] + message.message_body
}

/// The endpoint that the `len` bytes from `at` on spell, if they spell one.
pub open spec fn parse_endpoint(bytes: Seq<u8>, at: int, len: int) -> Option<Endpoint> {
    if len == 7 && bytes[at] == HOST_V4 {
        Some(Endpoint { host: Host::V4(be32(bytes, at + 1)), port: be16(bytes, at + 5) })
    } else if len == 19 && bytes[at] == HOST_V6 {
        Some(Endpoint { host: Host::V6(be128(bytes, at + 1)), port: be16(bytes, at + 17) })
    } else {
        None
    }
}

/// The address that starts at `at`, and where the bytes after it start.
pub open spec fn parse_address(bytes: Seq<u8>, at: int) -> Option<(AddressView, int)> {
    if at + 2 > bytes.len() {
        None
    } else {
        let len = bytes[at + 1] as int;
        let start = at + 2;
        if start + len > bytes.len() {
            None
        } else {
            match AddressType::of_tag(bytes[at]) {
                None => None,
                Some(AddressType::Worker) => Some(
                    (AddressView::Worker(bytes.subrange(start, start + len)), start + len),
                ),
                Some(AddressType::Tcp) => match parse_endpoint(bytes, start, len) {
                    Some(endpoint) => Some((AddressView::Tcp(endpoint), start + len)),
                    None => None,
                },
                Some(AddressType::Udp) => match parse_endpoint(bytes, start, len) {
                    Some(endpoint) => Some((AddressView::Udp(endpoint), start + len)),
                    None => None,
                },
                Some(AddressType::Channel) => if len == 4 {
                    Some((AddressView::Channel(be32(bytes, start)), start + len))
                } else {
                    None
                },
            }
        }
    }
}

/// The `count` addresses that start at `at`, and where the bytes after them start.
pub open spec fn parse_addresses(bytes: Seq<u8>, at: int, count: nat) -> Option<
    (Seq<AddressView>, int),
>
    decreases count,
{
    if count == 0 {
        Some((Seq::empty(), at))
    } else {
        match parse_addresses(bytes, at, (count - 1) as nat) {
            None => None,
            Some((addresses, next)) => match parse_address(bytes, next) {
                None => None,
                Some((address, end)) => Some((addresses.push(address), end)),
            },
        }
    }
}

/// The route that starts at `at`, and where the bytes after it start.
pub open spec fn parse_route(bytes: Seq<u8>, at: int) -> Option<(Seq<AddressView>, int)> {
    if at + 1 > bytes.len() {
        None
    } else {
        parse_addresses(bytes, at + 1, bytes[at] as nat)
    }
}

/// The message that `bytes` spell, if they spell one.
pub open spec fn parse_message(bytes: Seq<u8>) -> Option<MessageView> {
    if bytes.len() < 1 || bytes[0] != VERSION {
        None
    } else {
        match parse_route(bytes, 1) {
            None => None,
            Some((onward_route, next)) => match parse_route(bytes, next) {
                None => None,
                Some((return_route, end)) => if end + 1 > bytes.len() {
                    None
                } else {
                    match MessageType::of_tag(bytes[end]) {
                        None => None,
                        Some(message_type) => Some(
                            MessageView {
                                onward_route,
                                return_route,
                                message_type,
                                message_body: bytes.subrange(end + 1, bytes.len() as int),
                            },
                        ),
                    }
                },
            },
        }
    }
}

/// How many bytes a number of each width takes.
proof fn lemma_number_lengths()
    ensures
        forall|value: u16| #[trigger] bytes16(value).len() == 2,
        forall|value: u32| #[trigger] bytes32(value).len() == 4,
        forall|value: u64| #[trigger] bytes64(value).len() == 8,
        forall|value: u128| #[trigger] bytes128(value).len() == 16,
{
    assert forall|value: u32| #[trigger] bytes32(value).len() == 4 by {}
    assert forall|value: u64| #[trigger] bytes64(value).len() == 8 by {}
    assert forall|value: u128| #[trigger] bytes128(value).len() == 16 by {}
}

/// Where the bytes of an endpoint stand, they are read back as that endpoint.
proof fn lemma_parse_endpoint(bytes: Seq<u8>, at: int, endpoint: Endpoint)
    requires
        0 <= at,
        at + endpoint_bytes(endpoint).len() <= bytes.len(),
        bytes.subrange(at, at + endpoint_bytes(endpoint).len()) == endpoint_bytes(endpoint),
    ensures
        parse_endpoint(bytes, at, endpoint_bytes(endpoint).len() as int) == Some(endpoint),
        endpoint_bytes(endpoint).len() == 7 || endpoint_bytes(endpoint).len() == 19,
{
    lemma_number_lengths();
    let encoded = endpoint_bytes(endpoint);
    let part = bytes.subrange(at, at + encoded.len());
    assert(bytes[at] == part[0]);
    match endpoint.host {
        Host::V4(host) => {
            assert(bytes.subrange(at + 1, at + 5) =~= part.subrange(1, 5));
            assert(part.subrange(1, 5) =~= bytes32(host));
            assert(bytes.subrange(at + 5, at + 7) =~= part.subrange(5, 7));
            assert(part.subrange(5, 7) =~= bytes16(endpoint.port));
            lemma_be32(bytes, at + 1, host);
            lemma_be16(bytes, at + 5, endpoint.port);
        },
        Host::V6(host) => {
            assert(encoded.len() == 19);
            assert(bytes.subrange(at + 1, at + 17) =~= part.subrange(1, 17));
            assert(part.subrange(1, 17) =~= bytes128(host));
            assert(bytes.subrange(at + 17, at + 19) =~= part.subrange(17, 19));
            assert(part.subrange(17, 19) =~= bytes16(endpoint.port));
            lemma_be128(bytes, at + 1, host);
            lemma_be16(bytes, at + 17, endpoint.port);
        },
    }
}

/// Where the bytes of an address stand, they are read back as that address.
proof fn lemma_parse_address(bytes: Seq<u8>, at: int, address: AddressView)
    requires
        0 <= at,
        address_ok(address),
        at + address_bytes(address).len() <= bytes.len(),
        bytes.subrange(at, at + address_bytes(address).len()) == address_bytes(address),
    ensures
        parse_address(bytes, at) == Some((address, at + address_bytes(address).len())),
{
    lemma_number_lengths();
    let encoded = address_bytes(address);
    let payload = address_payload(address);
    let part = bytes.subrange(at, at + encoded.len());
    assert(bytes[at] == part[0]);
    assert(bytes[at + 1] == part[1]);
    let end = 2 + payload.len() as int;
    assert(bytes.subrange(at + 2, at + end) =~= part.subrange(2, end));
    assert(part.subrange(2, end) =~= payload);
    match address {
        AddressView::Worker(id) => {},
        AddressView::Tcp(endpoint) => {
            lemma_parse_endpoint(bytes, at + 2, endpoint);
        },
        AddressView::Udp(endpoint) => {
            lemma_parse_endpoint(bytes, at + 2, endpoint);
        },
        AddressView::Channel(id) => {
            lemma_be32(bytes, at + 2, id);
        },
    }
}

/// Where the bytes of a list of addresses stand, they are read back as that list.
proof fn lemma_parse_addresses(bytes: Seq<u8>, at: int, addresses: Seq<AddressView>)
    requires
        0 <= at,
        forall|i: int| 0 <= i < addresses.len() ==> address_ok(#[trigger] addresses[i]),
        at + addresses_bytes(addresses).len() <= bytes.len(),
        bytes.subrange(at, at + addresses_bytes(addresses).len()) == addresses_bytes(addresses),
    ensures
        parse_addresses(bytes, at, addresses.len()) == Some(
            (addresses, at + addresses_bytes(addresses).len()),
        ),
    decreases addresses.len(),
{
    if addresses.len() > 0 {
        let front = addresses.drop_last();
        let last = addresses.last();
        let encoded = addresses_bytes(addresses);
        let part = bytes.subrange(at, at + encoded.len());
        let split = addresses_bytes(front).len() as int;
        assert(bytes.subrange(at, at + split) =~= part.subrange(0, split));
        assert(part.subrange(0, split) =~= addresses_bytes(front));
        lemma_parse_addresses(bytes, at, front);
        assert(bytes.subrange(at + split, at + encoded.len()) =~= part.subrange(
            split,
            encoded.len() as int,
        ));
        assert(part.subrange(split, encoded.len() as int) =~= address_bytes(last));
        lemma_parse_address(bytes, at + split, last);
    }
}

/// Where the bytes of a route stand, they are read back as that route.
proof fn lemma_parse_route(bytes: Seq<u8>, at: int, route: Seq<AddressView>)
    requires
        0 <= at,
        route_ok(route),
        at + route_bytes(route).len() <= bytes.len(),
        bytes.subrange(at, at + route_bytes(route).len()) == route_bytes(route),
    ensures
        parse_route(bytes, at) == Some((route, at + route_bytes(route).len())),
{
    let encoded = route_bytes(route);
    let part = bytes.subrange(at, at + encoded.len());
    assert(bytes[at] == part[0]);
    assert(bytes.subrange(at + 1, at + encoded.len()) =~= part.subrange(1, encoded.len() as int));
    assert(part.subrange(1, encoded.len() as int) =~= addresses_bytes(route));
    lemma_parse_addresses(bytes, at + 1, route);
}

/// Decoding undoes encoding: the bytes of a message that can be encoded
/// spell that message and no other.
pub proof fn lemma_round_trip(message: MessageView)
    requires
        encodable(message),
    ensures
        parse_message(message_bytes(message)) == Some(message),
{
    let bytes = message_bytes(message);
    let onward = route_bytes(message.onward_route);
    let back = route_bytes(message.return_route);
    let a = 1 + onward.len() as int;
    let b = a + back.len() as int;
    assert(bytes.subrange(1, a) =~= onward);
    assert(bytes.subrange(a, b) =~= back);
    lemma_parse_route(bytes, 1, message.onward_route);
    lemma_parse_route(bytes, a, message.return_route);
    assert(bytes.subrange(b + 1, bytes.len() as int) =~= message.message_body);
}

/// Appends the bytes of an endpoint.
fn push_endpoint(out: &mut Vec<u8>, endpoint: &Endpoint)
    ensures
        final(out)@ == old(out)@ + endpoint_bytes(*endpoint),
{
    match endpoint.host {
        Host::V4(host) => {
            out.push(HOST_V4);
            push32(out, host);
            push16(out, endpoint.port);
        },
        Host::V6(host) => {
            out.push(HOST_V6);
            push128(out, host);
            push16(out, endpoint.port);
        },
    }
}

/// The number of bytes an endpoint takes.
fn endpoint_len(endpoint: &Endpoint) -> (len: u8)
    ensures
        len == endpoint_bytes(*endpoint).len(),
{
    proof {
        lemma_number_lengths();
    }
    match endpoint.host {
        Host::V4(_) => 7,
        Host::V6(_) => 19,
    }
}

/// Appends the bytes of an address, if the address can be encoded.
fn push_address(out: &mut Vec<u8>, address: &Address) -> (ok: bool)
    ensures
        ok == address_ok(address@),
        ok ==> final(out)@ == old(out)@ + address_bytes(address@),
{
    proof {
        lemma_number_lengths();
    }
    match address {
        Address::Worker(id) => {
            if id.len() > 255 {
                return false;
            }
            out.push(AddressType::Worker.tag());
            out.push(id.len() as u8);
            append_bytes(out, id.as_slice());
        },
        Address::Tcp(endpoint) => {
            out.push(AddressType::Tcp.tag());
            out.push(endpoint_len(endpoint));
            push_endpoint(out, endpoint);
        },
        Address::Udp(endpoint) => {
            out.push(AddressType::Udp.tag());
            out.push(endpoint_len(endpoint));
            push_endpoint(out, endpoint);
        },
        Address::Channel(id) => {
            out.push(AddressType::Channel.tag());
            out.push(4);
            push32(out, *id);
        },
    }
    true
}

/// Appends the bytes of a route, if the route can be encoded. Of a route
/// that cannot be encoded a part may have been appended.
fn push_route(out: &mut Vec<u8>, route: &Route) -> (ok: bool)
    ensures
        ok == route_ok(route@),
        ok ==> final(out)@ == old(out)@ + route_bytes(route@),
{
    let count = route.addresses.len();
    if count > 255 {
        return false;
    }
    out.push(count as u8);
    let mut i: usize = 0;
    while i < count
        invariant
            i <= count,
            count == route.addresses.len(),
            count <= 255,
            out@ == old(out)@ + seq![count as u8] + addresses_bytes(route@.take(i as int)),
            forall|j: int| 0 <= j < i ==> address_ok(#[trigger] route@[j]),
        decreases count - i,
    {
        if !push_address(out, &route.addresses[i]) {
            assert(!address_ok(route@[i as int]));
            return false;
        }
        proof {
            let next = route@.take(i + 1);
            assert(next.drop_last() =~= route@.take(i as int));
        }
        i += 1;
    }
    proof {
        assert(route@.take(count as int) =~= route@);
    }
    true
}

/// Reads the endpoint that the `len` bytes from `at` on spell.
fn read_endpoint(bytes: &[u8], at: usize, len: usize) -> (endpoint: Option<Endpoint>)
    requires
        at + len <= bytes.len(),
    ensures
        endpoint == parse_endpoint(bytes@, at as int, len as int),
{
    if len == 7 && bytes[at] == HOST_V4 {
        Some(Endpoint { host: Host::V4(read32(bytes, at + 1)), port: read16(bytes, at + 5) })
    } else if len == 19 && bytes[at] == HOST_V6 {
        Some(Endpoint { host: Host::V6(read128(bytes, at + 1)), port: read16(bytes, at + 17) })
    } else {
        None
    }
}

/// Reads the address that starts at `at`.
fn read_address(bytes: &[u8], at: usize) -> (found: Option<(Address, usize)>)
    requires
        at <= bytes.len(),
    ensures
        match parse_address(bytes@, at as int) {
            Some((address, next)) => found is Some && (found->Some_0).0@ == address && (
            found->Some_0).1 == next && next <= bytes.len(),
            None => found is None,
        },
{
    if bytes.len() - at < 2 {
        return None;
    }
    let len = bytes[at + 1] as usize;
    let start = at + 2;
    if bytes.len() - start < len {
        return None;
    }
    let end = start + len;
    match AddressType::from_tag(bytes[at]) {
        None => None,
        Some(AddressType::Worker) => Some((Address::Worker(slice_bytes(bytes, start, end)), end)),
        Some(AddressType::Tcp) => match read_endpoint(bytes, start, len) {
            Some(endpoint) => Some((Address::Tcp(endpoint), end)),
            None => None,
        },
        Some(AddressType::Udp) => match read_endpoint(bytes, start, len) {
            Some(endpoint) => Some((Address::Udp(endpoint), end)),
            None => None,
        },
        Some(AddressType::Channel) => if len == 4 {
            Some((Address::Channel(read32(bytes, start)), end))
        } else {
            None
        },
    }
}

/// Reads the route that starts at `at`.
fn read_route(bytes: &[u8], at: usize) -> (found: Option<(Route, usize)>)
    requires
        at <= bytes.len(),
    ensures
        match parse_route(bytes@, at as int) {
            Some((route, next)) => found is Some && (found->Some_0).0@ == route && (
            found->Some_0).1 == next && next <= bytes.len(),
            None => found is None,
        },
{
    if bytes.len() - at < 1 {
        return None;
    }
    let count = bytes[at] as usize;
    let mut addresses: Vec<Address> = Vec::new();
    let mut next: usize = at + 1;
    let mut i: usize = 0;
    while i < count
        invariant
            i <= count,
            at + 1 <= bytes.len(),
            count == bytes@[at as int],
            next <= bytes.len(),
            addresses.len() == i,
            parse_addresses(bytes@, at + 1, i as nat) == Some(
                (address_views(addresses@), next as int),
            ),
        decreases count - i,
    {
        match read_address(bytes, next) {
            None => {
                proof {
                    lemma_parse_addresses_stops(bytes@, at + 1, (i + 1) as nat, count as nat);
                }
                return None;
            },
            Some((address, end)) => {
                addresses.push(address);
                next = end;
            },
        }
        i += 1;
    }
    Some((Route { addresses }, next))
}

/// Once a list of addresses cannot be parsed, neither can a longer one.
proof fn lemma_parse_addresses_stops(bytes: Seq<u8>, at: int, short: nat, long: nat)
    requires
        short <= long,
        parse_addresses(bytes, at, short) is None,
    ensures
        parse_addresses(bytes, at, long) is None,
    decreases long,
{
    if short < long {
        lemma_parse_addresses_stops(bytes, at, short, (long - 1) as nat);
    }
}

impl Message {
    /// Encodes the message. A message whose routes or worker identifiers
    /// are too long for the encoding is refused as malformed.
    pub fn encode(&self) -> (encoded: Result<Vec<u8>, Error>)
        ensures
            encodable(self@) ==> encoded is Ok && encoded->Ok_0@ == message_bytes(self@),
            !encodable(self@) ==> encoded == Err::<Vec<u8>, Error>(Error::Configuration),
    {
        let mut out: Vec<u8> = Vec::new();
        out.push(VERSION);
        if !push_route(&mut out, &self.onward_route) {
            return Err(Error::Configuration);
        }
        if !push_route(&mut out, &self.return_route) {
            return Err(Error::Configuration);
        }
        out.push(self.message_type.tag());
        append_bytes(&mut out, self.message_body.as_slice());
        assert(out@ =~= message_bytes(self@));
        Ok(out)
    }

    /// Decodes a message. Bytes that do not spell a message are a protocol error.
    pub fn decode(bytes: &[u8]) -> (decoded: Result<Message, Error>)
        ensures
            match parse_message(bytes@) {
                Some(message) => decoded is Ok && decoded->Ok_0@ == message,
                None => decoded == Err::<Message, Error>(Error::Protocol),
            },
    {
        if bytes.len() < 1 || bytes[0] != VERSION {
            return Err(Error::Protocol);
        }
        let (onward_route, next) = match read_route(bytes, 1) {
            Some(found) => found,
            None => {
                return Err(Error::Protocol);
            },
        };
        let (return_route, end) = match read_route(bytes, next) {
            Some(found) => found,
            None => {
                return Err(Error::Protocol);
            },
        };
        if bytes.len() - end < 1 {
            return Err(Error::Protocol);
        }
        let message_type = match MessageType::from_tag(bytes[end]) {
            Some(message_type) => message_type,
            None => {
                return Err(Error::Protocol);
            },
        };
        let message_body = slice_bytes(bytes, end + 1, bytes.len());
        Ok(Message { onward_route, return_route, message_type, message_body })
    }
}

} // verus!
