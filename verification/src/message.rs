//! Addresses, routes and message envelopes.
//!
//! An [`Address`] names an endpoint: a worker, a socket of a transport, or a
//! secure channel. A [`Route`] is an ordered list of addresses; a message
//! travels by consuming its onward route from the front while the hops it
//! passed are prepended to its return route. Routes are never reordered.

use crate::error::Error;
use vstd::prelude::*;
use vstd::string::StringSliceAdditionalSpecFns;

verus! {

/// The kind of endpoint an address names. It is used purely for dispatch.
#[derive(Clone, Copy, Debug, PartialEq, Eq, Structural)]
pub enum AddressType {
    Worker,
    Tcp,
    Udp,
    Channel,
}

/// The number of address types.
pub const ADDRESS_TYPES: usize = 4;

impl AddressType {
    /// The number that stands for this address type on the wire.
    pub open spec fn tag_of(self) -> u8 {
        match self {
            AddressType::Worker => 0,
            AddressType::Tcp => 1,
            AddressType::Udp => 2,
            AddressType::Channel => 3,
        }
    }

    /// The address type a wire number stands for, if any.
    pub open spec fn of_tag(tag: u8) -> Option<AddressType> {
        if tag == 0 {
            Some(AddressType::Worker)
        } else if tag == 1 {
            Some(AddressType::Tcp)
        } else if tag == 2 {
            Some(AddressType::Udp)
        } else if tag == 3 {
            Some(AddressType::Channel)
        } else {
            None
        }
    }

    /// Whether addresses of this type are served by a transport.
    pub open spec fn is_transport(self) -> bool {
        self == AddressType::Tcp || self == AddressType::Udp
    }

    pub fn tag(self) -> (tag: u8)
        ensures
            tag == self.tag_of(),
            tag < ADDRESS_TYPES,
            AddressType::of_tag(tag) == Some(self),
    {
        match self {
            AddressType::Worker => 0,
            AddressType::Tcp => 1,
            AddressType::Udp => 2,
            AddressType::Channel => 3,
        }
    }

    pub fn from_tag(tag: u8) -> (address_type: Option<AddressType>)
        ensures
            address_type == AddressType::of_tag(tag),
            address_type matches Some(t) ==> t.tag_of() == tag,
    {
        if tag == 0 {
            Some(AddressType::Worker)
        } else if tag == 1 {
            Some(AddressType::Tcp)
        } else if tag == 2 {
            Some(AddressType::Udp)
        } else if tag == 3 {
            Some(AddressType::Channel)
        } else {
            None
        }
    }

    pub fn transport(self) -> (yes: bool)
        ensures
            yes == self.is_transport(),
    {
        match self {
            AddressType::Tcp => true,
            AddressType::Udp => true,
            _ => false,
        }
    }
}

/// The host part of a socket endpoint, as the number its octets spell in network order.
#[derive(Clone, Copy, Debug, PartialEq, Eq, Structural)]
pub enum Host {
    V4(u32),
    V6(u128),
}

/// A socket endpoint: a host and a port.
#[derive(Clone, Copy, Debug, PartialEq, Eq, Structural)]
pub struct Endpoint {
    pub host: Host,
    pub port: u16,
}

/// A typed endpoint identifier.
#[derive(Debug)]
pub enum Address {
    /// A worker, by its identifier.
    Worker(Vec<u8>),
    /// A TCP socket.
    Tcp(Endpoint),
    /// A UDP socket.
    Udp(Endpoint),
    /// A secure channel, by its number.
    Channel(u32),
}

/// What an [`Address`] stands for.
pub enum AddressView {
    Worker(Seq<u8>),
    Tcp(Endpoint),
    Udp(Endpoint),
    Channel(u32),
}

impl AddressView {
    pub open spec fn address_type(self) -> AddressType {
        match self {
            AddressView::Worker(_) => AddressType::Worker,
            AddressView::Tcp(_) => AddressType::Tcp,
            AddressView::Udp(_) => AddressType::Udp,
            AddressView::Channel(_) => AddressType::Channel,
        }
    }
}

impl View for Address {
    type V = AddressView;

    open spec fn view(&self) -> AddressView {
        match self {
            Address::Worker(id) => AddressView::Worker(id@),
            Address::Tcp(endpoint) => AddressView::Tcp(*endpoint),
            Address::Udp(endpoint) => AddressView::Udp(*endpoint),
            Address::Channel(id) => AddressView::Channel(*id),
        }
    }
}

/// Whether two byte strings hold the same bytes.
pub fn bytes_equal(a: &[u8], b: &[u8]) -> (same: bool)
    ensures
        same == (a@ == b@),
{
    if a.len() != b.len() {
        return false;
    }
    let mut i: usize = 0;
    while i < a.len()
        invariant
            a.len() == b.len(),
            i <= a.len(),
            forall|j: int| 0 <= j < i ==> a[j] == b[j],
        decreases a.len() - i,
    {
        if a[i] != b[i] {
            return false;
        }
        i += 1;
    }
    assert(a@ =~= b@);
    true
}

/// A fresh copy of a byte string.
pub fn copy_bytes(bytes: &[u8]) -> (copy: Vec<u8>)
    ensures
        copy@ == bytes@,
{
    let mut copy: Vec<u8> = Vec::new();
    let mut i: usize = 0;
    while i < bytes.len()
        invariant
            i <= bytes.len(),
            copy@ == bytes@.take(i as int),
        decreases bytes.len() - i,
    {
        copy.push(bytes[i]);
        i += 1;
    }
    copy
}

/// The number a hexadecimal digit stands for. Digits are `0` to `9`, `a` to `f` and `A` to `F`.
pub open spec fn hex_digit(digit: u8) -> Option<u8> {
    if 48 <= digit <= 57 {
        Some((digit - 48) as u8)
    } else if 97 <= digit <= 102 {
        Some((digit - 87) as u8)
    } else if 65 <= digit <= 70 {
        Some((digit - 55) as u8)
    } else {
        None
    }
}

/// The bytes that hexadecimal text spells, two digits to the byte. Text of
/// odd length, and text that holds anything but digits, spells nothing.
pub open spec fn hex_bytes(text: Seq<u8>) -> Option<Seq<u8>>
    decreases text.len(),
{
    if text.len() == 0 {
        Some(Seq::empty())
    } else if text.len() == 1 {
        None
    } else {
        let high = hex_digit(text[text.len() - 2]);
        let low = hex_digit(text[text.len() - 1]);
        match hex_bytes(text.take(text.len() - 2)) {
            Some(bytes) => if high is Some && low is Some {
                Some(bytes.push((high->Some_0 * 16 + low->Some_0) as u8))
            } else {
                None
            },
            None => None,
        }
    }
}

/// The number a hexadecimal digit stands for.
fn hex_digit_of(digit: u8) -> (value: Option<u8>)
    ensures
        value == hex_digit(digit),
        value is Some ==> value->Some_0 < 16,
{
    if 48 <= digit && digit <= 57 {
        Some(digit - 48)
    } else if 97 <= digit && digit <= 102 {
        Some(digit - 87)
    } else if 65 <= digit && digit <= 70 {
        Some(digit - 55)
    } else {
        None
    }
}

/// Text that spells nothing up to some point spells nothing as a whole.
proof fn lemma_hex_stops(text: Seq<u8>, pairs: int)
    requires
        0 <= pairs,
        2 * pairs <= text.len(),
        text.len() % 2 == 0,
        hex_bytes(text.take(2 * pairs)) is None,
    ensures
        hex_bytes(text) is None,
    decreases text.len() - 2 * pairs,
{
    if 2 * pairs < text.len() {
        let longer = text.take(2 * pairs + 2);
        assert(longer.take(longer.len() - 2) =~= text.take(2 * pairs));
        lemma_hex_stops(text, pairs + 1);
    } else {
        assert(text.take(2 * pairs) =~= text);
    }
}

/// Reads the bytes that hexadecimal text spells. Text that spells no bytes is malformed.
pub fn hex_vec_from_str(text: &str) -> (bytes: Result<Vec<u8>, Error>)
    ensures
        match hex_bytes(text.spec_bytes()) {
            Some(spelled) => bytes is Ok && bytes->Ok_0@ == spelled,
            None => bytes == Err::<Vec<u8>, Error>(Error::Configuration),
        },
{
    let digits = text.as_bytes();
    if digits.len() % 2 != 0 {
        proof {
            lemma_hex_odd(digits@);
        }
        return Err(Error::Configuration);
    }
    let mut bytes: Vec<u8> = Vec::new();
    let mut i: usize = 0;
    while i < digits.len()
        invariant
            i <= digits.len(),
            i % 2 == 0,
            digits.len() % 2 == 0,
            digits@ == text.spec_bytes(),
            hex_bytes(digits@.take(i as int)) == Some(bytes@),
        decreases digits.len() - i,
    {
        let high = hex_digit_of(digits[i]);
        let low = hex_digit_of(digits[i + 1]);
        proof {
            let longer = digits@.take(i + 2);
            assert(longer.take(longer.len() - 2) =~= digits@.take(i as int));
        }
        match (high, low) {
            (Some(high), Some(low)) => {
                bytes.push(high * 16 + low);
            },
            _ => {
                proof {
                    lemma_hex_stops(digits@, (i / 2 + 1) as int);
                }
                return Err(Error::Configuration);
            },
        }
        i += 2;
    }
    proof {
        assert(digits@.take(digits@.len() as int) =~= digits@);
    }
    Ok(bytes)
}

/// Text of odd length spells nothing.
proof fn lemma_hex_odd(text: Seq<u8>)
    requires
        text.len() % 2 == 1,
    ensures
        hex_bytes(text) is None,
    decreases text.len(),
{
    if text.len() > 1 {
        lemma_hex_odd(text.take(text.len() - 2));
    }
}

impl Address {
    /// The address of the worker whose identifier `text` spells in
    /// hexadecimal. Text that spells no bytes is malformed.
    pub fn worker_address_from_string(text: &str) -> (address: Result<Address, Error>)
        ensures
            match hex_bytes(text.spec_bytes()) {
                Some(id) => address is Ok && address->Ok_0@ == AddressView::Worker(id),
                None => address is Err && address->Err_0 == Error::Configuration,
            },
    {
        match hex_vec_from_str(text) {
            Ok(id) => Ok(Address::Worker(id)),
            Err(error) => Err(error),
        }
    }

    pub fn address_type(&self) -> (address_type: AddressType)
        ensures
            address_type == self@.address_type(),
    {
        match self {
            Address::Worker(_) => AddressType::Worker,
            Address::Tcp(_) => AddressType::Tcp,
            Address::Udp(_) => AddressType::Udp,
            Address::Channel(_) => AddressType::Channel,
        }
    }
}

impl PartialEq for Address {
    fn eq(&self, other: &Address) -> (same: bool) {
        match (self, other) {
            (Address::Worker(a), Address::Worker(b)) => bytes_equal(a.as_slice(), b.as_slice()),
            (Address::Tcp(a), Address::Tcp(b)) => *a == *b,
            (Address::Udp(a), Address::Udp(b)) => *a == *b,
            (Address::Channel(a), Address::Channel(b)) => *a == *b,
            _ => false,
        }
    }
}

impl vstd::std_specs::cmp::PartialEqSpecImpl for Address {
    open spec fn obeys_eq_spec() -> bool {
        true
    }

    open spec fn eq_spec(&self, other: &Address) -> bool {
        self@ == other@
    }
}

impl Eq for Address {

}

impl Clone for Address {
    fn clone(&self) -> (copy: Address)
        ensures
            copy@ == self@,
    {
        match self {
            Address::Worker(id) => Address::Worker(copy_bytes(id.as_slice())),
            Address::Tcp(endpoint) => Address::Tcp(*endpoint),
            Address::Udp(endpoint) => Address::Udp(*endpoint),
            Address::Channel(id) => Address::Channel(*id),
        }
    }
}

/// What each address of a list stands for.
pub open spec fn address_views(addresses: Seq<Address>) -> Seq<AddressView> {
    Seq::new(addresses.len(), |i: int| addresses[i]@)
}

/// The address type of the first entry of a route, if the route has one.
pub open spec fn first_type(route: Seq<AddressView>) -> Option<AddressType> {
    if route.len() > 0 {
        Some(route[0].address_type())
    } else {
        None
    }
}

/// An ordered list of addresses: the hops still to take, or the hops taken.
#[derive(Debug)]
pub struct Route {
    pub addresses: Vec<Address>,
}

impl View for Route {
    type V = Seq<AddressView>;

    open spec fn view(&self) -> Seq<AddressView> {
        address_views(self.addresses@)
    }
}

impl Route {
    /// The empty route.
    pub fn new() -> (route: Route)
        ensures
            route@ == Seq::<AddressView>::empty(),
    {
        let route = Route { addresses: Vec::new() };
        route
    }

    pub fn len(&self) -> (n: usize)
        ensures
            n == self@.len(),
    {
        self.addresses.len()
    }

    /// The address type of the next hop, if there is one.
    pub fn first_type(&self) -> (address_type: Option<AddressType>)
        ensures
            address_type == first_type(self@),
    {
        if self.addresses.len() > 0 {
            Some(self.addresses[0].address_type())
        } else {
            None
        }
    }

    /// Removes and returns the first address; an empty route stays empty.
    pub fn pop_front(&mut self) -> (first: Option<Address>)
        ensures
            old(self)@.len() == 0 ==> first is None && final(self)@ == old(self)@,
            old(self)@.len() > 0 ==> first is Some && first->0@ == old(self)@[0] && final(self)@
                == old(self)@.skip(1),
    {
        if self.addresses.len() > 0 {
            let address = self.addresses.remove(0);
            Some(address)
        } else {
            None
        }
    }

    /// Puts `address` in front of the route.
    pub fn prepend(&mut self, address: Address)
        ensures
            final(self)@ == seq![address@] + old(self)@,
    {
        self.addresses.insert(0, address);
    }
}

impl PartialEq for Route {
    fn eq(&self, other: &Route) -> (same: bool) {
        if self.addresses.len() != other.addresses.len() {
            assert(self@.len() != other@.len());
            return false;
        }
        let mut i: usize = 0;
        while i < self.addresses.len()
            invariant
                self.addresses.len() == other.addresses.len(),
                i <= self.addresses.len(),
                forall|j: int| 0 <= j < i ==> self@[j] == other@[j],
            decreases self.addresses.len() - i,
        {
            if !(self.addresses[i] == other.addresses[i]) {
                assert(self@[i as int] != other@[i as int]);
                return false;
            }
            i += 1;
        }
        assert(self@ =~= other@);
        true
    }
}

impl vstd::std_specs::cmp::PartialEqSpecImpl for Route {
    open spec fn obeys_eq_spec() -> bool {
        true
    }

    open spec fn eq_spec(&self, other: &Route) -> bool {
        self@ == other@
    }
}

impl Eq for Route {

}

impl Clone for Route {
    fn clone(&self) -> (copy: Route)
        ensures
            copy@ == self@,
    {
        let mut addresses: Vec<Address> = Vec::new();
        let mut i: usize = 0;
        while i < self.addresses.len()
            invariant
                i <= self.addresses.len(),
                addresses.len() == i,
                forall|j: int| 0 <= j < i ==> addresses[j]@ == self.addresses[j]@,
            decreases self.addresses.len() - i,
        {
            addresses.push(self.addresses[i].clone());
            i += 1;
        }
        let copy = Route { addresses };
        copy
    }
}

/// What a message carries.
#[derive(Clone, Copy, Debug, PartialEq, Eq, Structural)]
pub enum MessageType {
    /// Application data.
    Payload,
    /// A step of the secure-channel handshake.
    Handshake,
}

impl MessageType {
    /// The number that stands for this message type on the wire.
    pub open spec fn tag_of(self) -> u8 {
        match self {
            MessageType::Payload => 0,
            MessageType::Handshake => 1,
        }
    }

    /// The message type a wire number stands for, if any.
    pub open spec fn of_tag(tag: u8) -> Option<MessageType> {
        if tag == 0 {
            Some(MessageType::Payload)
        } else if tag == 1 {
            Some(MessageType::Handshake)
        } else {
            None
        }
    }

    pub fn tag(self) -> (tag: u8)
        ensures
            tag == self.tag_of(),
            MessageType::of_tag(tag) == Some(self),
    {
        match self {
            MessageType::Payload => 0,
            MessageType::Handshake => 1,
        }
    }

    pub fn from_tag(tag: u8) -> (message_type: Option<MessageType>)
        ensures
            message_type == MessageType::of_tag(tag),
    {
        if tag == 0 {
            Some(MessageType::Payload)
        } else if tag == 1 {
            Some(MessageType::Handshake)
        } else {
            None
        }
    }
}

/// A message envelope. While a message is in flight its onward route is not
/// empty, and the first entry names the next hop.
#[derive(Debug)]
pub struct Message {
    pub onward_route: Route,
    pub return_route: Route,
    pub message_type: MessageType,
    pub message_body: Vec<u8>,
}

/// What a [`Message`] stands for.
pub struct MessageView {
    pub onward_route: Seq<AddressView>,
    pub return_route: Seq<AddressView>,
    pub message_type: MessageType,
    pub message_body: Seq<u8>,
}

impl View for Message {
    type V = MessageView;

    open spec fn view(&self) -> MessageView {
        MessageView {
            onward_route: self.onward_route@,
            return_route: self.return_route@,
            message_type: self.message_type,
            message_body: self.message_body@,
        }
    }
}

/// What each message of a list stands for.
pub open spec fn message_views(messages: Seq<Message>) -> Seq<MessageView> {
    Seq::new(messages.len(), |i: int| messages[i]@)
}

impl Message {
    /// The address type of the next hop, if the onward route has one.
    pub fn next_hop_type(&self) -> (address_type: Option<AddressType>)
        ensures
            address_type == first_type(self@.onward_route),
    {
        self.onward_route.first_type()
    }
}

impl PartialEq for Message {
    fn eq(&self, other: &Message) -> (same: bool) {
        self.onward_route == other.onward_route && self.return_route == other.return_route
            && self.message_type == other.message_type && bytes_equal(
            self.message_body.as_slice(),
            other.message_body.as_slice(),
        )
    }
}

impl vstd::std_specs::cmp::PartialEqSpecImpl for Message {
    open spec fn obeys_eq_spec() -> bool {
        true
    }

    open spec fn eq_spec(&self, other: &Message) -> bool {
        self@ == other@
    }
}

impl Eq for Message {

}

impl Clone for Message {
    fn clone(&self) -> (copy: Message)
        ensures
            copy@ == self@,
    {
        Message {
            onward_route: self.onward_route.clone(),
            return_route: self.return_route.clone(),
            message_type: self.message_type,
            message_body: copy_bytes(self.message_body.as_slice()),
        }
    }
}

} // verus!
