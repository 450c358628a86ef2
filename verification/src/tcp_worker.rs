//! Framing and reassembly of messages on a byte stream.
//!
//! On the wire a message travels as a frame: a length prefix followed by
//! exactly that many bytes of the encoded message. A length below 128 is
//! written in one byte. A length from 128 up to 32767 is written in two
//! bytes: first `128 + length % 128`, then `length / 128`. No frame is longer
//! than 32767 bytes.
//!
//! A [`TcpWorker`] holds the state of one connection and does no input or
//! output itself. What is to be written to the stream collects in its
//! outgoing buffer; what was read from the stream is handed to
//! [`TcpWorker::receive`], in pieces of any size: a piece may hold no frame,
//! one, or many, and a frame may span several pieces.

use crate::codec::{append_bytes, encodable, message_bytes, parse_message, slice_bytes};
use crate::error::Error;
use crate::message::{
    first_type, message_views, Address, AddressView, Endpoint, Message, MessageView,
};
use crate::queue::{dropped_after_all, enqueued_all, lemma_enqueued_all_push, Enqueue, MemQueue};
use crate::traits::ProcessMessage;
use vstd::prelude::*;

verus! {

/// The longest message a frame can carry.
pub const MAX_FRAME_LEN: usize = 0x7fff;

/// The length from which on the prefix takes two bytes.
pub const LONG_PREFIX_FROM: usize = 0x80;

/// The length prefix of a frame that carries `len` bytes.
pub open spec fn prefix_bytes(len: nat) -> Seq<u8> {
    if len < LONG_PREFIX_FROM {
        seq![len as u8]
    } else {
        seq![(LONG_PREFIX_FROM + len % (LONG_PREFIX_FROM as nat)) as u8, (len / (
        LONG_PREFIX_FROM as nat)) as u8]
    }
}

/// The frame that carries `payload`.
pub open spec fn frame_bytes(payload: Seq<u8>) -> Seq<u8> {
    prefix_bytes(payload.len()) + payload
}

/// The length prefix at the start of `bytes`: the length it spells and the
/// number of bytes it takes, or `None` while it is not complete.
pub open spec fn parse_prefix(bytes: Seq<u8>) -> Option<(nat, nat)> {
    if bytes.len() == 0 {
        None
    } else if bytes[0] < LONG_PREFIX_FROM {
        Some((bytes[0] as nat, 1))
    } else if bytes.len() < 2 {
        None
    } else {
        Some(((bytes[0] - LONG_PREFIX_FROM + LONG_PREFIX_FROM * bytes[1]) as nat, 2))
    }
}

/// The first frame of `bytes`: what it carries and the number of bytes it
/// takes, or `None` while it is not complete.
pub open spec fn first_frame(bytes: Seq<u8>) -> Option<(Seq<u8>, nat)> {
    match parse_prefix(bytes) {
        None => None,
        Some((len, width)) => if bytes.len() < width + len {
            None
        } else {
            Some((bytes.subrange(width as int, (width + len) as int), width + len))
        },
    }
}

/// A message as it leaves through a transport whose own endpoint is `local`:
/// the first onward entry, which named the transport, is taken off, and the
/// transport's endpoint is put in front of the return route.
pub open spec fn outbound(message: MessageView, local: Endpoint) -> MessageView {
    MessageView {
        onward_route: message.onward_route.skip(1),
        return_route: seq![AddressView::Tcp(local)] + message.return_route,
        message_type: message.message_type,
        message_body: message.message_body,
    }
}

/// What the send path writes for `message`, or why it writes nothing: a
/// message without an onward route, or one that cannot be encoded, is
/// malformed; one that does not fit a frame is a protocol error.
pub open spec fn outbound_frame(message: MessageView, local: Endpoint) -> Result<Seq<u8>, Error> {
    if message.onward_route.len() == 0 {
        Err(Error::Configuration)
    } else if !encodable(outbound(message, local)) {
        Err(Error::Configuration)
    } else if message_bytes(outbound(message, local)).len() > MAX_FRAME_LEN {
        Err(Error::Protocol)
    } else {
        Ok(frame_bytes(message_bytes(outbound(message, local))))
    }
}

/// A message as it arrives over a connection whose far end is `peer`: the
/// first entry of its return route, which the sender wrote, is replaced by
/// the endpoint the bytes really came from.
pub open spec fn inbound(message: MessageView, peer: Endpoint) -> MessageView {
    MessageView {
        onward_route: message.onward_route,
        return_route: message.return_route.update(0, AddressView::Tcp(peer)),
        message_type: message.message_type,
        message_body: message.message_body,
    }
}

/// What becomes of one frame that arrived.
pub enum Arrival {
    /// The message is handed to the caller, to be routed onward.
    Deliver(MessageView),
    /// The next hop is a transport again: these bytes are sent on at once.
    Relay(Seq<u8>),
}

/// Whether the next hop of a message is served by a transport.
pub open spec fn relays(message: MessageView) -> bool {
    match first_type(message.onward_route) {
        Some(address_type) => address_type.is_transport(),
        None => false,
    }
}

/// What becomes of a frame that carries `payload`. A payload that is no
/// message, or whose message has no return route, is a protocol error.
#[verifier::opaque]
pub open spec fn arrival(payload: Seq<u8>, peer: Endpoint, local: Endpoint) -> Result<
    Arrival,
    Error,
> {
    match parse_message(payload) {
        None => Err(Error::Protocol),
        Some(message) => if message.return_route.len() == 0 {
            Err(Error::Protocol)
        } else if relays(message) {
            match outbound_frame(inbound(message, peer), local) {
                Ok(frame) => Ok(Arrival::Relay(frame)),
                Err(error) => Err(error),
            }
        } else {
            Ok(Arrival::Deliver(inbound(message, peer)))
        },
    }
}

/// What becomes of a stretch of the incoming stream.
pub struct Intake {
    /// The messages handed to the caller, in order of arrival.
    pub delivered: Seq<MessageView>,
    /// The bytes sent on, in order.
    pub relayed: Seq<u8>,
    /// The bytes of a frame that is not complete yet.
    pub rest: Seq<u8>,
    /// The error that ended the connection, if one did.
    pub failure: Option<Error>,
}

/// What becomes of `bytes`: frame after frame is taken off the front and
/// delivered or relayed, until the frame at the front is not complete or a
/// frame fails. A failure ends the connection: what came after it is
/// discarded.
pub open spec fn intake(bytes: Seq<u8>, peer: Endpoint, local: Endpoint) -> Intake
    decreases bytes.len(),
{
    match first_frame(bytes) {
        None => Intake {
            delivered: Seq::empty(),
            relayed: Seq::empty(),
            rest: bytes,
            failure: None,
        },
        Some((payload, size)) => match arrival(payload, peer, local) {
            Err(error) => Intake {
                delivered: Seq::empty(),
                relayed: Seq::empty(),
                rest: Seq::empty(),
                failure: Some(error),
            },
            Ok(Arrival::Deliver(message)) => {
                let after = intake(bytes.skip(size as int), peer, local);
                Intake {
                    delivered: seq![message] + after.delivered,
                    relayed: after.relayed,
                    rest: after.rest,
                    failure: after.failure,
                }
            },
            Ok(Arrival::Relay(frame)) => {
                let after = intake(bytes.skip(size as int), peer, local);
                Intake {
                    delivered: after.delivered,
                    relayed: frame + after.relayed,
                    rest: after.rest,
                    failure: after.failure,
                }
            },
        },
    }
}

/// One stretch of the stream followed by another.
pub open spec fn followed_by(first: Intake, second: Intake) -> Intake {
    if first.failure is Some {
        first
    } else {
        Intake {
            delivered: first.delivered + second.delivered,
            relayed: first.relayed + second.relayed,
            rest: second.rest,
            failure: second.failure,
        }
    }
}

/// The pieces of a stream, one after the other.
pub open spec fn joined(pieces: Seq<Seq<u8>>) -> Seq<u8>
    decreases pieces.len(),
{
    if pieces.len() == 0 {
        Seq::empty()
    } else {
        pieces[0] + joined(pieces.skip(1))
    }
}

/// What becomes of a stream that is received piece by piece, each piece
/// handed in with what the pieces before it left over.
pub open spec fn intake_in_pieces(
    pending: Seq<u8>,
    pieces: Seq<Seq<u8>>,
    peer: Endpoint,
    local: Endpoint,
) -> Intake
    decreases pieces.len(),
{
    if pieces.len() == 0 {
        Intake { delivered: Seq::empty(), relayed: Seq::empty(), rest: pending, failure: None }
    } else {
        let first = intake(pending + pieces[0], peer, local);
        followed_by(first, intake_in_pieces(first.rest, pieces.skip(1), peer, local))
    }
}

/// A frame that is complete stays the first frame whatever follows it.
pub proof fn lemma_first_frame_extends(bytes: Seq<u8>, more: Seq<u8>)
    requires
        first_frame(bytes) is Some,
    ensures
        first_frame(bytes + more) == first_frame(bytes),
        (bytes + more).skip((first_frame(bytes)->Some_0).1 as int) == bytes.skip(
            (first_frame(bytes)->Some_0).1 as int,
        ) + more,
{
    let all = bytes + more;
    let (len, width) = parse_prefix(bytes)->Some_0;
    let size = (width + len) as int;
    assert(parse_prefix(all) == parse_prefix(bytes));
    assert(all.subrange(width as int, size) == bytes.subrange(width as int, size));
    assert(all.skip(size) == bytes.skip(size) + more);
}

/// The frame that carries `payload` is read back as `payload`.
pub proof fn lemma_frame_parses(payload: Seq<u8>)
    requires
        payload.len() <= MAX_FRAME_LEN,
    ensures
        first_frame(frame_bytes(payload)) == Some((payload, frame_bytes(payload).len())),
{
    let frame = frame_bytes(payload);
    let prefix = prefix_bytes(payload.len());
    assert(parse_prefix(frame) == Some((payload.len(), prefix.len())));
    assert(frame.subrange(prefix.len() as int, frame.len() as int) == payload);
}

/// What is left over after an intake holds no complete frame.
pub proof fn lemma_rest_is_incomplete(bytes: Seq<u8>, peer: Endpoint, local: Endpoint)
    ensures
        first_frame(intake(bytes, peer, local).rest) is None,
    decreases bytes.len(),
{
    match first_frame(bytes) {
        None => {},
        Some((payload, size)) => {
            if arrival(payload, peer, local) is Ok {
                lemma_rest_is_incomplete(bytes.skip(size as int), peer, local);
            }
        },
    }
}

/// Receiving a stream in two stretches comes to the same as receiving it in
/// one: the second stretch is taken up where the first left off.
pub proof fn lemma_intake_split(bytes: Seq<u8>, more: Seq<u8>, peer: Endpoint, local: Endpoint)
    ensures
        intake(bytes + more, peer, local) == followed_by(
            intake(bytes, peer, local),
            intake(intake(bytes, peer, local).rest + more, peer, local),
        ),
    decreases bytes.len(),
{
    let whole = intake(bytes + more, peer, local);
    let first = intake(bytes, peer, local);
    let second = intake(first.rest + more, peer, local);
    let both = followed_by(first, second);
    if let Some((payload, size)) = first_frame(bytes) {
        lemma_first_frame_extends(bytes, more);
        if arrival(payload, peer, local) is Ok {
            let tail = bytes.skip(size as int);
            lemma_intake_split(tail, more, peer, local);
            if intake(tail, peer, local).failure is None {
                assert(both.delivered =~= whole.delivered);
                assert(both.relayed =~= whole.relayed);
            }
        }
    }
}

/// Receiving a stream piece by piece comes to the same as receiving it in
/// one, wherever the pieces are cut.
pub proof fn lemma_pieces(
    pending: Seq<u8>,
    pieces: Seq<Seq<u8>>,
    peer: Endpoint,
    local: Endpoint,
)
    requires
        first_frame(pending) is None,
    ensures
        intake_in_pieces(pending, pieces, peer, local) == intake(
            pending + joined(pieces),
            peer,
            local,
        ),
    decreases pieces.len(),
{
    if pieces.len() > 0 {
        let first = intake(pending + pieces[0], peer, local);
        let tail = pieces.skip(1);
        lemma_rest_is_incomplete(pending + pieces[0], peer, local);
        lemma_pieces(first.rest, tail, peer, local);
        lemma_intake_split(pending + pieces[0], joined(tail), peer, local);
        assert((pending + pieces[0]) + joined(tail) =~= pending + joined(pieces));
    }
}

/// Frame round trip: the frame of a message, received over a fresh
/// connection in pieces cut anywhere, yields exactly one message: the one
/// that was framed, with the first entry of its return route replaced by
/// the endpoint of the peer. Nothing is sent on, nothing is left over, and the
/// connection does not fail.
///
/// This holds of a message that fits a frame, has a return route, and whose
/// next hop is not a transport (such a message is sent on, not yielded).
pub proof fn lemma_frame_round_trip(
    message: MessageView,
    pieces: Seq<Seq<u8>>,
    peer: Endpoint,
    local: Endpoint,
)
    requires
        encodable(message),
        message_bytes(message).len() <= MAX_FRAME_LEN,
        message.return_route.len() > 0,
        !relays(message),
        joined(pieces) == frame_bytes(message_bytes(message)),
    ensures
        intake_in_pieces(Seq::empty(), pieces, peer, local) == (Intake {
            delivered: seq![inbound(message, peer)],
            relayed: Seq::empty(),
            rest: Seq::empty(),
            failure: None,
        }),
{
    let payload = message_bytes(message);
    let frame = frame_bytes(payload);
    lemma_pieces(Seq::empty(), pieces, peer, local);
    lemma_frame_parses(payload);
    crate::codec::lemma_round_trip(message);
    assert(arrival(payload, peer, local) == Ok::<Arrival, Error>(
        Arrival::Deliver(inbound(message, peer)),
    )) by {
        reveal(arrival);
    }
    let after = intake(frame.skip(frame.len() as int), peer, local);
    assert(frame.skip(frame.len() as int) =~= Seq::<u8>::empty());
}

/// Appends the frame that carries `payload` to `out`.
fn push_frame(out: &mut Vec<u8>, payload: &[u8])
    requires
        payload.len() <= MAX_FRAME_LEN,
    ensures
        final(out)@ == old(out)@ + frame_bytes(payload@),
{
    let len = payload.len();
    if len < LONG_PREFIX_FROM {
        out.push(len as u8);
    } else {
        out.push((LONG_PREFIX_FROM + len % LONG_PREFIX_FROM) as u8);
        out.push((len / LONG_PREFIX_FROM) as u8);
    }
    append_bytes(out, payload);
}

/// Finds the frame that starts at `at`: where what it carries starts and
/// where it ends, or `None` while the frame is not complete.
fn frame_at(bytes: &[u8], at: usize) -> (found: Option<(usize, usize)>)
    requires
        at <= bytes.len(),
    ensures
        match first_frame(bytes@.skip(at as int)) {
            Some((payload, size)) => found is Some && at < (found->Some_0).0 <= (
            found->Some_0).1 <= bytes.len() && (found->Some_0).1 == at + size && payload
                == bytes@.subrange((found->Some_0).0 as int, (found->Some_0).1 as int),
            None => found is None,
        },
{
    let available = bytes.len() - at;
    if available == 0 {
        return None;
    }
    let first = bytes[at] as usize;
    let (len, width): (usize, usize) = if first < LONG_PREFIX_FROM {
        (first, 1)
    } else if available < 2 {
        return None;
    } else {
        (first - LONG_PREFIX_FROM + LONG_PREFIX_FROM * (bytes[at + 1] as usize), 2)
    };
    if available - width < len {
        return None;
    }
    let start = at + width;
    let end = start + len;
    Some((start, end))
}

/// The bytes the send path writes for `message`.
fn frame_outbound(message: Message, local: Endpoint) -> (frame: Result<Vec<u8>, Error>)
    ensures
        match outbound_frame(message@, local) {
            Ok(bytes) => frame is Ok && frame->Ok_0@ == bytes,
            Err(error) => frame == Err::<Vec<u8>, Error>(error),
        },
{
    let mut message = message;
    if message.onward_route.pop_front().is_none() {
        return Err(Error::Configuration);
    }
    message.return_route.prepend(Address::Tcp(local));
    let payload = match message.encode() {
        Ok(payload) => payload,
        Err(error) => {
            return Err(error);
        },
    };
    if payload.len() > MAX_FRAME_LEN {
        return Err(Error::Protocol);
    }
    let mut frame: Vec<u8> = Vec::new();
    push_frame(&mut frame, payload.as_slice());
    Ok(frame)
}

/// What becomes of one frame that arrived.
pub enum Accepted {
    /// The message is handed to the caller, to be routed onward.
    Deliver(Message),
    /// The next hop is a transport again: these bytes are sent on at once.
    Relay(Vec<u8>),
}

impl View for Accepted {
    type V = Arrival;

    open spec fn view(&self) -> Arrival {
        match self {
            Accepted::Deliver(message) => Arrival::Deliver(message@),
            Accepted::Relay(frame) => Arrival::Relay(frame@),
        }
    }
}

/// What was received: the messages to route onward, and the error that
/// ended the connection, if one did.
pub struct Arrivals {
    pub messages: Vec<Message>,
    pub failure: Option<Error>,
}

/// The outcome of a read from the stream.
pub enum ReadOutcome {
    /// These bytes were read.
    Data(Vec<u8>),
    /// Nothing is there to read for now.
    WouldBlock,
    /// The peer closed the stream.
    Closed,
    /// The read failed.
    Failed,
}

/// The state of one stream connection.
pub struct TcpWorker {
    local: Endpoint,
    peer: Endpoint,
    pending: Vec<u8>,
    outgoing: Vec<u8>,
    failed: bool,
}

/// What a [`TcpWorker`] stands for.
pub struct Connection {
    /// The endpoint of this end of the connection.
    pub local: Endpoint,
    /// The endpoint of the far end, as observed.
    pub peer: Endpoint,
    /// The bytes that were received and belong to a frame that is not complete yet.
    pub pending: Seq<u8>,
    /// The bytes that wait to be written to the stream.
    pub outgoing: Seq<u8>,
    /// Whether the connection has failed. A failed connection does nothing more.
    pub failed: bool,
}

impl View for TcpWorker {
    type V = Connection;

    closed spec fn view(&self) -> Connection {
        Connection {
            local: self.local,
            peer: self.peer,
            pending: self.pending@,
            outgoing: self.outgoing@,
            failed: self.failed,
        }
    }
}

impl TcpWorker {
    /// The state of a connection that was just made.
    pub fn new_connection(local: Endpoint, peer: Endpoint) -> (worker: TcpWorker)
        ensures
            worker@ == (Connection {
                local,
                peer,
                pending: Seq::empty(),
                outgoing: Seq::empty(),
                failed: false,
            }),
    {
        TcpWorker { local, peer, pending: Vec::new(), outgoing: Vec::new(), failed: false }
    }

    /// The send path: takes the first entry off the onward route, puts the
    /// local endpoint in front of the return route, encodes the message and
    /// appends its frame to the outgoing bytes. A message that cannot be sent
    /// is refused and changes nothing. A failed connection sends nothing.
    pub fn send_message(&mut self, message: Message) -> (sent: Result<(), Error>)
        ensures
            old(self)@.failed ==> sent == Err::<(), Error>(Error::Transport) && final(self)@
                == old(self)@,
            !old(self)@.failed ==> match outbound_frame(message@, old(self)@.local) {
                Ok(frame) => sent == Ok::<(), Error>(()) && final(self)@ == (Connection {
                    outgoing: old(self)@.outgoing + frame,
                    ..old(self)@
                }),
                Err(error) => sent == Err::<(), Error>(error) && final(self)@ == old(self)@,
            },
    {
        if self.failed {
            return Err(Error::Transport);
        }
        match frame_outbound(message, self.local) {
            Ok(frame) => {
                append_bytes(&mut self.outgoing, frame.as_slice());
                Ok(())
            },
            Err(error) => Err(error),
        }
    }

    /// Decides what becomes of one frame that arrived and carries `payload`:
    /// the message is decoded, the first entry of its return route is
    /// replaced by the endpoint of the peer, and the message is delivered,
    /// or framed again to be sent on when its next hop is a transport.
    pub fn decode_message(&self, payload: &[u8]) -> (accepted: Result<Accepted, Error>)
        ensures
            match arrival(payload@, self@.peer, self@.local) {
                Ok(step) => accepted is Ok && accepted->Ok_0@ == step,
                Err(error) => accepted is Err && accepted->Err_0 == error,
            },
    {
        reveal(arrival);
        let mut message = match Message::decode(payload) {
            Ok(message) => message,
            Err(error) => {
                return Err(error);
            },
        };
        if message.return_route.len() == 0 {
            return Err(Error::Protocol);
        }
        let ghost decoded = message@;
        let forward = match message.next_hop_type() {
            Some(address_type) => address_type.transport(),
            None => false,
        };
        message.return_route.addresses[0] = Address::Tcp(self.peer);
        assert(message.return_route@ =~= decoded.return_route.update(
            0,
            AddressView::Tcp(self.peer),
        ));
        if forward {
            match frame_outbound(message, self.local) {
                Ok(frame) => Ok(Accepted::Relay(frame)),
                Err(error) => Err(error),
            }
        } else {
            Ok(Accepted::Deliver(message))
        }
    }

    /// The receive path: takes in `bytes`, which were read from the stream,
    /// and handles every frame that they complete, in order. A frame that
    /// fails ends the connection; the messages before it are still yielded.
    /// A failed connection yields nothing.
    pub fn receive(&mut self, bytes: &[u8]) -> (arrivals: Arrivals)
        ensures
            old(self)@.failed ==> arrivals.messages@.len() == 0 && arrivals.failure == Some(
                Error::Transport,
            ) && final(self)@ == old(self)@,
            !old(self)@.failed ==> {
                let taken = intake(old(self)@.pending + bytes@, old(self)@.peer, old(self)@.local);
                &&& message_views(arrivals.messages@) == taken.delivered
                &&& arrivals.failure == taken.failure
                &&& final(self)@ == (Connection {
                    pending: taken.rest,
                    outgoing: old(self)@.outgoing + taken.relayed,
                    failed: taken.failure is Some,
                    ..old(self)@
                })
            },
            first_frame(final(self)@.pending) is None || old(self)@.failed,
    {
        let mut messages: Vec<Message> = Vec::new();
        if self.failed {
            return Arrivals { messages, failure: Some(Error::Transport) };
        }
        append_bytes(&mut self.pending, bytes);
        let ghost all = self.pending@;
        let ghost peer = self.peer;
        let ghost local = self.local;
        let ghost written = self.outgoing@;
        let mut at: usize = 0;
        let mut failure: Option<Error> = None;
        proof {
            assert(all.skip(0) =~= all);
        }
        loop
            invariant_except_break
                failure is None,
                ({
                    let whole = intake(all, peer, local);
                    let ahead = intake(all.skip(at as int), peer, local);
                    &&& whole.delivered == message_views(messages@) + ahead.delivered
                    &&& written + whole.relayed == self.outgoing@ + ahead.relayed
                    &&& whole.rest == ahead.rest
                    &&& whole.failure == ahead.failure
                }),
            invariant
                at <= self.pending.len(),
                self.pending@ == all,
                self.peer == peer,
                self.local == local,
                self.failed == old(self).failed,
                !self.failed,
                written == old(self)@.outgoing,
            ensures
                at <= self.pending.len(),
                self.pending@ == all,
                self.peer == peer,
                self.local == local,
                !self.failed,
                ({
                    let whole = intake(all, peer, local);
                    &&& whole.delivered == message_views(messages@)
                    &&& written + whole.relayed == self.outgoing@
                    &&& whole.failure == failure
                    &&& failure is None ==> whole.rest == all.skip(at as int)
                    &&& failure is Some ==> whole.rest == Seq::<u8>::empty()
                }),
            decreases self.pending.len() - at,
        {
            let (start, end) = match frame_at(self.pending.as_slice(), at) {
                Some(found) => found,
                None => {
                    break ;
                },
            };
            let payload = slice_bytes(self.pending.as_slice(), start, end);
            proof {
                assert(all.skip(at as int).skip(end - at) =~= all.skip(end as int));
            }
            match self.decode_message(payload.as_slice()) {
                Err(error) => {
                    failure = Some(error);
                    break ;
                },
                Ok(Accepted::Deliver(message)) => {
                    messages.push(message);
                },
                Ok(Accepted::Relay(frame)) => {
                    append_bytes(&mut self.outgoing, frame.as_slice());
                },
            }
            at = end;
        }
        match failure {
            Some(_) => {
                self.failed = true;
                self.pending = Vec::new();
            },
            None => {
                let rest = slice_bytes(self.pending.as_slice(), at, self.pending.len());
                proof {
                    lemma_rest_is_incomplete(all, peer, local);
                }
                self.pending = rest;
            },
        }
        Arrivals { messages, failure }
    }

    /// Handles the outcome of a read from the stream. Nothing to read is no
    /// error and changes nothing. A stream that the peer closed asks the node
    /// to stop. A read that failed ends the connection. Bytes that were read
    /// go through the receive path, and the messages they yield are put on
    /// `queue`, in order; a frame that fails ends the connection.
    pub fn on_read(&mut self, read: ReadOutcome, queue: &mut MemQueue<Message>) -> (outcome: Result<
        bool,
        Error,
    >)
        ensures
            read is WouldBlock ==> outcome == Ok::<bool, Error>(true) && final(self)@ == old(self)@
                && *final(queue) == *old(queue),
            read is Closed ==> outcome == Ok::<bool, Error>(false) && final(self)@ == old(self)@
                && *final(queue) == *old(queue),
            read is Failed ==> outcome == Err::<bool, Error>(Error::Transport) && final(self)@ == (
            Connection { failed: true, ..old(self)@ }) && *final(queue) == *old(queue),
            read is Data && old(self)@.failed ==> outcome == Err::<bool, Error>(Error::Transport)
                && final(self)@ == old(self)@ && *final(queue) == *old(queue),
            read is Data && !old(self)@.failed ==> {
                let taken = intake(
                    old(self)@.pending + read->Data_0@,
                    old(self)@.peer,
                    old(self)@.local,
                );
                &&& outcome == match taken.failure {
                    Some(error) => Err::<bool, Error>(error),
                    None => Ok::<bool, Error>(true),
                }
                &&& final(self)@ == (Connection {
                    pending: taken.rest,
                    outgoing: old(self)@.outgoing + taken.relayed,
                    failed: taken.failure is Some,
                    ..old(self)@
                })
                &&& exists|messages: Seq<Message>|
                    {
                        &&& #[trigger] message_views(messages) == taken.delivered
                        &&& final(queue)@ == enqueued_all(old(queue)@, old(queue).limit(), messages)
                        &&& final(queue).dropped() == dropped_after_all(
                            old(queue)@,
                            old(queue).limit(),
                            old(queue).dropped(),
                            messages,
                        )
                        &&& final(queue).limit() == old(queue).limit()
                    }
            },
    {
        let bytes = match read {
            ReadOutcome::WouldBlock => {
                return Ok(true);
            },
            ReadOutcome::Closed => {
                return Ok(false);
            },
            ReadOutcome::Failed => {
                return Err(self.write_failed());
            },
            ReadOutcome::Data(bytes) => bytes,
        };
        if self.failed {
            return Err(Error::Transport);
        }
        let arrivals = self.receive(bytes.as_slice());
        let ghost yielded = arrivals.messages@;
        let failure = arrivals.failure;
        for message in it: arrivals.messages
            invariant
                it.seq() == yielded,
                queue@ == enqueued_all(old(queue)@, old(queue).limit(), yielded.take(it.index())),
                queue.dropped() == dropped_after_all(
                    old(queue)@,
                    old(queue).limit(),
                    old(queue).dropped(),
                    yielded.take(it.index()),
                ),
                queue.limit() == old(queue).limit(),
        {
            proof {
                let done = yielded.take(it.index());
                lemma_enqueued_all_push(
                    old(queue)@,
                    old(queue).limit(),
                    old(queue).dropped(),
                    done,
                    message,
                );
                assert(yielded.take(it.index() + 1) =~= done.push(message));
            }
            queue.enqueue(message);
        }
        proof {
            assert(yielded.take(yielded.len() as int) =~= yielded);
        }
        match failure {
            Some(error) => Err(error),
            None => Ok(true),
        }
    }

    /// The bytes that wait to be written to the stream. They are handed
    /// over: the worker holds none of them afterwards.
    pub fn take_outgoing(&mut self) -> (bytes: Vec<u8>)
        ensures
            bytes@ == old(self)@.outgoing,
            final(self)@ == (Connection { outgoing: Seq::empty(), ..old(self)@ }),
    {
        let mut bytes: Vec<u8> = Vec::new();
        std::mem::swap(&mut self.outgoing, &mut bytes);
        bytes
    }

    /// Records that a write to the stream failed: the connection has failed.
    pub fn write_failed(&mut self) -> (error: Error)
        ensures
            error == Error::Transport,
            final(self)@ == (Connection { failed: true, ..old(self)@ }),
    {
        self.failed = true;
        Error::Transport
    }

    /// Whether the connection has failed.
    pub fn has_failed(&self) -> (failed: bool)
        ensures
            failed == self@.failed,
    {
        self.failed
    }
}

impl ProcessMessage for TcpWorker {
    /// The router's handler for transport addresses: the message goes
    /// through the send path. The queue is not touched.
    fn process_message(&mut self, message: Message, queue: &mut MemQueue<Message>) -> (outcome:
        Result<bool, Error>)
        ensures
            *final(queue) == *old(queue),
            old(self)@.failed ==> outcome == Err::<bool, Error>(Error::Transport) && final(self)@
                == old(self)@,
            !old(self)@.failed ==> match outbound_frame(message@, old(self)@.local) {
                Ok(frame) => outcome == Ok::<bool, Error>(true) && final(self)@ == (Connection {
                    outgoing: old(self)@.outgoing + frame,
                    ..old(self)@
                }),
                Err(error) => outcome == Err::<bool, Error>(error) && final(self)@ == old(self)@,
            },
    {
        match self.send_message(message) {
            Ok(()) => Ok(true),
            Err(error) => Err(error),
        }
    }
}

} // verus!
