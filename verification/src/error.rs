//! The failures the node reports.

use vstd::prelude::*;

verus! {

/// Why an operation of the node failed.
#[derive(Clone, Copy, Debug, PartialEq, Eq, Structural)]
pub enum Error {
    /// An address or a route given as input is malformed.
    Configuration,
    /// A message cannot be routed: no handler is registered for the address
    /// type of its next hop, or the router gave up draining the queue.
    Routing,
    /// A message names a worker that is not registered.
    UnknownWorker,
    /// Reading from or writing to a connection failed.
    Transport,
    /// A frame or a message could not be decoded, or traffic of a channel
    /// was not authentic.
    Protocol,
    /// The handshake failed: the peer was not authentic, or a handshake
    /// message was malformed.
    HandshakeAuth,
    /// The operation is not valid in the channel's current state.
    ChannelState,
}

impl Error {
    /// A short description of the failure.
    pub fn describe(&self) -> (text: &'static str)
        ensures
            text@ == self.description(),
    {
        match self {
            Error::Configuration => "malformed address or route",
            Error::Routing => "no handler for message type",
            Error::UnknownWorker => "unknown worker",
            Error::Transport => "transport failed",
            Error::Protocol => "message decode failed",
            Error::HandshakeAuth => "handshake authentication failed",
            Error::ChannelState => "channel not established",
        }
    }

    /// The text that [`Error::describe`] returns.
    pub open spec fn description(&self) -> Seq<char> {
        match self {
            Error::Configuration => "malformed address or route"@,
            Error::Routing => "no handler for message type"@,
            Error::UnknownWorker => "unknown worker"@,
            Error::Transport => "transport failed"@,
            Error::Protocol => "message decode failed"@,
            Error::HandshakeAuth => "handshake authentication failed"@,
            Error::ChannelState => "channel not established"@,
        }
    }
}

} // verus!
