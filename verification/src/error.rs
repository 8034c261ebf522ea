//! The failures the transport reports.

use vstd::prelude::*;

verus! {

/// What can go wrong in the transport.
#[derive(Clone, Copy, Debug, PartialEq, Eq, Structural)]
pub enum ErrorKind {
    /// The local address could not be bound.
    BindFailure,
    /// The wire codec rejected a packet.
    MalformedPacket,
    /// A packet was addressed to a connection that is not in the table.
    UnknownConnection,
    /// The socket refused a datagram.
    TransportFailure,
    /// A connection request ran out of retransmissions.
    HandshakeTimeout,
    /// A connection's inbound queue was full and the packet was dropped.
    BacklogFull,
    /// A key was not a DER-encoded RSA public key.
    InvalidKey,
    /// Every connection id is taken, so none is left for a new connection.
    TableFull,
}

impl ErrorKind {
    /// The words for this failure.
    pub open spec fn text(self) -> Seq<char> {
        match self {
            ErrorKind::BindFailure => "Could not bind socket to address!"@,
            ErrorKind::MalformedPacket => "Unknown error decoding MessagePack package!"@,
            ErrorKind::UnknownConnection => "Connection unknown! Has it been dropped?"@,
            ErrorKind::TransportFailure => "Unknown error sending package!"@,
            ErrorKind::HandshakeTimeout => "Connection request was never acknowledged!"@,
            ErrorKind::BacklogFull => "Package queue is full!"@,
            ErrorKind::InvalidKey => "Error decoding DER to public key!"@,
            ErrorKind::TableFull => "Every connection id is taken!"@,
        }
    }

    /// The words for this failure, for a log or a user.
    pub fn message(&self) -> (r: String)
        ensures
            r@ == self.text(),
    {
        match self {
            ErrorKind::BindFailure => "Could not bind socket to address!".to_string(),
            ErrorKind::MalformedPacket => "Unknown error decoding MessagePack package!".to_string(),
            ErrorKind::UnknownConnection => "Connection unknown! Has it been dropped?".to_string(),
            ErrorKind::TransportFailure => "Unknown error sending package!".to_string(),
            ErrorKind::HandshakeTimeout => "Connection request was never acknowledged!".to_string(),
            ErrorKind::BacklogFull => "Package queue is full!".to_string(),
            ErrorKind::InvalidKey => "Error decoding DER to public key!".to_string(),
            ErrorKind::TableFull => "Every connection id is taken!".to_string(),
        }
    }
}

} // verus!
