//! The errors of the codec and of the broker's handlers.
use vstd::prelude::*;

verus! {

/// Why a datagram is no frame.
#[derive(Clone, Copy, Debug, PartialEq, Eq, Structural)]
pub enum DecodeError {
    /// The declared length disagrees with the size of the datagram, or does
    /// not fit the form of its length field.
    LenMismatch,
    /// The type octet names no message.
    BadType,
    /// The frame ends before the fields of its message do, or goes on after them.
    TruncatedField,
    /// A topic name is not UTF-8.
    BadName,
}

/// Why a handler did not do what its message asks for.
#[derive(Clone, Copy, Debug, PartialEq, Eq, Structural)]
pub enum BrokerError {
    /// The datagram is no frame of the expected message.
    Decode(DecodeError),
    /// The filter is empty or holds a misplaced wildcard.
    InvalidFilter,
    /// The peer already holds this subscription.
    AlreadySubscribed,
    /// Every topic id has been given out.
    TopicIdsExhausted,
    /// The peer has no connection.
    NotConnected,
    /// The peer already has a connection.
    AlreadyConnected,
    /// The message is not valid in the state of the peer's connection.
    BadState,
    /// The broker does not serve messages of this type.
    NotSupported,
    /// The QoS level is not served.
    QosNotSupported,
    /// The topic id type is not served.
    TopicIdTypeNotSupported,
    /// The frame would be longer than 65535 octets.
    FrameTooLong,
    /// A retransmission with the same key is already scheduled.
    AlreadyScheduled,
    /// No retransmission with this key is scheduled.
    NotScheduled,
    /// A publication with the same key already waits for its release.
    AlreadyPending,
    /// No publication with this key waits for its release.
    NotPending,
}

impl BrokerError {
    /// The text of an error.
    pub open spec fn text(self) -> Seq<char> {
        match self {
            BrokerError::Decode(DecodeError::LenMismatch) => "length mismatch"@,
            BrokerError::Decode(DecodeError::BadType) => "unknown message type"@,
            BrokerError::Decode(DecodeError::TruncatedField) => "truncated field"@,
            BrokerError::Decode(DecodeError::BadName) => "topic name is not UTF-8"@,
            BrokerError::InvalidFilter => "invalid filter"@,
            BrokerError::AlreadySubscribed => "already subscribed"@,
            BrokerError::TopicIdsExhausted => "topic ids exhausted"@,
            BrokerError::NotConnected => "not in connection map"@,
            BrokerError::AlreadyConnected => "already connected"@,
            BrokerError::BadState => "message not valid in this state"@,
            BrokerError::NotSupported => "message type not supported"@,
            BrokerError::QosNotSupported => "QoS level is not supported"@,
            BrokerError::TopicIdTypeNotSupported => "topic id type is not supported"@,
            BrokerError::FrameTooLong => "len too long"@,
            BrokerError::AlreadyScheduled => "retransmission already scheduled"@,
            BrokerError::NotScheduled => "retransmission not scheduled"@,
            BrokerError::AlreadyPending => "publication already pending"@,
            BrokerError::NotPending => "publication not pending"@,
        }
    }

    /// A line of text for a log.
    pub fn message(&self) -> (s: &'static str)
        ensures
            s@ == self.text(),
    {
        match self {
            BrokerError::Decode(DecodeError::LenMismatch) => "length mismatch",
            BrokerError::Decode(DecodeError::BadType) => "unknown message type",
            BrokerError::Decode(DecodeError::TruncatedField) => "truncated field",
            BrokerError::Decode(DecodeError::BadName) => "topic name is not UTF-8",
            BrokerError::InvalidFilter => "invalid filter",
            BrokerError::AlreadySubscribed => "already subscribed",
            BrokerError::TopicIdsExhausted => "topic ids exhausted",
            BrokerError::NotConnected => "not in connection map",
            BrokerError::AlreadyConnected => "already connected",
            BrokerError::BadState => "message not valid in this state",
            BrokerError::NotSupported => "message type not supported",
            BrokerError::QosNotSupported => "QoS level is not supported",
            BrokerError::TopicIdTypeNotSupported => "topic id type is not supported",
            BrokerError::FrameTooLong => "len too long",
            BrokerError::AlreadyScheduled => "retransmission already scheduled",
            BrokerError::NotScheduled => "retransmission not scheduled",
            BrokerError::AlreadyPending => "publication already pending",
            BrokerError::NotPending => "publication not pending",
        }
    }
}

} // verus!
