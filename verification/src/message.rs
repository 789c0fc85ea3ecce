//! The envelope that nodes, clients and services exchange, and the error codes
//! that services answer with.
use vstd::prelude::*;

verus! {

/// One message on the wire: who sent it, whom it is for, and its body.
#[derive(Debug, Clone, PartialEq, Eq)]
pub struct Message<Payload> {
    /// Source node name.
    pub src: String,
    /// Destination node name.
    pub dst: String,
    /// Message body.
    pub body: Body<Payload>,
}

/// The body of a message: the sender's message id, the id of the request that
/// it answers, and the payload.
#[derive(Debug, Clone, PartialEq, Eq)]
pub struct Body<Payload> {
    /// Message id, counted by the sender.
    pub id: Option<usize>,
    /// Id of the message that this one replies to.
    pub reply_id: Option<usize>,
    /// Message payload.
    pub payload: Payload,
}

/// Marks a payload that a node sends.
pub trait Response {

}

/// Marks a payload that a node receives.
pub trait Request {

}

/// Error code that a service puts into an `error` reply.
#[derive(Debug, Clone, Copy, PartialEq, Eq, Structural)]
pub enum ErrorCode {
    /// The requested operation could not be completed within a timeout.
    Timeout,
    /// The request was sent to a node which does not exist.
    NodeNotFound,
    /// The requested operation is not supported.
    NotSupported,
    /// The operation definitely cannot be performed at this time.
    TemporarilyUnavailable,
    /// The request did not conform to the server's expectations.
    MalformedRequest,
    /// Some kind of general, indefinite error occurred.
    Crash,
    /// Some kind of general, definite error occurred.
    Abort,
    /// The operation named a key which does not exist.
    KeyDoesNotExist,
    /// The operation asked to create a key which already exists.
    KeyAlreadyExists,
    /// The operation expected some conditions to hold, and they did not.
    PreconditionFailed,
    /// The transaction was aborted because of a conflict with another one.
    TxnConflict,
}

impl ErrorCode {
    /// The number that stands for this code on the wire.
    pub open spec fn number(self) -> int {
        match self {
            ErrorCode::Timeout => 0,
            ErrorCode::NodeNotFound => 1,
            ErrorCode::NotSupported => 10,
            ErrorCode::TemporarilyUnavailable => 11,
            ErrorCode::MalformedRequest => 12,
            ErrorCode::Crash => 13,
            ErrorCode::Abort => 14,
            ErrorCode::KeyDoesNotExist => 20,
            ErrorCode::KeyAlreadyExists => 21,
            ErrorCode::PreconditionFailed => 22,
            ErrorCode::TxnConflict => 30,
        }
    }

    /// The number that stands for this code on the wire.
    pub fn code(&self) -> (n: u8)
        ensures
            n == self.number(),
    {
        match self {
            ErrorCode::Timeout => 0,
            ErrorCode::NodeNotFound => 1,
            ErrorCode::NotSupported => 10,
            ErrorCode::TemporarilyUnavailable => 11,
            ErrorCode::MalformedRequest => 12,
            ErrorCode::Crash => 13,
            ErrorCode::Abort => 14,
            ErrorCode::KeyDoesNotExist => 20,
            ErrorCode::KeyAlreadyExists => 21,
            ErrorCode::PreconditionFailed => 22,
            ErrorCode::TxnConflict => 30,
        }
    }

    /// The code that a number on the wire stands for, if it stands for one.
    pub fn from_code(n: u8) -> (code: Option<ErrorCode>)
        ensures
            match code {
                Some(c) => c.number() == n,
                None => forall|c: ErrorCode| c.number() != n,
            },
    {
        if n == 0 {
            Some(ErrorCode::Timeout)
        } else if n == 1 {
            Some(ErrorCode::NodeNotFound)
        } else if n == 10 {
            Some(ErrorCode::NotSupported)
        } else if n == 11 {
            Some(ErrorCode::TemporarilyUnavailable)
        } else if n == 12 {
            Some(ErrorCode::MalformedRequest)
        } else if n == 13 {
            Some(ErrorCode::Crash)
        } else if n == 14 {
            Some(ErrorCode::Abort)
        } else if n == 20 {
            Some(ErrorCode::KeyDoesNotExist)
        } else if n == 21 {
            Some(ErrorCode::KeyAlreadyExists)
        } else if n == 22 {
            Some(ErrorCode::PreconditionFailed)
        } else if n == 30 {
            Some(ErrorCode::TxnConflict)
        } else {
            None
        }
    }
}

} // verus!
