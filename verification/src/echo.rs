//! The echo node: every request comes back as it was sent.
use crate::message::Body;
use crate::message::Message;
use crate::message::Request;
use crate::message::Response;
use vstd::prelude::*;

verus! {

/// Request payload for the echo node.
#[derive(Debug, Clone, PartialEq, Eq)]
pub enum EchoRequest {
    /// Echo request.
    Echo {
        /// Holds the message.
        echo: String,
    },
}

/// Response payload of the echo node.
#[derive(Debug, Clone, PartialEq, Eq)]
pub enum EchoResponse {
    /// Echo ok response.
    EchoOk {
        /// Holds the message.
        echo: String,
    },
}

impl Request for EchoRequest {

}

impl Response for EchoResponse {

}

/// Answers an echo request as the `id`-th reply of the node: the reply goes
/// back to the sender with the text unchanged, carries `id` as its message id
/// and names the request's id.
pub fn reply(request: Message<EchoRequest>, id: usize) -> (response: Message<EchoResponse>)
    ensures
        response.src == request.dst,
        response.dst == request.src,
        response.body.id == Some(id),
        response.body.reply_id == request.body.id,
        request.body.payload matches EchoRequest::Echo { echo } && response.body.payload
            == (EchoResponse::EchoOk { echo }),
{
    match request.body.payload {
        EchoRequest::Echo { echo } => Message {
            src: request.dst,
            dst: request.src,
            body: Body {
                id: Some(id),
                reply_id: request.body.id,
                payload: EchoResponse::EchoOk { echo },
            },
        },
    }
}

} // verus!
