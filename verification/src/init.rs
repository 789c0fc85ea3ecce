//! The handshake that starts a node: one `init` request, one `init_ok` reply.
use crate::message::Body;
use crate::message::Message;
use crate::message::Request;
use crate::message::Response;
use vstd::prelude::*;

verus! {

/// The request that assigns a node its name and tells it the roster.
#[derive(Debug, Clone, PartialEq, Eq)]
pub enum InitRequest {
    /// Initialization request payload.
    Init {
        /// Name of the node which receives this message.
        node_id: String,
        /// Names of all nodes in the cluster, the recipient included.
        node_ids: Vec<String>,
    },
}

/// The reply to the `init` request.
#[derive(Debug, Clone, Copy, PartialEq, Eq, Structural)]
pub enum InitRespone {
    /// Initialization response payload.
    InitOk,
}

impl Request for InitRequest {

}

impl Response for InitRespone {

}

/// Answers the `init` request: the reply goes back to the sender, carries no
/// message id of its own and names the request's id; the request's payload is
/// handed out unchanged to seed the node.
pub fn init(init_msg: Message<InitRequest>) -> (out: (Message<InitRespone>, InitRequest))
    ensures
        out.0.src == init_msg.dst,
        out.0.dst == init_msg.src,
        out.0.body.id == None::<usize>,
        out.0.body.reply_id == init_msg.body.id,
        out.0.body.payload == InitRespone::InitOk,
        out.1 == init_msg.body.payload,
{
    let reply = Message {
        src: init_msg.dst,
        dst: init_msg.src,
        body: Body { id: None, reply_id: init_msg.body.id, payload: InitRespone::InitOk },
    };
    (reply, init_msg.body.payload)
}

} // verus!
