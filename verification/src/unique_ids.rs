//! The unique-id node: ids made of the node's name and a running number.
use crate::message::Body;
use crate::message::Message;
use crate::message::Request;
use crate::message::Response;
use crate::text::decimal;
use crate::text::decimal_of;
use crate::text::is_digit;
use crate::text::lemma_decimal_injective;
use crate::text::lemma_decimal_shape;
use vstd::prelude::*;
use vstd::string::StringExecFns;

verus! {

/// Request payload for the unique-id node.
#[derive(Debug, Clone, Copy, PartialEq, Eq, Structural)]
pub enum GenRequest {
    /// Asks for a new id.
    Generate,
}

/// Response payload of the unique-id node.
#[derive(Debug, Clone, PartialEq, Eq)]
pub enum GenRespone {
    /// Generate ok response.
    GenerateOk {
        /// Newly generated id.
        id: String,
    },
}

impl Request for GenRequest {

}

impl Response for GenRespone {

}

/// The `counter`-th id of the node `node_id`: the name, a slash and the number.
pub open spec fn id_of(node_id: Seq<char>, counter: nat) -> Seq<char> {
    node_id + "/"@ + decimal_of(counter)
}

/// Two ids are the same only if the same node made them with the same number:
/// ids of different nodes differ, and so do ids of one node.
pub proof fn lemma_ids_are_unique(
    node_a: Seq<char>,
    counter_a: nat,
    node_b: Seq<char>,
    counter_b: nat,
)
    requires
        id_of(node_a, counter_a) == id_of(node_b, counter_b),
    ensures
        node_a == node_b,
        counter_a == counter_b,
{
    reveal_strlit("/");
    lemma_decimal_shape(counter_a);
    lemma_decimal_shape(counter_b);
    let id = id_of(node_a, counter_a);
    let digits_a = decimal_of(counter_a);
    let digits_b = decimal_of(counter_b);
    assert(id == node_a + "/"@ + digits_a);
    assert(id == node_b + "/"@ + digits_b);
    // the slash stands behind the name, and only digits follow it
    assert(id[node_a.len() as int] == '/');
    assert(id[node_b.len() as int] == '/');
    if node_a.len() < node_b.len() {
        let k = node_b.len() - node_a.len() - 1;
        assert(id[node_b.len() as int] == digits_a[k]);
        assert(is_digit(digits_a[k]));
    }
    if node_b.len() < node_a.len() {
        let k = node_a.len() - node_b.len() - 1;
        assert(id[node_a.len() as int] == digits_b[k]);
        assert(is_digit(digits_b[k]));
    }
    assert(node_a =~= id.take(node_a.len() as int));
    assert(node_b =~= id.take(node_b.len() as int));
    assert(digits_a =~= id.skip(node_a.len() as int + 1));
    assert(digits_b =~= id.skip(node_b.len() as int + 1));
    lemma_decimal_injective(counter_a, counter_b);
}

/// Answers a request for an id as the `id`-th reply of the node `node_id`: the
/// reply goes back to the sender, carries `id` as its message id, names the
/// request's id and holds the node's `id`-th id.
pub fn reply(node_id: &str, request: Message<GenRequest>, id: usize) -> (response: Message<
    GenRespone,
>)
    ensures
        response.src == request.dst,
        response.dst == request.src,
        response.body.id == Some(id),
        response.body.reply_id == request.body.id,
        response.body.payload matches GenRespone::GenerateOk { id: text } && text@ == id_of(
            node_id@,
            id as nat,
        ),
{
    let number = decimal(id);
    let text = node_id.to_owned().concat("/").concat(number.as_str());
    Message {
        src: request.dst,
        dst: request.src,
        body: Body {
            id: Some(id),
            reply_id: request.body.id,
            payload: GenRespone::GenerateOk { id: text },
        },
    }
}

} // verus!
