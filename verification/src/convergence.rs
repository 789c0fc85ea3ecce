//! What the gossip of the broadcast node guarantees: the values seen only
//! grow, gossip can be delivered twice without harm, and an exchange of gossip
//! between two nodes leaves both with the same values.
use crate::broadcast::BroadcastRequest;
use crate::broadcast::BroadcastRespone;
use crate::broadcast::Event;
use crate::broadcast::NodeView;
use crate::message::Message;
use vstd::prelude::*;

verus! {

/// Whether `received` is what arrives when `sent` crosses the wire unharmed:
/// the same sender and receiver, the same news and the same acknowledgement.
/// The order of the values, which the wire does not keep, does not count.
pub open spec fn delivers(
    sent: Message<BroadcastRespone>,
    received: Message<BroadcastRequest>,
) -> bool {
    &&& received.src@ == sent.src@
    &&& received.dst@ == sent.dst@
    &&& sent.body.payload matches BroadcastRespone::Consensus { seen: news, seen_ack: acks }
    &&& received.body.payload matches BroadcastRequest::Consensus { seen, seen_ack }
    &&& seen@ == news@.to_set()
    &&& seen_ack@.to_set() == acks@.to_set()
}

/// Whether the node claims of no other node that it holds a value which the
/// node itself has not seen.
pub open spec fn claims_only_seen(s: NodeView) -> bool {
    forall|p: Seq<char>| #[trigger] s.known(p).subset_of(s.messages)
}

/// Whether the node has seen every value that waits to be acknowledged.
pub open spec fn keeps_received(s: NodeView) -> bool {
    forall|p: Seq<char>| #[trigger] s.last_received(p).subset_of(s.messages)
}

/// A node that has just started has seen what it got: nothing.
pub proof fn lemma_received_at_start(node: Seq<char>, roster: Seq<Seq<char>>, force: bool)
    ensures
        keeps_received(NodeView::initial(node, roster, force)),
        claims_only_seen(NodeView::initial(node, roster, force)),
{
    let s = NodeView::initial(node, roster, force);
    assert forall|p: Seq<char>| #[trigger] s.last_received(p).subset_of(s.messages) by {}
    assert forall|p: Seq<char>| #[trigger] s.known(p).subset_of(s.messages) by {}
}

/// A node that has seen every value that waits to be acknowledged goes on
/// doing so, whatever it handles.
pub proof fn lemma_received_stays_seen(s: NodeView, event: Event)
    requires
        keeps_received(s),
    ensures
        keeps_received(s.after(event)),
{
    let t = s.after(event);
    assert forall|p: Seq<char>| #[trigger] t.last_received(p).subset_of(t.messages) by {
        assert(s.last_received(p).subset_of(s.messages));
    }
}

/// No event makes the node forget a value.
pub proof fn lemma_values_stay(s: NodeView, event: Event)
    ensures
        s.messages.subset_of(s.after(event).messages),
{
}

/// No sequence of events makes the node forget a value.
pub proof fn lemma_values_grow(s: NodeView, events: Seq<Event>)
    ensures
        s.messages.subset_of(s.after_all(events).messages),
    decreases events.len(),
{
    if events.len() > 0 {
        lemma_values_grow(s, events.drop_last());
        lemma_values_stay(s.after_all(events.drop_last()), events.last());
    }
}

/// The answer to a read holds every value that the answer to an earlier read
/// of the same node held, whatever the node handled in between.
pub proof fn lemma_reads_grow(
    s: NodeView,
    events: Seq<Event>,
    first: Option<BroadcastRespone>,
    later: Option<BroadcastRespone>,
)
    requires
        s.is_reply(BroadcastRequest::Read, first),
        s.after_all(events).is_reply(BroadcastRequest::Read, later),
    ensures
        first matches Some(BroadcastRespone::ReadOk { messages: before }) && (
        later matches Some(BroadcastRespone::ReadOk { messages: after }) && before@.subset_of(
            after@,
        )),
{
    lemma_values_grow(s, events);
}

/// A value whose broadcast was acknowledged is in the answer to every later
/// read of the same node.
pub proof fn lemma_broadcast_is_read(
    s: NodeView,
    message: usize,
    events: Seq<Event>,
    later: Option<BroadcastRespone>,
)
    requires
        s.broadcast(message).after_all(events).is_reply(BroadcastRequest::Read, later),
    ensures
        later matches Some(BroadcastRespone::ReadOk { messages }) && messages@.contains(message),
{
    lemma_values_grow(s.broadcast(message), events);
}

/// Gossip that arrives twice leaves the node as gossip that arrives once.
pub proof fn lemma_consensus_idempotent(
    s: NodeView,
    src: Seq<char>,
    seen: Set<usize>,
    seen_ack: Set<usize>,
)
    ensures
        s.consensus(src, seen, seen_ack).consensus(src, seen, seen_ack) == s.consensus(
            src,
            seen,
            seen_ack,
        ),
{
    let once = s.consensus(src, seen, seen_ack);
    let twice = once.consensus(src, seen, seen_ack);
    assert(twice.messages =~= once.messages);
    assert(once.known(src).union(seen_ack) =~= once.known(src));
    assert(twice.ledger =~= once.ledger);
    assert(twice =~= once);
}

/// A gossip message that is handled twice leaves the node as the same message
/// handled once.
pub proof fn lemma_gossip_twice(s: NodeView, request: Message<BroadcastRequest>)
    requires
        request.body.payload is Consensus,
    ensures
        s.after(Event::Input(request)).after(Event::Input(request)) == s.after(
            Event::Input(request),
        ),
{
    match request.body.payload {
        BroadcastRequest::Consensus { seen, seen_ack } => {
            lemma_consensus_idempotent(s, request.src@, seen@, seen_ack@.to_set());
        },
        _ => {},
    }
}

/// A node that claims only values it has seen goes on doing so, as long as the
/// gossip it gets acknowledges only values that it has seen or is being told.
pub proof fn lemma_claims_stay_seen(s: NodeView, event: Event)
    requires
        claims_only_seen(s),
        event matches Event::Input(request) ==> (
        request.body.payload matches BroadcastRequest::Consensus { seen, seen_ack }
            ==> seen_ack@.to_set().subset_of(s.messages.union(seen@))),
    ensures
        claims_only_seen(s.after(event)),
{
    let t = s.after(event);
    assert forall|p: Seq<char>| #[trigger] t.known(p).subset_of(t.messages) by {
        assert(s.known(p).subset_of(s.messages));
    }
}

/// After a tick nothing waits to be acknowledged to a node that the tick
/// gossips to, and what the other nodes are known to hold is unchanged.
pub proof fn lemma_tick_drains(s: NodeView, p: Seq<char>)
    ensures
        s.targets().contains(p) ==> s.ticked().last_received(p) == Set::<usize>::empty(),
        !s.targets().contains(p) ==> s.ticked().last_received(p) == s.last_received(p),
        s.ticked().known(p) == s.known(p),
        s.ticked().messages == s.messages,
{
}

/// What a tick sends as news stays owed: until the receiver acknowledges a
/// value, every later tick sends it again.
pub proof fn lemma_news_is_sent_again(s: NodeView, p: Seq<char>)
    ensures
        s.ticked().news_for(p) == s.news_for(p),
{
    lemma_tick_drains(s, p);
}

/// Whether `m` is gossip for `p` that tells the value `v`.
pub open spec fn tells(m: Message<BroadcastRespone>, p: Seq<char>, v: usize) -> bool {
    m.dst@ == p && (m.body.payload matches BroadcastRespone::Consensus { seen, .. }
        && seen@.contains(v))
}

/// Every tick tells a node that it gossips to every value that the node is
/// not known to hold: what the wire loses is sent again by the next tick,
/// until the node acknowledges it.
pub proof fn lemma_unconfirmed_is_told(
    s: NodeView,
    p: Seq<char>,
    v: usize,
    out: Seq<Message<BroadcastRespone>>,
)
    requires
        s.targets().contains(p),
        s.messages.contains(v),
        !s.known(p).contains(v),
        s.tick_outputs(out),
    ensures
        exists|k: int| 0 <= k < out.len() && tells(#[trigger] out[k], p, v),
{
    assert(s.news_for(p).contains(v));
    assert(s.owes(p));
    assert(NodeView::sent_to(out, p));
    let k = choose|k: int| 0 <= k < out.len() && (#[trigger] out[k]).dst@ == p;
    assert(s.is_gossip(out[k]));
    match out[k].body.payload {
        BroadcastRespone::Consensus { seen, seen_ack } => {
            assert(seen@.to_set().contains(v));
        },
        _ => {},
    }
    assert(tells(out[k], p, v));
}

/// Only the node itself can confirm a value: what a node is known to hold
/// grows by nothing but the acknowledgements in its own gossip.
pub proof fn lemma_only_gossip_confirms(s: NodeView, event: Event, p: Seq<char>)
    ensures
        match event {
            Event::Input(request) => match request.body.payload {
                BroadcastRequest::Consensus { seen, seen_ack } => s.after(event).known(p) == (
                if request.src@ == p {
                    s.known(p).union(seen_ack@.to_set())
                } else {
                    s.known(p)
                }),
                _ => s.after(event).known(p) == s.known(p),
            },
            _ => s.after(event).known(p) == s.known(p),
        },
{
}

/// Gossip that arrives brings the receiver every value of the sender, where
/// the sender claims of the receiver only values that the receiver holds; and
/// the news waits at the receiver to be acknowledged.
pub proof fn lemma_gossip_delivers(
    a: NodeView,
    b: NodeView,
    sent: Message<BroadcastRespone>,
    received: Message<BroadcastRequest>,
)
    requires
        a.is_gossip(sent),
        sent.dst@ == b.node,
        delivers(sent, received),
        a.known(b.node).subset_of(b.messages),
    ensures
        a.messages.subset_of(b.after(Event::Input(received)).messages),
        b.after(Event::Input(received)).last_received(a.node) == a.news_for(b.node),
        b.after(Event::Input(received)).messages == b.messages.union(a.news_for(b.node)),
{
}

/// One exchange confirms what was sent: when `a` gossips to `b` and `b`'s next
/// gossip comes back to `a`, `a` knows `b` to hold every value that `a` held
/// when it gossiped.
pub proof fn lemma_round_confirms(
    a: NodeView,
    b: NodeView,
    sent: Message<BroadcastRespone>,
    received: Message<BroadcastRequest>,
    sent_back: Message<BroadcastRespone>,
    received_back: Message<BroadcastRequest>,
)
    requires
        a.is_gossip(sent),
        sent.dst@ == b.node,
        delivers(sent, received),
        b.after(Event::Input(received)).is_gossip(sent_back),
        sent_back.dst@ == a.node,
        delivers(sent_back, received_back),
    ensures
        a.messages.subset_of(
            a.ticked().after(Event::Input(received_back)).known(b.node),
        ),
{
    let b1 = b.after(Event::Input(received));
    let a1 = a.ticked();
    let a2 = a1.after(Event::Input(received_back));
    assert(b1.last_received(a.node) == a.news_for(b.node));
    assert(a1.known(b.node) == a.known(b.node));
    assert(a2.known(b.node) == a1.known(b.node).union(a.news_for(b.node)));
}

/// One exchange makes two nodes agree: when `a` gossips to `b`, `b`'s next
/// gossip comes back to `a`, each claimed of the other only values that the
/// other holds, and `a` has seen what it got, both hold the same values
/// afterwards.
pub proof fn lemma_round_agrees(
    a: NodeView,
    b: NodeView,
    sent: Message<BroadcastRespone>,
    received: Message<BroadcastRequest>,
    sent_back: Message<BroadcastRespone>,
    received_back: Message<BroadcastRequest>,
)
    requires
        a.is_gossip(sent),
        sent.dst@ == b.node,
        delivers(sent, received),
        b.after(Event::Input(received)).is_gossip(sent_back),
        sent_back.dst@ == a.node,
        delivers(sent_back, received_back),
        a.known(b.node).subset_of(b.messages),
        b.known(a.node).subset_of(a.messages),
        keeps_received(a),
    ensures
        a.ticked().after(Event::Input(received_back)).messages == b.after(
            Event::Input(received),
        ).ticked().messages,
{
    let b1 = b.after(Event::Input(received));
    let a1 = a.ticked();
    let a2 = a1.after(Event::Input(received_back));
    lemma_gossip_delivers(a, b, sent, received);
    assert(a.last_received(b.node).subset_of(a.messages));
    assert(b1.known(a.node) == b.known(a.node).union(a.last_received(b.node)));
    assert(b1.known(a.node).subset_of(a.messages));
    assert(a1.messages == a.messages);
    assert(a2.messages == a.messages.union(b1.news_for(a.node)));
    assert(b1.messages.subset_of(a2.messages)) by {
        assert forall|v: usize| b1.messages.contains(v) implies a2.messages.contains(v) by {
            if b1.known(a.node).contains(v) {
                assert(a.messages.contains(v));
            } else {
                assert(b1.news_for(a.node).contains(v));
            }
        }
    }
    assert(a2.messages.subset_of(b1.messages));
    assert(a2.messages =~= b1.ticked().messages);
}

} // verus!
