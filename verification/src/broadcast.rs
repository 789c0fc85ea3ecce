//! The broadcast node: a growing set of integers, replicated to the other
//! nodes by periodic gossip with acknowledgements that ride on the next gossip.
use crate::fx::ledger_entry;
use crate::fx::lemma_spelled_push;
use crate::fx::lemma_spelled_take_step;
use crate::fx::ledger_insert;
use crate::fx::ledger_new;
use crate::fx::ledger_of;
use crate::fx::names_from_list;
use crate::fx::names_list;
use crate::fx::names_of;
use crate::fx::set_clone;
use crate::fx::set_difference;
use crate::fx::set_drain;
use crate::fx::set_extend;
use crate::fx::set_extend_from_list;
use crate::fx::set_insert;
use crate::fx::set_is_superset;
use crate::fx::spelled;
use crate::fx::topology_of;
use crate::fx::topology_remove;
use crate::fx::Ledger;
use crate::init::InitRequest;
use crate::message::Body;
use crate::message::Message;
use crate::message::Request;
use crate::message::Response;
use rustc_hash::FxHashMap;
use rustc_hash::FxHashSet;
use vstd::prelude::*;

verus! {

/// Request payload for the broadcast node.
#[derive(Debug, PartialEq, Eq)]
pub enum BroadcastRequest {
    /// Asks that a value be broadcast to all nodes in the cluster.
    Broadcast {
        /// Value to broadcast.
        message: usize,
    },
    /// Asks for all values that the node has seen.
    Read,
    /// Tells the node who its neighbours are.
    Topology {
        /// The neighbours of every node, by node name.
        topology: FxHashMap<String, Vec<String>>,
    },
    /// Gossip from another node.
    Consensus {
        /// Values that the sender holds and does not know the receiver to hold.
        seen: FxHashSet<usize>,
        /// Values that the sender got in the receiver's last gossip.
        seen_ack: Vec<usize>,
    },
}

/// Response payload of the broadcast node.
#[derive(Debug, PartialEq, Eq)]
pub enum BroadcastRespone {
    /// Acknowledges a broadcast request.
    BroadcastOk,
    /// Answers a read request.
    ReadOk {
        /// All values seen until now.
        messages: FxHashSet<usize>,
    },
    /// Acknowledges a topology request.
    TopologyOk,
    /// Gossip to another node.
    Consensus {
        /// Values that this node holds and does not know the receiver to hold.
        seen: Vec<usize>,
        /// Values that this node got in the receiver's last gossip.
        seen_ack: Vec<usize>,
    },
}

impl Request for BroadcastRequest {

}

impl Response for BroadcastRespone {

}

/// Event for the node to handle.
#[derive(Debug, PartialEq, Eq)]
pub enum Event {
    /// The timer fired: time to gossip.
    Tick,
    /// The input ended: stop the node.
    Close,
    /// A message arrived.
    Input(Message<BroadcastRequest>),
}

/// What a broadcast node holds, as mathematics.
#[verifier::ext_equal]
pub struct NodeView {
    /// Number of messages sent so far; the id of the next reply.
    pub id: int,
    /// Name of this node.
    pub node: Seq<char>,
    /// Every value this node has seen.
    pub messages: Set<usize>,
    /// Per node name: the values that node is known to hold, and the values it
    /// sent in its last gossip that have not been acknowledged to it yet.
    pub ledger: Map<Seq<char>, (Set<usize>, Set<usize>)>,
    /// The neighbours named by the last topology message that named this node.
    pub peers: Set<Seq<char>>,
    /// The other nodes of the roster.
    pub others: Set<Seq<char>>,
    /// Whether news asks for an immediate tick.
    pub force: bool,
}

impl NodeView {
    /// The state of a node that has just been given its name and the roster.
    pub open spec fn initial(node: Seq<char>, roster: Seq<Seq<char>>, force: bool) -> NodeView {
        NodeView {
            id: 0,
            node,
            messages: Set::empty(),
            ledger: Map::new(
                |p: Seq<char>| roster.contains(p) && p != node,
                |p: Seq<char>| (Set::<usize>::empty(), Set::<usize>::empty()),
            ),
            peers: Set::empty(),
            others: roster.to_set().remove(node),
            force,
        }
    }

    /// The values that `p` is known to hold.
    pub open spec fn known(self, p: Seq<char>) -> Set<usize> {
        if self.ledger.contains_key(p) {
            self.ledger[p].0
        } else {
            Set::empty()
        }
    }

    /// The values of the last gossip from `p` that still wait to be
    /// acknowledged.
    pub open spec fn last_received(self, p: Seq<char>) -> Set<usize> {
        if self.ledger.contains_key(p) {
            self.ledger[p].1
        } else {
            Set::empty()
        }
    }

    /// The nodes that a tick gossips to: the neighbours, or every other node of
    /// the roster while no neighbours are set.
    pub open spec fn targets(self) -> Set<Seq<char>> {
        if self.peers =~= Set::<Seq<char>>::empty() {
            self.others
        } else {
            self.peers
        }
    }

    /// The values that a gossip to `p` carries as news.
    pub open spec fn news_for(self, p: Seq<char>) -> Set<usize> {
        self.messages.difference(self.known(p))
    }

    /// Whether a tick has anything to send to `p`.
    pub open spec fn owes(self, p: Seq<char>) -> bool {
        self.targets().contains(p) && !(self.news_for(p) =~= Set::<usize>::empty()
            && self.last_received(p) =~= Set::<usize>::empty())
    }

    /// The nodes that a tick sends gossip to.
    pub open spec fn due(self) -> Set<Seq<char>> {
        Set::new(|p: Seq<char>| self.owes(p))
    }

    /// The state with `n` more messages sent.
    pub open spec fn sent(self, n: int) -> NodeView {
        NodeView { id: self.id + n, ..self }
    }

    /// The state after a client's broadcast of `message`.
    pub open spec fn broadcast(self, message: usize) -> NodeView {
        NodeView { messages: self.messages.insert(message), ..self }
    }

    /// The state after a topology message.
    pub open spec fn topology(self, topology: Map<Seq<char>, Seq<Seq<char>>>) -> NodeView {
        if topology.contains_key(self.node) {
            NodeView { peers: topology[self.node].to_set(), ..self }
        } else {
            self
        }
    }

    /// The state after gossip from `src`: `src` is known to hold what it
    /// acknowledges, its news joins the values seen, and its news is what waits
    /// to be acknowledged to it.
    pub open spec fn consensus(self, src: Seq<char>, seen: Set<usize>, seen_ack: Set<usize>) -> NodeView {
        NodeView {
            messages: self.messages.union(seen),
            ledger: self.ledger.insert(src, (self.known(src).union(seen_ack), seen)),
            ..self
        }
    }

    /// The bookkeeping after a tick: whatever waited to be acknowledged to a
    /// node that the tick gossips to has been handed out.
    pub open spec fn drained(self, targets: Set<Seq<char>>) -> Map<Seq<char>, (Set<usize>, Set<usize>)> {
        Map::new(
            |p: Seq<char>| self.ledger.contains_key(p),
            |p: Seq<char>|
                if targets.contains(p) {
                    (self.ledger[p].0, Set::<usize>::empty())
                } else {
                    self.ledger[p]
                },
        )
    }

    /// The state after a tick.
    pub open spec fn ticked(self) -> NodeView {
        NodeView { id: self.id + self.due().len(), ledger: self.drained(self.targets()), ..self }
    }

    /// The state after the payload of a message from `src` has been handled.
    pub open spec fn after_payload(self, payload: BroadcastRequest, src: Seq<char>) -> NodeView {
        match payload {
            BroadcastRequest::Broadcast { message } => self.broadcast(message),
            BroadcastRequest::Read => self,
            BroadcastRequest::Topology { topology } => self.topology(topology_of(topology)),
            BroadcastRequest::Consensus { seen, seen_ack } => self.consensus(
                src,
                seen@,
                seen_ack@.to_set(),
            ),
        }
    }

    /// Whether `reply` answers `payload` in this state: gossip gets no reply, a
    /// read is answered with the values seen, the others are acknowledged.
    pub open spec fn is_reply(self, payload: BroadcastRequest, reply: Option<BroadcastRespone>) -> bool {
        match payload {
            BroadcastRequest::Broadcast { .. } => reply == Some(BroadcastRespone::BroadcastOk),
            BroadcastRequest::Read => reply matches Some(BroadcastRespone::ReadOk { messages })
                && messages@ == self.messages,
            BroadcastRequest::Topology { .. } => reply == Some(BroadcastRespone::TopologyOk),
            BroadcastRequest::Consensus { .. } => reply == None::<BroadcastRespone>,
        }
    }

    /// Whether handling `payload` in this state asks for an immediate tick.
    pub open spec fn wants_tick(self, payload: BroadcastRequest) -> bool {
        match payload {
            BroadcastRequest::Broadcast { message } => self.broadcast_is_news(message),
            BroadcastRequest::Consensus { seen, .. } => self.consensus_is_news(seen@),
            _ => false,
        }
    }

    /// Whether `out` is what the node sends when `request` arrives in this
    /// state: nothing for gossip, else one reply that goes back to the sender,
    /// carries the next message id and names the request's id.
    pub open spec fn input_outputs(
        self,
        request: Message<BroadcastRequest>,
        out: Seq<Message<BroadcastRespone>>,
    ) -> bool {
        if request.body.payload is Consensus {
            out.len() == 0
        } else {
            &&& out.len() == 1
            &&& out[0].src@ == request.dst@
            &&& out[0].dst@ == request.src@
            &&& out[0].body.id matches Some(i)
            &&& i == self.id
            &&& out[0].body.reply_id == request.body.id
            &&& self.is_reply(request.body.payload, Some(out[0].body.payload))
        }
    }

    /// The state after `request` has been handled and answered.
    pub open spec fn after_input(self, request: Message<BroadcastRequest>) -> NodeView {
        let next = self.after_payload(request.body.payload, request.src@);
        if request.body.payload is Consensus {
            next
        } else {
            next.sent(1)
        }
    }

    /// The state after `event`.
    pub open spec fn after(self, event: Event) -> NodeView {
        match event {
            Event::Tick => self.ticked(),
            Event::Close => self,
            Event::Input(request) => self.after_input(request),
        }
    }

    /// The state after the events `events`, handled in order.
    pub open spec fn after_all(self, events: Seq<Event>) -> NodeView
        decreases events.len(),
    {
        if events.len() == 0 {
            self
        } else {
            self.after_all(events.drop_last()).after(events.last())
        }
    }

    /// Whether `out` is what the node may send when it handles `event` in this
    /// state.
    pub open spec fn step_outputs(self, event: Event, out: Seq<Message<BroadcastRespone>>) -> bool {
        match event {
            Event::Tick => self.tick_outputs(out),
            Event::Close => out.len() == 0,
            Event::Input(request) => self.input_outputs(request, out),
        }
    }

    /// Whether handling `event` in this state asks for an immediate tick.
    pub open spec fn alarm(self, event: Event) -> bool {
        match event {
            Event::Input(request) => self.wants_tick(request.body.payload),
            _ => false,
        }
    }

    /// Whether `out` is what the node may send when it handles `events` in
    /// order: what it may send for each event, one after the other.
    pub open spec fn run_outputs(self, events: Seq<Event>, out: Seq<Message<BroadcastRespone>>) -> bool
        decreases events.len(),
    {
        if events.len() == 0 {
            out.len() == 0
        } else {
            exists|k: int|
                0 <= k <= out.len() && self.run_outputs(events.drop_last(), #[trigger] out.take(k))
                    && self.after_all(events.drop_last()).step_outputs(events.last(), out.skip(k))
        }
    }

    /// Whether handling one of `events`, in order, asks for an immediate tick.
    pub open spec fn alarms(self, events: Seq<Event>) -> bool
        decreases events.len(),
    {
        events.len() > 0 && (self.alarms(events.drop_last()) || self.after_all(
            events.drop_last(),
        ).alarm(events.last()))
    }

    /// Whether the message ids that handling `events` in order counts fit the
    /// machine's integers.
    pub open spec fn fits_all(self, events: Seq<Event>) -> bool {
        forall|i: int|
            0 <= i < events.len() ==> #[trigger] self.after_all(events.take(i)).fits(events[i])
    }

    /// Whether the message ids that handling `event` counts fit the machine's
    /// integers.
    pub open spec fn fits(self, event: Event) -> bool {
        match event {
            Event::Tick => self.id + self.targets().len() <= usize::MAX,
            Event::Close => true,
            Event::Input(request) => request.body.payload is Consensus || self.id < usize::MAX,
        }
    }

    /// Whether `m` is the gossip that a tick in this state owes to its
    /// receiver: the news for the receiver and the acknowledgement of what the
    /// receiver sent last, each value once, in any order, with no message id.
    pub open spec fn is_gossip(self, m: Message<BroadcastRespone>) -> bool {
        &&& m.src@ == self.node
        &&& self.owes(m.dst@)
        &&& m.body.id == None::<usize>
        &&& m.body.reply_id == None::<usize>
        &&& m.body.payload matches BroadcastRespone::Consensus { seen, seen_ack }
        &&& seen@.to_set() == self.news_for(m.dst@)
        &&& seen@.no_duplicates()
        &&& seen_ack@.to_set() == self.last_received(m.dst@)
        &&& seen_ack@.no_duplicates()
    }

    /// Whether one of the messages `out` is for `p`.
    pub open spec fn sent_to(out: Seq<Message<BroadcastRespone>>, p: Seq<char>) -> bool {
        exists|k: int| 0 <= k < out.len() && (#[trigger] out[k]).dst@ == p
    }

    /// Whether `out` is what a tick in this state may send: to every node that
    /// is owed gossip exactly one message, which is that gossip, and nothing
    /// else. The order of the messages is not fixed.
    pub open spec fn tick_outputs(self, out: Seq<Message<BroadcastRespone>>) -> bool {
        &&& forall|k: int| 0 <= k < out.len() ==> self.is_gossip(#[trigger] out[k])
        &&& forall|j: int, k: int|
            0 <= j < k < out.len() ==> (#[trigger] out[j]).dst@ != (#[trigger] out[k]).dst@
        &&& forall|p: Seq<char>| self.owes(p) ==> #[trigger] Self::sent_to(out, p)
    }

    /// Whether a broadcast of `message` asks for an immediate tick.
    pub open spec fn broadcast_is_news(self, message: usize) -> bool {
        self.force && !self.messages.contains(message)
    }

    /// Whether gossip with the news `seen` asks for an immediate tick.
    pub open spec fn consensus_is_news(self, seen: Set<usize>) -> bool {
        self.force && !seen.subset_of(self.messages)
    }
}

/// The events that a node handles of `events`: those before the first `Close`.
pub open spec fn before_close(events: Seq<Event>) -> Seq<Event>
    decreases events.len(),
{
    if events.len() == 0 || events[0] is Close {
        Seq::empty()
    } else {
        seq![events[0]] + before_close(events.drop_first())
    }
}

/// The events before the first `Close` are a prefix that holds no `Close` and
/// ends where the input ends or a `Close` stands.
pub proof fn lemma_before_close(events: Seq<Event>)
    ensures
        before_close(events).len() <= events.len(),
        before_close(events) == events.take(before_close(events).len() as int),
        forall|j: int| 0 <= j < before_close(events).len() ==> !(#[trigger] events[j] is Close),
        before_close(events).len() < events.len() ==> events[before_close(
            events,
        ).len() as int] is Close,
    decreases events.len(),
{
    if events.len() == 0 || events[0] is Close {
        assert(before_close(events) =~= events.take(0));
    } else {
        let rest = events.drop_first();
        lemma_before_close(rest);
        let n = before_close(rest).len() as int;
        assert(before_close(events) =~= events.take(n + 1)) by {
            assert(before_close(rest) == rest.take(n));
        }
        assert forall|j: int| 0 <= j < before_close(events).len() implies !(
        #[trigger] events[j] is Close) by {
            if j > 0 {
                assert(events[j] == rest[j - 1]);
            }
        }
        if before_close(events).len() < events.len() {
            assert(events[n + 1] == rest[n]);
        }
    }
}

/// What handling one event asks of the event loop.
#[derive(Debug, PartialEq, Eq)]
pub struct Step {
    /// The messages to write, in order.
    pub outputs: Vec<Message<BroadcastRespone>>,
    /// Whether the ticker should fire at once.
    pub force_tick: bool,
    /// Whether the node should stop.
    pub close: bool,
}

/// Event handler of the broadcast node.
pub struct EventHandler {
    /// Number of messages sent; the id of the next reply.
    id: usize,
    /// Name of this node.
    node: String,
    /// Values seen until now.
    messages: FxHashSet<usize>,
    /// Per node: the values it is known to hold and the values it sent last.
    known: Ledger,
    /// Neighbours of this node.
    peers: FxHashSet<String>,
    /// The other nodes of the roster.
    others: FxHashSet<String>,
    /// Whether news asks for an immediate tick.
    force: bool,
}

impl View for EventHandler {
    type V = NodeView;

    closed spec fn view(&self) -> NodeView {
        NodeView {
            id: self.id as int,
            node: self.node@,
            messages: self.messages@,
            ledger: ledger_of(self.known),
            peers: names_of(self.peers),
            others: names_of(self.others),
            force: self.force,
        }
    }
}

impl EventHandler {
    /// Creates the handler from the payload of the `init` request. With `force`
    /// set, news asks for an immediate tick.
    pub fn new(init_request: InitRequest, force: bool) -> (handler: Self)
        ensures
            init_request matches InitRequest::Init { node_id, node_ids } && handler@
                == NodeView::initial(node_id@, spelled(node_ids@), force),
    {
        let (node, node_ids) = match init_request {
            InitRequest::Init { node_id, node_ids } => (node_id, node_ids),
        };
        let mut known = ledger_new();
        let mut others: Vec<String> = Vec::new();
        let mut i: usize = 0;
        while i < node_ids.len()
            invariant
                i <= node_ids.len(),
                ledger_of(known) =~= Map::new(
                    |p: Seq<char>|
                        spelled(node_ids@).take(i as int).to_set().contains(p) && p != node@,
                    |p: Seq<char>| (Set::<usize>::empty(), Set::<usize>::empty()),
                ),
                spelled(others@).to_set() =~= spelled(node_ids@).take(i as int).to_set().remove(
                    node@,
                ),
            decreases node_ids.len() - i,
        {
            proof {
                lemma_spelled_take_step(node_ids@, i as int);
            }
            if !(node_ids[i] == node) {
                ledger_insert(
                    &mut known,
                    node_ids[i].clone(),
                    FxHashSet::default(),
                    FxHashSet::default(),
                );
                proof {
                    lemma_spelled_push(others@, node_ids@[i as int]);
                }
                others.push(node_ids[i].clone());
            }
            i += 1;
        }
        assert(spelled(node_ids@).take(node_ids.len() as int) =~= spelled(node_ids@));
        let ghost roster = spelled(node_ids@);
        let others = names_from_list(others);
        let handler = EventHandler {
            id: 0,
            node,
            messages: FxHashSet::default(),
            known,
            peers: names_from_list(Vec::new()),
            others,
            force,
        };
        assert(handler@ =~= NodeView::initial(handler.node@, roster, force));
        handler
    }

    /// The nodes that a tick gossips to, each once, in no stated order.
    fn targets(&self) -> (list: Vec<String>)
        ensures
            spelled(list@).to_set() == self@.targets(),
            spelled(list@).no_duplicates(),
            list@.len() == self@.targets().len(),
    {
        let neighbours = names_list(&self.peers);
        let list = if neighbours.len() == 0 {
            proof {
                assert(spelled(neighbours@).to_set() =~= Set::<Seq<char>>::empty());
            }
            names_list(&self.others)
        } else {
            proof {
                assert(spelled(neighbours@).to_set().contains(spelled(neighbours@)[0]));
            }
            neighbours
        };
        proof {
            spelled(list@).unique_seq_to_set();
        }
        list
    }

    /// Handles the payload of a message from `src` and returns the reply, if
    /// one is due, and whether the ticker should fire at once.
    ///
    /// * A broadcast is remembered and acknowledged; a new value asks for a tick.
    /// * A read is answered with all values seen.
    /// * A topology that names this node sets its neighbours.
    /// * Gossip updates what `src` is known to hold, adds its news to the values
    ///   seen and keeps its news to acknowledge it on the next tick. It gets no
    ///   reply; news asks for a tick.
    pub fn handle_input_payload(&mut self, payload: BroadcastRequest, src: &str) -> (out: (
        Option<BroadcastRespone>,
        bool,
    ))
        ensures
            final(self)@ == old(self)@.after_payload(payload, src@),
            old(self)@.is_reply(payload, out.0),
            out.1 == old(self)@.wants_tick(payload),
    {
        match payload {
            BroadcastRequest::Broadcast { message } => {
                let fresh = set_insert(&mut self.messages, message);
                (Some(BroadcastRespone::BroadcastOk), fresh && self.force)
            },
            BroadcastRequest::Read => {
                (Some(BroadcastRespone::ReadOk { messages: set_clone(&self.messages) }), false)
            },
            BroadcastRequest::Topology { topology } => {
                let mut topology = topology;
                if let Some(peers) = topology_remove(&mut topology, self.node.as_str()) {
                    self.peers = names_from_list(peers);
                }
                (Some(BroadcastRespone::TopologyOk), false)
            },
            BroadcastRequest::Consensus { seen, seen_ack } => {
                let news = !set_is_superset(&self.messages, &seen);
                if news {
                    set_extend(&mut self.messages, &seen);
                }
                match ledger_entry(&mut self.known, src) {
                    Some(entry) => {
                        set_extend_from_list(&mut entry.0, &seen_ack);
                        entry.1 = seen;
                    },
                    None => {
                        let mut known: FxHashSet<usize> = FxHashSet::default();
                        set_extend_from_list(&mut known, &seen_ack);
                        ledger_insert(&mut self.known, src.to_owned(), known, seen);
                    },
                }
                assert(self@ =~= old(self)@.consensus(src@, seen@, seen_ack@.to_set()));
                (None, news && self.force)
            },
        }
    }

    /// Gossips: every neighbour (every other node of the roster while no
    /// neighbours are set) gets the values it is not known to hold and the
    /// acknowledgement of its last gossip, unless both are empty. What was
    /// acknowledged is forgotten; what was sent as news stays owed until the
    /// receiver acknowledges it, so a lost message is sent again by the next
    /// tick.
    pub fn handle_tick(&mut self) -> (out: Vec<Message<BroadcastRespone>>)
        requires
            old(self)@.fits(Event::Tick),
        ensures
            final(self)@ == old(self)@.ticked(),
            old(self)@.tick_outputs(out@),
    {
        let ghost s0 = self@;
        let list = self.targets();
        let ghost names = spelled(list@);
        let mut out: Vec<Message<BroadcastRespone>> = Vec::new();
        let mut i: usize = 0;
        while i < list.len()
            invariant
                i <= list.len(),
                names == spelled(list@),
                names.no_duplicates(),
                names.to_set() == s0.targets(),
                s0.id + list.len() <= usize::MAX,
                out.len() <= i,
                self.id == s0.id + out.len(),
                self.node@ == s0.node,
                self.messages@ == s0.messages,
                names_of(self.peers) == s0.peers,
                names_of(self.others) == s0.others,
                self.force == s0.force,
                ledger_of(self.known) =~= s0.drained(names.take(i as int).to_set()),
                forall|k: int|
                    0 <= k < out.len() ==> s0.is_gossip(#[trigger] out[k]) && names.take(
                        i as int,
                    ).to_set().contains(out[k].dst@),
                forall|j: int, k: int|
                    0 <= j < k < out.len() ==> (#[trigger] out[j]).dst@ != (#[trigger] out[k]).dst@,
                forall|p: Seq<char>|
                    names.take(i as int).to_set().contains(p) && s0.owes(p)
                        ==> #[trigger] NodeView::sent_to(out@, p),
            decreases list.len() - i,
        {
            let ghost p = names[i as int];
            let ghost done = names.take(i as int).to_set();
            proof {
                lemma_spelled_take_step(list@, i as int);
                assert(!done.contains(p)) by {
                    if done.contains(p) {
                        let j = choose|j: int|
                            0 <= j < names.take(i as int).len() && names.take(i as int)[j] == p;
                        assert(names[j] == names[i as int]);
                    }
                }
                assert(names.to_set().contains(p));
            }
            let (seen, seen_ack) = match ledger_entry(&mut self.known, list[i].as_str()) {
                Some(entry) => {
                    let seen = set_difference(&self.messages, &entry.0);
                    let seen_ack = set_drain(&mut entry.1);
                    (seen, seen_ack)
                },
                None => {
                    let nothing: FxHashSet<usize> = FxHashSet::default();
                    let seen = set_difference(&self.messages, &nothing);
                    (seen, Vec::new())
                },
            };
            proof {
                assert(ledger_of(self.known) =~= s0.drained(done.insert(p)));
                assert(seen@.to_set() =~= s0.news_for(p));
                assert(seen_ack@.to_set() =~= s0.last_received(p));
                if seen@.len() > 0 {
                    assert(seen@.to_set().contains(seen@[0]));
                }
                if seen_ack@.len() > 0 {
                    assert(seen_ack@.to_set().contains(seen_ack@[0]));
                }
                if seen@.len() == 0 {
                    assert(seen@.to_set() =~= Set::<usize>::empty());
                }
                if seen_ack@.len() == 0 {
                    assert(seen_ack@.to_set() =~= Set::<usize>::empty());
                }
            }
            let ghost before = out@;
            if !(seen.len() == 0 && seen_ack.len() == 0) {
                let response = Message {
                    body: Body {
                        id: None,
                        reply_id: None,
                        payload: BroadcastRespone::Consensus { seen, seen_ack },
                    },
                    src: self.node.clone(),
                    dst: list[i].clone(),
                };
                out.push(response);
                self.id += 1;
                proof {
                    assert(s0.is_gossip(response));
                    assert(out@[before.len() as int].dst@ == p);
                    assert forall|q: Seq<char>|
                        done.insert(p).contains(q) && s0.owes(q) implies #[trigger] NodeView::sent_to(
                        out@,
                        q,
                    ) by {
                        if q == p {
                            assert(out@[before.len() as int].dst@ == q);
                        } else {
                            assert(NodeView::sent_to(before, q));
                            let k = choose|k: int|
                                0 <= k < before.len() && (#[trigger] before[k]).dst@ == q;
                            assert(out@[k].dst@ == q);
                        }
                    }
                }
            } else {
                proof {
                    assert(!s0.owes(p));
                }
            }
            i += 1;
        }
        proof {
            assert(names.take(list.len() as int) =~= names);
            let dsts = out@.map_values(|m: Message<BroadcastRespone>| m.dst@);
            assert(dsts.no_duplicates());
            assert(dsts.to_set() =~= s0.due()) by {
                assert forall|q: Seq<char>| s0.due().contains(q) implies dsts.to_set().contains(
                    q,
                ) by {
                    assert(NodeView::sent_to(out@, q));
                    let k = choose|k: int| 0 <= k < out.len() && (#[trigger] out@[k]).dst@ == q;
                    assert(dsts[k] == q);
                }
                assert forall|q: Seq<char>| dsts.to_set().contains(q) implies s0.due().contains(
                    q,
                ) by {
                    let k = choose|k: int| 0 <= k < dsts.len() && dsts[k] == q;
                    assert(s0.is_gossip(out@[k]));
                }
            }
            dsts.unique_seq_to_set();
            assert(self@ =~= s0.ticked());
        }
        out
    }

    /// Whether the message ids that handling `event` counts fit the machine's
    /// integers, which [`Self::handle_event`] asks for.
    pub fn fits(&self, event: &Event) -> (ok: bool)
        ensures
            ok == self@.fits(*event),
    {
        match event {
            Event::Tick => {
                let list = self.targets();
                list.len() <= usize::MAX - self.id
            },
            Event::Close => true,
            Event::Input(request) => {
                match request.body.payload {
                    BroadcastRequest::Consensus { .. } => true,
                    _ => self.id < usize::MAX,
                }
            },
        }
    }

    /// Handles one event and says what to write, whether to fire the ticker and
    /// whether to stop.
    ///
    /// * `Close` stops the node and changes nothing.
    /// * `Tick` gossips, see [`Self::handle_tick`].
    /// * `Input` handles the payload, see [`Self::handle_input_payload`], and
    ///   addresses the reply, if there is one, to the sender.
    pub fn handle_event(&mut self, event: Event) -> (step: Step)
        requires
            old(self)@.fits(event),
        ensures
            final(self)@ == old(self)@.after(event),
            old(self)@.step_outputs(event, step.outputs@),
            step.force_tick == old(self)@.alarm(event),
            step.close == (event is Close),
    {
        match event {
            Event::Close => Step { outputs: Vec::new(), force_tick: false, close: true },
            Event::Tick => {
                let outputs = self.handle_tick();
                Step { outputs, force_tick: false, close: false }
            },
            Event::Input(request) => {
                let mut outputs: Vec<Message<BroadcastRespone>> = Vec::new();
                let (reply, force_tick) = self.handle_input_payload(
                    request.body.payload,
                    request.src.as_str(),
                );
                if let Some(payload) = reply {
                    let response = Message {
                        body: Body { id: Some(self.id), reply_id: request.body.id, payload },
                        src: request.dst,
                        dst: request.src,
                    };
                    outputs.push(response);
                    self.id += 1;
                }
                assert(self@ =~= old(self)@.after_input(request));
                Step { outputs, force_tick, close: false }
            },
        }
    }

    /// Handles `events` in order until the first `Close` and returns what was
    /// sent, whether any event asked for an immediate tick, and whether a
    /// `Close` was met. Events after the first `Close` are not handled.
    pub fn handle_events(&mut self, events: Vec<Event>) -> (run: Step)
        requires
            old(self)@.fits_all(before_close(events@)),
        ensures
            final(self)@ == old(self)@.after_all(before_close(events@)),
            old(self)@.run_outputs(before_close(events@), run.outputs@),
            run.force_tick == old(self)@.alarms(before_close(events@)),
            run.close == (before_close(events@).len() < events@.len()),
    {
        let ghost s0 = self@;
        let ghost all = events@;
        let ghost handled = before_close(all);
        let ghost n = handled.len() as int;
        proof {
            lemma_before_close(all);
        }
        let mut rest = events;
        let mut outputs: Vec<Message<BroadcastRespone>> = Vec::new();
        let mut force_tick = false;
        let mut close = false;
        let ghost mut i: int = 0;
        while rest.len() > 0 && !close
            invariant
                0 <= i <= n <= all.len(),
                handled == all.take(n),
                forall|j: int| 0 <= j < n ==> !(#[trigger] all[j] is Close),
                n < all.len() ==> all[n] is Close,
                s0.fits_all(handled),
                !close ==> rest@ == all.skip(i),
                close ==> i == n && n < all.len(),
                self@ == s0.after_all(all.take(i)),
                s0.run_outputs(all.take(i), outputs@),
                force_tick == s0.alarms(all.take(i)),
            decreases all.len() - i + (if close { 0int } else { 1int }),
        {
            let event = rest.remove(0);
            proof {
                assert(event == all[i]);
                assert(rest@ =~= all.skip(i + 1));
                if i < n {
                    assert(handled.take(i) =~= all.take(i));
                    assert(handled[i] == all[i]);
                    assert(s0.after_all(handled.take(i)).fits(handled[i]));
                }
            }
            let ghost before = outputs@;
            let mut step = self.handle_event(event);
            let ghost sent = step.outputs@;
            if step.close {
                close = true;
            } else {
                outputs.append(&mut step.outputs);
                force_tick = force_tick || step.force_tick;
                proof {
                    let next = all.take(i + 1);
                    assert(next.drop_last() =~= all.take(i));
                    assert(next.last() == all[i]);
                    assert(outputs@.take(before.len() as int) =~= before);
                    assert(outputs@.skip(before.len() as int) =~= sent);
                    i = i + 1;
                }
            }
        }
        proof {
            if !close {
                assert(all.skip(i).len() == 0);
            }
            assert(i == n);
        }
        Step { outputs, force_tick, close }
    }
}

} // verus!
