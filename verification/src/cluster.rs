//! A cluster of broadcast nodes and the wire between them, to state what
//! holds however the wire loses, delays, repeats and reorders the gossip.
use crate::broadcast::BroadcastRequest;
use crate::broadcast::BroadcastRespone;
use crate::broadcast::Event;
use crate::broadcast::NodeView;
use crate::convergence::delivers;
use crate::convergence::keeps_received;
use crate::message::Message;
use vstd::prelude::*;

verus! {

/// A gossip message on the wire, with the values that its sender held when it
/// sent the message.
pub struct Letter {
    /// The message.
    pub message: Message<BroadcastRespone>,
    /// The values of the sender at the time of sending.
    pub held: Set<usize>,
}

/// The nodes of a cluster, by name, and the gossip that is on the wire.
pub struct Cluster {
    /// The nodes, by name.
    pub nodes: Map<Seq<char>, NodeView>,
    /// The gossip sent and not lost, in the order of sending.
    pub wire: Seq<Letter>,
}

/// One thing that happens in a cluster.
pub enum Move {
    /// A client's request arrives at a node.
    Client { node: Seq<char>, request: Message<BroadcastRequest> },
    /// A node ticks and puts its gossip on the wire.
    Tick { node: Seq<char>, out: Seq<Message<BroadcastRespone>> },
    /// The wire delivers a message and keeps it, so that it may arrive again.
    Deliver { index: int, received: Message<BroadcastRequest> },
    /// The wire loses a message.
    Lose { index: int },
}

impl Cluster {
    /// The cluster of the nodes of `roster` when all have just started.
    pub open spec fn start(roster: Seq<Seq<char>>, force: bool) -> Cluster {
        Cluster {
            nodes: Map::new(
                |name: Seq<char>| roster.contains(name),
                |name: Seq<char>| NodeView::initial(name, roster, force),
            ),
            wire: Seq::empty(),
        }
    }

    /// Whether `m` can happen: requests of clients are no gossip, a tick sends
    /// what the node owes, and the wire delivers what is on it, unharmed.
    pub open spec fn allows(self, m: Move) -> bool {
        match m {
            Move::Client { node, request } => self.nodes.contains_key(node) && !(
            request.body.payload is Consensus),
            Move::Tick { node, out } => self.nodes.contains_key(node) && self.nodes[node].tick_outputs(
                out,
            ),
            Move::Deliver { index, received } => 0 <= index < self.wire.len() && delivers(
                self.wire[index].message,
                received,
            ),
            Move::Lose { index } => 0 <= index < self.wire.len(),
        }
    }

    /// The cluster after `m` has happened.
    pub open spec fn after(self, m: Move) -> Cluster {
        match m {
            Move::Client { node, request } => Cluster {
                nodes: self.nodes.insert(node, self.nodes[node].after(Event::Input(request))),
                ..self
            },
            Move::Tick { node, out } => Cluster {
                nodes: self.nodes.insert(node, self.nodes[node].after(Event::Tick)),
                wire: self.wire + out.map_values(
                    |message: Message<BroadcastRespone>|
                        Letter { message, held: self.nodes[node].messages },
                ),
            },
            Move::Deliver { index, received } => if self.nodes.contains_key(received.dst@) {
                Cluster {
                    nodes: self.nodes.insert(
                        received.dst@,
                        self.nodes[received.dst@].after(Event::Input(received)),
                    ),
                    ..self
                }
            } else {
                self
            },
            Move::Lose { index } => Cluster { wire: self.wire.remove(index), ..self },
        }
    }

    /// The cluster after the moves `moves`, in order.
    pub open spec fn after_all(self, moves: Seq<Move>) -> Cluster
        decreases moves.len(),
    {
        if moves.len() == 0 {
            self
        } else {
            self.after_all(moves.drop_last()).after(moves.last())
        }
    }

    /// Whether every one of `moves` can happen when its turn comes.
    pub open spec fn allows_all(self, moves: Seq<Move>) -> bool
        decreases moves.len(),
    {
        moves.len() > 0 ==> self.allows_all(moves.drop_last()) && self.after_all(
            moves.drop_last(),
        ).allows(moves.last())
    }

    /// Whether the letter is sound: its sender is a node that holds what the
    /// letter says it held, what it tells and what it acknowledges; and what
    /// the sender held and does not tell, the receiver holds already.
    pub open spec fn sound_letter(self, letter: Letter) -> bool {
        let src = letter.message.src@;
        let dst = letter.message.dst@;
        &&& self.nodes.contains_key(src)
        &&& letter.message.body.payload matches BroadcastRespone::Consensus { seen, seen_ack }
        &&& seen@.to_set().subset_of(self.nodes[src].messages)
        &&& seen_ack@.to_set().subset_of(self.nodes[src].messages)
        &&& letter.held.subset_of(self.nodes[src].messages)
        &&& self.nodes.contains_key(dst) ==> letter.held.subset_of(
            seen@.to_set().union(self.nodes[dst].messages),
        )
    }

    /// Whether the bookkeeping of the cluster is true: every node goes by its
    /// name, claims of another node only values that the other node holds, has
    /// seen what waits to be acknowledged, and every letter is sound.
    pub open spec fn truthful(self) -> bool {
        &&& forall|name: Seq<char>|
            self.nodes.contains_key(name) ==> (#[trigger] self.nodes[name]).node == name
        &&& forall|a: Seq<char>, b: Seq<char>|
            self.nodes.contains_key(a) && self.nodes.contains_key(b) ==> (
            #[trigger] self.nodes[a].known(b)).subset_of(self.nodes[b].messages)
        &&& forall|name: Seq<char>|
            self.nodes.contains_key(name) ==> keeps_received(#[trigger] self.nodes[name])
        &&& forall|i: int| 0 <= i < self.wire.len() ==> self.sound_letter(#[trigger] self.wire[i])
    }
}

/// The bookkeeping of a cluster that has just started is true.
pub proof fn lemma_start_is_truthful(roster: Seq<Seq<char>>, force: bool)
    ensures
        Cluster::start(roster, force).truthful(),
{
    let c = Cluster::start(roster, force);
    assert forall|name: Seq<char>| c.nodes.contains_key(name) implies keeps_received(
        #[trigger] c.nodes[name],
    ) by {
        crate::convergence::lemma_received_at_start(name, roster, force);
    }
}

/// The bookkeeping of a cluster stays true, whatever happens.
pub proof fn lemma_truthful_stays(c: Cluster, m: Move)
    requires
        c.truthful(),
        c.allows(m),
    ensures
        c.after(m).truthful(),
{
    let d = c.after(m);
    assert forall|name: Seq<char>| d.nodes.contains_key(name) implies c.nodes.contains_key(name)
        && c.nodes[name].messages.subset_of(d.nodes[name].messages) && (
    #[trigger] d.nodes[name]).node == name && keeps_received(d.nodes[name]) by {
        assert(c.nodes[name].node == name);
        assert(keeps_received(c.nodes[name]));
        match m {
            Move::Client { node, request } => {
                if name == node {
                    crate::convergence::lemma_received_stays_seen(
                        c.nodes[name],
                        Event::Input(request),
                    );
                }
            },
            Move::Tick { node, out } => {
                if name == node {
                    crate::convergence::lemma_received_stays_seen(c.nodes[name], Event::Tick);
                }
            },
            Move::Deliver { index, received } => {
                if name == received.dst@ {
                    crate::convergence::lemma_received_stays_seen(
                        c.nodes[name],
                        Event::Input(received),
                    );
                }
            },
            Move::Lose { index } => {},
        }
    }
    assert forall|a: Seq<char>, b: Seq<char>|
        d.nodes.contains_key(a) && d.nodes.contains_key(b) implies (#[trigger] d.nodes[a].known(
        b,
    )).subset_of(d.nodes[b].messages) by {
        assert(c.nodes[a].known(b).subset_of(c.nodes[b].messages));
        assert(c.nodes[b].messages.subset_of(d.nodes[b].messages));
        match m {
            Move::Deliver { index, received } => {
                if a == received.dst@ {
                    let letter = c.wire[index];
                    assert(c.sound_letter(letter));
                    if b == received.src@ {
                        assert(d.nodes[a].known(b).subset_of(d.nodes[b].messages));
                    } else {
                        assert(d.nodes[a].known(b) == c.nodes[a].known(b));
                    }
                }
            },
            Move::Client { node, request } => {
                assert(d.nodes[a].known(b) == c.nodes[a].known(b));
            },
            Move::Tick { node, out } => {
                assert(d.nodes[a].known(b) == c.nodes[a].known(b));
            },
            Move::Lose { index } => {},
        }
    }
    assert forall|i: int| 0 <= i < d.wire.len() implies d.sound_letter(#[trigger] d.wire[i]) by {
        let letter = d.wire[i];
        match m {
            Move::Tick { node, out } => {
                if i < c.wire.len() {
                    assert(letter == c.wire[i]);
                    assert(c.sound_letter(letter));
                } else {
                    let k = i - c.wire.len();
                    let s = c.nodes[node];
                    assert(letter.message == out[k]);
                    assert(letter.held == s.messages);
                    assert(s.is_gossip(out[k]));
                    assert(s.node == node);
                    assert(keeps_received(s));
                    assert(s.last_received(letter.message.dst@).subset_of(s.messages));
                    if d.nodes.contains_key(letter.message.dst@) {
                        assert(c.nodes[node].known(letter.message.dst@).subset_of(
                            c.nodes[letter.message.dst@].messages,
                        ));
                    }
                }
            },
            Move::Lose { index } => {
                if i < index {
                    assert(letter == c.wire[i]);
                } else {
                    assert(letter == c.wire[i + 1]);
                }
                assert(c.sound_letter(letter));
            },
            _ => {
                assert(letter == c.wire[i]);
                assert(c.sound_letter(letter));
            },
        }
    }
}

/// The bookkeeping of a cluster stays true over any sequence of moves.
pub proof fn lemma_truthful_always(c: Cluster, moves: Seq<Move>)
    requires
        c.truthful(),
        c.allows_all(moves),
    ensures
        c.after_all(moves).truthful(),
    decreases moves.len(),
{
    if moves.len() > 0 {
        lemma_truthful_always(c, moves.drop_last());
        lemma_truthful_stays(c.after_all(moves.drop_last()), moves.last());
    }
}

/// In a cluster that has started and moved on in any way, every node claims of
/// another node only values that the other node holds.
pub proof fn lemma_claims_are_true(
    roster: Seq<Seq<char>>,
    force: bool,
    moves: Seq<Move>,
    a: Seq<char>,
    b: Seq<char>,
)
    requires
        Cluster::start(roster, force).allows_all(moves),
        roster.contains(a),
        roster.contains(b),
    ensures
        Cluster::start(roster, force).after_all(moves).nodes.contains_key(a),
        Cluster::start(roster, force).after_all(moves).nodes.contains_key(b),
        Cluster::start(roster, force).after_all(moves).nodes[a].known(b).subset_of(
            Cluster::start(roster, force).after_all(moves).nodes[b].messages,
        ),
{
    lemma_start_is_truthful(roster, force);
    lemma_truthful_always(Cluster::start(roster, force), moves);
    lemma_nodes_stay(Cluster::start(roster, force), moves);
}

/// No move adds a node to the cluster or takes one away.
pub proof fn lemma_nodes_stay(c: Cluster, moves: Seq<Move>)
    requires
        c.allows_all(moves),
    ensures
        c.after_all(moves).nodes.dom() == c.nodes.dom(),
    decreases moves.len(),
{
    if moves.len() > 0 {
        lemma_nodes_stay(c, moves.drop_last());
        let before = c.after_all(moves.drop_last());
        assert(before.after(moves.last()).nodes.dom() =~= before.nodes.dom());
    }
}

/// Gossip that arrives brings the receiver every value that the sender held
/// when it sent the gossip, whatever happened in the cluster in between.
pub proof fn lemma_arrival_brings_all(c: Cluster, index: int, received: Message<BroadcastRequest>)
    requires
        c.truthful(),
        c.allows(Move::Deliver { index, received }),
        c.nodes.contains_key(received.dst@),
    ensures
        c.wire[index].held.subset_of(
            c.after(Move::Deliver { index, received }).nodes[received.dst@].messages,
        ),
{
    let letter = c.wire[index];
    assert(c.sound_letter(letter));
}

/// One exchange without loss makes two nodes agree, whatever the cluster went
/// through before: when `a` ticks, its gossip to `b` arrives, `b` ticks and its
/// gossip to `a` arrives, `a` and `b` hold the same values.
pub proof fn lemma_exchange_agrees(
    c: Cluster,
    a: Seq<char>,
    b: Seq<char>,
    out_a: Seq<Message<BroadcastRespone>>,
    to_b: int,
    received: Message<BroadcastRequest>,
    out_b: Seq<Message<BroadcastRespone>>,
    to_a: int,
    received_back: Message<BroadcastRequest>,
)
    requires
        c.truthful(),
        a != b,
        c.nodes.contains_key(b),
        c.allows_all(
            seq![
                Move::Tick { node: a, out: out_a },
                Move::Deliver { index: to_b, received },
                Move::Tick { node: b, out: out_b },
                Move::Deliver { index: to_a, received: received_back },
            ],
        ),
        c.wire.len() <= to_b,
        received.dst@ == b,
        c.wire.len() + out_a.len() <= to_a,
        received_back.dst@ == a,
    ensures
        ({
            let end = c.after_all(
                seq![
                    Move::Tick { node: a, out: out_a },
                    Move::Deliver { index: to_b, received },
                    Move::Tick { node: b, out: out_b },
                    Move::Deliver { index: to_a, received: received_back },
                ],
            );
            end.nodes[a].messages == end.nodes[b].messages
        }),
{
    let m1 = Move::Tick { node: a, out: out_a };
    let m2 = Move::Deliver { index: to_b, received };
    let m3 = Move::Tick { node: b, out: out_b };
    let m4 = Move::Deliver { index: to_a, received: received_back };
    let moves = seq![m1, m2, m3, m4];
    let all3 = moves.drop_last();
    let all2 = all3.drop_last();
    let all1 = all2.drop_last();
    assert(all3 =~= seq![m1, m2, m3]);
    assert(all2 =~= seq![m1, m2]);
    assert(all1 =~= seq![m1]);
    assert(all1.drop_last() =~= Seq::<Move>::empty());
    assert(c.allows_all(all3));
    assert(c.allows_all(all2));
    assert(c.allows_all(all1));
    assert(c.after_all(all1.drop_last()) == c);
    let c1 = c.after(m1);
    assert(c.after_all(all1) == c1);
    let c2 = c1.after(m2);
    assert(c.after_all(all2) == c2);
    let c3 = c2.after(m3);
    assert(c.after_all(all3) == c3);
    let c4 = c3.after(m4);
    assert(c.after_all(moves) == c4);
    assert(c.allows(m1));
    assert(c1.allows(m2));
    assert(c2.allows(m3));
    assert(c3.allows(m4));
    let na = c.nodes[a];
    let nb = c.nodes[b];
    assert(na.node == a);
    assert(nb.node == b);
    let sent = out_a[to_b - c.wire.len()];
    assert(c1.wire[to_b].message == sent);
    assert(na.is_gossip(sent));
    assert(sent.dst@ == b);
    let nb1 = nb.after(Event::Input(received));
    assert(c2.nodes[b] == nb1);
    assert(c2.nodes[a] == na.ticked());
    assert(c2.wire.len() == c.wire.len() + out_a.len());
    let sent_back = out_b[to_a - c2.wire.len()];
    assert(c3.wire[to_a].message == sent_back);
    assert(nb1.is_gossip(sent_back));
    assert(sent_back.dst@ == a);
    assert(c3.nodes[b] == nb1.ticked());
    assert(c3.nodes[a] == na.ticked());
    assert(c4.nodes[a] == na.ticked().after(Event::Input(received_back)));
    assert(c4.nodes[b] == nb1.ticked());
    assert(na.known(b).subset_of(nb.messages));
    assert(nb.known(a).subset_of(na.messages));
    assert(keeps_received(na));
    crate::convergence::lemma_round_agrees(na, nb, sent, received, sent_back, received_back);
}

} // verus!
