//! Counter nodes around a store that answers faithfully, to state what the
//! swaps add up to: once no increment waits anywhere, the store holds the sum
//! of all increments that the nodes accepted, and that is what a node reads.
//!
//! The store answers every request before the node talks to it again, and
//! every answer arrives, once. A lost or repeated answer is outside this
//! model: after it, a node may take back increments that the store has.
use crate::g_counter::CounterRequest;
use crate::g_counter::CounterView;
use crate::message::ErrorCode;
use vstd::prelude::*;

verus! {

/// Counter nodes, the store, and the sum of what the nodes have accepted.
pub struct Books {
    /// The value under the counter's key.
    pub store: int,
    /// The names of the nodes, each once.
    pub roster: Seq<Seq<char>>,
    /// The nodes, by name.
    pub nodes: Map<Seq<char>, CounterView>,
    /// The sum of the increments that the nodes have accepted.
    pub accepted: int,
}

/// One thing that happens between clients, nodes and the store.
pub enum Deal {
    /// A client adds `delta` at a node.
    Add { node: Seq<char>, delta: usize },
    /// A client reads at a node.
    Read { node: Seq<char> },
    /// A node without a waiting swap reads the store and gets its value.
    Fetch { node: Seq<char> },
    /// The store answers the waiting swap of a node: it swaps and confirms
    /// where the value is what the swap starts from, and refuses otherwise.
    Settle { node: Seq<char>, text: String },
}

/// The sum of the increments that wait at the nodes `names`.
pub open spec fn waiting(nodes: Map<Seq<char>, CounterView>, names: Seq<Seq<char>>) -> int
    decreases names.len(),
{
    if names.len() == 0 {
        0
    } else {
        waiting(nodes, names.drop_last()) + nodes[names.last()].pending()
    }
}

impl Books {
    /// The books when the nodes of `roster` have just started and the store
    /// holds nothing.
    pub open spec fn start(roster: Seq<Seq<char>>) -> Books {
        Books {
            store: 0,
            roster,
            nodes: Map::new(
                |name: Seq<char>| roster.contains(name),
                |name: Seq<char>| CounterView::initial(name),
            ),
            accepted: 0,
        }
    }

    /// Whether `deal` can happen.
    pub open spec fn allows(self, deal: Deal) -> bool {
        match deal {
            Deal::Add { node, delta } => self.roster.contains(node),
            Deal::Read { node } => self.roster.contains(node),
            Deal::Fetch { node } => self.roster.contains(node) && self.nodes[node].inflight is None
                && self.store <= usize::MAX,
            Deal::Settle { node, text } => self.roster.contains(node)
                && self.nodes[node].inflight is Some,
        }
    }

    /// What the store answers to the waiting swap of `node`.
    pub open spec fn answer(self, node: Seq<char>, text: String) -> CounterRequest {
        if self.nodes[node].inflight->0.old == self.store {
            CounterRequest::CounterUpdated
        } else {
            CounterRequest::Error { code: ErrorCode::PreconditionFailed, text }
        }
    }

    /// The books after `deal`.
    pub open spec fn after(self, deal: Deal) -> Books {
        match deal {
            Deal::Add { node, delta } => Books {
                nodes: self.nodes.insert(
                    node,
                    self.nodes[node].after_payload(CounterRequest::Add { delta }),
                ),
                accepted: self.accepted + delta,
                ..self
            },
            Deal::Read { node } => Books {
                nodes: self.nodes.insert(node, self.nodes[node].after_payload(CounterRequest::Read)),
                ..self
            },
            Deal::Fetch { node } => Books {
                nodes: self.nodes.insert(
                    node,
                    self.nodes[node].after_payload(
                        CounterRequest::ReadCounterOk { value: self.store as usize },
                    ),
                ),
                ..self
            },
            Deal::Settle { node, text } => Books {
                store: if self.nodes[node].inflight->0.old == self.store {
                    self.nodes[node].inflight->0.new
                } else {
                    self.store
                },
                nodes: self.nodes.insert(
                    node,
                    self.nodes[node].after_payload(self.answer(node, text)),
                ),
                ..self
            },
        }
    }

    /// The books after the deals `deals`, in order.
    pub open spec fn after_all(self, deals: Seq<Deal>) -> Books
        decreases deals.len(),
    {
        if deals.len() == 0 {
            self
        } else {
            self.after_all(deals.drop_last()).after(deals.last())
        }
    }

    /// Whether every one of `deals` can happen when its turn comes.
    pub open spec fn allows_all(self, deals: Seq<Deal>) -> bool
        decreases deals.len(),
    {
        deals.len() > 0 ==> self.allows_all(deals.drop_last()) && self.after_all(
            deals.drop_last(),
        ).allows(deals.last())
    }

    /// Whether the books balance: every node of the roster is there, once,
    /// with sound numbers, and what the nodes have accepted is in the store or
    /// waits at a node.
    pub open spec fn balanced(self) -> bool {
        &&& self.roster.no_duplicates()
        &&& 0 <= self.store
        &&& forall|name: Seq<char>| #[trigger]
            self.roster.contains(name) ==> self.nodes.contains_key(name)
                && self.nodes[name].sound()
        &&& self.accepted == self.store + waiting(self.nodes, self.roster)
    }

    /// Whether no increment waits at any node.
    pub open spec fn settled(self) -> bool {
        forall|name: Seq<char>|
            self.roster.contains(name) ==> (#[trigger] self.nodes[name]).pending() == 0
    }
}

/// A change at one node changes what waits at the nodes by what it changes
/// at that node.
pub proof fn lemma_waiting_moves(
    nodes: Map<Seq<char>, CounterView>,
    names: Seq<Seq<char>>,
    name: Seq<char>,
    next: CounterView,
)
    requires
        names.no_duplicates(),
    ensures
        waiting(nodes.insert(name, next), names) == waiting(nodes, names) + (if names.contains(
            name,
        ) {
            next.pending() - nodes[name].pending()
        } else {
            0
        }),
    decreases names.len(),
{
    if names.len() > 0 {
        let front = names.drop_last();
        assert(front.no_duplicates());
        lemma_waiting_moves(nodes, front, name, next);
        if names.last() == name {
            assert(!front.contains(name)) by {
                if front.contains(name) {
                    let j = choose|j: int| 0 <= j < front.len() && front[j] == name;
                    assert(names[j] == names[names.len() - 1]);
                }
            }
            assert(names.contains(name)) by {
                assert(names[names.len() - 1] == name);
            }
        } else {
            assert(names.contains(name) == front.contains(name)) by {
                if names.contains(name) {
                    let j = choose|j: int| 0 <= j < names.len() && names[j] == name;
                    assert(front[j] == name);
                }
                if front.contains(name) {
                    let j = choose|j: int| 0 <= j < front.len() && front[j] == name;
                    assert(names[j] == name);
                }
            }
        }
    }
}

/// Where no increment waits at any of the nodes, nothing waits in sum.
pub proof fn lemma_nothing_waits(nodes: Map<Seq<char>, CounterView>, names: Seq<Seq<char>>)
    requires
        forall|name: Seq<char>| names.contains(name) ==> (#[trigger] nodes[name]).pending() == 0,
    ensures
        waiting(nodes, names) == 0,
    decreases names.len(),
{
    if names.len() > 0 {
        let front = names.drop_last();
        assert forall|name: Seq<char>| front.contains(name) implies (#[trigger] nodes[name]).pending()
            == 0 by {
            let j = choose|j: int| 0 <= j < front.len() && front[j] == name;
            assert(names[j] == name);
        }
        lemma_nothing_waits(nodes, front);
        assert(names.contains(names.last())) by {
            assert(names[names.len() - 1] == names.last());
        }
    }
}

/// The books balance at the start.
pub proof fn lemma_start_is_balanced(roster: Seq<Seq<char>>)
    requires
        roster.no_duplicates(),
    ensures
        Books::start(roster).balanced(),
{
    let b = Books::start(roster);
    lemma_nothing_waits(b.nodes, roster);
}

/// The nodes stay where they are, with sound numbers, whatever happens.
proof fn lemma_nodes_stay_sound(b: Books, deal: Deal, name: Seq<char>)
    requires
        b.balanced(),
        b.allows(deal),
        b.roster.contains(name),
    ensures
        b.after(deal).roster == b.roster,
        b.after(deal).nodes.contains_key(name),
        b.after(deal).nodes[name].sound(),
{
    assert(b.nodes[name].sound());
    let node = match deal {
        Deal::Add { node, .. } => node,
        Deal::Read { node } => node,
        Deal::Fetch { node } => node,
        Deal::Settle { node, .. } => node,
    };
    assert(b.nodes[node].sound());
}

/// The books stay balanced, whatever happens.
pub proof fn lemma_balance_stays(b: Books, deal: Deal)
    requires
        b.balanced(),
        b.allows(deal),
    ensures
        b.after(deal).balanced(),
{
    let c = b.after(deal);
    let node = match deal {
        Deal::Add { node, .. } => node,
        Deal::Read { node } => node,
        Deal::Fetch { node } => node,
        Deal::Settle { node, .. } => node,
    };
    assert(b.nodes[node].sound());
    lemma_waiting_moves(b.nodes, b.roster, node, c.nodes[node]);
    assert(c.nodes =~= b.nodes.insert(node, c.nodes[node]));
    assert forall|name: Seq<char>| #[trigger]
        c.roster.contains(name) implies c.nodes.contains_key(name) && c.nodes[name].sound() by {
        lemma_nodes_stay_sound(b, deal, name);
    }
}

/// The books stay balanced over any sequence of deals.
pub proof fn lemma_balance_always(b: Books, deals: Seq<Deal>)
    requires
        b.balanced(),
        b.allows_all(deals),
    ensures
        b.after_all(deals).balanced(),
    decreases deals.len(),
{
    if deals.len() > 0 {
        lemma_balance_always(b, deals.drop_last());
        lemma_balance_stays(b.after_all(deals.drop_last()), deals.last());
    }
}

/// Once no increment waits anywhere, the store holds the sum of all
/// increments that the nodes accepted.
pub proof fn lemma_settled_store_holds_all(roster: Seq<Seq<char>>, deals: Seq<Deal>)
    requires
        roster.no_duplicates(),
        Books::start(roster).allows_all(deals),
        Books::start(roster).after_all(deals).settled(),
    ensures
        Books::start(roster).after_all(deals).store == Books::start(roster).after_all(
            deals,
        ).accepted,
{
    lemma_start_is_balanced(roster);
    lemma_balance_always(Books::start(roster), deals);
    let b = Books::start(roster).after_all(deals);
    lemma_nothing_waits(b.nodes, b.roster);
}

/// Once no increment waits anywhere, a node that reads the store answers its
/// clients with the sum of all increments that the nodes accepted.
pub proof fn lemma_settled_read_is_the_sum(
    roster: Seq<Seq<char>>,
    deals: Seq<Deal>,
    node: Seq<char>,
)
    requires
        roster.no_duplicates(),
        Books::start(roster).allows_all(deals),
        Books::start(roster).after_all(deals).settled(),
        Books::start(roster).after_all(deals).allows(Deal::Fetch { node }),
    ensures
        Books::start(roster).after_all(deals).after(Deal::Fetch { node }).nodes[node].reading()
            == Books::start(roster).after_all(deals).accepted,
{
    lemma_settled_store_holds_all(roster, deals);
    lemma_start_is_balanced(roster);
    lemma_balance_always(Books::start(roster), deals);
    let b = Books::start(roster).after_all(deals);
    assert(b.nodes[node].sound());
    assert(b.nodes[node].pending() == 0);
}

} // verus!
