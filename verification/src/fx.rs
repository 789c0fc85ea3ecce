//! Hash collections of `rustc_hash` as the node state holds them.
//!
//! `FxHashSet` and `FxHashMap` are std's hash collections with the Fx hasher.
//! The functions below with a contract and no proof are the places where their
//! methods are called; each states what the method does to the contents.
//! The contents of a set of integers are its view `s@`; the contents of the
//! other collections are given by [`names_of`], [`ledger_of`] and
//! [`topology_of`].
use rustc_hash::FxHashMap;
use rustc_hash::FxHashSet;
use vstd::prelude::*;

verus! {

/// The hasher factory of the Fx collections. Nothing is read from it.
#[verifier::external_type_specification]
#[verifier::external_body]
pub struct ExFxBuildHasher(rustc_hash::FxBuildHasher);

/// What one node has recorded about every other node: the values the other
/// node is known to hold, and the values it sent last.
pub type Ledger = FxHashMap<String, (FxHashSet<usize>, FxHashSet<usize>)>;

/// The node names held by a set of names.
pub uninterp spec fn names_of(s: FxHashSet<String>) -> Set<Seq<char>>;

/// The bookkeeping held by a ledger, by node name.
pub uninterp spec fn ledger_of(m: Ledger) -> Map<Seq<char>, (Set<usize>, Set<usize>)>;

/// The neighbours that a topology lists, by node name.
pub uninterp spec fn topology_of(m: FxHashMap<String, Vec<String>>) -> Map<Seq<char>, Seq<Seq<char>>>;

/// The names that a list of strings spells, in order.
pub open spec fn spelled(v: Seq<String>) -> Seq<Seq<char>> {
    v.map_values(|s: String| s@)
}

/// Taking one more string adds its name to the set of the names taken.
pub proof fn lemma_spelled_take_step(v: Seq<String>, i: int)
    requires
        0 <= i < v.len(),
    ensures
        spelled(v).take(i + 1) == spelled(v).take(i).push(v[i]@),
        spelled(v).take(i + 1).to_set() == spelled(v).take(i).to_set().insert(v[i]@),
{
    assert(spelled(v).take(i + 1) =~= spelled(v).take(i).push(v[i]@));
    spelled(v).take(i).lemma_push_to_set_commute(v[i]@);
}

/// Appending a string appends its name.
pub proof fn lemma_spelled_push(v: Seq<String>, s: String)
    ensures
        spelled(v.push(s)) == spelled(v).push(s@),
        spelled(v.push(s)).to_set() == spelled(v).to_set().insert(s@),
{
    assert(spelled(v.push(s)) =~= spelled(v).push(s@));
    spelled(v).lemma_push_to_set_commute(s@);
}

/// `HashSet::insert`: the item is in the set afterwards, nothing else changes,
/// and the result tells whether the item was new.
#[verifier::external_body]
pub(crate) fn set_insert(s: &mut FxHashSet<usize>, v: usize) -> (fresh: bool)
    ensures
        final(s)@ == old(s)@.insert(v),
        fresh == !old(s)@.contains(v),
{
    s.insert(v)
}

/// `HashSet::is_superset`: whether every item of `b` is in `a`.
#[verifier::external_body]
pub(crate) fn set_is_superset(a: &FxHashSet<usize>, b: &FxHashSet<usize>) -> (all: bool)
    ensures
        all == b@.subset_of(a@),
{
    a.is_superset(b)
}

/// `Extend::extend` with the items of another set: the union of both.
#[verifier::external_body]
pub(crate) fn set_extend(a: &mut FxHashSet<usize>, b: &FxHashSet<usize>)
    ensures
        final(a)@ == old(a)@.union(b@),
{
    a.extend(b)
}

/// `Extend::extend` with the items of a list: the set and every listed item.
#[verifier::external_body]
pub(crate) fn set_extend_from_list(a: &mut FxHashSet<usize>, items: &Vec<usize>)
    ensures
        final(a)@ == old(a)@.union(items@.to_set()),
{
    a.extend(items)
}

/// `Clone::clone` of a set: a set with the same items.
#[verifier::external_body]
pub(crate) fn set_clone(s: &FxHashSet<usize>) -> (copy: FxHashSet<usize>)
    ensures
        copy@ == s@,
{
    s.clone()
}

/// `HashSet::difference`, collected: the items of `a` that are not in `b`,
/// each once. The order is that of the hash table and is not stated.
#[verifier::external_body]
pub(crate) fn set_difference(a: &FxHashSet<usize>, b: &FxHashSet<usize>) -> (items: Vec<usize>)
    ensures
        items@.to_set() == a@.difference(b@),
        items@.no_duplicates(),
{
    a.difference(b).copied().collect()
}

/// `HashSet::drain`, collected: the set is empty afterwards and the result
/// lists what it held, each item once, in no stated order.
#[verifier::external_body]
pub(crate) fn set_drain(s: &mut FxHashSet<usize>) -> (items: Vec<usize>)
    ensures
        final(s)@ == Set::<usize>::empty(),
        items@.to_set() == old(s)@,
        items@.no_duplicates(),
{
    s.drain().collect()
}

/// `FromIterator::from_iter` on a list of names: the set of the listed names.
#[verifier::external_body]
pub(crate) fn names_from_list(list: Vec<String>) -> (s: FxHashSet<String>)
    ensures
        names_of(s) == spelled(list@).to_set(),
{
    list.into_iter().collect()
}

/// `HashSet::iter`, cloned and collected: the names of the set, each once, in
/// no stated order.
#[verifier::external_body]
pub(crate) fn names_list(s: &FxHashSet<String>) -> (list: Vec<String>)
    ensures
        spelled(list@).to_set() == names_of(*s),
        spelled(list@).no_duplicates(),
{
    s.iter().cloned().collect()
}

/// `FxHashMap::default`: a ledger without entries.
#[verifier::external_body]
pub(crate) fn ledger_new() -> (m: Ledger)
    ensures
        ledger_of(m).dom() == Set::<Seq<char>>::empty(),
{
    FxHashMap::default()
}

/// `HashMap::insert`: the entry of `name` is the given pair afterwards, and no
/// other entry changes.
#[verifier::external_body]
pub(crate) fn ledger_insert(
    m: &mut Ledger,
    name: String,
    known: FxHashSet<usize>,
    last_received: FxHashSet<usize>,
)
    ensures
        ledger_of(*final(m)) == ledger_of(*old(m)).insert(name@, (known@, last_received@)),
{
    m.insert(name, (known, last_received));
}

/// `HashMap::get_mut`: the entry of `name`, if there is one. What the caller
/// writes through the reference is what the ledger holds for `name`
/// afterwards; no other entry changes.
#[verifier::external_body]
pub(crate) fn ledger_entry<'a>(m: &'a mut Ledger, name: &str) -> (entry: Option<
    &'a mut (FxHashSet<usize>, FxHashSet<usize>),
>)
    ensures
        match entry {
            Some(e) => ledger_of(*old(m)).contains_key(name@) && ((*e).0@, (*e).1@) == ledger_of(
                *old(m),
            )[name@] && ledger_of(*final(m)) == ledger_of(*old(m)).insert(
                name@,
                ((*final(e)).0@, (*final(e)).1@),
            ),
            None => !ledger_of(*old(m)).contains_key(name@) && ledger_of(*final(m)) == ledger_of(
                *old(m),
            ),
        },
{
    m.get_mut(name)
}

/// `HashMap::remove`: the entry of `name` leaves the map and its list of
/// neighbours is returned, if there was one.
#[verifier::external_body]
pub(crate) fn topology_remove(m: &mut FxHashMap<String, Vec<String>>, name: &str) -> (removed:
    Option<Vec<String>>)
    ensures
        topology_of(*final(m)) == topology_of(*old(m)).remove(name@),
        match removed {
            Some(list) => topology_of(*old(m)).contains_key(name@) && spelled(list@) == topology_of(
                *old(m),
            )[name@],
            None => !topology_of(*old(m)).contains_key(name@),
        },
{
    m.remove(name)
}

} // verus!
