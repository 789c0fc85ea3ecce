//! What the counter node guarantees about the increments it has accepted:
//! none is lost on the way to the store, and what a client reads does not fall
//! while the store does not answer with less than the node has recorded.
use crate::g_counter::CounterRequest;
use crate::g_counter::CounterRespone;
use crate::g_counter::CounterView;
use crate::g_counter::Event;
use crate::g_counter::Swap;
use vstd::prelude::*;

verus! {

/// What `event` changes in the increments that the store has not confirmed:
/// an add puts its increment in, the store's confirmation takes the staged
/// increments out, and so does a value from the store that starts a new swap
/// while an older one still waits. Nothing else moves them.
pub open spec fn pending_change(s: CounterView, event: Event) -> int {
    match event {
        Event::Input(request) => match request.body.payload {
            CounterRequest::Add { delta } => delta as int,
            CounterRequest::CounterUpdated => -s.staged(),
            CounterRequest::ReadCounterOk { .. } => if s.delta > 0 {
                -s.staged()
            } else {
                0
            },
            _ => 0,
        },
        _ => 0,
    }
}

/// Whether the store's answer in `event`, if it is the value under the key, is
/// not less than the value that the node has recorded.
pub open spec fn store_keeps_up(s: CounterView, event: Event) -> bool {
    event matches Event::Input(request) ==> (
    request.body.payload matches CounterRequest::ReadCounterOk { value } ==> s.value <= value)
}

/// Whether the store keeps up with the node at every one of `events`.
pub open spec fn store_keeps_up_all(s: CounterView, events: Seq<Event>) -> bool
    decreases events.len(),
{
    events.len() > 0 ==> store_keeps_up_all(s, events.drop_last()) && store_keeps_up(
        s.after_all(events.drop_last()),
        events.last(),
    )
}

/// The numbers of the state stay counts, whatever the node handles.
pub proof fn lemma_sound_stays(s: CounterView, event: Event)
    requires
        s.sound(),
    ensures
        s.after(event).sound(),
{
}

/// The numbers of the state stay counts over any sequence of events.
pub proof fn lemma_sound_stays_all(s: CounterView, events: Seq<Event>)
    requires
        s.sound(),
    ensures
        s.after_all(events).sound(),
    decreases events.len(),
{
    if events.len() > 0 {
        lemma_sound_stays_all(s, events.drop_last());
        lemma_sound_stays(s.after_all(events.drop_last()), events.last());
    }
}

/// An error from the store loses no increment: what was staged in the swap is
/// accepted again, so the increments that the store has not confirmed are the
/// same before and after.
pub proof fn lemma_error_keeps_pending(s: CounterView, payload: CounterRequest)
    requires
        payload is Error,
    ensures
        s.after_payload(payload).pending() == s.pending(),
        s.after_payload(payload).inflight == None::<Swap>,
{
}

/// The increments that the store has not confirmed change only by an add,
/// which puts its increment in, and by what ends a waiting swap other than an
/// error: the store's confirmation, or a new swap that takes its place.
pub proof fn lemma_pending_is_accounted(s: CounterView, event: Event)
    requires
        s.sound(),
    ensures
        s.after(event).pending() == s.pending() + pending_change(s, event),
{
}

/// What a client reads does not fall by any event, where the store's answer
/// is not less than the value that the node has recorded.
pub proof fn lemma_reading_does_not_fall(s: CounterView, event: Event)
    requires
        s.sound(),
        store_keeps_up(s, event),
    ensures
        s.reading() <= s.after(event).reading(),
{
}

/// What a client reads does not fall over any sequence of events at which the
/// store keeps up with the node.
pub proof fn lemma_reading_grows(s: CounterView, events: Seq<Event>)
    requires
        s.sound(),
        store_keeps_up_all(s, events),
    ensures
        s.reading() <= s.after_all(events).reading(),
    decreases events.len(),
{
    if events.len() > 0 {
        lemma_reading_grows(s, events.drop_last());
        lemma_sound_stays_all(s, events.drop_last());
        lemma_reading_does_not_fall(s.after_all(events.drop_last()), events.last());
    }
}

/// The answer to a client's read is not less than the answer to an earlier
/// read of the same node, where the store has kept up with the node in
/// between.
pub proof fn lemma_reads_do_not_fall(
    s: CounterView,
    events: Seq<Event>,
    first: Option<CounterRespone>,
    later: Option<CounterRespone>,
)
    requires
        s.sound(),
        store_keeps_up_all(s, events),
        s.is_reply(CounterRequest::Read, first),
        s.after_all(events).is_reply(CounterRequest::Read, later),
    ensures
        first matches Some(CounterRespone::ReadOk { value: before }) && (
        later matches Some(CounterRespone::ReadOk { value: after }) && before <= after),
{
    lemma_reading_grows(s, events);
    lemma_sound_stays_all(s, events);
}

/// A swap that the store confirms commits what was accepted: when the store
/// answers a read with `value` while increments wait and then confirms the
/// swap, the node reads `value` plus those increments and nothing is left
/// unconfirmed.
pub proof fn lemma_commit(s: CounterView, value: usize)
    requires
        s.sound(),
        s.delta > 0,
    ensures
        s.after_payload(CounterRequest::ReadCounterOk { value }).staged() == s.delta,
        s.after_payload(CounterRequest::ReadCounterOk { value }).after_payload(
            CounterRequest::CounterUpdated,
        ).reading() == value + s.delta,
        s.after_payload(CounterRequest::ReadCounterOk { value }).after_payload(
            CounterRequest::CounterUpdated,
        ).pending() == 0,
{
}

} // verus!
