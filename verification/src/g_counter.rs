//! The counter node: increments are accepted locally and committed in the
//! background to one key of a sequential key-value store, by reading the key
//! and swapping in the sum.
use crate::init::InitRequest;
use crate::message::Body;
use crate::message::ErrorCode;
use crate::message::Message;
use crate::message::Request;
use crate::message::Response;
use vstd::prelude::*;

verus! {

/// Request payload for the counter node: what clients ask and what the store
/// answers.
#[derive(Debug, PartialEq, Eq)]
pub enum CounterRequest {
    /// A client asks to add to the counter.
    Add {
        /// The increment.
        delta: usize,
    },
    /// A client asks for the counter's value.
    Read,
    /// The store answers a read of the counter's key.
    ReadCounterOk {
        /// The value under the key.
        value: usize,
    },
    /// The store confirms a compare-and-swap.
    CounterUpdated,
    /// The store reports an error.
    Error {
        /// Error code.
        code: ErrorCode,
        /// Error message.
        text: String,
    },
}

/// Response payload of the counter node: what it answers to clients and what
/// it asks of the store.
#[derive(Debug, PartialEq, Eq)]
pub enum CounterRespone {
    /// Acknowledges an add.
    AddOk,
    /// Asks the store for the value under a key.
    ReadCounter {
        /// Key of the counter in the store.
        key: String,
    },
    /// Asks the store to swap the value under a key.
    UpdateCounter {
        /// Key of the counter in the store.
        key: String,
        /// Value to be updated from.
        old: usize,
        /// Value to be updated to.
        new: usize,
        /// Create the key if it does not exist.
        create: bool,
    },
    /// Answers a client's read.
    ReadOk {
        /// The counter's value as far as this node knows.
        value: usize,
    },
}

impl Request for CounterRequest {

}

impl Response for CounterRespone {

}

/// Event for the node to handle.
#[derive(Debug, PartialEq, Eq)]
pub enum Event {
    /// The timer fired: time to talk to the store.
    Tick,
    /// The input ended: stop the node.
    Close,
    /// A message arrived.
    Input(Message<CounterRequest>),
}

/// A compare-and-swap that the store has not answered yet.
#[derive(Debug, Clone, Copy, PartialEq, Eq, Structural)]
pub struct Inflight {
    /// Message id of the request, reused when it is sent again.
    pub msg_id: usize,
    /// Value to be updated from.
    pub old: usize,
    /// Value to be updated to.
    pub new: usize,
}

/// An error reply from the store that the counter has no answer to.
#[derive(Debug, Clone, Copy, PartialEq, Eq, Structural)]
pub enum CounterError {
    /// The store reported a code that the protocol does not expect.
    Unhandled(ErrorCode),
}

/// Name of the store's node.
pub open spec fn kv_node() -> Seq<char> {
    "seq-kv"@
}

/// Key of the counter in the store.
pub open spec fn counter_key() -> Seq<char> {
    "COUNTER"@
}

/// A compare-and-swap that waits for the store's answer, as mathematics.
pub struct Swap {
    /// Message id of the request.
    pub msg_id: int,
    /// Value to be updated from.
    pub old: int,
    /// Value to be updated to.
    pub new: int,
}

impl View for Inflight {
    type V = Swap;

    open spec fn view(&self) -> Swap {
        Swap { msg_id: self.msg_id as int, old: self.old as int, new: self.new as int }
    }
}

/// What a counter node holds, as mathematics.
#[verifier::ext_equal]
pub struct CounterView {
    /// The id of the next new message.
    pub id: int,
    /// Name of this node.
    pub node: Seq<char>,
    /// The value last read from the store, plus what was about to be committed
    /// on top of it.
    pub value: int,
    /// Sum of the increments accepted and not yet handed to a swap.
    pub delta: int,
    /// The swap that waits for the store's answer.
    pub inflight: Option<Swap>,
}

impl CounterView {
    /// The state of a node that has just been given its name.
    pub open spec fn initial(node: Seq<char>) -> CounterView {
        CounterView { id: 0, node, value: 0, delta: 0, inflight: None }
    }

    /// What a client's read is answered with.
    pub open spec fn reading(self) -> int {
        self.value + self.delta
    }

    /// The increments staged in the swap that waits for an answer.
    pub open spec fn staged(self) -> int {
        match self.inflight {
            Some(f) => f.new - f.old,
            None => 0,
        }
    }

    /// The increments that the store has not confirmed: those accepted and
    /// those staged.
    pub open spec fn pending(self) -> int {
        self.delta + self.staged()
    }

    /// Whether the numbers of the state are counts: none is negative, and a
    /// waiting swap does not lower the value.
    pub open spec fn sound(self) -> bool {
        0 <= self.id && 0 <= self.value && 0 <= self.delta && 0 <= self.staged()
    }

    /// The state with the staged increments taken back.
    pub open spec fn restored(self) -> CounterView {
        CounterView { delta: self.pending(), inflight: None, ..self }
    }

    /// The state with `n` more messages sent.
    pub open spec fn sent(self, n: int) -> CounterView {
        CounterView { id: self.id + n, ..self }
    }

    /// Whether the protocol has an answer to the store's error `code`.
    pub open spec fn expected(code: ErrorCode) -> bool {
        code == ErrorCode::KeyDoesNotExist || code == ErrorCode::PreconditionFailed || code
            == ErrorCode::Timeout || code == ErrorCode::KeyAlreadyExists
    }

    /// The state after `payload` has been handled.
    pub open spec fn after_payload(self, payload: CounterRequest) -> CounterView {
        match payload {
            CounterRequest::Add { delta } => CounterView { delta: self.delta + delta, ..self },
            CounterRequest::Read => self,
            CounterRequest::ReadCounterOk { value } => if self.delta > 0 {
                CounterView {
                    value: value + self.delta,
                    delta: 0,
                    inflight: Some(
                        Swap { msg_id: self.id, old: value as int, new: value + self.delta },
                    ),
                    ..self
                }
            } else {
                CounterView { value: value as int, ..self }
            },
            CounterRequest::CounterUpdated => CounterView { inflight: None, ..self },
            CounterRequest::Error { .. } => self.restored(),
        }
    }

    /// Whether `reply` answers `payload` in this state.
    pub open spec fn is_reply(self, payload: CounterRequest, reply: Option<CounterRespone>) -> bool {
        match payload {
            CounterRequest::Add { .. } => reply == Some(CounterRespone::AddOk),
            CounterRequest::Read => reply matches Some(CounterRespone::ReadOk { value })
                && value == self.reading(),
            CounterRequest::ReadCounterOk { value } => if self.delta > 0 {
                reply matches Some(CounterRespone::UpdateCounter { key, old, new, create })
                    && key@ == counter_key() && old == value && new == value + self.delta
                    && !create
            } else {
                reply == None::<CounterRespone>
            },
            CounterRequest::CounterUpdated => reply == None::<CounterRespone>,
            CounterRequest::Error { code, .. } => if code == ErrorCode::KeyDoesNotExist {
                reply matches Some(CounterRespone::UpdateCounter { key, old, new, create })
                    && key@ == counter_key() && old == 0 && new == 0 && create
            } else {
                reply == None::<CounterRespone>
            },
        }
    }

    /// Whether handling `payload` in this state asks for an immediate tick.
    pub open spec fn wants_tick(self, payload: CounterRequest) -> bool {
        match payload {
            CounterRequest::Read => true,
            CounterRequest::Error { .. } => self.inflight is Some,
            _ => false,
        }
    }

    /// The state after a tick: a waiting swap is sent again under its old
    /// message id; without one, a fresh read takes the next id.
    pub open spec fn ticked(self) -> CounterView {
        if self.inflight is Some {
            self
        } else {
            self.sent(1)
        }
    }

    /// Whether `m` is what a tick in this state sends to the store: the
    /// waiting swap again, unchanged, or else a read of the counter's key.
    pub open spec fn is_tick_message(self, m: Message<CounterRespone>) -> bool {
        &&& m.src@ == self.node
        &&& m.dst@ == kv_node()
        &&& m.body.reply_id == None::<usize>
        &&& match self.inflight {
            Some(f) => (m.body.id matches Some(i) && i == f.msg_id) && (
            m.body.payload matches CounterRespone::UpdateCounter { key, old, new, create } && key@
                == counter_key() && old == f.old && new == f.new && !create),
            None => (m.body.id matches Some(i) && i == self.id) && (
            m.body.payload matches CounterRespone::ReadCounter { key } && key@ == counter_key()),
        }
    }

    /// Whether `out` is what the node sends when `request` arrives in this
    /// state: nothing where no reply is due, else one reply that goes back to
    /// the sender, carries the next message id and names the request's id.
    pub open spec fn input_outputs(
        self,
        request: Message<CounterRequest>,
        out: Seq<Message<CounterRespone>>,
    ) -> bool {
        if self.is_reply(request.body.payload, None) {
            out.len() == 0
        } else {
            &&& out.len() == 1
            &&& out[0].src@ == request.dst@
            &&& out[0].dst@ == request.src@
            &&& out[0].body.id matches Some(i)
            &&& i == self.id
            &&& out[0].body.reply_id == request.body.id
            &&& self.is_reply(request.body.payload, Some(out[0].body.payload))
        }
    }

    /// The state after `request` has been handled and answered.
    pub open spec fn after_input(self, request: Message<CounterRequest>) -> CounterView {
        let next = self.after_payload(request.body.payload);
        if self.is_reply(request.body.payload, None) {
            next
        } else {
            next.sent(1)
        }
    }

    /// The state after `event`.
    pub open spec fn after(self, event: Event) -> CounterView {
        match event {
            Event::Tick => self.ticked(),
            Event::Close => self,
            Event::Input(request) => self.after_input(request),
        }
    }

    /// The state after the events `events`, handled in order.
    pub open spec fn after_all(self, events: Seq<Event>) -> CounterView
        decreases events.len(),
    {
        if events.len() == 0 {
            self
        } else {
            self.after_all(events.drop_last()).after(events.last())
        }
    }

    /// Whether the store's error in `event`, if it holds one, is one that the
    /// protocol expects.
    pub open spec fn accepts(event: Event) -> bool {
        event matches Event::Input(request) ==> (
        request.body.payload matches CounterRequest::Error { code, .. } ==> Self::expected(code))
    }

    /// The error that handling `event` ends with, where the store reports a code
    /// that the protocol does not expect.
    pub open spec fn rejection(event: Event) -> Option<CounterError> {
        match event {
            Event::Input(request) => match request.body.payload {
                CounterRequest::Error { code, .. } => if Self::expected(code) {
                    None
                } else {
                    Some(CounterError::Unhandled(code))
                },
                _ => None,
            },
            _ => None,
        }
    }

    /// Whether `out` is what the node sends when it handles `event` in this
    /// state: nothing on `Close` and on an error code that the protocol does
    /// not expect, one message to the store on a tick, the reply on an input.
    pub open spec fn step_outputs(self, event: Event, out: Seq<Message<CounterRespone>>) -> bool {
        match event {
            Event::Tick => out.len() == 1 && self.is_tick_message(out[0]),
            Event::Close => out.len() == 0,
            Event::Input(request) => if Self::accepts(event) {
                self.input_outputs(request, out)
            } else {
                out.len() == 0
            },
        }
    }

    /// Whether handling `event` in this state asks for an immediate tick.
    pub open spec fn alarm(self, event: Event) -> bool {
        match event {
            Event::Input(request) => Self::accepts(event) && self.wants_tick(request.body.payload),
            _ => false,
        }
    }

    /// Whether `out` is what the node sends when it handles `events` in order:
    /// what it sends for each event, one after the other.
    pub open spec fn run_outputs(self, events: Seq<Event>, out: Seq<Message<CounterRespone>>) -> bool
        decreases events.len(),
    {
        if events.len() == 0 {
            out.len() == 0
        } else {
            exists|k: int|
                0 <= k <= out.len() && self.run_outputs(events.drop_last(), #[trigger] out.take(k))
                    && self.after_all(events.drop_last()).step_outputs(events.last(), out.skip(k))
        }
    }

    /// Whether handling one of `events`, in order, asks for an immediate tick.
    pub open spec fn alarms(self, events: Seq<Event>) -> bool
        decreases events.len(),
    {
        events.len() > 0 && (self.alarms(events.drop_last()) || self.after_all(
            events.drop_last(),
        ).alarm(events.last()))
    }

    /// Whether the sums and message ids that handling `events` in order
    /// computes fit the machine's integers.
    pub open spec fn fits_all(self, events: Seq<Event>) -> bool {
        forall|i: int|
            0 <= i < events.len() ==> #[trigger] self.after_all(events.take(i)).fits(events[i])
    }

    /// Whether the sums and message ids that handling `event` computes fit the
    /// machine's integers.
    pub open spec fn fits(self, event: Event) -> bool {
        match event {
            Event::Tick => self.inflight is None ==> self.id < usize::MAX,
            Event::Close => true,
            Event::Input(request) => self.payload_fits(request.body.payload) && (!self.is_reply(
                request.body.payload,
                None,
            ) ==> self.id < usize::MAX),
        }
    }

    /// Whether the sums that handling `payload` computes fit the machine's
    /// integers.
    pub open spec fn payload_fits(self, payload: CounterRequest) -> bool {
        match payload {
            CounterRequest::Add { delta } => self.delta + delta <= usize::MAX,
            CounterRequest::Read => self.reading() <= usize::MAX,
            CounterRequest::ReadCounterOk { value } => value + self.delta <= usize::MAX,
            CounterRequest::CounterUpdated => true,
            CounterRequest::Error { .. } => self.pending() <= usize::MAX,
        }
    }
}

/// The events that a node handles of `events`: those before the first `Close`,
/// and of these none after the first that holds an error code which the
/// protocol does not expect.
pub open spec fn handled(events: Seq<Event>) -> Seq<Event>
    decreases events.len(),
{
    if events.len() == 0 || events[0] is Close {
        Seq::empty()
    } else if !CounterView::accepts(events[0]) {
        seq![events[0]]
    } else {
        seq![events[0]] + handled(events.drop_first())
    }
}

/// The error that handling `events` ends with: that of the last event handled,
/// if it has one.
pub open spec fn failure(events: Seq<Event>) -> Option<CounterError> {
    if handled(events).len() > 0 {
        CounterView::rejection(handled(events).last())
    } else {
        None
    }
}

/// The events handled are a prefix that holds no `Close`, in which only the
/// last event may be one that the protocol does not expect, and which ends
/// with such an event, where the input ends, or where a `Close` stands.
pub proof fn lemma_handled(events: Seq<Event>)
    ensures
        handled(events).len() <= events.len(),
        handled(events) == events.take(handled(events).len() as int),
        forall|j: int| 0 <= j < handled(events).len() ==> !(#[trigger] events[j] is Close),
        forall|j: int|
            0 <= j < handled(events).len() - 1 ==> CounterView::accepts(#[trigger] events[j]),
        handled(events).len() < events.len() ==> failure(events) is Some || events[handled(
            events,
        ).len() as int] is Close,
    decreases events.len(),
{
    if events.len() == 0 || events[0] is Close {
        assert(handled(events) =~= events.take(0));
    } else if !CounterView::accepts(events[0]) {
        assert(handled(events) =~= events.take(1));
    } else {
        let rest = events.drop_first();
        lemma_handled(rest);
        let n = handled(rest).len() as int;
        assert(handled(events) =~= events.take(n + 1)) by {
            assert(handled(rest) == rest.take(n));
        }
        assert forall|j: int| 0 <= j < handled(events).len() implies !(
        #[trigger] events[j] is Close) by {
            if j > 0 {
                assert(events[j] == rest[j - 1]);
            }
        }
        assert forall|j: int| 0 <= j < handled(events).len() - 1 implies CounterView::accepts(
            #[trigger] events[j],
        ) by {
            if j > 0 {
                assert(events[j] == rest[j - 1]);
            }
        }
        if handled(events).len() < events.len() {
            assert(events[n + 1] == rest[n]);
            if n > 0 {
                assert(handled(events).last() == handled(rest).last());
            }
        }
    }
}

/// What handling a sequence of events asks of the caller.
#[derive(Debug, PartialEq, Eq)]
pub struct Run {
    /// The messages to write, in order.
    pub outputs: Vec<Message<CounterRespone>>,
    /// Whether the ticker should fire at once.
    pub force_tick: bool,
    /// Whether a `Close` was met.
    pub close: bool,
    /// The error that ended the run, if one did.
    pub failed: Option<CounterError>,
}

/// What handling one event asks of the event loop.
#[derive(Debug, PartialEq, Eq)]
pub struct Step {
    /// The messages to write, in order.
    pub outputs: Vec<Message<CounterRespone>>,
    /// Whether the ticker should fire at once.
    pub force_tick: bool,
    /// Whether the node should stop.
    pub close: bool,
}

/// Event handler of the counter node.
pub struct EventHandler {
    /// The id of the next new message.
    id: usize,
    /// Name of this node.
    node: String,
    /// Value of the counter as last read, plus what was about to be committed.
    value: usize,
    /// Increments accepted and not yet handed to a swap.
    delta: usize,
    /// The swap that waits for the store's answer.
    last_update: Option<Inflight>,
}

impl View for EventHandler {
    type V = CounterView;

    closed spec fn view(&self) -> CounterView {
        CounterView {
            id: self.id as int,
            node: self.node@,
            value: self.value as int,
            delta: self.delta as int,
            inflight: match self.last_update {
                Some(f) => Some(f@),
                None => None,
            },
        }
    }
}

impl EventHandler {
    /// A swap never lowers the value: what it stages is not negative.
    #[verifier::type_invariant]
    spec fn staged_is_natural(self) -> bool {
        self.last_update matches Some(f) ==> f.old <= f.new
    }

    /// Creates the handler from the payload of the `init` request.
    pub fn new(init_request: InitRequest) -> (handler: Self)
        ensures
            init_request matches InitRequest::Init { node_id, .. } && handler@
                == CounterView::initial(node_id@),
            handler@.sound(),
    {
        let node = match init_request {
            InitRequest::Init { node_id, .. } => node_id,
        };
        EventHandler { id: 0, value: 0, delta: 0, node, last_update: None }
    }

    /// Handles the payload of a message and returns the reply, if one is due,
    /// and whether the ticker should fire at once.
    ///
    /// * An add is accepted at once; the store hears of it later.
    /// * A read asks for a tick and is answered with the value last read from
    ///   the store plus what has been accepted since.
    /// * The store's value, when increments wait, starts a swap from that value
    ///   to the sum; the increments are then staged in the swap.
    /// * The store's confirmation ends the swap.
    /// * The store's error ends the swap and takes the staged increments back,
    ///   so that the next tick reads again; a missing key is created. An error
    ///   code that the protocol does not expect is handed back as the error.
    pub fn handle_input_payload(&mut self, payload: CounterRequest) -> (out: Result<
        (Option<CounterRespone>, bool),
        CounterError,
    >)
        requires
            old(self)@.payload_fits(payload),
        ensures
            final(self)@ == old(self)@.after_payload(payload),
            final(self)@.sound(),
            match out {
                Ok(reply) => old(self)@.is_reply(payload, reply.0) && reply.1 == old(
                    self,
                )@.wants_tick(payload) && (payload matches CounterRequest::Error { code, .. }
                    ==> CounterView::expected(code)),
                Err(e) => payload matches CounterRequest::Error { code, .. }
                    && !CounterView::expected(code) && e == CounterError::Unhandled(code),
            },
    {
        proof {
            use_type_invariant(&*self);
        }
        match payload {
            CounterRequest::Add { delta } => {
                self.delta += delta;
                Ok((Some(CounterRespone::AddOk), false))
            },
            CounterRequest::Read => {
                Ok((Some(CounterRespone::ReadOk { value: self.value + self.delta }), true))
            },
            CounterRequest::ReadCounterOk { value } => {
                self.value = value + self.delta;
                if self.delta > 0 {
                    self.last_update = Some(
                        Inflight { msg_id: self.id, old: value, new: self.value },
                    );
                    self.delta = 0;
                    Ok(
                        (
                            Some(
                                CounterRespone::UpdateCounter {
                                    key: "COUNTER".to_owned(),
                                    old: value,
                                    new: self.value,
                                    create: false,
                                },
                            ),
                            false,
                        ),
                    )
                } else {
                    Ok((None, false))
                }
            },
            CounterRequest::CounterUpdated => {
                self.last_update = None;
                Ok((None, false))
            },
            CounterRequest::Error { code, text } => {
                let mut tick = false;
                if let Some(f) = self.last_update {
                    self.last_update = None;
                    self.delta += f.new - f.old;
                    tick = true;
                }
                match code {
                    ErrorCode::KeyDoesNotExist => Ok(
                        (
                            Some(
                                CounterRespone::UpdateCounter {
                                    key: "COUNTER".to_owned(),
                                    old: 0,
                                    new: 0,
                                    create: true,
                                },
                            ),
                            tick,
                        ),
                    ),
                    ErrorCode::PreconditionFailed
                    | ErrorCode::Timeout
                    | ErrorCode::KeyAlreadyExists => Ok((None, tick)),
                    _ => Err(CounterError::Unhandled(code)),
                }
            },
        }
    }

    /// Talks to the store: sends the waiting swap again, under the message id
    /// it was first sent with, or, where none waits, reads the counter's key.
    pub fn handle_tick(&mut self) -> (out: Message<CounterRespone>)
        requires
            old(self)@.fits(Event::Tick),
        ensures
            final(self)@ == old(self)@.ticked(),
            final(self)@.sound(),
            old(self)@.is_tick_message(out),
    {
        proof {
            use_type_invariant(&*self);
        }
        let (payload, msg_id) = match self.last_update {
            Some(f) => (
                CounterRespone::UpdateCounter {
                    key: "COUNTER".to_owned(),
                    old: f.old,
                    new: f.new,
                    create: false,
                },
                f.msg_id,
            ),
            None => {
                let id = self.id;
                self.id += 1;
                (CounterRespone::ReadCounter { key: "COUNTER".to_owned() }, id)
            },
        };
        Message {
            body: Body { id: Some(msg_id), reply_id: None, payload },
            src: self.node.clone(),
            dst: "seq-kv".to_owned(),
        }
    }

    /// Whether the sums and message ids that handling `event` computes fit the
    /// machine's integers, which [`Self::handle_event`] asks for.
    pub fn fits(&self, event: &Event) -> (ok: bool)
        ensures
            ok == self@.fits(*event),
    {
        proof {
            use_type_invariant(self);
        }
        match event {
            Event::Tick => self.last_update.is_some() || self.id < usize::MAX,
            Event::Close => true,
            Event::Input(request) => {
                match &request.body.payload {
                    CounterRequest::Add { delta } => *delta <= usize::MAX - self.delta && self.id
                        < usize::MAX,
                    CounterRequest::Read => self.value <= usize::MAX - self.delta && self.id
                        < usize::MAX,
                    CounterRequest::ReadCounterOk { value } => *value <= usize::MAX - self.delta
                        && (self.delta == 0 || self.id < usize::MAX),
                    CounterRequest::CounterUpdated => true,
                    CounterRequest::Error { code, .. } => {
                        let staged_fits = match self.last_update {
                            Some(f) => f.new - f.old <= usize::MAX - self.delta,
                            None => true,
                        };
                        let replies = match code {
                            ErrorCode::KeyDoesNotExist => true,
                            _ => false,
                        };
                        staged_fits && (!replies || self.id < usize::MAX)
                    },
                }
            },
        }
    }

    /// Handles one event and says what to write, whether to fire the ticker and
    /// whether to stop.
    ///
    /// * `Close` stops the node and changes nothing.
    /// * `Tick` talks to the store, see [`Self::handle_tick`].
    /// * `Input` handles the payload, see [`Self::handle_input_payload`], and
    ///   addresses the reply, if there is one, to the sender. On an error code
    ///   that the protocol does not expect nothing is written.
    pub fn handle_event(&mut self, event: Event) -> (out: Result<Step, CounterError>)
        requires
            old(self)@.fits(event),
        ensures
            final(self)@ == old(self)@.after(event),
            final(self)@.sound(),
            match out {
                Ok(step) => CounterView::rejection(event) == None::<CounterError> && old(
                    self,
                )@.step_outputs(event, step.outputs@) && step.force_tick == old(self)@.alarm(event)
                    && step.close == (event is Close),
                Err(e) => CounterView::rejection(event) == Some(e),
            },
    {
        proof {
            use_type_invariant(&*self);
        }
        match event {
            Event::Close => Ok(Step { outputs: Vec::new(), force_tick: false, close: true }),
            Event::Tick => {
                let mut outputs: Vec<Message<CounterRespone>> = Vec::new();
                outputs.push(self.handle_tick());
                Ok(Step { outputs, force_tick: false, close: false })
            },
            Event::Input(request) => {
                let mut outputs: Vec<Message<CounterRespone>> = Vec::new();
                match self.handle_input_payload(request.body.payload) {
                    Ok((reply, force_tick)) => {
                        if let Some(payload) = reply {
                            let response = Message {
                                body: Body { id: Some(self.id), reply_id: request.body.id, payload },
                                src: request.dst,
                                dst: request.src,
                            };
                            outputs.push(response);
                            proof {
                                use_type_invariant(&*self);
                            }
                            self.id += 1;
                        }
                        assert(self@ =~= old(self)@.after_input(request));
                        Ok(Step { outputs, force_tick, close: false })
                    },
                    Err(e) => Err(e),
                }
            },
        }
    }

    /// Handles `events` in order and returns what was sent, whether any event
    /// asked for an immediate tick, whether a `Close` was met, and the error
    /// that ended the run. The run ends before the first `Close` and after the
    /// first error code that the protocol does not expect; later events are
    /// not handled.
    pub fn handle_events(&mut self, events: Vec<Event>) -> (run: Run)
        requires
            old(self)@.fits_all(handled(events@)),
        ensures
            final(self)@ == old(self)@.after_all(handled(events@)),
            final(self)@.sound(),
            old(self)@.run_outputs(handled(events@), run.outputs@),
            run.force_tick == old(self)@.alarms(handled(events@)),
            run.failed == failure(events@),
            run.close == (run.failed == None::<CounterError> && handled(events@).len()
                < events@.len()),
    {
        let ghost s0 = self@;
        let ghost all = events@;
        let ghost done = handled(all);
        let ghost n = done.len() as int;
        proof {
            lemma_handled(all);
            use_type_invariant(&*self);
        }
        let mut rest = events;
        let mut outputs: Vec<Message<CounterRespone>> = Vec::new();
        let mut force_tick = false;
        let mut close = false;
        let mut failed: Option<CounterError> = None;
        let ghost mut i: int = 0;
        while rest.len() > 0 && !close && failed.is_none()
            invariant
                0 <= i <= n <= all.len(),
                done == handled(all),
                done == all.take(n),
                forall|j: int| 0 <= j < n ==> !(#[trigger] all[j] is Close),
                forall|j: int| 0 <= j < n - 1 ==> CounterView::accepts(#[trigger] all[j]),
                n < all.len() ==> failure(all) is Some || all[n] is Close,
                s0.fits_all(done),
                !close && failed is None ==> rest@ == all.skip(i),
                close ==> i == n && n < all.len() && failed is None && failure(all) is None,
                failed is Some ==> i == n && failed == failure(all),
                failed is None && i > 0 ==> CounterView::accepts(all[i - 1]),
                self@ == s0.after_all(all.take(i)),
                self@.sound(),
                s0.run_outputs(all.take(i), outputs@),
                force_tick == s0.alarms(all.take(i)),
            decreases all.len() - i + (if close || failed is Some { 0int } else { 1int }),
        {
            let event = rest.remove(0);
            proof {
                assert(event == all[i]);
                assert(rest@ =~= all.skip(i + 1));
                if i == n {
                    assert(n < all.len());
                    if n > 0 {
                        assert(done.last() == all[n - 1]);
                    }
                    assert(all[n] is Close);
                } else {
                    assert(done.take(i) =~= all.take(i));
                    assert(done[i] == all[i]);
                    assert(s0.after_all(done.take(i)).fits(done[i]));
                }
            }
            let ghost before = outputs@;
            let ghost next = all.take(i + 1);
            proof {
                assert(next.drop_last() =~= all.take(i));
                assert(next.last() == all[i]);
            }
            match self.handle_event(event) {
                Ok(step) => {
                    let mut step = step;
                    let ghost sent = step.outputs@;
                    if step.close {
                        close = true;
                        proof {
                            if n > 0 {
                                assert(done.last() == all[n - 1]);
                            }
                        }
                    } else {
                        outputs.append(&mut step.outputs);
                        force_tick = force_tick || step.force_tick;
                        proof {
                            assert(outputs@.take(before.len() as int) =~= before);
                            assert(outputs@.skip(before.len() as int) =~= sent);
                            i = i + 1;
                        }
                    }
                },
                Err(e) => {
                    failed = Some(e);
                    proof {
                        assert(!CounterView::accepts(all[i]));
                        assert(i == n - 1);
                        assert(done.last() == all[i]);
                        assert(outputs@.take(before.len() as int) =~= before);
                        assert(outputs@.skip(before.len() as int) =~= Seq::<
                            Message<CounterRespone>,
                        >::empty());
                        i = i + 1;
                    }
                },
            }
        }
        proof {
            if !close && failed is None {
                assert(all.skip(i).len() == 0);
                assert(i == all.len());
                if n > 0 {
                    assert(done.last() == all[n - 1]);
                }
            }
            assert(i == n);
        }
        Run { outputs, force_tick, close, failed }
    }
}

} // verus!
