use gossip_glomers::g_counter::{
    CounterError, CounterRequest, CounterRespone, Event, EventHandler, Step,
};
use gossip_glomers::init::InitRequest;
use gossip_glomers::message::{Body, ErrorCode, Message};

fn node(name: &str) -> EventHandler {
    EventHandler::new(InitRequest::Init {
        node_id: name.to_string(),
        node_ids: vec![name.to_string(), "n2".to_string()],
    })
}

fn input(src: &str, id: Option<usize>, payload: CounterRequest) -> Event {
    Event::Input(Message {
        src: src.to_string(),
        dst: "n1".to_string(),
        body: Body { id, reply_id: None, payload },
    })
}

fn error(code: ErrorCode) -> Event {
    input("seq-kv", Some(7), CounterRequest::Error { code, text: "no".to_string() })
}

fn step(handler: &mut EventHandler, event: Event) -> Step {
    assert!(handler.fits(&event));
    handler.handle_event(event).expect("an event that the protocol expects")
}

fn read(handler: &mut EventHandler) -> usize {
    let out = step(handler, input("c1", Some(99), CounterRequest::Read));
    assert!(out.force_tick);
    assert_eq!(out.outputs.len(), 1);
    match out.outputs[0].body.payload {
        CounterRespone::ReadOk { value } => value,
        ref other => panic!("not a read_ok: {:?}", other),
    }
}

fn reply(id: usize, reply_id: Option<usize>, dst: &str, payload: CounterRespone) -> Message<CounterRespone> {
    Message {
        src: "n1".to_string(),
        dst: dst.to_string(),
        body: Body { id: Some(id), reply_id, payload },
    }
}

fn cas(old: usize, new: usize, create: bool) -> CounterRespone {
    CounterRespone::UpdateCounter { key: "COUNTER".to_string(), old, new, create }
}

#[test]
fn test_g_counter() {
    let mut n1 = node("n1");
    let out = step(&mut n1, input("c1", Some(1), CounterRequest::Add { delta: 10 }));
    assert_eq!(out.outputs, vec![reply(0, Some(1), "c1", CounterRespone::AddOk)]);
    let out = step(&mut n1, input("c1", Some(2), CounterRequest::Read));
    assert_eq!(out.outputs, vec![reply(1, Some(2), "c1", CounterRespone::ReadOk { value: 10 })]);
    let out = step(&mut n1, Event::Tick);
    assert_eq!(
        out.outputs,
        vec![reply(2, None, "seq-kv", CounterRespone::ReadCounter { key: "COUNTER".to_string() })]
    );
    let out = step(&mut n1, input("seq-kv", Some(1), CounterRequest::ReadCounterOk { value: 10 }));
    assert_eq!(out.outputs, vec![reply(3, Some(1), "seq-kv", cas(10, 20, false))]);
    let out = step(&mut n1, input("seq-kv", Some(2), CounterRequest::CounterUpdated));
    assert!(out.outputs.is_empty());
    let out = step(&mut n1, input("c1", Some(3), CounterRequest::Read));
    assert_eq!(out.outputs, vec![reply(4, Some(3), "c1", CounterRespone::ReadOk { value: 20 })]);
}

#[test]
fn counter_happy_path() {
    let mut n1 = node("n1");
    let out = step(&mut n1, input("c1", Some(1), CounterRequest::Add { delta: 10 }));
    assert!(!out.force_tick);
    let out = step(&mut n1, Event::Tick);
    assert_eq!(
        out.outputs,
        vec![reply(1, None, "seq-kv", CounterRespone::ReadCounter { key: "COUNTER".to_string() })]
    );
    assert!(!out.force_tick);
    assert!(!out.close);
    let out = step(&mut n1, input("seq-kv", Some(0), CounterRequest::ReadCounterOk { value: 0 }));
    assert_eq!(out.outputs, vec![reply(2, Some(0), "seq-kv", cas(0, 10, false))]);
    let out = step(&mut n1, input("seq-kv", Some(1), CounterRequest::CounterUpdated));
    assert!(out.outputs.is_empty());
    assert!(!out.force_tick);
    assert_eq!(read(&mut n1), 10);
}

#[test]
fn counter_cas_conflict_is_retried_from_the_fresh_value() {
    let mut n1 = node("n1");
    step(&mut n1, input("c1", Some(1), CounterRequest::Add { delta: 10 }));
    step(&mut n1, Event::Tick);
    let out = step(&mut n1, input("seq-kv", Some(0), CounterRequest::ReadCounterOk { value: 0 }));
    assert_eq!(out.outputs[0].body.payload, cas(0, 10, false));
    let out = step(&mut n1, error(ErrorCode::PreconditionFailed));
    assert!(out.outputs.is_empty());
    assert!(out.force_tick);
    // nothing waits, so the tick reads again
    let out = step(&mut n1, Event::Tick);
    assert_eq!(
        out.outputs[0].body.payload,
        CounterRespone::ReadCounter { key: "COUNTER".to_string() }
    );
    let out = step(&mut n1, input("seq-kv", Some(1), CounterRequest::ReadCounterOk { value: 5 }));
    assert_eq!(out.outputs[0].body.payload, cas(5, 15, false));
    step(&mut n1, input("seq-kv", Some(2), CounterRequest::CounterUpdated));
    assert_eq!(read(&mut n1), 15);
}

#[test]
fn no_increment_is_lost_after_many_conflicts() {
    let mut n1 = node("n1");
    let mut accepted = 0;
    let mut store = 0;
    for round in 1..=5 {
        step(&mut n1, input("c1", Some(round), CounterRequest::Add { delta: round }));
        accepted += round;
        step(&mut n1, Event::Tick);
        let out = step(&mut n1, input("seq-kv", Some(0), CounterRequest::ReadCounterOk { value: store }));
        assert_eq!(out.outputs[0].body.payload, cas(store, store + accepted, false));
        // another node wins the race
        store += 100;
        let out = step(&mut n1, error(ErrorCode::PreconditionFailed));
        assert!(out.force_tick);
    }
    step(&mut n1, Event::Tick);
    let out = step(&mut n1, input("seq-kv", Some(0), CounterRequest::ReadCounterOk { value: store }));
    assert_eq!(out.outputs[0].body.payload, cas(500, 515, false));
    step(&mut n1, input("seq-kv", Some(1), CounterRequest::CounterUpdated));
    assert_eq!(read(&mut n1), 515);
}

#[test]
fn tick_sends_the_waiting_swap_again_with_its_message_id() {
    let mut n1 = node("n1");
    step(&mut n1, input("c1", Some(1), CounterRequest::Add { delta: 4 }));
    step(&mut n1, Event::Tick);
    let out = step(&mut n1, input("seq-kv", Some(0), CounterRequest::ReadCounterOk { value: 3 }));
    assert_eq!(out.outputs, vec![reply(2, Some(0), "seq-kv", cas(3, 7, false))]);
    for _ in 0..3 {
        let out = step(&mut n1, Event::Tick);
        assert_eq!(out.outputs, vec![reply(2, None, "seq-kv", cas(3, 7, false))]);
    }
    // the ticks took no new message id
    let out = step(&mut n1, input("c1", Some(2), CounterRequest::Add { delta: 1 }));
    assert_eq!(out.outputs[0].body.id, Some(3));
}

#[test]
fn store_value_without_increments_starts_no_swap() {
    let mut n1 = node("n1");
    let out = step(&mut n1, input("seq-kv", Some(0), CounterRequest::ReadCounterOk { value: 12 }));
    assert!(out.outputs.is_empty());
    assert!(!out.force_tick);
    assert_eq!(read(&mut n1), 12);
    let out = step(&mut n1, Event::Tick);
    assert_eq!(
        out.outputs[0].body.payload,
        CounterRespone::ReadCounter { key: "COUNTER".to_string() }
    );
}

#[test]
fn missing_key_is_created() {
    let mut n1 = node("n1");
    step(&mut n1, Event::Tick);
    let out = step(&mut n1, error(ErrorCode::KeyDoesNotExist));
    assert_eq!(out.outputs, vec![reply(1, Some(7), "seq-kv", cas(0, 0, true))]);
    assert!(!out.force_tick);
}

#[test]
fn error_takes_the_staged_increments_back() {
    for code in [
        ErrorCode::KeyDoesNotExist,
        ErrorCode::PreconditionFailed,
        ErrorCode::Timeout,
        ErrorCode::KeyAlreadyExists,
    ] {
        let mut n1 = node("n1");
        step(&mut n1, input("c1", Some(1), CounterRequest::Add { delta: 6 }));
        step(&mut n1, input("seq-kv", Some(0), CounterRequest::ReadCounterOk { value: 1 }));
        step(&mut n1, input("c1", Some(2), CounterRequest::Add { delta: 2 }));
        let out = step(&mut n1, error(code));
        assert!(out.force_tick);
        assert_eq!(out.outputs.len(), if code == ErrorCode::KeyDoesNotExist { 1 } else { 0 });
        // the swap is gone: the next tick reads, and the next value stages all eight
        let out = step(&mut n1, Event::Tick);
        assert_eq!(
            out.outputs[0].body.payload,
            CounterRespone::ReadCounter { key: "COUNTER".to_string() }
        );
        let out = step(&mut n1, input("seq-kv", Some(3), CounterRequest::ReadCounterOk { value: 1 }));
        assert_eq!(out.outputs[0].body.payload, cas(1, 9, false));
    }
}

#[test]
fn error_without_a_waiting_swap_asks_for_no_tick() {
    let mut n1 = node("n1");
    let out = step(&mut n1, error(ErrorCode::Timeout));
    assert!(out.outputs.is_empty());
    assert!(!out.force_tick);
}

#[test]
fn unexpected_error_code_is_handed_back() {
    for code in [
        ErrorCode::NodeNotFound,
        ErrorCode::NotSupported,
        ErrorCode::TemporarilyUnavailable,
        ErrorCode::MalformedRequest,
        ErrorCode::Crash,
        ErrorCode::Abort,
        ErrorCode::TxnConflict,
    ] {
        let mut n1 = node("n1");
        step(&mut n1, input("c1", Some(1), CounterRequest::Add { delta: 6 }));
        step(&mut n1, input("seq-kv", Some(0), CounterRequest::ReadCounterOk { value: 1 }));
        let event = error(code);
        assert!(n1.fits(&event));
        assert_eq!(n1.handle_event(event), Err(CounterError::Unhandled(code)));
        // the staged increments were taken back all the same
        let out = step(&mut n1, input("seq-kv", Some(3), CounterRequest::ReadCounterOk { value: 1 }));
        assert_eq!(out.outputs[0].body.payload, cas(1, 7, false));
    }
}

#[test]
fn handle_input_payload_says_what_to_reply() {
    let mut n1 = node("n1");
    assert_eq!(
        n1.handle_input_payload(CounterRequest::Add { delta: 3 }),
        Ok((Some(CounterRespone::AddOk), false))
    );
    assert_eq!(
        n1.handle_input_payload(CounterRequest::Read),
        Ok((Some(CounterRespone::ReadOk { value: 3 }), true))
    );
    assert_eq!(
        n1.handle_input_payload(CounterRequest::ReadCounterOk { value: 4 }),
        Ok((Some(cas(4, 7, false)), false))
    );
    assert_eq!(n1.handle_input_payload(CounterRequest::CounterUpdated), Ok((None, false)));
    assert_eq!(n1.handle_input_payload(CounterRequest::Read), Ok((Some(CounterRespone::ReadOk { value: 7 }), true)));
}

#[test]
fn reads_do_not_fall_while_the_store_keeps_up() {
    let mut n1 = node("n1");
    let mut last = read(&mut n1);
    let events = vec![
        input("c1", Some(1), CounterRequest::Add { delta: 5 }),
        Event::Tick,
        input("seq-kv", Some(0), CounterRequest::ReadCounterOk { value: 2 }),
        input("c1", Some(2), CounterRequest::Add { delta: 1 }),
        input("seq-kv", Some(1), CounterRequest::CounterUpdated),
        Event::Tick,
        input("seq-kv", Some(2), CounterRequest::ReadCounterOk { value: 7 }),
        error(ErrorCode::Timeout),
        Event::Tick,
        input("seq-kv", Some(3), CounterRequest::ReadCounterOk { value: 8 }),
    ];
    for event in events {
        step(&mut n1, event);
        let now = read(&mut n1);
        assert!(last <= now);
        last = now;
    }
    assert_eq!(last, 9);
}

#[test]
fn reading_falls_when_the_store_answers_with_less_than_recorded() {
    let mut n1 = node("n1");
    step(&mut n1, input("c1", Some(1), CounterRequest::Add { delta: 10 }));
    step(&mut n1, input("seq-kv", Some(0), CounterRequest::ReadCounterOk { value: 0 }));
    step(&mut n1, error(ErrorCode::PreconditionFailed));
    assert_eq!(read(&mut n1), 20);
    step(&mut n1, input("seq-kv", Some(1), CounterRequest::ReadCounterOk { value: 0 }));
    assert_eq!(read(&mut n1), 10);
}

#[test]
fn sums_that_do_not_fit_are_told_apart() {
    let mut n1 = node("n1");
    step(&mut n1, input("c1", Some(1), CounterRequest::Add { delta: usize::MAX }));
    assert!(!n1.fits(&input("c1", Some(2), CounterRequest::Add { delta: 1 })));
    assert!(n1.fits(&input("c1", Some(2), CounterRequest::Add { delta: 0 })));
    assert!(!n1.fits(&input("seq-kv", Some(2), CounterRequest::ReadCounterOk { value: 1 })));
    assert!(n1.fits(&input("seq-kv", Some(2), CounterRequest::ReadCounterOk { value: 0 })));
    assert!(n1.fits(&Event::Tick));
    assert!(n1.fits(&Event::Close));
}

#[test]
fn close_stops_the_counter() {
    let mut n1 = node("n1");
    let out = step(&mut n1, Event::Close);
    assert!(out.close);
    assert!(out.outputs.is_empty());
    assert!(!out.force_tick);
}

#[test]
fn counter_events_are_handled_in_order_until_close() {
    let mut n1 = node("n1");
    let run = n1.handle_events(vec![
        input("c1", Some(1), CounterRequest::Add { delta: 10 }),
        Event::Tick,
        input("seq-kv", Some(0), CounterRequest::ReadCounterOk { value: 0 }),
        input("seq-kv", Some(1), CounterRequest::CounterUpdated),
        input("c1", Some(2), CounterRequest::Read),
        Event::Close,
        input("c1", Some(3), CounterRequest::Add { delta: 1 }),
    ]);
    assert!(run.close);
    assert!(run.force_tick);
    assert_eq!(run.failed, None);
    assert_eq!(
        run.outputs,
        vec![
            reply(0, Some(1), "c1", CounterRespone::AddOk),
            reply(1, None, "seq-kv", CounterRespone::ReadCounter { key: "COUNTER".to_string() }),
            reply(2, Some(0), "seq-kv", cas(0, 10, false)),
            reply(3, Some(2), "c1", CounterRespone::ReadOk { value: 10 }),
        ]
    );
    assert_eq!(read(&mut n1), 10);
}

#[test]
fn events_end_with_the_first_unexpected_error() {
    let mut n1 = node("n1");
    let run = n1.handle_events(vec![
        input("c1", Some(1), CounterRequest::Add { delta: 10 }),
        error(ErrorCode::Crash),
        input("c1", Some(2), CounterRequest::Add { delta: 1 }),
        Event::Close,
    ]);
    assert!(!run.close);
    assert!(!run.force_tick);
    assert_eq!(run.failed, Some(CounterError::Unhandled(ErrorCode::Crash)));
    assert_eq!(run.outputs, vec![reply(0, Some(1), "c1", CounterRespone::AddOk)]);
    assert_eq!(read(&mut n1), 10);
}

#[test]
fn no_events_change_nothing() {
    let mut n1 = node("n1");
    let run = n1.handle_events(Vec::new());
    assert!(!run.close);
    assert!(!run.force_tick);
    assert_eq!(run.failed, None);
    assert!(run.outputs.is_empty());
    assert_eq!(read(&mut n1), 0);
}

#[test]
fn tick_talks_to_the_store() {
    let mut n1 = node("n1");
    assert_eq!(
        n1.handle_tick(),
        reply(0, None, "seq-kv", CounterRespone::ReadCounter { key: "COUNTER".to_string() })
    );
    assert_eq!(
        n1.handle_tick(),
        reply(1, None, "seq-kv", CounterRespone::ReadCounter { key: "COUNTER".to_string() })
    );
}

/// A store that answers faithfully: reads with its value, swaps by swapping
/// where the value is what the swap starts from, and by refusing otherwise.
fn store_answer(value: &mut usize, request: &Message<CounterRespone>) -> Event {
    assert_eq!(request.dst, "seq-kv");
    let payload = match &request.body.payload {
        CounterRespone::ReadCounter { key } => {
            assert_eq!(key, "COUNTER");
            CounterRequest::ReadCounterOk { value: *value }
        }
        CounterRespone::UpdateCounter { key, old, new, create } => {
            assert_eq!(key, "COUNTER");
            assert!(!create);
            if *old == *value {
                *value = *new;
                CounterRequest::CounterUpdated
            } else {
                CounterRequest::Error {
                    code: ErrorCode::PreconditionFailed,
                    text: "conflict".to_string(),
                }
            }
        }
        other => panic!("not for the store: {:?}", other),
    };
    Event::Input(Message {
        src: "seq-kv".to_string(),
        dst: request.src.clone(),
        body: Body { id: Some(0), reply_id: request.body.id, payload },
    })
}

#[test]
fn nodes_settle_on_the_sum_of_all_increments() {
    let mut store = 0;
    let mut nodes = vec![node("n1"), node("n2"), node("n3")];
    let mut accepted = 0;
    // every node accepts increments and starts a swap from the same value
    let mut swaps = Vec::new();
    for (i, n) in nodes.iter_mut().enumerate() {
        for delta in [1, 10 * (i + 1)] {
            step(n, input("c1", Some(1), CounterRequest::Add { delta }));
            accepted += delta;
        }
        let read = step(n, Event::Tick).outputs;
        let answer = store_answer(&mut store, &read[0]);
        swaps.push(step(n, answer).outputs);
    }
    // the store takes the first swap and refuses the others
    for (n, swap) in nodes.iter_mut().zip(&swaps) {
        let answer = store_answer(&mut store, &swap[0]);
        step(n, answer);
    }
    assert_eq!(store, 11);
    // the nodes whose swap was refused read again and swap from the fresh value
    for _ in 0..3 {
        for n in nodes.iter_mut() {
            let out = step(n, Event::Tick).outputs;
            let answer = store_answer(&mut store, &out[0]);
            let out = step(n, answer).outputs;
            if let Some(swap) = out.first() {
                let answer = store_answer(&mut store, swap);
                step(n, answer);
            }
        }
    }
    assert_eq!(accepted, 63);
    assert_eq!(store, 63);
    for n in nodes.iter_mut() {
        assert_eq!(read(n), 63);
    }
}
