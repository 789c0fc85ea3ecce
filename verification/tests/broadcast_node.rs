use gossip_glomers::broadcast::{BroadcastRequest, BroadcastRespone, Event, EventHandler, Step};
use gossip_glomers::init::InitRequest;
use gossip_glomers::message::{Body, Message};
use rustc_hash::{FxHashMap, FxHashSet};

fn node(name: &str, roster: &[&str], force: bool) -> EventHandler {
    EventHandler::new(
        InitRequest::Init {
            node_id: name.to_string(),
            node_ids: roster.iter().map(|n| n.to_string()).collect(),
        },
        force,
    )
}

fn input(src: &str, dst: &str, id: Option<usize>, payload: BroadcastRequest) -> Event {
    Event::Input(Message {
        src: src.to_string(),
        dst: dst.to_string(),
        body: Body { id, reply_id: None, payload },
    })
}

fn set(values: &[usize]) -> FxHashSet<usize> {
    values.iter().copied().collect()
}

fn topology(entries: &[(&str, &[&str])]) -> BroadcastRequest {
    let mut map: FxHashMap<String, Vec<String>> = FxHashMap::default();
    for (name, peers) in entries {
        map.insert(name.to_string(), peers.iter().map(|p| p.to_string()).collect());
    }
    BroadcastRequest::Topology { topology: map }
}

fn step(handler: &mut EventHandler, event: Event) -> Step {
    assert!(handler.fits(&event));
    handler.handle_event(event)
}

fn read(handler: &mut EventHandler) -> FxHashSet<usize> {
    let out = step(handler, input("c1", "n", Some(99), BroadcastRequest::Read));
    assert_eq!(out.outputs.len(), 1);
    match &out.outputs[0].body.payload {
        BroadcastRespone::ReadOk { messages } => messages.clone(),
        other => panic!("not a read_ok: {:?}", other),
    }
}

/// What arrives when a gossip message crosses the wire.
fn deliver(sent: &Message<BroadcastRespone>) -> Event {
    match &sent.body.payload {
        BroadcastRespone::Consensus { seen, seen_ack } => Event::Input(Message {
            src: sent.src.clone(),
            dst: sent.dst.clone(),
            body: Body {
                id: sent.body.id,
                reply_id: sent.body.reply_id,
                payload: BroadcastRequest::Consensus {
                    seen: seen.iter().copied().collect(),
                    seen_ack: seen_ack.clone(),
                },
            },
        }),
        other => panic!("not gossip: {:?}", other),
    }
}

fn gossip_parts(m: &Message<BroadcastRespone>) -> (FxHashSet<usize>, FxHashSet<usize>) {
    match &m.body.payload {
        BroadcastRespone::Consensus { seen, seen_ack } => {
            let seen_set: FxHashSet<usize> = seen.iter().copied().collect();
            let ack_set: FxHashSet<usize> = seen_ack.iter().copied().collect();
            assert_eq!(seen_set.len(), seen.len());
            assert_eq!(ack_set.len(), seen_ack.len());
            (seen_set, ack_set)
        }
        other => panic!("not gossip: {:?}", other),
    }
}

#[test]
fn test_broadcast() {
    let mut n1 = node("n1", &["n1", "n2"], true);
    let out = step(&mut n1, input("c1", "n1", Some(1), BroadcastRequest::Read));
    assert_eq!(
        out.outputs,
        vec![Message {
            src: "n1".to_string(),
            dst: "c1".to_string(),
            body: Body {
                id: Some(0),
                reply_id: Some(1),
                payload: BroadcastRespone::ReadOk { messages: set(&[]) },
            },
        }]
    );
    let out = step(&mut n1, input("c1", "n1", Some(2), BroadcastRequest::Broadcast { message: 1000 }));
    assert_eq!(
        out.outputs,
        vec![Message {
            src: "n1".to_string(),
            dst: "c1".to_string(),
            body: Body { id: Some(1), reply_id: Some(2), payload: BroadcastRespone::BroadcastOk },
        }]
    );
    let out = step(&mut n1, input("c1", "n1", Some(3), topology(&[("n1", &["n2", "n3"])])));
    assert_eq!(
        out.outputs,
        vec![Message {
            src: "n1".to_string(),
            dst: "c1".to_string(),
            body: Body { id: Some(2), reply_id: Some(3), payload: BroadcastRespone::TopologyOk },
        }]
    );
}

#[test]
fn broadcast_single_node_reads_what_was_broadcast() {
    let mut n1 = node("n1", &["n1"], true);
    let out = step(&mut n1, input("c1", "n1", Some(2), BroadcastRequest::Broadcast { message: 42 }));
    assert_eq!(out.outputs.len(), 1);
    assert_eq!(out.outputs[0].body.payload, BroadcastRespone::BroadcastOk);
    assert_eq!(out.outputs[0].body.reply_id, Some(2));
    assert!(out.force_tick);
    assert!(!out.close);
    let out = step(&mut n1, input("c1", "n1", Some(3), BroadcastRequest::Read));
    assert_eq!(out.outputs.len(), 1);
    assert_eq!(out.outputs[0].body.payload, BroadcastRespone::ReadOk { messages: set(&[42]) });
    assert_eq!(out.outputs[0].body.reply_id, Some(3));
    assert_eq!(out.outputs[0].body.id, Some(1));
    assert!(!out.force_tick);
}

#[test]
fn broadcast_of_a_known_value_asks_for_no_tick() {
    let mut n1 = node("n1", &["n1"], true);
    assert!(step(&mut n1, input("c1", "n1", Some(1), BroadcastRequest::Broadcast { message: 7 })).force_tick);
    assert!(!step(&mut n1, input("c1", "n1", Some(2), BroadcastRequest::Broadcast { message: 7 })).force_tick);
    assert_eq!(read(&mut n1), set(&[7]));
}

#[test]
fn without_force_news_asks_for_no_tick() {
    let mut n1 = node("n1", &["n1", "n2"], false);
    assert!(!step(&mut n1, input("c1", "n1", Some(1), BroadcastRequest::Broadcast { message: 7 })).force_tick);
    let gossip = input(
        "n2",
        "n1",
        None,
        BroadcastRequest::Consensus { seen: set(&[8]), seen_ack: vec![] },
    );
    assert!(!step(&mut n1, gossip).force_tick);
    assert_eq!(read(&mut n1), set(&[7, 8]));
}

#[test]
fn close_stops_and_changes_nothing() {
    let mut n1 = node("n1", &["n1", "n2"], true);
    step(&mut n1, input("c1", "n1", Some(1), BroadcastRequest::Broadcast { message: 5 }));
    let out = step(&mut n1, Event::Close);
    assert!(out.close);
    assert!(out.outputs.is_empty());
    assert!(!out.force_tick);
    assert_eq!(read(&mut n1), set(&[5]));
}

#[test]
fn tick_without_news_sends_nothing() {
    let mut n1 = node("n1", &["n1", "n2", "n3"], true);
    let out = step(&mut n1, Event::Tick);
    assert!(out.outputs.is_empty());
    assert!(!out.close);
}

#[test]
fn tick_defaults_to_the_other_nodes_of_the_roster() {
    let mut n1 = node("n1", &["n1", "n2", "n3"], true);
    step(&mut n1, input("c1", "n1", Some(1), BroadcastRequest::Broadcast { message: 3 }));
    let out = step(&mut n1, Event::Tick);
    let mut targets: Vec<String> = out.outputs.iter().map(|m| m.dst.clone()).collect();
    targets.sort();
    assert_eq!(targets, vec!["n2".to_string(), "n3".to_string()]);
    for m in &out.outputs {
        assert_eq!(m.src, "n1");
        assert_eq!(m.body.id, None);
        assert_eq!(m.body.reply_id, None);
        assert_eq!(gossip_parts(m), (set(&[3]), set(&[])));
    }
}

#[test]
fn topology_sets_the_neighbours() {
    let mut n1 = node("n1", &["n1", "n2", "n3"], true);
    step(&mut n1, input("c1", "n1", Some(1), topology(&[("n1", &["n3"]), ("n2", &["n1"])])));
    step(&mut n1, input("c1", "n1", Some(2), BroadcastRequest::Broadcast { message: 3 }));
    let out = step(&mut n1, Event::Tick);
    assert_eq!(out.outputs.len(), 1);
    assert_eq!(out.outputs[0].dst, "n3");
}

#[test]
fn topology_without_this_node_changes_nothing() {
    let mut n1 = node("n1", &["n1", "n2", "n3"], true);
    step(&mut n1, input("c1", "n1", Some(1), topology(&[("n1", &["n3"])])));
    step(&mut n1, input("c1", "n1", Some(2), topology(&[("n2", &["n1"])])));
    step(&mut n1, input("c1", "n1", Some(3), BroadcastRequest::Broadcast { message: 3 }));
    let out = step(&mut n1, Event::Tick);
    assert_eq!(out.outputs.len(), 1);
    assert_eq!(out.outputs[0].dst, "n3");
}

#[test]
fn gossip_gets_no_reply_and_is_acknowledged_on_the_next_tick() {
    let mut n1 = node("n1", &["n1", "n2"], true);
    let gossip = input(
        "n2",
        "n1",
        None,
        BroadcastRequest::Consensus { seen: set(&[4, 5]), seen_ack: vec![] },
    );
    let out = step(&mut n1, gossip);
    assert!(out.outputs.is_empty());
    assert!(out.force_tick);
    assert_eq!(read(&mut n1), set(&[4, 5]));
    let out = step(&mut n1, Event::Tick);
    assert_eq!(out.outputs.len(), 1);
    assert_eq!(out.outputs[0].dst, "n2");
    assert_eq!(gossip_parts(&out.outputs[0]), (set(&[4, 5]), set(&[4, 5])));
    // the acknowledgement was handed out, the news stays owed
    let out = step(&mut n1, Event::Tick);
    assert_eq!(out.outputs.len(), 1);
    assert_eq!(gossip_parts(&out.outputs[0]), (set(&[4, 5]), set(&[])));
}

#[test]
fn acknowledged_values_are_not_sent_again() {
    let mut n1 = node("n1", &["n1", "n2"], true);
    step(&mut n1, input("c1", "n1", Some(1), BroadcastRequest::Broadcast { message: 1 }));
    step(&mut n1, input("c1", "n1", Some(2), BroadcastRequest::Broadcast { message: 2 }));
    let ack = input(
        "n2",
        "n1",
        None,
        BroadcastRequest::Consensus { seen: set(&[]), seen_ack: vec![1] },
    );
    let out = step(&mut n1, ack);
    assert!(!out.force_tick);
    let out = step(&mut n1, Event::Tick);
    assert_eq!(out.outputs.len(), 1);
    assert_eq!(gossip_parts(&out.outputs[0]), (set(&[2]), set(&[])));
}

#[test]
fn gossip_delivered_twice_is_gossip_delivered_once() {
    let mut once = node("n1", &["n1", "n2"], true);
    let mut twice = node("n1", &["n1", "n2"], true);
    for n in [&mut once, &mut twice] {
        step(n, input("c1", "n1", Some(1), BroadcastRequest::Broadcast { message: 1 }));
    }
    let gossip = || {
        input(
            "n2",
            "n1",
            None,
            BroadcastRequest::Consensus { seen: set(&[2, 3]), seen_ack: vec![1] },
        )
    };
    step(&mut once, gossip());
    step(&mut twice, gossip());
    let second = step(&mut twice, gossip());
    assert!(second.outputs.is_empty());
    assert!(!second.force_tick);
    assert_eq!(read(&mut once), read(&mut twice));
    let a = step(&mut once, Event::Tick);
    let b = step(&mut twice, Event::Tick);
    assert_eq!(a.outputs.len(), 1);
    assert_eq!(b.outputs.len(), 1);
    assert_eq!(gossip_parts(&a.outputs[0]), gossip_parts(&b.outputs[0]));
    assert_eq!(gossip_parts(&a.outputs[0]), (set(&[2, 3]), set(&[2, 3])));
}

#[test]
fn gossip_from_a_node_outside_the_roster_is_kept_and_acknowledged() {
    let mut n1 = node("n1", &["n1", "n2"], true);
    step(&mut n1, input("c1", "n1", Some(1), topology(&[("n1", &["n9"])])));
    let gossip = input(
        "n9",
        "n1",
        None,
        BroadcastRequest::Consensus { seen: set(&[6]), seen_ack: vec![] },
    );
    step(&mut n1, gossip);
    let out = step(&mut n1, Event::Tick);
    assert_eq!(out.outputs.len(), 1);
    assert_eq!(out.outputs[0].dst, "n9");
    assert_eq!(gossip_parts(&out.outputs[0]), (set(&[6]), set(&[6])));
}

#[test]
fn reads_only_grow() {
    let mut n1 = node("n1", &["n1", "n2"], true);
    let mut last = read(&mut n1);
    let events = vec![
        input("c1", "n1", Some(1), BroadcastRequest::Broadcast { message: 1 }),
        Event::Tick,
        input("n2", "n1", None, BroadcastRequest::Consensus { seen: set(&[9]), seen_ack: vec![1] }),
        input("c1", "n1", Some(2), topology(&[("n1", &["n2"])])),
        Event::Tick,
        input("c1", "n1", Some(3), BroadcastRequest::Broadcast { message: 1 }),
        input("n2", "n1", None, BroadcastRequest::Consensus { seen: set(&[]), seen_ack: vec![9] }),
    ];
    for event in events {
        step(&mut n1, event);
        let now = read(&mut n1);
        assert!(last.is_subset(&now));
        last = now;
    }
    assert_eq!(last, set(&[1, 9]));
}

#[test]
fn two_nodes_converge_within_two_ticks() {
    let mut n1 = node("n1", &["n1", "n2"], true);
    let mut n2 = node("n2", &["n1", "n2"], true);
    step(&mut n1, input("c1", "n1", Some(1), topology(&[("n1", &["n2"]), ("n2", &["n1"])])));
    step(&mut n2, input("c1", "n2", Some(1), topology(&[("n1", &["n2"]), ("n2", &["n1"])])));
    step(&mut n1, input("c1", "n1", Some(2), BroadcastRequest::Broadcast { message: 1 }));
    step(&mut n2, input("c2", "n2", Some(2), BroadcastRequest::Broadcast { message: 2 }));
    let from_n1 = step(&mut n1, Event::Tick).outputs;
    let from_n2 = step(&mut n2, Event::Tick).outputs;
    for m in &from_n1 {
        step(&mut n2, deliver(m));
    }
    for m in &from_n2 {
        step(&mut n1, deliver(m));
    }
    assert_eq!(read(&mut n1), set(&[1, 2]));
    assert_eq!(read(&mut n2), set(&[1, 2]));
    // the exchanges that follow only acknowledge, and then the nodes fall silent
    let mut rounds = 0;
    loop {
        let from_n1 = step(&mut n1, Event::Tick).outputs;
        let from_n2 = step(&mut n2, Event::Tick).outputs;
        if from_n1.is_empty() && from_n2.is_empty() {
            break;
        }
        for m in &from_n1 {
            step(&mut n2, deliver(m));
        }
        for m in &from_n2 {
            step(&mut n1, deliver(m));
        }
        rounds += 1;
        assert!(rounds <= 3);
    }
    assert_eq!(rounds, 3);
    assert_eq!(read(&mut n1), set(&[1, 2]));
    assert_eq!(read(&mut n2), set(&[1, 2]));
}

#[test]
fn partition_heals() {
    let mut n1 = node("n1", &["n1", "n2"], true);
    let mut n2 = node("n2", &["n1", "n2"], true);
    step(&mut n1, input("c1", "n1", Some(1), BroadcastRequest::Broadcast { message: 7 }));
    step(&mut n2, input("c2", "n2", Some(1), BroadcastRequest::Broadcast { message: 8 }));
    // partitioned: what the ticks send is lost
    for _ in 0..3 {
        assert_eq!(step(&mut n1, Event::Tick).outputs.len(), 1);
        assert_eq!(step(&mut n2, Event::Tick).outputs.len(), 1);
    }
    assert_eq!(read(&mut n1), set(&[7]));
    assert_eq!(read(&mut n2), set(&[8]));
    // healed: the next tick sends everything again
    let from_n1 = step(&mut n1, Event::Tick).outputs;
    let from_n2 = step(&mut n2, Event::Tick).outputs;
    assert_eq!(gossip_parts(&from_n1[0]), (set(&[7]), set(&[])));
    assert_eq!(gossip_parts(&from_n2[0]), (set(&[8]), set(&[])));
    step(&mut n2, deliver(&from_n1[0]));
    step(&mut n1, deliver(&from_n2[0]));
    assert_eq!(read(&mut n1), set(&[7, 8]));
    assert_eq!(read(&mut n2), set(&[7, 8]));
}

#[test]
fn tick_counts_the_messages_it_sends() {
    let mut n1 = node("n1", &["n1", "n2", "n3"], true);
    step(&mut n1, input("c1", "n1", Some(1), BroadcastRequest::Broadcast { message: 3 }));
    assert_eq!(step(&mut n1, Event::Tick).outputs.len(), 2);
    let out = step(&mut n1, input("c1", "n1", Some(2), BroadcastRequest::Read));
    // one reply and two gossip messages went out before
    assert_eq!(out.outputs[0].body.id, Some(3));
}

#[test]
fn events_are_handled_in_order_until_close() {
    let mut n1 = node("n1", &["n1", "n2"], true);
    let run = n1.handle_events(vec![
        input("c1", "n1", Some(1), BroadcastRequest::Broadcast { message: 42 }),
        Event::Tick,
        input("c1", "n1", Some(2), BroadcastRequest::Read),
        Event::Close,
        input("c1", "n1", Some(3), BroadcastRequest::Broadcast { message: 43 }),
    ]);
    assert!(run.close);
    assert!(run.force_tick);
    assert_eq!(run.outputs.len(), 3);
    assert_eq!(run.outputs[0].body.payload, BroadcastRespone::BroadcastOk);
    assert_eq!(run.outputs[0].body.id, Some(0));
    assert_eq!(run.outputs[1].dst, "n2");
    assert_eq!(gossip_parts(&run.outputs[1]), (set(&[42]), set(&[])));
    assert_eq!(run.outputs[2].body.payload, BroadcastRespone::ReadOk { messages: set(&[42]) });
    assert_eq!(run.outputs[2].body.id, Some(2));
    // what stood behind the close was not handled
    assert_eq!(read(&mut n1), set(&[42]));
}

#[test]
fn events_without_close_are_all_handled() {
    let mut n1 = node("n1", &["n1"], false);
    let run = n1.handle_events(vec![
        input("c1", "n1", Some(1), BroadcastRequest::Broadcast { message: 1 }),
        input("c1", "n1", Some(2), BroadcastRequest::Broadcast { message: 2 }),
    ]);
    assert!(!run.close);
    assert!(!run.force_tick);
    assert_eq!(run.outputs.len(), 2);
    assert_eq!(read(&mut n1), set(&[1, 2]));
    let run = n1.handle_events(Vec::new());
    assert_eq!(run, Step { outputs: Vec::new(), force_tick: false, close: false });
}

#[test]
fn handle_input_payload_says_what_to_reply_and_whether_to_tick() {
    let mut n1 = node("n1", &["n1", "n2"], true);
    assert_eq!(
        n1.handle_input_payload(BroadcastRequest::Broadcast { message: 5 }, "c1"),
        (Some(BroadcastRespone::BroadcastOk), true)
    );
    assert_eq!(
        n1.handle_input_payload(BroadcastRequest::Read, "c1"),
        (Some(BroadcastRespone::ReadOk { messages: set(&[5]) }), false)
    );
    assert_eq!(
        n1.handle_input_payload(topology(&[("n1", &["n2"])]), "c1"),
        (Some(BroadcastRespone::TopologyOk), false)
    );
    assert_eq!(
        n1.handle_input_payload(
            BroadcastRequest::Consensus { seen: set(&[5]), seen_ack: vec![5] },
            "n2"
        ),
        (None, false)
    );
    assert_eq!(
        n1.handle_input_payload(
            BroadcastRequest::Consensus { seen: set(&[5, 6]), seen_ack: vec![] },
            "n2"
        ),
        (None, true)
    );
    // n2 acknowledged 5, so only 6 is news for it, and its last news is acknowledged
    let out = n1.handle_tick();
    assert_eq!(out.len(), 1);
    assert_eq!(gossip_parts(&out[0]), (set(&[6]), set(&[5, 6])));
}
