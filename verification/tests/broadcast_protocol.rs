use distributed_systems::broadcast::BroadcastNode;
use distributed_systems::broadcast::BroadcastPayload;
use distributed_systems::broadcast::BroadcastTimer;
use distributed_systems::protocol::Body;
use distributed_systems::protocol::Event;
use distributed_systems::protocol::Init;
use distributed_systems::protocol::Message;
use distributed_systems::protocol::NodeError;

fn init_two() -> Init {
    Init {
        node_id: "n1".to_string(),
        node_ids: vec!["n1".to_string(), "n2".to_string()],
    }
}

fn msg(src: &str, dst: &str, id: Option<usize>, payload: BroadcastPayload) -> Message<BroadcastPayload> {
    Message {
        src: src.to_string(),
        dst: dst.to_string(),
        body: Body { id, in_reply_to: None, payload },
    }
}

fn topology_n1_to_n2() -> BroadcastPayload {
    BroadcastPayload::Topology {
        topology: vec![("n1".to_string(), vec!["n2".to_string()])],
    }
}

#[test]
fn topology_then_empty_gossip() {
    // Scenario: a topology assignment is acknowledged, and while no value has
    // arrived, every tick sends empty gossip to the one neighbor.
    let mut n1 = BroadcastNode::from_init(init_two());
    let out = n1
        .step(Event::Message(msg("c1", "n1", Some(1), topology_n1_to_n2())))
        .unwrap();
    assert_eq!(out.len(), 1);
    assert_eq!(out[0].src, "n1");
    assert_eq!(out[0].dst, "c1");
    assert_eq!(out[0].body.in_reply_to, Some(1));
    assert!(matches!(out[0].body.payload, BroadcastPayload::TopologyOk));

    let gossip = n1.step(Event::Injected(BroadcastTimer::Gossip)).unwrap();
    assert_eq!(gossip.len(), 1);
    assert_eq!(gossip[0].src, "n1");
    assert_eq!(gossip[0].dst, "n2");
    match &gossip[0].body.payload {
        BroadcastPayload::Gossip { seen } => assert!(seen.is_empty()),
        other => panic!("expected gossip, got {:?}", payload_tag(other)),
    }
}

#[test]
fn broadcast_then_read() {
    // Scenario: one value broadcast to a node shows up in its read snapshot.
    let mut n1 = BroadcastNode::from_init(init_two());
    let out = n1
        .step(Event::Message(msg("c1", "n1", Some(1), BroadcastPayload::Broadcast { message: 5 })))
        .unwrap();
    assert_eq!(out.len(), 1);
    assert_eq!(out[0].body.in_reply_to, Some(1));
    assert!(matches!(out[0].body.payload, BroadcastPayload::BroadcastOk));

    let out = n1
        .step(Event::Message(msg("c1", "n1", Some(2), BroadcastPayload::Read)))
        .unwrap();
    assert_eq!(out.len(), 1);
    assert_eq!(out[0].body.in_reply_to, Some(2));
    match &out[0].body.payload {
        BroadcastPayload::ReadOk { message } => assert_eq!(message, &vec![5]),
        other => panic!("expected read_ok, got {:?}", payload_tag(other)),
    }
}

#[test]
fn broadcast_is_idempotent() {
    // The same value broadcast twice lands once.
    let mut n1 = BroadcastNode::from_init(init_two());
    n1.step(Event::Message(msg("c1", "n1", Some(1), BroadcastPayload::Broadcast { message: 5 })))
        .unwrap();
    n1.step(Event::Message(msg("c1", "n1", Some(2), BroadcastPayload::Broadcast { message: 5 })))
        .unwrap();
    let out = n1
        .step(Event::Message(msg("c1", "n1", Some(3), BroadcastPayload::Read)))
        .unwrap();
    match &out[0].body.payload {
        BroadcastPayload::ReadOk { message } => assert_eq!(message, &vec![5]),
        other => panic!("expected read_ok, got {:?}", payload_tag(other)),
    }
    // A read with no intervening write returns the same snapshot again.
    let out = n1
        .step(Event::Message(msg("c1", "n1", Some(4), BroadcastPayload::Read)))
        .unwrap();
    match &out[0].body.payload {
        BroadcastPayload::ReadOk { message } => assert_eq!(message, &vec![5]),
        other => panic!("expected read_ok, got {:?}", payload_tag(other)),
    }
}

#[test]
fn gossip_carries_value_and_converges() {
    // Scenario: n1 holds 5 and gossips to n2; after the delivery n2 reads 5.
    // The tick back from n2 is empty — n2 learnt from the gossip that n1
    // already holds 5 — and everything either node sends beyond its
    // must-send values stays within the bounded resend cap.
    let mut n1 = BroadcastNode::from_init(init_two());
    let mut n2 = BroadcastNode::from_init(Init {
        node_id: "n2".to_string(),
        node_ids: vec!["n1".to_string(), "n2".to_string()],
    });
    n1.step(Event::Message(msg("c1", "n1", Some(1), topology_n1_to_n2())))
        .unwrap();
    n2.step(Event::Message(msg(
        "c1",
        "n2",
        Some(1),
        BroadcastPayload::Topology {
            topology: vec![("n2".to_string(), vec!["n1".to_string()])],
        },
    )))
    .unwrap();
    n1.step(Event::Message(msg("c1", "n1", Some(2), BroadcastPayload::Broadcast { message: 5 })))
        .unwrap();

    // One tick on n1: the gossip to n2 must carry 5.
    let gossip = n1.step(Event::Injected(BroadcastTimer::Gossip)).unwrap();
    assert_eq!(gossip.len(), 1);
    assert_eq!(gossip[0].dst, "n2");
    let seen = match &gossip[0].body.payload {
        BroadcastPayload::Gossip { seen } => seen.clone(),
        other => panic!("expected gossip, got {:?}", payload_tag(other)),
    };
    assert!(seen.contains(&5));

    // Deliver it: n2 now reads 5.
    let out = n2
        .step(Event::Message(msg("n1", "n2", None, BroadcastPayload::Gossip { seen })))
        .unwrap();
    assert!(out.is_empty());
    let out = n2
        .step(Event::Message(msg("c1", "n2", Some(2), BroadcastPayload::Read)))
        .unwrap();
    match &out[0].body.payload {
        BroadcastPayload::ReadOk { message } => assert_eq!(message, &vec![5]),
        other => panic!("expected read_ok, got {:?}", payload_tag(other)),
    }

    // n2 ticks back toward n1.  Receiving n1's gossip taught n2 that n1
    // already holds 5, so n2 has nothing it must send, and with a must-send
    // count of 0 the resend cap is 0: the gossip back is empty.
    let back = n2.step(Event::Injected(BroadcastTimer::Gossip)).unwrap();
    assert_eq!(back.len(), 1);
    assert_eq!(back[0].dst, "n1");
    let seen_back = match &back[0].body.payload {
        BroadcastPayload::Gossip { seen } => seen.clone(),
        other => panic!("expected gossip, got {:?}", payload_tag(other)),
    };
    assert!(seen_back.is_empty());
    n1.step(Event::Message(msg("n2", "n1", None, BroadcastPayload::Gossip { seen: seen_back })))
        .unwrap();

    // An empty gossip taught n1 nothing, so n1 still believes n2 lacks 5 and
    // keeps sending it: everything n1 sends beyond the must-send values
    // stays within the resend cap — here 0 extras beside the one value.
    let again = n1.step(Event::Injected(BroadcastTimer::Gossip)).unwrap();
    match &again[0].body.payload {
        BroadcastPayload::Gossip { seen } => assert_eq!(seen, &vec![5]),
        other => panic!("expected gossip, got {:?}", payload_tag(other)),
    }
}

#[test]
fn resend_is_bounded_per_tick() {
    // With 30 values of which 20 are believed known, 10 must go out; the
    // resend of already-known values is capped at a tenth of that: 1.
    let mut n1 = BroadcastNode::from_init(init_two());
    n1.step(Event::Message(msg("c1", "n1", Some(1), topology_n1_to_n2())))
        .unwrap();
    for v in 0..30usize {
        n1.step(Event::Message(msg(
            "c1",
            "n1",
            Some(2 + v),
            BroadcastPayload::Broadcast { message: v },
        )))
        .unwrap();
    }
    let known: Vec<usize> = (0..20usize).collect();
    n1.step(Event::Message(msg("n2", "n1", None, BroadcastPayload::Gossip { seen: known })))
        .unwrap();
    let gossip = n1.step(Event::Injected(BroadcastTimer::Gossip)).unwrap();
    let seen = match &gossip[0].body.payload {
        BroadcastPayload::Gossip { seen } => seen.clone(),
        other => panic!("expected gossip, got {:?}", payload_tag(other)),
    };
    let must: Vec<usize> = (20..30usize).collect();
    for v in &must {
        assert!(seen.contains(v), "must-send value {} missing", v);
    }
    let resent = seen.iter().filter(|v| **v < 20).count();
    assert!(resent <= 1, "resent {} already-known values, cap is 1", resent);
}

#[test]
fn ids_strictly_increase() {
    // Every reply takes a fresh, strictly larger id.
    let mut n1 = BroadcastNode::from_init(init_two());
    let mut last: usize = 0;
    for round in 0..5usize {
        let out = n1
            .step(Event::Message(msg(
                "c1",
                "n1",
                Some(round),
                BroadcastPayload::Broadcast { message: round },
            )))
            .unwrap();
        let id = out[0].body.id.unwrap();
        assert!(id > last || (round == 0 && id >= 1));
        last = id;
    }
    let gossip_ids: Vec<usize> = {
        n1.step(Event::Message(msg("c1", "n1", Some(9), topology_n1_to_n2())))
            .unwrap();
        let out = n1.step(Event::Injected(BroadcastTimer::Gossip)).unwrap();
        out.iter().filter_map(|m| m.body.id).collect()
    };
    for id in gossip_ids {
        assert!(id > last);
    }
}

#[test]
fn into_reply_swaps_and_consumes_id() {
    let m = msg("c1", "n1", Some(7), BroadcastPayload::Read);
    let mut counter: usize = 3;
    let r = m.into_reply(&mut counter);
    assert_eq!(r.src, "n1");
    assert_eq!(r.dst, "c1");
    assert_eq!(r.body.id, Some(3));
    assert_eq!(r.body.in_reply_to, Some(7));
    assert_eq!(counter, 4);
}

#[test]
fn topology_without_entry_is_fatal() {
    let mut n1 = BroadcastNode::from_init(init_two());
    let r = n1.step(Event::Message(msg(
        "c1",
        "n1",
        Some(1),
        BroadcastPayload::Topology {
            topology: vec![("n9".to_string(), vec!["n2".to_string()])],
        },
    )));
    assert!(matches!(r, Err(NodeError::NoTopologyEntry)));
}

#[test]
fn second_topology_is_fatal() {
    // The neighborhood is assigned exactly once and is immutable thereafter:
    // a second topology message is a fatal protocol error and changes
    // nothing.
    let mut n1 = BroadcastNode::from_init(init_two());
    n1.step(Event::Message(msg("c1", "n1", Some(1), topology_n1_to_n2())))
        .unwrap();
    let r = n1.step(Event::Message(msg(
        "c1",
        "n1",
        Some(2),
        BroadcastPayload::Topology {
            topology: vec![("n1".to_string(), vec![])],
        },
    )));
    assert!(matches!(r, Err(NodeError::TopologyAlreadySet)));
    // The first assignment still stands.
    let gossip = n1.step(Event::Injected(BroadcastTimer::Gossip)).unwrap();
    assert_eq!(gossip.len(), 1);
    assert_eq!(gossip[0].dst, "n2");
}

#[test]
fn gossip_from_stranger_is_fatal() {
    let mut n1 = BroadcastNode::from_init(init_two());
    let r = n1.step(Event::Message(msg(
        "n9",
        "n1",
        None,
        BroadcastPayload::Gossip { seen: vec![1] },
    )));
    assert!(matches!(r, Err(NodeError::UnknownGossipSource)));
}

#[test]
fn unknown_neighbor_is_fatal_at_tick() {
    // A topology may name a neighbor the init message never introduced; the
    // first tick then fails without sending anything or moving the counter.
    let mut n1 = BroadcastNode::from_init(init_two());
    n1.step(Event::Message(msg(
        "c1",
        "n1",
        Some(1),
        BroadcastPayload::Topology {
            topology: vec![("n1".to_string(), vec!["n9".to_string()])],
        },
    )))
    .unwrap();
    let before = n1.id;
    let r = n1.step(Event::Injected(BroadcastTimer::Gossip));
    assert!(matches!(r, Err(NodeError::UnknownNeighbor)));
    assert_eq!(n1.id, before);
}

#[test]
fn exhausted_counter_is_fatal() {
    let mut n1 = BroadcastNode::from_init(init_two());
    n1.id = usize::MAX;
    let r = n1.step(Event::Message(msg(
        "c1",
        "n1",
        Some(1),
        BroadcastPayload::Broadcast { message: 5 },
    )));
    assert!(matches!(r, Err(NodeError::IdExhausted)));
    assert_eq!(n1.id, usize::MAX);
}

fn payload_tag(p: &BroadcastPayload) -> &'static str {
    match p {
        BroadcastPayload::Broadcast { .. } => "broadcast",
        BroadcastPayload::BroadcastOk => "broadcast_ok",
        BroadcastPayload::Read => "read",
        BroadcastPayload::ReadOk { .. } => "read_ok",
        BroadcastPayload::Topology { .. } => "topology",
        BroadcastPayload::TopologyOk => "topology_ok",
        BroadcastPayload::Gossip { .. } => "gossip",
    }
}
