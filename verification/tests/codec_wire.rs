use distributed_systems::broadcast::BroadcastPayload;
use distributed_systems::codec::decode_broadcast;
use distributed_systems::codec::decode_init;
use distributed_systems::codec::encode_broadcast;
use distributed_systems::codec::encode_init;
use distributed_systems::protocol::Body;
use distributed_systems::protocol::Init;
use distributed_systems::protocol::InitPayload;
use distributed_systems::protocol::Message;
use distributed_systems::runtime::handle_init_line;
use distributed_systems::runtime::RunError;

fn bmsg(
    src: &str,
    dst: &str,
    id: Option<usize>,
    in_reply_to: Option<usize>,
    payload: BroadcastPayload,
) -> Message<BroadcastPayload> {
    Message {
        src: src.to_string(),
        dst: dst.to_string(),
        body: Body { id, in_reply_to, payload },
    }
}

#[test]
fn encode_broadcast_is_canonical() {
    let m = bmsg("c1", "n1", Some(1), None, BroadcastPayload::Broadcast { message: 5 });
    assert_eq!(
        encode_broadcast(&m),
        "{\"src\":\"c1\",\"dest\":\"n1\",\"body\":{\"type\":\"broadcast\",\"message\":5,\"msg_id\":1,\"in_reply_to\":null}}"
    );
}

#[test]
fn encode_read_ok_lists_values() {
    let m = bmsg(
        "n1",
        "c1",
        Some(2),
        Some(9),
        BroadcastPayload::ReadOk { message: vec![5, 7, 11] },
    );
    assert_eq!(
        encode_broadcast(&m),
        "{\"src\":\"n1\",\"dest\":\"c1\",\"body\":{\"type\":\"read_ok\",\"message\":[5,7,11],\"msg_id\":2,\"in_reply_to\":9}}"
    );
}

#[test]
fn decode_inverts_encode() {
    let samples = vec![
        bmsg("c1", "n1", Some(1), None, BroadcastPayload::Broadcast { message: 5 }),
        bmsg("c1", "n1", Some(2), None, BroadcastPayload::Read),
        bmsg("n1", "c1", Some(3), Some(2), BroadcastPayload::ReadOk { message: vec![] }),
        bmsg("n1", "c1", Some(3), Some(2), BroadcastPayload::ReadOk { message: vec![1, 2, 3] }),
        bmsg(
            "c1",
            "n1",
            Some(4),
            None,
            BroadcastPayload::Topology {
                topology: vec![
                    ("n1".to_string(), vec!["n2".to_string(), "n3".to_string()]),
                    ("n2".to_string(), vec![]),
                ],
            },
        ),
        bmsg("n1", "c1", Some(5), Some(4), BroadcastPayload::TopologyOk),
        bmsg("n1", "n2", None, None, BroadcastPayload::Gossip { seen: vec![5] }),
        bmsg("n1", "c1", Some(6), Some(1), BroadcastPayload::BroadcastOk),
    ];
    for m in samples {
        let line = encode_broadcast(&m);
        let back = decode_broadcast(&line).expect(&line);
        assert_eq!(encode_broadcast(&back), line);
    }
}

#[test]
fn decode_accepts_any_member_order_and_blanks() {
    let line = " { \"body\" : { \"msg_id\" : 3 , \"message\" : 5 , \"type\" : \"broadcast\" } , \"dest\" : \"n1\" , \"src\" : \"c1\" } ";
    let m = decode_broadcast(line).unwrap();
    assert_eq!(m.src, "c1");
    assert_eq!(m.dst, "n1");
    assert_eq!(m.body.id, Some(3));
    assert!(matches!(m.body.payload, BroadcastPayload::Broadcast { message: 5 }));
}

#[test]
fn decode_handles_missing_ids() {
    let line = "{\"src\":\"n1\",\"dest\":\"n2\",\"body\":{\"type\":\"gossip\",\"seen\":[1,2]}}";
    let m = decode_broadcast(line).unwrap();
    assert_eq!(m.body.id, None);
    assert_eq!(m.body.in_reply_to, None);
    match m.body.payload {
        BroadcastPayload::Gossip { seen } => assert_eq!(seen, vec![1, 2]),
        _ => panic!("expected gossip"),
    }
}

#[test]
fn decode_unescapes_strings() {
    let line = "{\"src\":\"a\\\"b\",\"dest\":\"c\\\\d\",\"body\":{\"type\":\"read\"}}";
    let m = decode_broadcast(line).unwrap();
    assert_eq!(m.src, "a\"b");
    assert_eq!(m.dst, "c\\d");
    let again = decode_broadcast(&encode_broadcast(&m)).unwrap();
    assert_eq!(again.src, "a\"b");
    assert_eq!(again.dst, "c\\d");
}

#[test]
fn decode_rejects_bad_lines() {
    let bad = vec![
        "",
        "not json",
        "{",
        "{\"src\":\"a\",\"dest\":\"b\"}",
        "{\"src\":\"a\",\"dest\":\"b\",\"body\":{}}",
        "{\"src\":\"a\",\"dest\":\"b\",\"body\":{\"type\":\"no_such_kind\"}}",
        "{\"src\":\"a\",\"dest\":\"b\",\"body\":{\"type\":\"broadcast\"}}",
        "{\"src\":\"a\",\"dest\":\"b\",\"body\":{\"type\":\"broadcast\",\"message\":5,\"seen\":[]}}",
        "{\"src\":\"a\",\"src\":\"a\",\"dest\":\"b\",\"body\":{\"type\":\"read\"}}",
        "{\"src\":\"a\",\"dest\":\"b\",\"body\":{\"type\":\"read\"}} trailing",
        "{\"src\":\"a\",\"dest\":\"b\",\"body\":{\"type\":\"broadcast\",\"message\":99999999999999999999999999}}",
        "{\"src\":\"a\",\"dest\":\"b\",\"body\":{\"type\":\"broadcast\",\"message\":05}}",
    ];
    for line in bad {
        assert!(decode_broadcast(line).is_err(), "accepted: {}", line);
    }
}

#[test]
fn decode_passes_over_unknown_members() {
    // Members outside the protocol are passed over unread, whatever value
    // they hold; fields of another payload are still rejected.
    let line = "{\"src\":\"c1\",\"dest\":\"n1\",\"extra\":{\"a\":[1,true,null,-2.5e3,\"s\"]},\"body\":{\"type\":\"broadcast\",\"note\":false,\"message\":5}}";
    let m = decode_broadcast(line).unwrap();
    assert!(matches!(m.body.payload, BroadcastPayload::Broadcast { message: 5 }));
    let cross = "{\"src\":\"a\",\"dest\":\"b\",\"body\":{\"type\":\"broadcast\",\"message\":5,\"seen\":[]}}";
    assert!(decode_broadcast(cross).is_err());
}

#[test]
fn encoded_lines_are_json_to_serde() {
    let m = bmsg(
        "n1",
        "c1",
        Some(2),
        Some(9),
        BroadcastPayload::Topology {
            topology: vec![("n1".to_string(), vec!["n2".to_string()])],
        },
    );
    let line = encode_broadcast(&m);
    let v: serde_json::Value = serde_json::from_str(&line).unwrap();
    assert_eq!(v["src"], serde_json::Value::String("n1".to_string()));
    assert_eq!(v["dest"], serde_json::Value::String("c1".to_string()));
    assert_eq!(v["body"]["type"], serde_json::Value::String("topology".to_string()));
    assert_eq!(v["body"]["msg_id"], serde_json::Value::from(2u64));
    assert_eq!(v["body"]["in_reply_to"], serde_json::Value::from(9u64));
    assert_eq!(v["body"]["topology"]["n1"][0], serde_json::Value::String("n2".to_string()));
}

#[test]
fn init_handshake_acknowledges() {
    // Scenario: the first line is an init request; the handshake hands back
    // the node identity and the acknowledgment, which refers to the
    // request's id and goes out under id 0.
    let req = Message {
        src: "c1".to_string(),
        dst: "n1".to_string(),
        body: Body {
            id: Some(1),
            in_reply_to: None,
            payload: InitPayload::Init(Init {
                node_id: "n1".to_string(),
                node_ids: vec!["n1".to_string(), "n2".to_string()],
            }),
        },
    };
    let line = encode_init(&req);
    let (init, reply) = handle_init_line(&line).unwrap();
    assert_eq!(init.node_id, "n1");
    assert_eq!(init.node_ids, vec!["n1".to_string(), "n2".to_string()]);
    assert_eq!(
        reply,
        "{\"src\":\"n1\",\"dest\":\"c1\",\"body\":{\"type\":\"init_ok\",\"msg_id\":0,\"in_reply_to\":1}}"
    );
}

#[test]
fn first_line_must_be_init() {
    let r = handle_init_line("{\"src\":\"c1\",\"dest\":\"n1\",\"body\":{\"type\":\"init_ok\"}}");
    assert!(matches!(r, Err(RunError::NotInit)));
    let r = handle_init_line("{\"src\":\"c1\",\"dest\":\"n1\",\"body\":{\"type\":\"broadcast\",\"message\":5}}");
    assert!(matches!(r, Err(RunError::Decode)));
    let r = handle_init_line("no json at all");
    assert!(matches!(r, Err(RunError::Decode)));
}

#[test]
fn init_round_trip() {
    let req = Message {
        src: "c1".to_string(),
        dst: "n0".to_string(),
        body: Body {
            id: Some(4),
            in_reply_to: None,
            payload: InitPayload::Init(Init {
                node_id: "n0".to_string(),
                node_ids: vec!["n0".to_string()],
            }),
        },
    };
    let line = encode_init(&req);
    let back = decode_init(&line).unwrap();
    assert_eq!(back.src, "c1");
    assert_eq!(back.dst, "n0");
    assert_eq!(back.body.id, Some(4));
    match back.body.payload {
        InitPayload::Init(init) => {
            assert_eq!(init.node_id, "n0");
            assert_eq!(init.node_ids, vec!["n0".to_string()]);
        },
        InitPayload::InitOk => panic!("expected init"),
    }
}
