use distributed_systems::counter::CounterPayload;
use distributed_systems::counter::GrowCounterNode;
use distributed_systems::logstore::KafkaNode;
use distributed_systems::logstore::LogPayload;
use distributed_systems::protocol::Body;
use distributed_systems::protocol::Event;
use distributed_systems::protocol::Init;
use distributed_systems::protocol::Message;
use distributed_systems::protocol::NodeError;
use distributed_systems::txn::TransactionNode;
use distributed_systems::txn::TxnElement;
use distributed_systems::txn::TxnPayload;

fn init_one(id: &str) -> Init {
    Init { node_id: id.to_string(), node_ids: vec![id.to_string()] }
}

fn wrap<P>(src: &str, dst: &str, id: Option<usize>, payload: P) -> Message<P> {
    Message {
        src: src.to_string(),
        dst: dst.to_string(),
        body: Body { id, in_reply_to: None, payload },
    }
}

#[test]
fn counter_accumulates() {
    let mut n = GrowCounterNode::from_init(init_one("n1"));
    let out = n
        .step(Event::Message(wrap("c1", "n1", Some(1), CounterPayload::Add { delta: 5 })))
        .unwrap();
    assert!(matches!(out[0].body.payload, CounterPayload::AddOk));
    assert_eq!(out[0].body.in_reply_to, Some(1));
    n.step(Event::Message(wrap("c1", "n1", Some(2), CounterPayload::Add { delta: 7 })))
        .unwrap();
    let out = n
        .step(Event::Message(wrap("c1", "n1", Some(3), CounterPayload::Read)))
        .unwrap();
    match out[0].body.payload {
        CounterPayload::ReadOk { value } => assert_eq!(value, 12),
        _ => panic!("expected read_ok"),
    }
}

#[test]
fn counter_wraps_at_word_size() {
    let mut n = GrowCounterNode::from_init(init_one("n1"));
    n.step(Event::Message(wrap("c1", "n1", Some(1), CounterPayload::Add { delta: usize::MAX })))
        .unwrap();
    n.step(Event::Message(wrap("c1", "n1", Some(2), CounterPayload::Add { delta: 3 })))
        .unwrap();
    let out = n
        .step(Event::Message(wrap("c1", "n1", Some(3), CounterPayload::Read)))
        .unwrap();
    match out[0].body.payload {
        CounterPayload::ReadOk { value } => assert_eq!(value, 2),
        _ => panic!("expected read_ok"),
    }
}

#[test]
fn counter_rejects_injected_events() {
    let mut n = GrowCounterNode::from_init(init_one("n1"));
    let r = n.step(Event::Injected(()));
    assert!(matches!(r, Err(NodeError::UnexpectedInjection)));
}

#[test]
fn log_offsets_seed_from_key_number() {
    let mut n = KafkaNode::from_init(init_one("n1"));
    let out = n
        .step(Event::Message(wrap(
            "c1",
            "n1",
            Some(1),
            LogPayload::Send { key: "k1".to_string(), message: 100 },
        )))
        .unwrap();
    match out[0].body.payload {
        LogPayload::SendOk { offset } => assert_eq!(offset, 1000),
        _ => panic!("expected send_ok"),
    }
    let out = n
        .step(Event::Message(wrap(
            "c1",
            "n1",
            Some(2),
            LogPayload::Send { key: "k1".to_string(), message: 101 },
        )))
        .unwrap();
    match out[0].body.payload {
        LogPayload::SendOk { offset } => assert_eq!(offset, 1001),
        _ => panic!("expected send_ok"),
    }
}

#[test]
fn log_poll_returns_records_past_offset() {
    let mut n = KafkaNode::from_init(init_one("n1"));
    for v in [100usize, 101, 102] {
        n.step(Event::Message(wrap(
            "c1",
            "n1",
            Some(v),
            LogPayload::Send { key: "k1".to_string(), message: v },
        )))
        .unwrap();
    }
    let out = n
        .step(Event::Message(wrap(
            "c1",
            "n1",
            Some(9),
            LogPayload::Poll { offsets: vec![("k1".to_string(), 1000)] },
        )))
        .unwrap();
    match &out[0].body.payload {
        LogPayload::PollOk { messages } => {
            assert_eq!(messages.len(), 1);
            assert_eq!(messages[0].0, "k1");
            assert_eq!(messages[0].1, vec![(1001, 101), (1002, 102)]);
        },
        _ => panic!("expected poll_ok"),
    }
}

#[test]
fn log_poll_answers_every_requested_key() {
    // Every requested key gets an entry, with an empty record list when the
    // log does not hold the key or nothing lies past the offset.
    let mut n = KafkaNode::from_init(init_one("n1"));
    n.step(Event::Message(wrap(
        "c1",
        "n1",
        Some(1),
        LogPayload::Send { key: "k1".to_string(), message: 100 },
    )))
    .unwrap();
    let out = n
        .step(Event::Message(wrap(
            "c1",
            "n1",
            Some(2),
            LogPayload::Poll {
                offsets: vec![
                    ("k1".to_string(), 1000),
                    ("k2".to_string(), 0),
                    ("k1".to_string(), 0),
                ],
            },
        )))
        .unwrap();
    match &out[0].body.payload {
        LogPayload::PollOk { messages } => {
            // One entry per requested key, at its first occurrence: k1 has
            // no record past 1000, k2 is not in the log — both answered
            // with empty lists.
            assert_eq!(
                messages,
                &vec![("k1".to_string(), vec![]), ("k2".to_string(), vec![])]
            );
        },
        _ => panic!("expected poll_ok"),
    }
}

#[test]
fn log_poll_on_empty_log_answers_requested_key() {
    let mut n = KafkaNode::from_init(init_one("n1"));
    let out = n
        .step(Event::Message(wrap(
            "c1",
            "n1",
            Some(1),
            LogPayload::Poll { offsets: vec![("k1".to_string(), 0)] },
        )))
        .unwrap();
    match &out[0].body.payload {
        LogPayload::PollOk { messages } => {
            assert_eq!(messages, &vec![("k1".to_string(), vec![])]);
        },
        _ => panic!("expected poll_ok"),
    }
}

#[test]
fn log_commit_and_list() {
    let mut n = KafkaNode::from_init(init_one("n1"));
    let out = n
        .step(Event::Message(wrap(
            "c1",
            "n1",
            Some(1),
            LogPayload::CommitOffsets {
                offsets: vec![("k1".to_string(), 1001), ("k2".to_string(), 2000)],
            },
        )))
        .unwrap();
    assert!(matches!(out[0].body.payload, LogPayload::CommitOffsetsOk));
    let out = n
        .step(Event::Message(wrap(
            "c1",
            "n1",
            Some(2),
            LogPayload::ListCommittedOffsets {
                keys: vec!["k1".to_string(), "k3".to_string()],
            },
        )))
        .unwrap();
    match &out[0].body.payload {
        LogPayload::ListCommittedOffsetsOk { offsets } => {
            assert_eq!(offsets, &vec![("k1".to_string(), 1001)]);
        },
        _ => panic!("expected list_committed_offsets_ok"),
    }
}

#[test]
fn log_send_without_key_number_is_fatal() {
    let mut n = KafkaNode::from_init(init_one("n1"));
    let r = n.step(Event::Message(wrap(
        "c1",
        "n1",
        Some(1),
        LogPayload::Send { key: "nodigits".to_string(), message: 1 },
    )));
    assert!(matches!(r, Err(NodeError::OffsetExhausted)));
}

#[test]
fn txn_reads_see_prior_writes() {
    let mut n = TransactionNode::from_init(init_one("n1"));
    let batch = vec![
        vec![
            TxnElement::Str("r".to_string()),
            TxnElement::USize(1),
            TxnElement::Null,
        ],
        vec![
            TxnElement::Str("w".to_string()),
            TxnElement::USize(1),
            TxnElement::USize(6),
        ],
        vec![
            TxnElement::Str("w".to_string()),
            TxnElement::USize(2),
            TxnElement::USize(9),
        ],
    ];
    let out = n
        .step(Event::Message(wrap("c1", "n1", Some(3), TxnPayload::Txn { txn: batch })))
        .unwrap();
    match &out[0].body.payload {
        TxnPayload::TxnOk { in_reply_to, txn, .. } => {
            assert_eq!(*in_reply_to, 3);
            assert!(matches!(txn[0][2], TxnElement::Null));
            assert!(matches!(txn[1][2], TxnElement::USize(6)));
            assert!(matches!(txn[2][2], TxnElement::USize(9)));
        },
        _ => panic!("expected txn_ok"),
    }

    let batch2 = vec![vec![
        TxnElement::Str("r".to_string()),
        TxnElement::USize(1),
        TxnElement::Null,
    ]];
    let out = n
        .step(Event::Message(wrap("c1", "n1", Some(4), TxnPayload::Txn { txn: batch2 })))
        .unwrap();
    match &out[0].body.payload {
        TxnPayload::TxnOk { txn, .. } => {
            assert!(matches!(txn[0][2], TxnElement::USize(6)));
        },
        _ => panic!("expected txn_ok"),
    }
}

#[test]
fn txn_without_request_id_is_fatal() {
    let mut n = TransactionNode::from_init(init_one("n1"));
    let r = n.step(Event::Message(wrap("c1", "n1", None, TxnPayload::Txn { txn: vec![] })));
    assert!(matches!(r, Err(NodeError::MissingRequestId)));
}
