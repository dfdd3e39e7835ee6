//! The decisions of the event runtime: the mandatory init handshake that
//! opens every run, and the handling of one inbound line or one timer tick —
//! decode, step, encode.  Reading lines, writing lines, and the two producer
//! threads that feed the event stream live outside the library; they hand
//! lines in and send the returned lines out, in order.

use vstd::prelude::*;

use crate::broadcast::step_post;
use crate::broadcast::tick_post;
use crate::broadcast::BroadcastNode;
use crate::broadcast::BroadcastPayload;
use crate::broadcast::BroadcastTimer;
use crate::codec::decode_broadcast;
use crate::codec::decode_init;
use crate::codec::encode_broadcast;
use crate::codec::encode_init;
use crate::codec::ser_msg_broadcast;
use crate::codec::ser_msg_init;
use crate::codec::sp_message_broadcast;
use crate::codec::sp_message_init;
use crate::codec::InitPayloadView;
use crate::protocol::Body;
use crate::protocol::BodyView;
use crate::protocol::Event;
use crate::protocol::Init;
use crate::protocol::InitPayload;
use crate::protocol::Message;
use crate::protocol::MessageView;
use crate::protocol::NodeError;

verus! {

/// Why a run ends: the line could not be decoded, the first message was not
/// an init request, or the state machine met a fatal condition.
#[derive(Debug)]
pub enum RunError {
    Decode,
    NotInit,
    Node(NodeError),
}

/// The acknowledgment that answers an init request: back to the sender,
/// referring to the request's id, sent under id 0 — the one id a node uses
/// before its counter starts at 1.
pub open spec fn init_ack(m: MessageView<InitPayloadView>) -> MessageView<InitPayloadView> {
    MessageView {
        src: m.dst,
        dst: m.src,
        body: BodyView { id: Some(0), in_reply_to: m.body.id, payload: InitPayloadView::InitOk },
    }
}

/// The mandatory handshake: the first line of a run must be an init request;
/// its node id and participant list become the node's identity, and the
/// acknowledgment line goes straight back.  Any other first line is fatal:
/// a line that is no message at all cannot be decoded, and a message that is
/// not an init request violates the protocol.
pub fn handle_init_line(line: &str) -> (r: Result<(Init, String), RunError>)
    ensures
        match r {
            Ok(p) => match sp_message_init(line@) {
                Some(m) => {
                    &&& (m.body.payload matches InitPayloadView::Init(iv) && p.0@ == iv)
                    &&& p.1@ == ser_msg_init(init_ack(m))
                },
                None => false,
            },
            Err(e) => match sp_message_init(line@) {
                None => e == RunError::Decode,
                Some(m) => e == RunError::NotInit && m.body.payload is InitOk,
            },
        },
{
    let m = match decode_init(line) {
        Ok(m) => m,
        Err(_) => {
            return Err(RunError::Decode);
        },
    };
    let Message { src, dst, body } = m;
    let Body { id: req_id, in_reply_to: _, payload } = body;
    match payload {
        InitPayload::Init(init) => {
            let ack = Message {
                src: dst,
                dst: src,
                body: Body { id: Some(0), in_reply_to: req_id, payload: InitPayload::InitOk },
            };
            let reply = encode_init(&ack);
            Ok((init, reply))
        },
        InitPayload::InitOk => Err(RunError::NotInit),
    }
}

/// Handle one inbound line for a broadcast node: decode it, take one step of
/// the state machine, and hand back the canonical encodings of the messages
/// the step emitted, in order.  A line outside the grammar is a decode
/// error and changes nothing; a fatal step is handed through and changes
/// nothing.
pub fn handle_broadcast_line(node: &mut BroadcastNode, line: &str) -> (r: Result<
    Vec<String>,
    RunError,
>)
    requires
        old(node).wf(),
    ensures
        final(node).wf(),
        match sp_message_broadcast(line@) {
            None => r matches Err(e) && e == RunError::Decode && *final(node) == *old(node),
            Some(mv) => exists|m: Message<BroadcastPayload>|
                #![trigger m@]
                m@ == mv && match r {
                    Ok(lines) => exists|msgs: Vec<Message<BroadcastPayload>>|
                        {
                            &&& #[trigger] step_post(
                                *old(node),
                                *final(node),
                                Event::Message(m),
                                Ok(msgs),
                            )
                            &&& lines@.len() == msgs@.len()
                            &&& (forall|k: int|
                                0 <= k < lines@.len() ==> (#[trigger] lines@[k])@
                                    == ser_msg_broadcast(msgs@[k]@))
                        },
                    Err(e) => e matches RunError::Node(ne) && step_post(
                        *old(node),
                        *final(node),
                        Event::Message(m),
                        Err(ne),
                    ),
                },
        },
{
    let m = match decode_broadcast(line) {
        Ok(m) => m,
        Err(_) => {
            return Err(RunError::Decode);
        },
    };
    let ghost m0 = m;
    let msgs = match node.step(Event::Message(m)) {
        Ok(msgs) => msgs,
        Err(ne) => {
            proof {
                assert(m0@ == sp_message_broadcast(line@)->0);
            }
            return Err(RunError::Node(ne));
        },
    };
    let mut lines: Vec<String> = Vec::new();
    let mut k: usize = 0;
    while k < msgs.len()
        invariant
            k <= msgs@.len(),
            lines@.len() == k,
            forall|a: int|
                0 <= a < k ==> (#[trigger] lines@[a])@ == ser_msg_broadcast(msgs@[a]@),
        decreases msgs@.len() - k,
    {
        let s = encode_broadcast(&msgs[k]);
        lines.push(s);
        k = k + 1;
    }
    proof {
        assert(m0@ == sp_message_broadcast(line@)->0);
        assert(step_post(*old(node), *final(node), Event::Message(m0), Ok(msgs)));
    }
    Ok(lines)
}

/// Handle one timer tick for a broadcast node: take the gossip step and hand
/// back the canonical encodings of the gossip messages, in order.
pub fn handle_broadcast_tick(node: &mut BroadcastNode) -> (r: Result<Vec<String>, NodeError>)
    requires
        old(node).wf(),
    ensures
        final(node).wf(),
        match r {
            Ok(lines) => exists|msgs: Vec<Message<BroadcastPayload>>|
                {
                    &&& #[trigger] tick_post(*old(node), *final(node), Ok(msgs))
                    &&& lines@.len() == msgs@.len()
                    &&& (forall|k: int|
                        0 <= k < lines@.len() ==> (#[trigger] lines@[k])@ == ser_msg_broadcast(
                            msgs@[k]@,
                        ))
                },
            Err(e) => tick_post(*old(node), *final(node), Err(e)),
        },
{
    let msgs = match node.gossip_tick() {
        Ok(msgs) => msgs,
        Err(e) => {
            return Err(e);
        },
    };
    let mut lines: Vec<String> = Vec::new();
    let mut k: usize = 0;
    while k < msgs.len()
        invariant
            k <= msgs@.len(),
            lines@.len() == k,
            forall|a: int|
                0 <= a < k ==> (#[trigger] lines@[a])@ == ser_msg_broadcast(msgs@[a]@),
        decreases msgs@.len() - k,
    {
        let s = encode_broadcast(&msgs[k]);
        lines.push(s);
        k = k + 1;
    }
    Ok(lines)
}

} // verus!
