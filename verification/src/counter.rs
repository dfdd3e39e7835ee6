//! The grow-only counter challenge: additions accumulate, reads report the
//! running total.  The count lives in the node itself, and since one process
//! runs one node, the total is process-local — never cluster-wide.  That is
//! a known limitation of this challenge's implementation, kept as it is.

use vstd::prelude::*;

use crate::protocol::Body;
use crate::protocol::Event;
use crate::protocol::Init;
use crate::protocol::Message;
use crate::protocol::NodeError;

verus! {

/// The payload variants of the counter challenge.
pub enum CounterPayload {
    Add { delta: usize },
    AddOk,
    Read,
    ReadOk { value: usize },
}

/// A counter node: its id, its message counter, and the running total.
/// Additions wrap around at the top of the machine word, as an atomic
/// word-sized counter does.
pub struct GrowCounterNode {
    pub node: String,
    pub id: usize,
    pub value: usize,
}

/// What one addition does to the total: wraps at the top of the word.
pub open spec fn counter_add(value: usize, delta: usize) -> usize {
    ((value + delta) % (usize::MAX as int + 1)) as usize
}

impl GrowCounterNode {
    /// The message counter starts at 1, past the init acknowledgment's id 0.
    pub open spec fn wf(self) -> bool {
        1 <= self.id
    }

    /// Build the initial state from the init request: a total of zero.
    pub fn from_init(init: Init) -> (r: GrowCounterNode)
        ensures
            r.wf(),
            r.node@ == init.node_id@,
            r.id == 1,
            r.value == 0,
    {
        GrowCounterNode { node: init.node_id, id: 1, value: 0 }
    }

    /// Process one event.  An addition grows the total and is acknowledged;
    /// a read reports the total; this state machine injects no timer events,
    /// so receiving one is fatal.  Replies answer the sender under a fresh
    /// id and refer to the request's id.
    pub fn step(&mut self, input: Event<CounterPayload, ()>) -> (r: Result<
        Vec<Message<CounterPayload>>,
        NodeError,
    >)
        requires
            old(self).wf(),
        ensures
            final(self).wf(),
            final(self).node == old(self).node,
            r is Err ==> *final(self) == *old(self),
            match input {
                Event::EOF => r matches Ok(out) && out@.len() == 0 && *final(self) == *old(self),
                Event::Injected(_) => r matches Err(e) && e == NodeError::UnexpectedInjection,
                Event::Message(m) => match m.body.payload {
                    CounterPayload::Add { delta } => match r {
                        Ok(out) => {
                            &&& final(self).value == counter_add(old(self).value, delta)
                            &&& final(self).id == old(self).id + 1
                            &&& out@.len() == 1
                            &&& out@[0].src@ == m.dst@
                            &&& out@[0].dst@ == m.src@
                            &&& out@[0].body.id == Some(old(self).id)
                            &&& out@[0].body.in_reply_to == m.body.id
                            &&& out@[0].body.payload is AddOk
                        },
                        Err(e) => e == NodeError::IdExhausted && old(self).id == usize::MAX,
                    },
                    CounterPayload::Read => match r {
                        Ok(out) => {
                            &&& final(self).value == old(self).value
                            &&& final(self).id == old(self).id + 1
                            &&& out@.len() == 1
                            &&& out@[0].src@ == m.dst@
                            &&& out@[0].dst@ == m.src@
                            &&& out@[0].body.id == Some(old(self).id)
                            &&& out@[0].body.in_reply_to == m.body.id
                            &&& (out@[0].body.payload matches CounterPayload::ReadOk { value }
                                && value == old(self).value)
                        },
                        Err(e) => e == NodeError::IdExhausted && old(self).id == usize::MAX,
                    },
                    _ => r matches Ok(out) && out@.len() == 0 && *final(self) == *old(self),
                },
            },
    {
        match input {
            Event::EOF => Ok(Vec::new()),
            Event::Injected(_t) => Err(NodeError::UnexpectedInjection),
            Event::Message(m) => {
                let Message { src, dst, body } = m;
                let Body { id: req_id, in_reply_to: _, payload } = body;
                match payload {
                    CounterPayload::Add { delta } => {
                        if self.id == usize::MAX {
                            return Err(NodeError::IdExhausted);
                        }
                        if delta > usize::MAX - self.value {
                            proof {
                                assert(old(self).value + delta - (usize::MAX + 1) == counter_add(
                                    old(self).value,
                                    delta,
                                ));
                            }
                            self.value = delta - (usize::MAX - self.value) - 1;
                        } else {
                            self.value = self.value + delta;
                        }
                        let fresh = self.id;
                        self.id = self.id + 1;
                        let reply = Message {
                            src: dst,
                            dst: src,
                            body: Body {
                                id: Some(fresh),
                                in_reply_to: req_id,
                                payload: CounterPayload::AddOk,
                            },
                        };
                        let mut out: Vec<Message<CounterPayload>> = Vec::new();
                        out.push(reply);
                        Ok(out)
                    },
                    CounterPayload::Read => {
                        if self.id == usize::MAX {
                            return Err(NodeError::IdExhausted);
                        }
                        let fresh = self.id;
                        self.id = self.id + 1;
                        let reply = Message {
                            src: dst,
                            dst: src,
                            body: Body {
                                id: Some(fresh),
                                in_reply_to: req_id,
                                payload: CounterPayload::ReadOk { value: self.value },
                            },
                        };
                        let mut out: Vec<Message<CounterPayload>> = Vec::new();
                        out.push(reply);
                        Ok(out)
                    },
                    CounterPayload::AddOk => Ok(Vec::new()),
                    CounterPayload::ReadOk { value: _ } => Ok(Vec::new()),
                }
            },
        }
    }
}

impl crate::protocol::Node<(), CounterPayload, ()> for GrowCounterNode {
    open spec fn inv(&self) -> bool {
        self.wf()
    }

    fn from_init(_state: (), init: Init) -> (r: Result<Self, NodeError>) {
        Ok(GrowCounterNode::from_init(init))
    }

    fn step(&mut self, input: Event<CounterPayload, ()>) -> (r: Result<
        Vec<Message<CounterPayload>>,
        NodeError,
    >) {
        GrowCounterNode::step(self, input)
    }
}

} // verus!
