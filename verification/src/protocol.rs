//! The message envelope of the wire protocol and the capability interface
//! that every challenge state machine implements.
//!
//! An envelope carries a source node id, a destination node id, and a body;
//! the body carries an optional message id, an optional reference to the
//! message it replies to, and a challenge-specific payload.

use vstd::prelude::*;

verus! {

/// The body of a message: the per-node message counter value under which it
/// was sent, the id of the request it replies to (if it is a reply), and the
/// challenge-specific payload.
pub struct Body<P> {
    pub id: Option<usize>,
    pub in_reply_to: Option<usize>,
    pub payload: P,
}

/// A message envelope: where it comes from, where it goes, and its body.
pub struct Message<P> {
    pub src: String,
    pub dst: String,
    pub body: Body<P>,
}

/// The mathematical value of a body: strings become character sequences.
pub struct BodyView<PV> {
    pub id: Option<usize>,
    pub in_reply_to: Option<usize>,
    pub payload: PV,
}

/// The mathematical value of an envelope.
pub struct MessageView<PV> {
    pub src: Seq<char>,
    pub dst: Seq<char>,
    pub body: BodyView<PV>,
}

impl<P: View> View for Body<P> {
    type V = BodyView<P::V>;

    open spec fn view(&self) -> BodyView<P::V> {
        BodyView { id: self.id, in_reply_to: self.in_reply_to, payload: self.payload@ }
    }
}

impl<P: View> View for Message<P> {
    type V = MessageView<P::V>;

    open spec fn view(&self) -> MessageView<P::V> {
        MessageView { src: self.src@, dst: self.dst@, body: self.body@ }
    }
}

impl<P> Message<P> {
    /// Turn a request into the reply to it: source and destination swap, the
    /// reply refers to the request's id, and the reply is sent under the next
    /// value of this node's message counter, which moves forward by one.
    pub fn into_reply(self, id: &mut usize) -> (r: Message<P>)
        requires
            *old(id) < usize::MAX,
        ensures
            r.src@ == self.dst@,
            r.dst@ == self.src@,
            r.body.id == Some(*old(id)),
            r.body.in_reply_to == self.body.id,
            r.body.payload == self.body.payload,
            *final(id) == *old(id) + 1,
    {
        let mid: usize = *id;
        *id = *id + 1;
        Message {
            src: self.dst,
            dst: self.src,
            body: Body { id: Some(mid), in_reply_to: self.body.id, payload: self.body.payload },
        }
    }
}

/// One unit of work for a state machine: a message from the wire, an event
/// the node injected for itself (such as a timer tick), or the end of the
/// inbound stream.
pub enum Event<P, IP> {
    Message(Message<P>),
    Injected(IP),
    EOF,
}

/// The node id and the full participant list delivered by the init request,
/// the first message of every run.
pub struct Init {
    pub node_id: String,
    pub node_ids: Vec<String>,
}

/// The payload pair of the init handshake.
pub enum InitPayload {
    Init(Init),
    InitOk,
}

/// A condition that ends the run: the taxonomy of fatal errors.
#[derive(Debug)]
pub enum NodeError {
    /// A line did not decode as a message of the expected protocol.
    Decode,
    /// The first message was not an init request.
    NotInit,
    /// The topology message holds no entry for this node.
    NoTopologyEntry,
    /// A second topology message arrived: the neighborhood is assigned
    /// exactly once and is immutable thereafter.
    TopologyAlreadySet,
    /// Gossip arrived from a node that the init message never introduced.
    UnknownGossipSource,
    /// The topology names a neighbor that the init message never introduced.
    UnknownNeighbor,
    /// A timer event reached a state machine that injects none.
    UnexpectedInjection,
    /// A message counter would have to move past the largest representable id.
    IdExhausted,
    /// No fresh offset exists for a log key: the key carries no number to
    /// seed its offsets from, or the next offset would not fit.
    OffsetExhausted,
    /// A request that must carry a message id to correlate its reply with
    /// arrived without one.
    MissingRequestId,
}

/// The capability interface of a challenge state machine: build the initial
/// state from the init request, then process one event at a time, handing
/// back the messages to send.  The runtime is generic over this interface and
/// never over a concrete state machine.  Each implementation names its own
/// internal invariant; construction establishes it and every step keeps it.
pub trait Node<S, P, IP>: Sized {
    spec fn inv(&self) -> bool;

    fn from_init(state: S, init: Init) -> (r: Result<Self, NodeError>)
        ensures
            r matches Ok(n) ==> n.inv(),
    ;

    fn step(&mut self, input: Event<P, IP>) -> (r: Result<Vec<Message<P>>, NodeError>)
        requires
            old(self).inv(),
        ensures
            final(self).inv(),
    ;
}

} // verus!
