//! A runtime for nodes of a simulated distributed-systems harness.  Each
//! process is one cluster member; it talks to the harness in line-delimited
//! JSON over its standard streams, answers an init handshake first, and then
//! processes one event at a time — a message from the wire or a timer tick.
//!
//! The library holds everything that decides or computes: the wire codec,
//! specified by a mathematical grammar and serializer; the envelope types and
//! the capability interface of the challenge state machines; the runtime
//! decisions (the handshake, and decode–step–encode for one event); and the
//! state machines themselves — the gossip-based broadcast protocol with its
//! bounded anti-entropy resend, a grow-only counter, a keyed record log, and
//! a transaction store.  Reading and writing lines, and the threads that
//! merge the two event sources, stay outside; they hand lines in and send
//! the returned lines out, in order.

pub mod broadcast;
pub mod codec;
pub mod counter;
pub mod json;
pub mod logstore;
pub mod protocol;
pub mod runtime;
pub mod txn;

pub use protocol::Body;
pub use protocol::Event;
pub use protocol::Init;
pub use protocol::InitPayload;
pub use protocol::Message;
pub use protocol::Node;
pub use protocol::NodeError;
