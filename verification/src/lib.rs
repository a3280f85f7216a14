//! A runtime for nodes that speak the Maelstrom protocol, and a gossip
//! broadcast built on it.
//!
//! A node talks to its harness in lines of JSON, one envelope per line. The
//! library decides what a node does with each line and each tick; reading
//! the lines, writing the answers and keeping the clock are left to the
//! program around it.
pub mod broadcast;
pub mod clock;
pub mod echo;
pub mod error;
pub mod g_counter;
pub mod json;
pub mod protocol;
pub mod runtime;
pub mod services;
pub mod unique_ids;
pub mod writer;

pub use error::Error;
pub use json::{Json, JsonView};
pub use protocol::{
    InitPayload, Message, MessageBody, MessageBodyView, MessageID, MessageView, NodeID, Payload,
};
pub use runtime::{event_loop, App, Dispatch, Event, Node};
pub use services::{KVPayload, SeqKV};
pub use writer::{MessageWriter, WriterView};
