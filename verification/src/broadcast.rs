//! A gossip broadcast: every value that a client hands to one node reaches
//! all nodes.
pub mod cluster;
pub mod laws;
pub mod model;
pub mod node;
pub mod payload;
pub mod queues;
pub mod topology;

pub use model::{AckContext, BatchView, BroadcastView, Outcome, UnackedView};
pub use node::Broadcast;
pub use payload::{BroadcastPayload, BroadcastPayloadView};
