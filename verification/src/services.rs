//! Clients for the services that the harness offers.
pub mod seq_kv;

pub use seq_kv::{KVPayload, KVPayloadView, SeqKV};
