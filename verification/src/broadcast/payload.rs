//! What the nodes of the broadcast say to each other and to their clients.
use crate::json::{is_text, lemma_numbers_read, numbers_view, Json, JsonView};
use crate::protocol::{
    lemma_tag_and_field, lemma_tag_only, tag_and_field, tag_only, wire_tag_and_field,
    wire_tag_only, Payload,
};
use vstd::prelude::*;

verus! {

/// The payloads of the broadcast.
#[derive(Debug, PartialEq, Clone)]
pub enum BroadcastPayload {
    /// A client hands a value to a node.
    Broadcast { message: u32 },
    BroadcastOk,
    /// A node hands values on to another node.
    BroadcastBatched { messages: Vec<u32> },
    BroadcastBatchedOk,
    Read,
    ReadOk { messages: Vec<u32> },
    /// The harness proposes a topology. Whatever it holds is accepted.
    Topology { topology: Json },
    TopologyOk,
}

/// The mathematical form of a [`BroadcastPayload`].
pub enum BroadcastPayloadView {
    Broadcast { message: u32 },
    BroadcastOk,
    BroadcastBatched { messages: Seq<u32> },
    BroadcastBatchedOk,
    Read,
    ReadOk { messages: Seq<u32> },
    Topology { topology: JsonView },
    TopologyOk,
}

impl View for BroadcastPayload {
    type V = BroadcastPayloadView;

    open spec fn view(&self) -> BroadcastPayloadView {
        match self {
            BroadcastPayload::Broadcast { message } => BroadcastPayloadView::Broadcast {
                message: *message,
            },
            BroadcastPayload::BroadcastOk => BroadcastPayloadView::BroadcastOk,
            BroadcastPayload::BroadcastBatched { messages } => BroadcastPayloadView::BroadcastBatched {
                messages: messages@,
            },
            BroadcastPayload::BroadcastBatchedOk => BroadcastPayloadView::BroadcastBatchedOk,
            BroadcastPayload::Read => BroadcastPayloadView::Read,
            BroadcastPayload::ReadOk { messages } => BroadcastPayloadView::ReadOk {
                messages: messages@,
            },
            BroadcastPayload::Topology { topology } => BroadcastPayloadView::Topology {
                topology: topology@,
            },
            BroadcastPayload::TopologyOk => BroadcastPayloadView::TopologyOk,
        }
    }
}

impl Payload for BroadcastPayload {
    open spec fn wire(payload: BroadcastPayloadView) -> Seq<(Seq<char>, JsonView)> {
        match payload {
            BroadcastPayloadView::Broadcast { message } => tag_and_field(
                "broadcast"@,
                "message"@,
                JsonView::Number(message as u64),
            ),
            BroadcastPayloadView::BroadcastOk => tag_only("broadcast_ok"@),
            BroadcastPayloadView::BroadcastBatched { messages } => tag_and_field(
                "broadcast_batched"@,
                "messages"@,
                JsonView::List(numbers_view(messages)),
            ),
            BroadcastPayloadView::BroadcastBatchedOk => tag_only("broadcast_batched_ok"@),
            BroadcastPayloadView::Read => tag_only("read"@),
            BroadcastPayloadView::ReadOk { messages } => tag_and_field(
                "read_ok"@,
                "messages"@,
                JsonView::List(numbers_view(messages)),
            ),
            BroadcastPayloadView::Topology { topology } => tag_and_field(
                "topology"@,
                "topology"@,
                topology,
            ),
            BroadcastPayloadView::TopologyOk => tag_only("topology_ok"@),
        }
    }

    open spec fn read(body: JsonView) -> Option<BroadcastPayloadView> {
        match body.text_field("type"@) {
            Some(tag) => if tag == "broadcast"@ {
                match body.u32_field("message"@) {
                    Some(message) => Some(BroadcastPayloadView::Broadcast { message }),
                    None => None,
                }
            } else if tag == "broadcast_ok"@ {
                Some(BroadcastPayloadView::BroadcastOk)
            } else if tag == "broadcast_batched"@ {
                match body.u32_list_field("messages"@) {
                    Some(messages) => Some(BroadcastPayloadView::BroadcastBatched { messages }),
                    None => None,
                }
            } else if tag == "broadcast_batched_ok"@ {
                Some(BroadcastPayloadView::BroadcastBatchedOk)
            } else if tag == "read"@ {
                Some(BroadcastPayloadView::Read)
            } else if tag == "read_ok"@ {
                match body.u32_list_field("messages"@) {
                    Some(messages) => Some(BroadcastPayloadView::ReadOk { messages }),
                    None => None,
                }
            } else if tag == "topology"@ {
                match body.field("topology"@) {
                    Some(topology) => Some(BroadcastPayloadView::Topology { topology }),
                    None => None,
                }
            } else if tag == "topology_ok"@ {
                Some(BroadcastPayloadView::TopologyOk)
            } else {
                None
            },
            None => None,
        }
    }

    fn to_wire(&self) -> (members: Vec<(String, Json)>) {
        match self {
            BroadcastPayload::Broadcast { message } => wire_tag_and_field(
                "broadcast",
                "message",
                Json::Number(*message as u64),
            ),
            BroadcastPayload::BroadcastOk => wire_tag_only("broadcast_ok"),
            BroadcastPayload::BroadcastBatched { messages } => wire_tag_and_field(
                "broadcast_batched",
                "messages",
                Json::numbers(messages),
            ),
            BroadcastPayload::BroadcastBatchedOk => wire_tag_only("broadcast_batched_ok"),
            BroadcastPayload::Read => wire_tag_only("read"),
            BroadcastPayload::ReadOk { messages } => wire_tag_and_field(
                "read_ok",
                "messages",
                Json::numbers(messages),
            ),
            BroadcastPayload::Topology { topology } => wire_tag_and_field(
                "topology",
                "topology",
                topology.clone(),
            ),
            BroadcastPayload::TopologyOk => wire_tag_only("topology_ok"),
        }
    }

    fn from_wire(body: &Json) -> (payload: Option<Self>) {
        let tag = match body.text_field("type") {
            Some(tag) => tag,
            None => {
                return None;
            },
        };
        if is_text(tag, "broadcast") {
            match body.u32_field("message") {
                Some(message) => Some(BroadcastPayload::Broadcast { message }),
                None => None,
            }
        } else if is_text(tag, "broadcast_ok") {
            Some(BroadcastPayload::BroadcastOk)
        } else if is_text(tag, "broadcast_batched") {
            match body.u32_list_field("messages") {
                Some(messages) => Some(BroadcastPayload::BroadcastBatched { messages }),
                None => None,
            }
        } else if is_text(tag, "broadcast_batched_ok") {
            Some(BroadcastPayload::BroadcastBatchedOk)
        } else if is_text(tag, "read") {
            Some(BroadcastPayload::Read)
        } else if is_text(tag, "read_ok") {
            match body.u32_list_field("messages") {
                Some(messages) => Some(BroadcastPayload::ReadOk { messages }),
                None => None,
            }
        } else if is_text(tag, "topology") {
            match body.field("topology") {
                Some(topology) => Some(BroadcastPayload::Topology { topology: topology.clone() }),
                None => None,
            }
        } else if is_text(tag, "topology_ok") {
            Some(BroadcastPayload::TopologyOk)
        } else {
            None
        }
    }

    proof fn lemma_wire_names(payload: BroadcastPayloadView) {
        reveal_strlit("msg_id");
        reveal_strlit("in_reply_to");
        reveal_strlit("type");
        reveal_strlit("message");
        reveal_strlit("messages");
        reveal_strlit("topology");
        assert("msg_id"@[1] != "type"@[1]);
        assert("msg_id"@[1] != "message"@[1]);
        assert("msg_id"@[1] != "messages"@[1]);
        assert("msg_id"@[1] != "topology"@[1]);
        assert("in_reply_to"@[0] != "type"@[0]);
        assert("in_reply_to"@[0] != "message"@[0]);
        assert("in_reply_to"@[0] != "messages"@[0]);
        assert("in_reply_to"@[0] != "topology"@[0]);
    }

    proof fn lemma_read_wire(payload: BroadcastPayloadView) {
        lemma_tags_differ();
        reveal_strlit("type");
        reveal_strlit("message");
        reveal_strlit("messages");
        reveal_strlit("topology");
        assert("type"@.len() != "message"@.len());
        assert("type"@.len() != "messages"@.len());
        assert("type"@.len() != "topology"@.len());
        match payload {
            BroadcastPayloadView::Broadcast { message } => {
                lemma_tag_and_field(
                    "broadcast"@,
                    "message"@,
                    JsonView::Number(message as u64),
                );
            },
            BroadcastPayloadView::BroadcastOk => {
                lemma_tag_only("broadcast_ok"@);
            },
            BroadcastPayloadView::BroadcastBatched { messages } => {
                lemma_tag_and_field(
                    "broadcast_batched"@,
                    "messages"@,
                    JsonView::List(numbers_view(messages)),
                );
                lemma_numbers_read(messages);
            },
            BroadcastPayloadView::BroadcastBatchedOk => {
                lemma_tag_only("broadcast_batched_ok"@);
            },
            BroadcastPayloadView::Read => {
                lemma_tag_only("read"@);
            },
            BroadcastPayloadView::ReadOk { messages } => {
                lemma_tag_and_field(
                    "read_ok"@,
                    "messages"@,
                    JsonView::List(numbers_view(messages)),
                );
                lemma_numbers_read(messages);
            },
            BroadcastPayloadView::Topology { topology } => {
                lemma_tag_and_field("topology"@, "topology"@, topology);
            },
            BroadcastPayloadView::TopologyOk => {
                lemma_tag_only("topology_ok"@);
            },
        }
    }
}

/// The eight tags are eight different texts.
proof fn lemma_tags_differ()
    ensures
        "broadcast"@.len() == 9,
        "broadcast_ok"@.len() == 12,
        "broadcast_batched"@.len() == 17,
        "broadcast_batched_ok"@.len() == 20,
        "read"@.len() == 4,
        "read_ok"@.len() == 7,
        "topology"@.len() == 8,
        "topology_ok"@.len() == 11,
{
    reveal_strlit("broadcast");
    reveal_strlit("broadcast_ok");
    reveal_strlit("broadcast_batched");
    reveal_strlit("broadcast_batched_ok");
    reveal_strlit("read");
    reveal_strlit("read_ok");
    reveal_strlit("topology");
    reveal_strlit("topology_ok");
}

} // verus!
