//! The unique-id generator: every `generate` is answered with an
//! identifier that no other answer in the cluster carries.
use crate::error::Error;
use crate::json::{is_text, Json, JsonView};
use crate::protocol::{
    lemma_tag_and_field, lemma_tag_only, tag_and_field, tag_only, wire_tag_and_field,
    wire_tag_only, Message, MessageView, NodeID, Payload,
};
use crate::runtime::App;
use crate::writer::{MessageWriter, WriterView};
use vstd::prelude::*;

verus! {

/// The payloads of the generator.
#[derive(Debug, PartialEq, Clone)]
pub enum UniqueIdsPayload {
    Generate,
    /// `id` is the text of a UUID.
    GenerateOk { id: String },
}

/// The mathematical form of a [`UniqueIdsPayload`].
pub enum UniqueIdsPayloadView {
    Generate,
    GenerateOk { id: Seq<char> },
}

impl View for UniqueIdsPayload {
    type V = UniqueIdsPayloadView;

    open spec fn view(&self) -> UniqueIdsPayloadView {
        match self {
            UniqueIdsPayload::Generate => UniqueIdsPayloadView::Generate,
            UniqueIdsPayload::GenerateOk { id } => UniqueIdsPayloadView::GenerateOk { id: id@ },
        }
    }
}

impl Payload for UniqueIdsPayload {
    open spec fn wire(payload: UniqueIdsPayloadView) -> Seq<(Seq<char>, JsonView)> {
        match payload {
            UniqueIdsPayloadView::Generate => tag_only("generate"@),
            UniqueIdsPayloadView::GenerateOk { id } => tag_and_field(
                "generate_ok"@,
                "id"@,
                JsonView::Text(id),
            ),
        }
    }

    open spec fn read(body: JsonView) -> Option<UniqueIdsPayloadView> {
        match body.text_field("type"@) {
            Some(tag) => if tag == "generate"@ {
                Some(UniqueIdsPayloadView::Generate)
            } else if tag == "generate_ok"@ {
                match body.text_field("id"@) {
                    Some(id) => Some(UniqueIdsPayloadView::GenerateOk { id }),
                    None => None,
                }
            } else {
                None
            },
            None => None,
        }
    }

    fn to_wire(&self) -> (members: Vec<(String, Json)>) {
        match self {
            UniqueIdsPayload::Generate => wire_tag_only("generate"),
            UniqueIdsPayload::GenerateOk { id } => wire_tag_and_field(
                "generate_ok",
                "id",
                Json::Text(id.clone()),
            ),
        }
    }

    fn from_wire(body: &Json) -> (payload: Option<Self>) {
        let tag = match body.text_field("type") {
            Some(tag) => tag,
            None => {
                return None;
            },
        };
        if is_text(tag, "generate") {
            Some(UniqueIdsPayload::Generate)
        } else if is_text(tag, "generate_ok") {
            match body.text_field("id") {
                Some(id) => Some(UniqueIdsPayload::GenerateOk { id: id.clone() }),
                None => None,
            }
        } else {
            None
        }
    }

    proof fn lemma_wire_names(payload: UniqueIdsPayloadView) {
        reveal_strlit("msg_id");
        reveal_strlit("in_reply_to");
        reveal_strlit("type");
        reveal_strlit("id");
        assert("msg_id"@.len() == 6 && "in_reply_to"@.len() == 11);
    }

    proof fn lemma_read_wire(payload: UniqueIdsPayloadView) {
        reveal_strlit("type");
        reveal_strlit("id");
        reveal_strlit("generate");
        reveal_strlit("generate_ok");
        assert("type"@.len() != "id"@.len());
        assert("generate"@.len() != "generate_ok"@.len());
        match payload {
            UniqueIdsPayloadView::Generate => {
                lemma_tag_only("generate"@);
            },
            UniqueIdsPayloadView::GenerateOk { id } => {
                lemma_tag_and_field("generate_ok"@, "id"@, JsonView::Text(id));
            },
        }
    }
}

/// Calls `uuid::Uuid::new_v4` and writes the UUID in its hyphenated form,
/// which `uuid::fmt::Hyphenated::LENGTH` gives as 36 characters long. Which
/// UUID comes is left to chance: nothing else is claimed of it.
#[verifier::external_body]
fn new_uuid() -> (id: String)
    ensures
        id@.len() == 36,
{
    uuid::Uuid::new_v4().hyphenated().to_string()
}

/// The generator. It keeps nothing.
pub struct UniqueIds {}

impl UniqueIds {
    /// Answers `message` under the identifier `id`, if it asks for one.
    ///
    /// `generate` is answered with `generate_ok` and `id`. Anything else is
    /// ignored.
    pub fn answer(
        message: &Message<UniqueIdsPayload>,
        id: String,
        writer: &mut MessageWriter,
    ) -> (result: Result<(), Error>)
        requires
            old(writer)@.wf(),
        ensures
            final(writer)@.wf(),
            Self::answered(message@, id@, old(writer)@, final(writer)@, result),
    {
        match &message.body.payload {
            UniqueIdsPayload::Generate => {
                match writer.reply_to(message, UniqueIdsPayload::GenerateOk { id }) {
                    Ok(_) => Ok(()),
                    Err(e) => Err(e),
                }
            },
            _ => Ok(()),
        }
    }

    /// Whether answering `message` under `id` takes the writer from
    /// `writer` to `after`, with `result`.
    pub open spec fn answered(
        message: MessageView<UniqueIdsPayloadView>,
        id: Seq<char>,
        writer: WriterView,
        after: WriterView,
        result: Result<(), Error>,
    ) -> bool {
        match message.body.payload {
            UniqueIdsPayloadView::Generate => {
                &&& after == writer.after_send::<UniqueIdsPayload>(
                    message.src,
                    message.body.msg_id,
                    UniqueIdsPayloadView::GenerateOk { id },
                )
                &&& result is Ok <==> writer.send_result::<UniqueIdsPayload>(
                    message.src,
                    message.body.msg_id,
                    UniqueIdsPayloadView::GenerateOk { id },
                ) is Ok
                &&& result matches Err(e) ==> e == Error::Unprintable
            },
            _ => after == writer && result is Ok,
        }
    }
}

impl App for UniqueIds {
    type Payload = UniqueIdsPayload;

    open spec fn wf(&self) -> bool {
        true
    }

    open spec fn can_start(node_id: Seq<char>, node_ids: Seq<Seq<char>>) -> bool {
        true
    }

    open spec fn started(
        node_id: Seq<char>,
        node_ids: Seq<Seq<char>>,
        now: u64,
        app: Self,
    ) -> bool {
        true
    }

    /// The envelope is answered under some identifier of 36 characters.
    open spec fn handled(
        pre: Self,
        writer: WriterView,
        message: MessageView<UniqueIdsPayloadView>,
        now: u64,
        post: Self,
        after: WriterView,
        result: Result<(), Error>,
    ) -> bool {
        exists|id: Seq<char>| id.len() == 36 && #[trigger] Self::answered(
            message,
            id,
            writer,
            after,
            result,
        )
    }

    open spec fn ticked(
        pre: Self,
        writer: WriterView,
        now: u64,
        post: Self,
        after: WriterView,
        result: Result<(), Error>,
    ) -> bool {
        after == writer && result is Ok
    }

    open spec fn received(
        pre: Self,
        writer: WriterView,
        response: MessageView<JsonView>,
        now: u64,
        post: Self,
        after: WriterView,
        result: Result<(), Error>,
    ) -> bool {
        after == writer && result is Ok
    }

    fn check_start(node_id: &NodeID, node_ids: &Vec<NodeID>) -> (ok: bool) {
        true
    }

    fn new(node_id: NodeID, node_ids: Vec<NodeID>, now: u64) -> (app: Self) {
        UniqueIds {  }
    }

    fn handle(
        &mut self,
        message: Message<UniqueIdsPayload>,
        writer: &mut MessageWriter,
        now: u64,
    ) -> (result: Result<(), Error>) {
        let id = new_uuid();
        let ghost text = id@;
        let result = Self::answer(&message, id, writer);
        proof {
            assert(Self::answered(message@, text, old(writer)@, writer@, result));
        }
        result
    }

    fn tick(&mut self, writer: &mut MessageWriter, now: u64) -> (result: Result<(), Error>) {
        Ok(())
    }

    fn receive(
        &mut self,
        response: Message<Json>,
        writer: &mut MessageWriter,
        now: u64,
    ) -> (result: Result<(), Error>) {
        Ok(())
    }
}

} // verus!
