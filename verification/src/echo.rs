//! The echo: every `echo` is answered with the text it brought.
use crate::error::Error;
use crate::json::{is_text, Json, JsonView};
use crate::protocol::{
    lemma_tag_and_field, tag_and_field, wire_tag_and_field, Message, MessageView, NodeID, Payload,
};
use crate::runtime::App;
use crate::writer::{MessageWriter, WriterView};
use vstd::prelude::*;

verus! {

/// The payloads of the echo.
#[derive(Debug, PartialEq, Clone)]
pub enum EchoPayload {
    Echo { echo: String },
    EchoOk { echo: String },
}

/// The mathematical form of an [`EchoPayload`].
pub enum EchoPayloadView {
    Echo { echo: Seq<char> },
    EchoOk { echo: Seq<char> },
}

impl View for EchoPayload {
    type V = EchoPayloadView;

    open spec fn view(&self) -> EchoPayloadView {
        match self {
            EchoPayload::Echo { echo } => EchoPayloadView::Echo { echo: echo@ },
            EchoPayload::EchoOk { echo } => EchoPayloadView::EchoOk { echo: echo@ },
        }
    }
}

impl Payload for EchoPayload {
    open spec fn wire(payload: EchoPayloadView) -> Seq<(Seq<char>, JsonView)> {
        match payload {
            EchoPayloadView::Echo { echo } => tag_and_field("echo"@, "echo"@, JsonView::Text(echo)),
            EchoPayloadView::EchoOk { echo } => tag_and_field(
                "echo_ok"@,
                "echo"@,
                JsonView::Text(echo),
            ),
        }
    }

    open spec fn read(body: JsonView) -> Option<EchoPayloadView> {
        match (body.text_field("type"@), body.text_field("echo"@)) {
            (Some(tag), Some(echo)) => if tag == "echo"@ {
                Some(EchoPayloadView::Echo { echo })
            } else if tag == "echo_ok"@ {
                Some(EchoPayloadView::EchoOk { echo })
            } else {
                None
            },
            _ => None,
        }
    }

    fn to_wire(&self) -> (members: Vec<(String, Json)>) {
        match self {
            EchoPayload::Echo { echo } => wire_tag_and_field("echo", "echo", Json::Text(echo.clone())),
            EchoPayload::EchoOk { echo } => wire_tag_and_field(
                "echo_ok",
                "echo",
                Json::Text(echo.clone()),
            ),
        }
    }

    fn from_wire(body: &Json) -> (payload: Option<Self>) {
        let tag = match body.text_field("type") {
            Some(tag) => tag,
            None => {
                return None;
            },
        };
        let echo = match body.text_field("echo") {
            Some(echo) => echo.clone(),
            None => {
                return None;
            },
        };
        if is_text(tag, "echo") {
            Some(EchoPayload::Echo { echo })
        } else if is_text(tag, "echo_ok") {
            Some(EchoPayload::EchoOk { echo })
        } else {
            None
        }
    }

    proof fn lemma_wire_names(payload: EchoPayloadView) {
        reveal_strlit("msg_id");
        reveal_strlit("in_reply_to");
        reveal_strlit("type");
        reveal_strlit("echo");
        assert("msg_id"@.len() == 6 && "in_reply_to"@.len() == 11);
    }

    proof fn lemma_read_wire(payload: EchoPayloadView) {
        reveal_strlit("type");
        reveal_strlit("echo");
        reveal_strlit("echo_ok");
        assert("type"@[0] != "echo"@[0]);
        assert("echo"@.len() != "echo_ok"@.len());
        match payload {
            EchoPayloadView::Echo { echo } => {
                lemma_tag_and_field("echo"@, "echo"@, JsonView::Text(echo));
            },
            EchoPayloadView::EchoOk { echo } => {
                lemma_tag_and_field("echo_ok"@, "echo"@, JsonView::Text(echo));
            },
        }
    }
}

/// The echo. It keeps nothing.
pub struct Echo {}

impl App for Echo {
    type Payload = EchoPayload;

    open spec fn wf(&self) -> bool {
        true
    }

    open spec fn can_start(node_id: Seq<char>, node_ids: Seq<Seq<char>>) -> bool {
        true
    }

    open spec fn started(
        node_id: Seq<char>,
        node_ids: Seq<Seq<char>>,
        now: u64,
        app: Self,
    ) -> bool {
        true
    }

    /// `echo` is answered with `echo_ok` and the same text. Anything else
    /// is ignored.
    open spec fn handled(
        pre: Self,
        writer: WriterView,
        message: MessageView<EchoPayloadView>,
        now: u64,
        post: Self,
        after: WriterView,
        result: Result<(), Error>,
    ) -> bool {
        match message.body.payload {
            EchoPayloadView::Echo { echo } => {
                &&& after == writer.after_send::<EchoPayload>(
                    message.src,
                    message.body.msg_id,
                    EchoPayloadView::EchoOk { echo },
                )
                &&& result is Ok <==> writer.send_result::<EchoPayload>(
                    message.src,
                    message.body.msg_id,
                    EchoPayloadView::EchoOk { echo },
                ) is Ok
                &&& result matches Err(e) ==> e == Error::Unprintable
            },
            _ => after == writer && result is Ok,
        }
    }

    open spec fn ticked(
        pre: Self,
        writer: WriterView,
        now: u64,
        post: Self,
        after: WriterView,
        result: Result<(), Error>,
    ) -> bool {
        after == writer && result is Ok
    }

    open spec fn received(
        pre: Self,
        writer: WriterView,
        response: MessageView<JsonView>,
        now: u64,
        post: Self,
        after: WriterView,
        result: Result<(), Error>,
    ) -> bool {
        after == writer && result is Ok
    }

    fn check_start(node_id: &NodeID, node_ids: &Vec<NodeID>) -> (ok: bool) {
        true
    }

    fn new(node_id: NodeID, node_ids: Vec<NodeID>, now: u64) -> (app: Self) {
        Echo {  }
    }

    fn handle(
        &mut self,
        message: Message<EchoPayload>,
        writer: &mut MessageWriter,
        now: u64,
    ) -> (result: Result<(), Error>) {
        match &message.body.payload {
            EchoPayload::Echo { echo } => {
                match writer.reply_to(&message, EchoPayload::EchoOk { echo: echo.clone() }) {
                    Ok(_) => Ok(()),
                    Err(e) => Err(e),
                }
            },
            _ => Ok(()),
        }
    }

    fn tick(&mut self, writer: &mut MessageWriter, now: u64) -> (result: Result<(), Error>) {
        Ok(())
    }

    fn receive(
        &mut self,
        response: Message<Json>,
        writer: &mut MessageWriter,
        now: u64,
    ) -> (result: Result<(), Error>) {
        Ok(())
    }
}

} // verus!
