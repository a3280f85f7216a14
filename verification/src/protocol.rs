//! Identifiers, envelopes and the wire form of an envelope.
//!
//! On the wire an envelope is one JSON object:
//! `{"src": .., "dest": .., "body": {"msg_id": .., "in_reply_to": .., "type": .., ..}}`.
//! The payload's tag and fields lie in `body` beside the two identifiers.
use crate::error::Error;
use crate::json::{
    is_text, lemma_member_at, lemma_object_view, lemma_texts_read, member, members_view,
    strings_view, texts_view, Json, JsonView,
};
use vstd::prelude::*;

verus! {

/// A locally-unique ID for the message, e.g. 5.
#[derive(Debug, PartialEq, Eq, Hash, Clone, Copy, Structural)]
pub struct MessageID(pub u32);

impl From<u32> for MessageID {
    fn from(value: u32) -> (id: Self)
        ensures
            id == MessageID(value),
    {
        MessageID(value)
    }
}

impl vstd::std_specs::convert::FromSpecImpl<u32> for MessageID {
    open spec fn obeys_from_spec() -> bool {
        true
    }

    open spec fn from_spec(value: u32) -> Self {
        MessageID(value)
    }
}

/// The ID of a node, e.g. "n1".
#[derive(Debug, Eq, Hash)]
pub struct NodeID(String);

impl View for NodeID {
    type V = Seq<char>;

    closed spec fn view(&self) -> Seq<char> {
        self.0@
    }
}

impl PartialEq for NodeID {
    fn eq(&self, other: &Self) -> (same: bool) {
        self.0 == other.0
    }
}

impl vstd::std_specs::cmp::PartialEqSpecImpl for NodeID {
    open spec fn obeys_eq_spec() -> bool {
        true
    }

    open spec fn eq_spec(&self, other: &Self) -> bool {
        self@ == other@
    }
}

impl Clone for NodeID {
    fn clone(&self) -> (copy: Self)
        ensures
            copy@ == self@,
    {
        NodeID(self.0.clone())
    }
}

impl From<&str> for NodeID {
    fn from(value: &str) -> (id: Self)
        ensures
            id@ == value@,
    {
        NodeID(value.to_owned())
    }
}

impl vstd::std_specs::convert::FromSpecImpl<&str> for NodeID {
    open spec fn obeys_from_spec() -> bool {
        false
    }

    open spec fn from_spec(value: &str) -> Self {
        arbitrary()
    }
}

impl From<String> for NodeID {
    fn from(value: String) -> (id: Self)
        ensures
            id@ == value@,
    {
        NodeID(value)
    }
}

impl vstd::std_specs::convert::FromSpecImpl<String> for NodeID {
    open spec fn obeys_from_spec() -> bool {
        false
    }

    open spec fn from_spec(value: String) -> Self {
        arbitrary()
    }
}

/// Whether an identifier is that of a server: it begins with `n`.
pub open spec fn is_server_id(id: Seq<char>) -> bool {
    id.len() > 0 && id[0] == 'n'
}

/// Whether an identifier is that of a client: it begins with `c`.
pub open spec fn is_client_id(id: Seq<char>) -> bool {
    id.len() > 0 && id[0] == 'c'
}

impl NodeID {
    /// The identifier as text.
    pub fn as_str(&self) -> (text: &str)
        ensures
            text@ == self@,
    {
        self.0.as_str()
    }

    /// "Nodes n1, n2, n3, etc. are instances of the binary you pass to Maelstrom. These
    /// nodes implement whatever distributed algorithm you're trying to build: for
    /// instance, a key-value store. You can think of these as servers, in that they
    /// accept requests from clients and send back responses."
    pub fn is_server(&self) -> (server: bool)
        ensures
            server == is_server_id(self@),
    {
        let text = self.0.as_str();
        !text.is_empty() && text.get_char(0) == 'n'
    }

    /// "Nodes c1, c2, c3, etc. are Maelstrom's internal clients. Clients send requests to
    /// servers and expect responses back, via a simple asynchronous RPC protocol."
    pub fn is_client(&self) -> (client: bool)
        ensures
            client == is_client_id(self@),
    {
        let text = self.0.as_str();
        !text.is_empty() && text.get_char(0) == 'c'
    }
}

/// The identifiers of a list of nodes.
pub open spec fn ids_view(ids: Seq<NodeID>) -> Seq<Seq<char>> {
    Seq::new(ids.len(), |i: int| ids[i]@)
}

/// An envelope: who sent it, to whom, and what it carries.
#[derive(Debug, PartialEq, Clone)]
pub struct Message<TPayload> {
    pub src: NodeID,
    pub dst: NodeID,
    pub body: MessageBody<TPayload>,
}

/// What an envelope carries.
#[derive(Debug, PartialEq, Clone)]
pub struct MessageBody<TPayload> {
    pub msg_id: Option<MessageID>,
    pub in_reply_to: Option<MessageID>,
    pub payload: TPayload,
}

/// The mathematical form of a [`Message`].
pub struct MessageView<P> {
    pub src: Seq<char>,
    pub dst: Seq<char>,
    pub body: MessageBodyView<P>,
}

/// The mathematical form of a [`MessageBody`].
pub struct MessageBodyView<P> {
    pub msg_id: Option<MessageID>,
    pub in_reply_to: Option<MessageID>,
    pub payload: P,
}

impl<TPayload: View> View for MessageBody<TPayload> {
    type V = MessageBodyView<TPayload::V>;

    open spec fn view(&self) -> Self::V {
        MessageBodyView {
            msg_id: self.msg_id,
            in_reply_to: self.in_reply_to,
            payload: self.payload@,
        }
    }
}

impl<TPayload: View> View for Message<TPayload> {
    type V = MessageView<TPayload::V>;

    open spec fn view(&self) -> Self::V {
        MessageView { src: self.src@, dst: self.dst@, body: self.body@ }
    }
}

/// Whether a member of `body` is one of the two identifiers, not part of
/// the payload.
pub open spec fn is_id_name(name: Seq<char>) -> bool {
    name == "msg_id"@ || name == "in_reply_to"@
}

/// A payload: a tagged sum that has a wire form.
///
/// The wire form is a list of members of `body`: the tag `type` and the
/// variant's fields.
pub trait Payload: View + Sized {
    /// The members that carry the payload.
    spec fn wire(payload: Self::V) -> Seq<(Seq<char>, JsonView)>;

    /// The payload that the members of a body carry, where they carry one of
    /// this kind.
    spec fn read(body: JsonView) -> Option<Self::V>;

    /// The members that carry the payload.
    fn to_wire(&self) -> (members: Vec<(String, Json)>)
        ensures
            members_view(members@) == Self::wire(self@),
    ;

    /// The payload that a body carries.
    fn from_wire(body: &Json) -> (payload: Option<Self>)
        ensures
            payload matches Some(p) ==> Self::read(body@) == Some(p@),
            payload is None ==> Self::read(body@) is None,
    ;

    /// No member of a payload goes by the name of one of the two identifiers.
    proof fn lemma_wire_names(payload: Self::V)
        ensures
            forall|i: int|
                0 <= i < Self::wire(payload).len() ==> !is_id_name(
                    #[trigger] Self::wire(payload)[i].0,
                ),
    ;

    /// Reading what was written gives the payload back.
    proof fn lemma_read_wire(payload: Self::V)
        ensures
            Self::read(JsonView::Object(Self::wire(payload))) == Some(payload),
    ;
}

/// The wire form of an optional identifier: its number, or `null`.
pub open spec fn id_json(id: Option<MessageID>) -> JsonView {
    match id {
        Some(id) => JsonView::Number(id.0 as u64),
        None => JsonView::Null,
    }
}

/// The identifier that `body` holds under `name`.
///
/// A missing member and `null` stand for no identifier. The outer `None`
/// says that the member is there and is no identifier.
pub open spec fn id_of(body: JsonView, name: Seq<char>) -> Option<Option<MessageID>> {
    match body.field(name) {
        None => Some(None),
        Some(JsonView::Null) => Some(None),
        Some(j) => match j.as_u32() {
            Some(n) => Some(Some(MessageID(n))),
            None => None,
        },
    }
}

/// The members of a body that belong to the payload: all but the two
/// identifiers.
pub open spec fn payload_members(members: Seq<(Seq<char>, JsonView)>) -> Seq<
    (Seq<char>, JsonView),
> {
    members.filter(|m: (Seq<char>, JsonView)| !is_id_name(m.0))
}

/// The envelope that a document holds, with its payload still as JSON.
///
/// The document must be an object with the strings `src` and `dest` and the
/// object `body`, in which `msg_id` and `in_reply_to` are identifiers where
/// they are present.
pub open spec fn envelope_of(doc: JsonView) -> Option<MessageView<JsonView>> {
    match (doc.text_field("src"@), doc.text_field("dest"@), doc.field("body"@)) {
        (Some(src), Some(dst), Some(JsonView::Object(members))) => {
            let body = JsonView::Object(members);
            match (id_of(body, "msg_id"@), id_of(body, "in_reply_to"@)) {
                (Some(msg_id), Some(in_reply_to)) => Some(
                    MessageView {
                        src,
                        dst,
                        body: MessageBodyView {
                            msg_id,
                            in_reply_to,
                            payload: JsonView::Object(payload_members(members)),
                        },
                    },
                ),
                _ => None,
            }
        },
        _ => None,
    }
}

/// The envelope that a document holds, with a payload of kind `P`.
pub open spec fn typed_envelope_of<P: Payload>(doc: JsonView) -> Option<MessageView<P::V>> {
    match envelope_of(doc) {
        Some(m) => match P::read(m.body.payload) {
            Some(payload) => Some(
                MessageView {
                    src: m.src,
                    dst: m.dst,
                    body: MessageBodyView {
                        msg_id: m.body.msg_id,
                        in_reply_to: m.body.in_reply_to,
                        payload,
                    },
                },
            ),
            None => None,
        },
        None => None,
    }
}

/// The members of the body of an envelope.
pub open spec fn body_members(
    msg_id: Option<MessageID>,
    in_reply_to: Option<MessageID>,
    payload: Seq<(Seq<char>, JsonView)>,
) -> Seq<(Seq<char>, JsonView)> {
    seq![("msg_id"@, id_json(msg_id)), ("in_reply_to"@, id_json(in_reply_to))] + payload
}

/// The document of an envelope whose payload has the given wire form.
pub open spec fn envelope_json(m: MessageView<Seq<(Seq<char>, JsonView)>>) -> JsonView {
    JsonView::Object(
        seq![
            ("src"@, JsonView::Text(m.src)),
            ("dest"@, JsonView::Text(m.dst)),
            (
                "body"@,
                JsonView::Object(body_members(m.body.msg_id, m.body.in_reply_to, m.body.payload)),
            ),
        ],
    )
}

/// The document of an envelope.
pub open spec fn typed_envelope_json<P: Payload>(m: MessageView<P::V>) -> JsonView {
    envelope_json(
        MessageView {
            src: m.src,
            dst: m.dst,
            body: MessageBodyView {
                msg_id: m.body.msg_id,
                in_reply_to: m.body.in_reply_to,
                payload: P::wire(m.body.payload),
            },
        },
    )
}

/// The line of an envelope, where its document can be printed.
pub open spec fn envelope_line<P: Payload>(m: MessageView<P::V>) -> Option<Seq<char>> {
    crate::json::json_text(typed_envelope_json::<P>(m))
}

fn id_to_json(id: Option<MessageID>) -> (doc: Json)
    ensures
        doc@ == id_json(id),
{
    match id {
        Some(id) => Json::Number(id.0 as u64),
        None => Json::Null,
    }
}

fn id_from_body(body: &Json, name: &str) -> (id: Option<Option<MessageID>>)
    ensures
        id == id_of(body@, name@),
{
    match body.field(name) {
        None => Some(None),
        Some(Json::Null) => Some(None),
        Some(j) => match j.as_u32() {
            Some(n) => Some(Some(MessageID(n))),
            None => None,
        },
    }
}

fn name_is_id(name: &String) -> (is_id: bool)
    ensures
        is_id == is_id_name(name@),
{
    crate::json::is_text(name, "msg_id") || crate::json::is_text(name, "in_reply_to")
}

fn payload_of(members: &Vec<(String, Json)>) -> (payload: Vec<(String, Json)>)
    ensures
        members_view(payload@) == payload_members(members_view(members@)),
{
    let ghost keep = |m: (Seq<char>, JsonView)| !is_id_name(m.0);
    let mut payload: Vec<(String, Json)> = Vec::new();
    let mut i: usize = 0;
    proof {
        assert(members_view(members@).take(0) =~= Seq::empty());
        assert(members_view(payload@) =~= Seq::empty());
        reveal(Seq::filter);
    }
    while i < members.len()
        invariant
            i <= members.len(),
            keep == |m: (Seq<char>, JsonView)| !is_id_name(m.0),
            members_view(payload@) == members_view(members@).take(i as int).filter(keep),
        decreases members.len() - i,
    {
        let ghost before = members_view(payload@);
        let ghost seen = members_view(members@).take(i as int);
        let ghost next = members_view(members@)[i as int];
        proof {
            assert(members_view(members@).take(i + 1) =~= seen.push(next));
            seen.lemma_filter_push(next, keep);
        }
        if !name_is_id(&members[i].0) {
            payload.push((members[i].0.clone(), members[i].1.duplicate()));
            proof {
                assert(members_view(payload@) =~= before.push(next));
            }
        } else {
            proof {
                assert(members_view(payload@) =~= before);
            }
        }
        i = i + 1;
    }
    proof {
        assert(members_view(members@).take(i as int) =~= members_view(members@));
    }
    payload
}

impl MessageBody<Json> {
    /// Reads the payload as one of kind `P`.
    ///
    /// Fails with [`Error::Payload`] exactly where the payload is none of
    /// that kind.
    pub fn into_payload<P: Payload>(self) -> (body: Result<MessageBody<P>, Error>)
        ensures
            match body {
                Ok(b) => P::read(self.payload@) == Some(b.payload@) && b.msg_id == self.msg_id
                    && b.in_reply_to == self.in_reply_to,
                Err(e) => e == Error::Payload && P::read(self.payload@) is None,
            },
    {
        match P::from_wire(&self.payload) {
            Some(payload) => Ok(
                MessageBody { msg_id: self.msg_id, in_reply_to: self.in_reply_to, payload },
            ),
            None => Err(Error::Payload),
        }
    }
}

impl Message<Json> {
    /// The envelope that a document holds.
    ///
    /// Fails with [`Error::Envelope`] exactly where the document holds none.
    pub fn decode(doc: &Json) -> (message: Result<Message<Json>, Error>)
        ensures
            match message {
                Ok(m) => envelope_of(doc@) == Some(m@),
                Err(e) => e == Error::Envelope && envelope_of(doc@) is None,
            },
    {
        let src = match doc.text_field("src") {
            Some(s) => s,
            None => {
                return Err(Error::Envelope);
            },
        };
        let dst = match doc.text_field("dest") {
            Some(s) => s,
            None => {
                return Err(Error::Envelope);
            },
        };
        let body = match doc.field("body") {
            Some(b) => b,
            None => {
                return Err(Error::Envelope);
            },
        };
        let members = match body {
            Json::Object(members) => members,
            _ => {
                return Err(Error::Envelope);
            },
        };
        proof {
            lemma_object_view(*members);
        }
        let msg_id = match id_from_body(body, "msg_id") {
            Some(id) => id,
            None => {
                return Err(Error::Envelope);
            },
        };
        let in_reply_to = match id_from_body(body, "in_reply_to") {
            Some(id) => id,
            None => {
                return Err(Error::Envelope);
            },
        };
        let rest = payload_of(members);
        proof {
            lemma_object_view(rest);
        }
        Ok(
            Message {
                src: NodeID(src.clone()),
                dst: NodeID(dst.clone()),
                body: MessageBody { msg_id, in_reply_to, payload: Json::Object(rest) },
            },
        )
    }

    /// Reads a line as an envelope, its payload still as JSON.
    ///
    /// Fails with [`Error::Malformed`] where the line is no JSON document
    /// and with [`Error::Envelope`] where the document holds no envelope.
    pub fn parse(line: &str) -> (message: Result<Message<Json>, Error>)
        ensures
            match message {
                Ok(m) => crate::json::json_document(line@) matches Some(doc) && envelope_of(doc)
                    == Some(m@),
                Err(e) => match crate::json::json_document(line@) {
                    None => e == Error::Malformed,
                    Some(doc) => e == Error::Envelope && envelope_of(doc) is None,
                },
            },
    {
        match Json::parse(line) {
            Ok(doc) => Message::decode(&doc),
            Err(e) => Err(e),
        }
    }

    /// Reads the payload as one of kind `P`.
    ///
    /// Fails with [`Error::Payload`] exactly where the payload is none of
    /// that kind.
    pub fn into_payload<P: Payload>(self) -> (message: Result<Message<P>, Error>)
        ensures
            match message {
                Ok(m) => P::read(self.body.payload@) == Some(m.body.payload@) && m.src@
                    == self.src@ && m.dst@ == self.dst@ && m.body.msg_id == self.body.msg_id
                    && m.body.in_reply_to == self.body.in_reply_to,
                Err(e) => e == Error::Payload && P::read(self.body.payload@) is None,
            },
    {
        match self.body.into_payload::<P>() {
            Ok(body) => Ok(Message { src: self.src, dst: self.dst, body }),
            Err(e) => Err(e),
        }
    }
}

impl<P: Payload> Message<P> {
    /// The document of the envelope.
    pub fn encode(&self) -> (doc: Json)
        ensures
            doc@ == typed_envelope_json::<P>(self@),
    {
        let mut members: Vec<(String, Json)> = Vec::new();
        members.push(("msg_id".to_owned(), id_to_json(self.body.msg_id)));
        members.push(("in_reply_to".to_owned(), id_to_json(self.body.in_reply_to)));
        let mut payload = self.body.payload.to_wire();
        let ghost wire = members_view(payload@);
        let ghost ids = members_view(members@);
        members.append(&mut payload);
        proof {
            assert(members_view(members@) =~= ids + wire);
            assert(ids =~= seq![
                ("msg_id"@, id_json(self.body.msg_id)),
                ("in_reply_to"@, id_json(self.body.in_reply_to)),
            ]);
            lemma_object_view(members);
        }
        let mut outer: Vec<(String, Json)> = Vec::new();
        outer.push(("src".to_owned(), Json::text(self.src.as_str())));
        outer.push(("dest".to_owned(), Json::text(self.dst.as_str())));
        outer.push(("body".to_owned(), Json::Object(members)));
        proof {
            lemma_object_view(outer);
            assert(members_view(outer@) =~= typed_envelope_json::<P>(self@)->Object_0);
        }
        Json::Object(outer)
    }

    /// The envelope as one line.
    ///
    /// Fails with [`Error::Unprintable`] exactly where the envelope's
    /// document cannot be printed.
    pub fn to_line(&self) -> (line: Result<String, Error>)
        ensures
            match line {
                Ok(l) => envelope_line::<P>(self@) == Some(l@),
                Err(e) => e == Error::Unprintable && envelope_line::<P>(self@) is None,
            },
    {
        self.encode().print()
    }

    /// The envelope that a document holds.
    ///
    /// Fails with [`Error::Envelope`] where the document holds no envelope
    /// and with [`Error::Payload`] where the envelope's payload is none of
    /// kind `P`.
    pub fn from_json(doc: &Json) -> (message: Result<Message<P>, Error>)
        ensures
            match message {
                Ok(m) => typed_envelope_of::<P>(doc@) == Some(m@),
                Err(e) => typed_envelope_of::<P>(doc@) is None && (e == Error::Envelope
                    <==> envelope_of(doc@) is None) && (e == Error::Payload <==> envelope_of(
                    doc@,
                ) is Some),
            },
    {
        match Message::decode(doc) {
            Ok(generic) => generic.into_payload::<P>(),
            Err(e) => Err(e),
        }
    }
}

/// A filter that every item passes changes nothing.
proof fn lemma_filter_keeps_all<A>(s: Seq<A>, keep: spec_fn(A) -> bool)
    requires
        forall|i: int| 0 <= i < s.len() ==> keep(#[trigger] s[i]),
    ensures
        s.filter(keep) == s,
    decreases s.len(),
{
    reveal(Seq::filter);
    if s.len() > 0 {
        lemma_filter_keeps_all(s.drop_last(), keep);
        assert(s.drop_last().push(s.last()) =~= s);
    }
}

/// The three members of an envelope's document are found under their names.
proof fn lemma_envelope_members(m: MessageView<Seq<(Seq<char>, JsonView)>>)
    ensures
        envelope_json(m).text_field("src"@) == Some(m.src),
        envelope_json(m).text_field("dest"@) == Some(m.dst),
        envelope_json(m).field("body"@) == Some(
            JsonView::Object(body_members(m.body.msg_id, m.body.in_reply_to, m.body.payload)),
        ),
{
    reveal_strlit("src");
    reveal_strlit("dest");
    reveal_strlit("body");
    let outer = envelope_json(m)->Object_0;
    assert("dest"@[0] != "body"@[0]);
    lemma_member_at(outer, 0, "src"@);
    lemma_member_at(outer, 1, "dest"@);
    lemma_member_at(outer, 2, "body"@);
}

/// The two identifiers of a body are found under their names, whatever
/// payload lies beside them.
proof fn lemma_body_ids<P: Payload>(
    msg_id: Option<MessageID>,
    in_reply_to: Option<MessageID>,
    payload: P::V,
)
    ensures
        id_of(JsonView::Object(body_members(msg_id, in_reply_to, P::wire(payload))), "msg_id"@)
            == Some(msg_id),
        id_of(
            JsonView::Object(body_members(msg_id, in_reply_to, P::wire(payload))),
            "in_reply_to"@,
        ) == Some(in_reply_to),
{
    reveal_strlit("msg_id");
    reveal_strlit("in_reply_to");
    let wire = P::wire(payload);
    let members = body_members(msg_id, in_reply_to, wire);
    P::lemma_wire_names(payload);
    assert forall|j: int| 0 < j < members.len() implies (#[trigger] members[j]).0
        != "msg_id"@ by {
        if j >= 2 {
            assert(members[j] == wire[j - 2]);
            assert(!is_id_name(wire[j - 2].0));
        } else {
            assert(members[1].0 == "in_reply_to"@);
            assert("in_reply_to"@.len() == 11);
            assert("msg_id"@.len() == 6);
        }
    }
    lemma_member_at(members, 0, "msg_id"@);
    assert forall|j: int| 1 < j < members.len() implies (#[trigger] members[j]).0
        != "in_reply_to"@ by {
        assert(members[j] == wire[j - 2]);
        assert(!is_id_name(wire[j - 2].0));
    }
    lemma_member_at(members, 1, "in_reply_to"@);
}

/// The payload's members are what is left of a body without its two
/// identifiers.
proof fn lemma_body_payload<P: Payload>(
    msg_id: Option<MessageID>,
    in_reply_to: Option<MessageID>,
    payload: P::V,
)
    ensures
        payload_members(body_members(msg_id, in_reply_to, P::wire(payload))) == P::wire(payload),
{
    let wire = P::wire(payload);
    let ids = seq![("msg_id"@, id_json(msg_id)), ("in_reply_to"@, id_json(in_reply_to))];
    let keep = |m: (Seq<char>, JsonView)| !is_id_name(m.0);
    Seq::filter_distributes_over_add(ids, wire, keep);
    assert(ids.filter(keep) =~= Seq::empty()) by {
        reveal_with_fuel(Seq::filter, 3);
    }
    P::lemma_wire_names(payload);
    lemma_filter_keeps_all(wire, keep);
    assert(ids.filter(keep) + wire.filter(keep) =~= wire);
}

/// Every envelope survives the wire: the document of an envelope holds that
/// envelope and no other.
pub proof fn lemma_envelope_round_trip<P: Payload>(m: MessageView<P::V>)
    ensures
        typed_envelope_of::<P>(typed_envelope_json::<P>(m)) == Some(m),
{
    let wire = P::wire(m.body.payload);
    lemma_envelope_members(
        MessageView {
            src: m.src,
            dst: m.dst,
            body: MessageBodyView {
                msg_id: m.body.msg_id,
                in_reply_to: m.body.in_reply_to,
                payload: wire,
            },
        },
    );
    lemma_body_ids::<P>(m.body.msg_id, m.body.in_reply_to, m.body.payload);
    lemma_body_payload::<P>(m.body.msg_id, m.body.in_reply_to, m.body.payload);
    P::lemma_read_wire(m.body.payload);
}

/// The identifiers that a list of texts names.
pub fn node_ids_from(texts: &Vec<String>) -> (ids: Vec<NodeID>)
    ensures
        ids_view(ids@) == strings_view(texts@),
{
    let mut ids: Vec<NodeID> = Vec::new();
    let mut i: usize = 0;
    while i < texts.len()
        invariant
            i <= texts.len(),
            ids.len() == i,
            forall|k: int| 0 <= k < i ==> ids[k]@ == texts[k]@,
        decreases texts.len() - i,
    {
        ids.push(NodeID(texts[i].clone()));
        i = i + 1;
    }
    proof {
        assert(ids_view(ids@) =~= strings_view(texts@));
    }
    ids
}

/// A copy of a list of identifiers.
pub fn copy_node_ids(ids: &Vec<NodeID>) -> (copy: Vec<NodeID>)
    ensures
        ids_view(copy@) == ids_view(ids@),
{
    let mut copy: Vec<NodeID> = Vec::new();
    let mut i: usize = 0;
    while i < ids.len()
        invariant
            i <= ids.len(),
            copy.len() == i,
            forall|k: int| 0 <= k < i ==> copy[k]@ == ids[k]@,
        decreases ids.len() - i,
    {
        copy.push(ids[i].clone());
        i = i + 1;
    }
    proof {
        assert(ids_view(copy@) =~= ids_view(ids@));
    }
    copy
}

/// The texts of a list of identifiers.
pub fn node_ids_texts(ids: &Vec<NodeID>) -> (texts: Vec<String>)
    ensures
        strings_view(texts@) == ids_view(ids@),
{
    let mut texts: Vec<String> = Vec::new();
    let mut i: usize = 0;
    while i < ids.len()
        invariant
            i <= ids.len(),
            texts.len() == i,
            forall|k: int| 0 <= k < i ==> ids[k]@ == texts[k]@,
        decreases ids.len() - i,
    {
        texts.push(ids[i].0.clone());
        i = i + 1;
    }
    proof {
        assert(ids_view(ids@) =~= strings_view(texts@));
    }
    texts
}

/// The payloads of the handshake that opens every run.
#[derive(Debug, PartialEq, Clone)]
pub enum InitPayload {
    Init { node_id: NodeID, node_ids: Vec<NodeID> },
    InitOk,
}

/// The mathematical form of an [`InitPayload`].
pub enum InitPayloadView {
    Init { node_id: Seq<char>, node_ids: Seq<Seq<char>> },
    InitOk,
}

impl View for InitPayload {
    type V = InitPayloadView;

    open spec fn view(&self) -> InitPayloadView {
        match self {
            InitPayload::Init { node_id, node_ids } => InitPayloadView::Init {
                node_id: node_id@,
                node_ids: ids_view(node_ids@),
            },
            InitPayload::InitOk => InitPayloadView::InitOk,
        }
    }
}

impl Payload for InitPayload {
    open spec fn wire(payload: InitPayloadView) -> Seq<(Seq<char>, JsonView)> {
        match payload {
            InitPayloadView::Init { node_id, node_ids } => seq![
                ("type"@, JsonView::Text("init"@)),
                ("node_id"@, JsonView::Text(node_id)),
                ("node_ids"@, JsonView::List(texts_view(node_ids))),
            ],
            InitPayloadView::InitOk => seq![("type"@, JsonView::Text("init_ok"@))],
        }
    }

    open spec fn read(body: JsonView) -> Option<InitPayloadView> {
        match body.text_field("type"@) {
            Some(tag) => if tag == "init"@ {
                match (body.text_field("node_id"@), body.text_list_field("node_ids"@)) {
                    (Some(node_id), Some(node_ids)) => Some(
                        InitPayloadView::Init { node_id, node_ids },
                    ),
                    _ => None,
                }
            } else if tag == "init_ok"@ {
                Some(InitPayloadView::InitOk)
            } else {
                None
            },
            None => None,
        }
    }

    fn to_wire(&self) -> (members: Vec<(String, Json)>) {
        let mut members: Vec<(String, Json)> = Vec::new();
        match self {
            InitPayload::Init { node_id, node_ids } => {
                members.push(("type".to_owned(), Json::text("init")));
                members.push(("node_id".to_owned(), Json::text(node_id.as_str())));
                members.push(("node_ids".to_owned(), Json::texts(&node_ids_texts(node_ids))));
            },
            InitPayload::InitOk => {
                members.push(("type".to_owned(), Json::text("init_ok")));
            },
        }
        proof {
            assert(members_view(members@) =~= Self::wire(self@));
        }
        members
    }

    fn from_wire(body: &Json) -> (payload: Option<Self>) {
        let tag = match body.text_field("type") {
            Some(tag) => tag,
            None => {
                return None;
            },
        };
        if is_text(tag, "init") {
            let node_id = match body.text_field("node_id") {
                Some(s) => NodeID(s.clone()),
                None => {
                    return None;
                },
            };
            let node_ids = match body.text_list_field("node_ids") {
                Some(texts) => node_ids_from(&texts),
                None => {
                    return None;
                },
            };
            Some(InitPayload::Init { node_id, node_ids })
        } else if is_text(tag, "init_ok") {
            Some(InitPayload::InitOk)
        } else {
            None
        }
    }

    proof fn lemma_wire_names(payload: InitPayloadView) {
        reveal_strlit("msg_id");
        reveal_strlit("in_reply_to");
        reveal_strlit("type");
        reveal_strlit("node_id");
        reveal_strlit("node_ids");
        assert("msg_id"@[0] != "type"@[0]);
        assert("msg_id"@[0] != "node_id"@[0]);
        assert("msg_id"@[0] != "node_ids"@[0]);
        assert("in_reply_to"@[1] != "type"@[1]);
        assert("in_reply_to"@[1] != "node_id"@[1]);
        assert("in_reply_to"@[1] != "node_ids"@[1]);
    }

    proof fn lemma_read_wire(payload: InitPayloadView) {
        reveal_strlit("type");
        reveal_strlit("node_id");
        reveal_strlit("node_ids");
        reveal_strlit("init");
        reveal_strlit("init_ok");
        let wire = Self::wire(payload);
        match payload {
            InitPayloadView::Init { node_id, node_ids } => {
                assert("type"@[0] != "node_id"@[0]);
                assert("type"@[0] != "node_ids"@[0]);
                assert("node_id"@.len() != "node_ids"@.len());
                lemma_member_at(wire, 0, "type"@);
                lemma_member_at(wire, 1, "node_id"@);
                lemma_member_at(wire, 2, "node_ids"@);
                lemma_texts_read(node_ids);
            },
            InitPayloadView::InitOk => {
                lemma_member_at(wire, 0, "type"@);
                assert("init"@.len() != "init_ok"@.len());
            },
        }
    }
}

/// The members of a payload that has a tag and nothing else.
pub open spec fn tag_only(tag: Seq<char>) -> Seq<(Seq<char>, JsonView)> {
    seq![("type"@, JsonView::Text(tag))]
}

/// The members of a payload that has a tag and one field.
pub open spec fn tag_and_field(tag: Seq<char>, name: Seq<char>, value: JsonView) -> Seq<
    (Seq<char>, JsonView),
> {
    seq![("type"@, JsonView::Text(tag)), (name, value)]
}

/// The members of a payload that has a tag and nothing else.
pub fn wire_tag_only(tag: &str) -> (members: Vec<(String, Json)>)
    ensures
        members_view(members@) == tag_only(tag@),
{
    let mut members: Vec<(String, Json)> = Vec::new();
    members.push(("type".to_owned(), Json::text(tag)));
    proof {
        assert(members_view(members@) =~= tag_only(tag@));
    }
    members
}

/// The members of a payload that has a tag and one field.
pub fn wire_tag_and_field(tag: &str, name: &str, value: Json) -> (members: Vec<(String, Json)>)
    ensures
        members_view(members@) == tag_and_field(tag@, name@, value@),
{
    let mut members: Vec<(String, Json)> = Vec::new();
    members.push(("type".to_owned(), Json::text(tag)));
    members.push((name.to_owned(), value));
    proof {
        assert(members_view(members@) =~= tag_and_field(tag@, name@, value@));
    }
    members
}

/// The tag of a payload with nothing but a tag is found under `type`.
pub proof fn lemma_tag_only(tag: Seq<char>)
    ensures
        JsonView::Object(tag_only(tag)).text_field("type"@) == Some(tag),
{
    lemma_member_at(tag_only(tag), 0, "type"@);
}

/// The tag and the field of a payload are found under their names.
pub proof fn lemma_tag_and_field(tag: Seq<char>, name: Seq<char>, value: JsonView)
    requires
        name != "type"@,
    ensures
        JsonView::Object(tag_and_field(tag, name, value)).text_field("type"@) == Some(tag),
        JsonView::Object(tag_and_field(tag, name, value)).field(name) == Some(value),
{
    lemma_member_at(tag_and_field(tag, name, value), 0, "type"@);
    lemma_member_at(tag_and_field(tag, name, value), 1, name);
}


} // verus!
