//! The sequentially consistent key-value store of the harness, the node
//! `seq-kv`.
//!
//! A call has two halves. The first sends the request and returns the
//! identifier under which the answer will come; the runtime hands that
//! answer to [`crate::runtime::App::receive`]. The second reads the answer.
use crate::error::Error;
use crate::json::{is_text, lemma_member_at, members_view, Json, JsonValue, JsonView};
use crate::protocol::{
    lemma_tag_and_field, lemma_tag_only, tag_and_field, tag_only, wire_tag_and_field,
    wire_tag_only, Message, MessageID, NodeID, Payload,
};
use crate::writer::MessageWriter;
use vstd::prelude::*;

verus! {

/// The payloads of the key-value store.
#[derive(Debug, PartialEq, Clone)]
pub enum KVPayload<K, V> {
    Read { key: K },
    ReadOk { value: V },
    Write { key: K, value: V },
    WriteOk,
    /// On the wire: `cas`.
    CompareAndSet { key: K, from: V, to: V, create_if_not_exists: Option<bool> },
    /// On the wire: `cas_ok`.
    CompareAndSetOk,
    Error { code: u32, text: String },
}

/// The mathematical form of a [`KVPayload`].
pub enum KVPayloadView<K, V> {
    Read { key: K },
    ReadOk { value: V },
    Write { key: K, value: V },
    WriteOk,
    CompareAndSet { key: K, from: V, to: V, create_if_not_exists: Option<bool> },
    CompareAndSetOk,
    Error { code: u32, text: Seq<char> },
}

impl<K: View, V: View> View for KVPayload<K, V> {
    type V = KVPayloadView<K::V, V::V>;

    open spec fn view(&self) -> Self::V {
        match self {
            KVPayload::Read { key } => KVPayloadView::Read { key: key@ },
            KVPayload::ReadOk { value } => KVPayloadView::ReadOk { value: value@ },
            KVPayload::Write { key, value } => KVPayloadView::Write { key: key@, value: value@ },
            KVPayload::WriteOk => KVPayloadView::WriteOk,
            KVPayload::CompareAndSet {
                key,
                from,
                to,
                create_if_not_exists,
            } => KVPayloadView::CompareAndSet {
                key: key@,
                from: from@,
                to: to@,
                create_if_not_exists: *create_if_not_exists,
            },
            KVPayload::CompareAndSetOk => KVPayloadView::CompareAndSetOk,
            KVPayload::Error { code, text } => KVPayloadView::Error { code: *code, text: text@ },
        }
    }
}

/// The wire form of an optional truth value: itself, or `null`.
pub open spec fn flag_json(flag: Option<bool>) -> JsonView {
    match flag {
        Some(b) => JsonView::Bool(b),
        None => JsonView::Null,
    }
}

/// The optional truth value that `body` holds under `name`.
///
/// A missing member and `null` stand for none. The outer `None` says that
/// the member is there and is no truth value.
pub open spec fn flag_of(body: JsonView, name: Seq<char>) -> Option<Option<bool>> {
    match body.field(name) {
        None => Some(None),
        Some(JsonView::Null) => Some(None),
        Some(JsonView::Bool(b)) => Some(Some(b)),
        Some(_) => None,
    }
}

/// The value of kind `T` that `body` holds under `name`.
pub open spec fn value_of<T: JsonValue>(body: JsonView, name: Seq<char>) -> Option<T::V> {
    match body.field(name) {
        Some(doc) => T::value(doc),
        None => None,
    }
}

fn read_value<T: JsonValue>(body: &Json, name: &str) -> (value: Option<T>)
    ensures
        value matches Some(v) ==> value_of::<T>(body@, name@) == Some(v@),
        value is None ==> value_of::<T>(body@, name@) is None,
{
    match body.field(name) {
        Some(doc) => T::from_json(doc),
        None => None,
    }
}

fn read_flag(body: &Json, name: &str) -> (flag: Option<Option<bool>>)
    ensures
        flag == flag_of(body@, name@),
{
    match body.field(name) {
        None => Some(None),
        Some(Json::Null) => Some(None),
        Some(Json::Bool(b)) => Some(Some(*b)),
        Some(_) => None,
    }
}

impl<K: JsonValue, V: JsonValue> Payload for KVPayload<K, V> {
    open spec fn wire(payload: KVPayloadView<K::V, V::V>) -> Seq<(Seq<char>, JsonView)> {
        match payload {
            KVPayloadView::Read { key } => tag_and_field("read"@, "key"@, K::document(key)),
            KVPayloadView::ReadOk { value } => tag_and_field(
                "read_ok"@,
                "value"@,
                V::document(value),
            ),
            KVPayloadView::Write { key, value } => seq![
                ("type"@, JsonView::Text("write"@)),
                ("key"@, K::document(key)),
                ("value"@, V::document(value)),
            ],
            KVPayloadView::WriteOk => tag_only("write_ok"@),
            KVPayloadView::CompareAndSet { key, from, to, create_if_not_exists } => seq![
                ("type"@, JsonView::Text("cas"@)),
                ("key"@, K::document(key)),
                ("from"@, V::document(from)),
                ("to"@, V::document(to)),
                ("create_if_not_exists"@, flag_json(create_if_not_exists)),
            ],
            KVPayloadView::CompareAndSetOk => tag_only("cas_ok"@),
            KVPayloadView::Error { code, text } => seq![
                ("type"@, JsonView::Text("error"@)),
                ("code"@, JsonView::Number(code as u64)),
                ("text"@, JsonView::Text(text)),
            ],
        }
    }

    open spec fn read(body: JsonView) -> Option<KVPayloadView<K::V, V::V>> {
        match body.text_field("type"@) {
            Some(tag) => if tag == "read"@ {
                match value_of::<K>(body, "key"@) {
                    Some(key) => Some(KVPayloadView::Read { key }),
                    None => None,
                }
            } else if tag == "read_ok"@ {
                match value_of::<V>(body, "value"@) {
                    Some(value) => Some(KVPayloadView::ReadOk { value }),
                    None => None,
                }
            } else if tag == "write"@ {
                match (value_of::<K>(body, "key"@), value_of::<V>(body, "value"@)) {
                    (Some(key), Some(value)) => Some(KVPayloadView::Write { key, value }),
                    _ => None,
                }
            } else if tag == "write_ok"@ {
                Some(KVPayloadView::WriteOk)
            } else if tag == "cas"@ {
                match (
                    value_of::<K>(body, "key"@),
                    value_of::<V>(body, "from"@),
                    value_of::<V>(body, "to"@),
                    flag_of(body, "create_if_not_exists"@),
                ) {
                    (
                        Some(key),
                        Some(from),
                        Some(to),
                        Some(create_if_not_exists),
                    ) => Some(KVPayloadView::CompareAndSet { key, from, to, create_if_not_exists }),
                    _ => None,
                }
            } else if tag == "cas_ok"@ {
                Some(KVPayloadView::CompareAndSetOk)
            } else if tag == "error"@ {
                match (body.u32_field("code"@), body.text_field("text"@)) {
                    (Some(code), Some(text)) => Some(KVPayloadView::Error { code, text }),
                    _ => None,
                }
            } else {
                None
            },
            None => None,
        }
    }

    fn to_wire(&self) -> (members: Vec<(String, Json)>) {
        match self {
            KVPayload::Read { key } => wire_tag_and_field("read", "key", key.to_json()),
            KVPayload::ReadOk { value } => wire_tag_and_field("read_ok", "value", value.to_json()),
            KVPayload::Write { key, value } => {
                let mut members = wire_tag_and_field("write", "key", key.to_json());
                let ghost head = members_view(members@);
                members.push(("value".to_owned(), value.to_json()));
                proof {
                    assert(members_view(members@) =~= head.push(("value"@, V::document(value@))));
                    assert(members_view(members@) =~= Self::wire(self@));
                }
                members
            },
            KVPayload::WriteOk => wire_tag_only("write_ok"),
            KVPayload::CompareAndSet { key, from, to, create_if_not_exists } => {
                let mut members = wire_tag_and_field("cas", "key", key.to_json());
                let ghost head = members_view(members@);
                members.push(("from".to_owned(), from.to_json()));
                let ghost second = members_view(members@);
                members.push(("to".to_owned(), to.to_json()));
                let ghost third = members_view(members@);
                let flag = match create_if_not_exists {
                    Some(b) => Json::Bool(*b),
                    None => Json::Null,
                };
                members.push(("create_if_not_exists".to_owned(), flag));
                proof {
                    assert(second =~= head.push(("from"@, V::document(from@))));
                    assert(third =~= second.push(("to"@, V::document(to@))));
                    assert(members_view(members@) =~= third.push(
                        ("create_if_not_exists"@, flag_json(*create_if_not_exists)),
                    ));
                    assert(members_view(members@) =~= Self::wire(self@));
                }
                members
            },
            KVPayload::CompareAndSetOk => wire_tag_only("cas_ok"),
            KVPayload::Error { code, text } => {
                let mut members = wire_tag_and_field("error", "code", Json::Number(*code as u64));
                let ghost head = members_view(members@);
                members.push(("text".to_owned(), Json::Text(text.clone())));
                proof {
                    assert(members_view(members@) =~= head.push(("text"@, JsonView::Text(text@))));
                    assert(members_view(members@) =~= Self::wire(self@));
                }
                members
            },
        }
    }

    fn from_wire(body: &Json) -> (payload: Option<Self>) {
        let tag = match body.text_field("type") {
            Some(tag) => tag,
            None => {
                return None;
            },
        };
        if is_text(tag, "read") {
            match read_value::<K>(body, "key") {
                Some(key) => Some(KVPayload::Read { key }),
                None => None,
            }
        } else if is_text(tag, "read_ok") {
            match read_value::<V>(body, "value") {
                Some(value) => Some(KVPayload::ReadOk { value }),
                None => None,
            }
        } else if is_text(tag, "write") {
            match (read_value::<K>(body, "key"), read_value::<V>(body, "value")) {
                (Some(key), Some(value)) => Some(KVPayload::Write { key, value }),
                _ => None,
            }
        } else if is_text(tag, "write_ok") {
            Some(KVPayload::WriteOk)
        } else if is_text(tag, "cas") {
            match (
                read_value::<K>(body, "key"),
                read_value::<V>(body, "from"),
                read_value::<V>(body, "to"),
                read_flag(body, "create_if_not_exists"),
            ) {
                (Some(key), Some(from), Some(to), Some(create_if_not_exists)) => Some(
                    KVPayload::CompareAndSet { key, from, to, create_if_not_exists },
                ),
                _ => None,
            }
        } else if is_text(tag, "cas_ok") {
            Some(KVPayload::CompareAndSetOk)
        } else if is_text(tag, "error") {
            match (body.u32_field("code"), body.text_field("text")) {
                (Some(code), Some(text)) => Some(KVPayload::Error { code, text: text.clone() }),
                _ => None,
            }
        } else {
            None
        }
    }

    proof fn lemma_wire_names(payload: KVPayloadView<K::V, V::V>) {
        lemma_names_differ();
        reveal_strlit("msg_id");
        reveal_strlit("in_reply_to");
        assert("msg_id"@.len() == 6 && "in_reply_to"@.len() == 11);
    }

    proof fn lemma_read_wire(payload: KVPayloadView<K::V, V::V>) {
        lemma_tags_differ();
        lemma_names_differ();
        let wire = Self::wire(payload);
        match payload {
            KVPayloadView::Read { key } => {
                lemma_tag_and_field("read"@, "key"@, K::document(key));
                K::lemma_value_of_document(key);
            },
            KVPayloadView::ReadOk { value } => {
                lemma_tag_and_field("read_ok"@, "value"@, V::document(value));
                V::lemma_value_of_document(value);
            },
            KVPayloadView::Write { key, value } => {
                lemma_member_at(wire, 0, "type"@);
                lemma_member_at(wire, 1, "key"@);
                lemma_member_at(wire, 2, "value"@);
                K::lemma_value_of_document(key);
                V::lemma_value_of_document(value);
            },
            KVPayloadView::WriteOk => {
                lemma_tag_only("write_ok"@);
            },
            KVPayloadView::CompareAndSet { key, from, to, create_if_not_exists } => {
                lemma_member_at(wire, 0, "type"@);
                lemma_member_at(wire, 1, "key"@);
                lemma_member_at(wire, 2, "from"@);
                lemma_member_at(wire, 3, "to"@);
                lemma_member_at(wire, 4, "create_if_not_exists"@);
                K::lemma_value_of_document(key);
                V::lemma_value_of_document(from);
                V::lemma_value_of_document(to);
            },
            KVPayloadView::CompareAndSetOk => {
                lemma_tag_only("cas_ok"@);
            },
            KVPayloadView::Error { code, text } => {
                lemma_member_at(wire, 0, "type"@);
                lemma_member_at(wire, 1, "code"@);
                lemma_member_at(wire, 2, "text"@);
            },
        }
    }
}

/// The seven tags are seven different texts.
proof fn lemma_tags_differ()
    ensures
        "read"@.len() == 4,
        "read_ok"@.len() == 7,
        "write"@.len() == 5,
        "write_ok"@.len() == 8,
        "cas"@.len() == 3,
        "cas_ok"@.len() == 6,
        "error"@.len() == 5,
        "write"@ != "error"@,
{
    reveal_strlit("read");
    reveal_strlit("read_ok");
    reveal_strlit("write");
    reveal_strlit("write_ok");
    reveal_strlit("cas");
    reveal_strlit("cas_ok");
    reveal_strlit("error");
    assert("write"@[0] != "error"@[0]);
}

/// The names of the members are different texts.
proof fn lemma_names_differ()
    ensures
        "type"@.len() == 4,
        "key"@.len() == 3,
        "value"@.len() == 5,
        "from"@.len() == 4,
        "to"@.len() == 2,
        "create_if_not_exists"@.len() == 20,
        "code"@.len() == 4,
        "text"@.len() == 4,
        "type"@ != "from"@,
        "type"@ != "code"@,
        "type"@ != "text"@,
        "code"@ != "text"@,
{
    reveal_strlit("type");
    reveal_strlit("key");
    reveal_strlit("value");
    reveal_strlit("from");
    reveal_strlit("to");
    reveal_strlit("create_if_not_exists");
    reveal_strlit("code");
    reveal_strlit("text");
    assert("type"@[0] != "from"@[0]);
    assert("type"@[0] != "code"@[0]);
    assert("type"@[1] != "text"@[1]);
    assert("code"@[0] != "text"@[0]);
}

/// The code of the store's error "key does not exist".
pub const KEY_DOES_NOT_EXIST: u32 = 20;

/// The code of the store's error "precondition failed".
pub const PRECONDITION_FAILED: u32 = 22;

/// What the answer to a `read` says: the value, or none where the key
/// does not exist.
///
/// The answer is a fault where it is no payload of the store
/// ([`Error::Payload`]), and where it is any payload but `read_ok` and the
/// error "key does not exist" ([`Error::UnexpectedReply`]).
pub open spec fn read_outcome<V: JsonValue>(body: JsonView) -> Result<Option<V::V>, Error> {
    match KVPayload::<(), V>::read(body) {
        None => Err(Error::Payload),
        Some(KVPayloadView::ReadOk { value }) => Ok(Some(value)),
        Some(KVPayloadView::Error { code, text }) => if code == KEY_DOES_NOT_EXIST {
            Ok(None)
        } else {
            Err(Error::UnexpectedReply)
        },
        Some(_) => Err(Error::UnexpectedReply),
    }
}

/// What the answer to a `write` says.
///
/// The answer is a fault where it is no payload of the store
/// ([`Error::Payload`]), and where it is any payload but `write_ok`
/// ([`Error::UnexpectedReply`]).
pub open spec fn write_outcome(body: JsonView) -> Result<(), Error> {
    match KVPayload::<(), ()>::read(body) {
        None => Err(Error::Payload),
        Some(KVPayloadView::WriteOk) => Ok(()),
        Some(_) => Err(Error::UnexpectedReply),
    }
}

/// What the answer to a `cas` says: whether the value was put.
///
/// The answer is a fault where it is no payload of the store
/// ([`Error::Payload`]), and where it is any payload but `cas_ok` and the
/// error "precondition failed" ([`Error::UnexpectedReply`]).
pub open spec fn swap_outcome(body: JsonView) -> Result<bool, Error> {
    match KVPayload::<(), ()>::read(body) {
        None => Err(Error::Payload),
        Some(KVPayloadView::CompareAndSetOk) => Ok(true),
        Some(KVPayloadView::Error { code, text }) => if code == PRECONDITION_FAILED {
            Ok(false)
        } else {
            Err(Error::UnexpectedReply)
        },
        Some(_) => Err(Error::UnexpectedReply),
    }
}

/// The client of the key-value store.
pub struct SeqKV {}

impl SeqKV {
    /// The node of the store.
    pub fn node_id() -> (id: NodeID)
        ensures
            id@ == "seq-kv"@,
    {
        NodeID::from("seq-kv")
    }

    pub fn new() -> (kv: SeqKV) {
        SeqKV {  }
    }

    /// Asks the store for the value under `key`. The answer is read by
    /// [`SeqKV::read_answer`].
    pub fn read<K: JsonValue>(&self, writer: &mut MessageWriter, key: K) -> (call: Result<
        MessageID,
        Error,
    >)
        requires
            old(writer)@.wf(),
        ensures
            final(writer)@.wf(),
            final(writer)@ == old(writer)@.after_request::<KVPayload<K, ()>>(
                "seq-kv"@,
                KVPayloadView::Read { key: key@ },
            ),
            call == old(writer)@.send_result::<KVPayload<K, ()>>(
                "seq-kv"@,
                None,
                KVPayloadView::Read { key: key@ },
            ),
    {
        writer.send_and_receive(&Self::node_id(), KVPayload::<K, ()>::Read { key })
    }

    /// Reads the answer to [`SeqKV::read`]: the value, or none where the
    /// store says that the key does not exist.
    ///
    /// Fails with [`Error::Payload`] where the answer is no payload of the
    /// store, and with [`Error::UnexpectedReply`] where it is any other
    /// payload, or an error with another code.
    pub fn read_answer<V: JsonValue>(response: Message<Json>) -> (value: Result<Option<V>, Error>)
        ensures
            match read_outcome::<V>(response.body.payload@) {
                Ok(Some(held)) => value matches Ok(Some(got)) && got@ == held,
                Ok(None) => value matches Ok(None),
                Err(fault) => value matches Err(e) && e == fault,
            },
    {
        let response = match response.into_payload::<KVPayload<(), V>>() {
            Ok(r) => r,
            Err(e) => {
                return Err(e);
            },
        };
        match response.body.payload {
            KVPayload::Error { code, text: _ } => if code == KEY_DOES_NOT_EXIST {
                Ok(None)
            } else {
                Err(Error::UnexpectedReply)
            },
            KVPayload::ReadOk { value } => Ok(Some(value)),
            _ => Err(Error::UnexpectedReply),
        }
    }

    /// Asks the store to put `value` under `key`. The answer is read by
    /// [`SeqKV::write_answer`].
    pub fn write<K: JsonValue, V: JsonValue>(
        &self,
        writer: &mut MessageWriter,
        key: K,
        value: V,
    ) -> (call: Result<MessageID, Error>)
        requires
            old(writer)@.wf(),
        ensures
            final(writer)@.wf(),
            final(writer)@ == old(writer)@.after_request::<KVPayload<K, V>>(
                "seq-kv"@,
                KVPayloadView::Write { key: key@, value: value@ },
            ),
            call == old(writer)@.send_result::<KVPayload<K, V>>(
                "seq-kv"@,
                None,
                KVPayloadView::Write { key: key@, value: value@ },
            ),
    {
        writer.send_and_receive(&Self::node_id(), KVPayload::Write { key, value })
    }

    /// Reads the answer to [`SeqKV::write`].
    ///
    /// Fails with [`Error::Payload`] where the answer is no payload of the
    /// store, and with [`Error::UnexpectedReply`] where it is not
    /// `write_ok`.
    pub fn write_answer(response: Message<Json>) -> (done: Result<(), Error>)
        ensures
            done == write_outcome(response.body.payload@),
    {
        let response = match response.into_payload::<KVPayload<(), ()>>() {
            Ok(r) => r,
            Err(e) => {
                return Err(e);
            },
        };
        match response.body.payload {
            KVPayload::WriteOk => Ok(()),
            _ => Err(Error::UnexpectedReply),
        }
    }

    /// Asks the store to put `to` under `key` if `from` is there, or if
    /// nothing is. The answer is read by
    /// [`SeqKV::compare_and_swap_answer`].
    pub fn compare_and_swap<K: JsonValue, V: JsonValue>(
        &self,
        writer: &mut MessageWriter,
        key: K,
        from: V,
        to: V,
    ) -> (call: Result<MessageID, Error>)
        requires
            old(writer)@.wf(),
        ensures
            final(writer)@.wf(),
            final(writer)@ == old(writer)@.after_request::<KVPayload<K, V>>(
                "seq-kv"@,
                KVPayloadView::CompareAndSet {
                    key: key@,
                    from: from@,
                    to: to@,
                    create_if_not_exists: Some(true),
                },
            ),
            call == old(writer)@.send_result::<KVPayload<K, V>>(
                "seq-kv"@,
                None,
                KVPayloadView::CompareAndSet {
                    key: key@,
                    from: from@,
                    to: to@,
                    create_if_not_exists: Some(true),
                },
            ),
    {
        writer.send_and_receive(
            &Self::node_id(),
            KVPayload::CompareAndSet { key, from, to, create_if_not_exists: Some(true) },
        )
    }

    /// Reads the answer to [`SeqKV::compare_and_swap`]: whether the value
    /// was put.
    ///
    /// Fails with [`Error::Payload`] where the answer is no payload of the
    /// store, and with [`Error::UnexpectedReply`] where it is neither
    /// `cas_ok` nor the error "precondition failed".
    pub fn compare_and_swap_answer(response: Message<Json>) -> (swapped: Result<bool, Error>)
        ensures
            swapped == swap_outcome(response.body.payload@),
    {
        let response = match response.into_payload::<KVPayload<(), ()>>() {
            Ok(r) => r,
            Err(e) => {
                return Err(e);
            },
        };
        match response.body.payload {
            KVPayload::Error { code, text: _ } => if code == PRECONDITION_FAILED {
                Ok(false)
            } else {
                Err(Error::UnexpectedReply)
            },
            KVPayload::CompareAndSetOk => Ok(true),
            _ => Err(Error::UnexpectedReply),
        }
    }
}

} // verus!
