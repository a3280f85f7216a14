//! The grow-only counter: what clients add is kept in the key-value store
//! of the harness, under the key `counter`.
//!
//! What a client adds is first kept on the node. A tick moves it to the
//! store: the node reads the stored sum, and then asks the store to put
//! that sum plus its own share in its place. If another node was quicker,
//! the store refuses, and the next tick tries again. A node with nothing
//! to move reads the stored sum every 500 ms.
use crate::clock::{age, has_aged};
use crate::error::Error;
use crate::json::{is_text, Json, JsonView};
use crate::protocol::{
    lemma_tag_and_field, lemma_tag_only, tag_and_field, tag_only, wire_tag_and_field,
    wire_tag_only, Message, MessageID, MessageView, NodeID, Payload,
};
use crate::runtime::App;
use crate::services::seq_kv::{read_outcome, swap_outcome, KVPayload, KVPayloadView, SeqKV};
use crate::writer::{MessageWriter, WriterView};
use vstd::prelude::*;

verus! {

/// How long a node with nothing to move waits between two reads of the
/// stored sum, in milliseconds.
pub const READ_PERIOD: u64 = 500;

/// The payloads of the counter.
#[derive(Debug, PartialEq, Eq, Clone, Copy, Structural)]
pub enum CounterPayload {
    Add { delta: u32 },
    AddOk,
    Read,
    ReadOk { value: u32 },
}

impl View for CounterPayload {
    type V = CounterPayload;

    open spec fn view(&self) -> CounterPayload {
        *self
    }
}

impl Payload for CounterPayload {
    open spec fn wire(payload: CounterPayload) -> Seq<(Seq<char>, JsonView)> {
        match payload {
            CounterPayload::Add { delta } => tag_and_field(
                "add"@,
                "delta"@,
                JsonView::Number(delta as u64),
            ),
            CounterPayload::AddOk => tag_only("add_ok"@),
            CounterPayload::Read => tag_only("read"@),
            CounterPayload::ReadOk { value } => tag_and_field(
                "read_ok"@,
                "value"@,
                JsonView::Number(value as u64),
            ),
        }
    }

    open spec fn read(body: JsonView) -> Option<CounterPayload> {
        match body.text_field("type"@) {
            Some(tag) => if tag == "add"@ {
                match body.u32_field("delta"@) {
                    Some(delta) => Some(CounterPayload::Add { delta }),
                    None => None,
                }
            } else if tag == "add_ok"@ {
                Some(CounterPayload::AddOk)
            } else if tag == "read"@ {
                Some(CounterPayload::Read)
            } else if tag == "read_ok"@ {
                match body.u32_field("value"@) {
                    Some(value) => Some(CounterPayload::ReadOk { value }),
                    None => None,
                }
            } else {
                None
            },
            None => None,
        }
    }

    fn to_wire(&self) -> (members: Vec<(String, Json)>) {
        match self {
            CounterPayload::Add { delta } => wire_tag_and_field(
                "add",
                "delta",
                Json::Number(*delta as u64),
            ),
            CounterPayload::AddOk => wire_tag_only("add_ok"),
            CounterPayload::Read => wire_tag_only("read"),
            CounterPayload::ReadOk { value } => wire_tag_and_field(
                "read_ok",
                "value",
                Json::Number(*value as u64),
            ),
        }
    }

    fn from_wire(body: &Json) -> (payload: Option<Self>) {
        let tag = match body.text_field("type") {
            Some(tag) => tag,
            None => {
                return None;
            },
        };
        if is_text(tag, "add") {
            match body.u32_field("delta") {
                Some(delta) => Some(CounterPayload::Add { delta }),
                None => None,
            }
        } else if is_text(tag, "add_ok") {
            Some(CounterPayload::AddOk)
        } else if is_text(tag, "read") {
            Some(CounterPayload::Read)
        } else if is_text(tag, "read_ok") {
            match body.u32_field("value") {
                Some(value) => Some(CounterPayload::ReadOk { value }),
                None => None,
            }
        } else {
            None
        }
    }

    proof fn lemma_wire_names(payload: CounterPayload) {
        reveal_strlit("msg_id");
        reveal_strlit("in_reply_to");
        reveal_strlit("type");
        reveal_strlit("delta");
        reveal_strlit("value");
        assert("msg_id"@.len() == 6 && "in_reply_to"@.len() == 11);
    }

    proof fn lemma_read_wire(payload: CounterPayload) {
        reveal_strlit("type");
        reveal_strlit("delta");
        reveal_strlit("value");
        reveal_strlit("add");
        reveal_strlit("add_ok");
        reveal_strlit("read");
        reveal_strlit("read_ok");
        assert("type"@.len() != "delta"@.len());
        assert("type"@.len() != "value"@.len());
        assert("add"@.len() == 3 && "add_ok"@.len() == 6 && "read"@.len() == 4 && "read_ok"@.len()
            == 7);
        match payload {
            CounterPayload::Add { delta } => {
                lemma_tag_and_field("add"@, "delta"@, JsonView::Number(delta as u64));
            },
            CounterPayload::AddOk => {
                lemma_tag_only("add_ok"@);
            },
            CounterPayload::Read => {
                lemma_tag_only("read"@);
            },
            CounterPayload::ReadOk { value } => {
                lemma_tag_and_field("read_ok"@, "value"@, JsonView::Number(value as u64));
            },
        }
    }
}

/// What the counter waits for.
#[derive(Debug, PartialEq, Eq, Clone, Copy, Structural)]
pub enum Phase {
    /// Nothing.
    Idle,
    /// The stored sum. `then_swap` says whether the node's share is to be
    /// moved to the store once the sum is known.
    Reading { then_swap: bool },
    /// The store's word on whether it took the new sum, which holds `delta`
    /// of the node's share.
    Swapping { delta: u32 },
}

/// A node of the counter.
#[derive(Debug, PartialEq, Eq, Clone, Copy, Structural)]
pub struct GCounter {
    /// When the stored sum was last learnt.
    pub last_read_time: u64,
    /// The stored sum as it was last learnt.
    pub last_read: u32,
    /// What clients have added here and the store does not hold yet.
    pub unconfirmed_delta: u32,
    pub phase: Phase,
}

/// A counter and its writer after a step, and whether the step succeeded.
pub struct CounterOutcome {
    pub app: GCounter,
    pub writer: WriterView,
    pub result: Result<(), Error>,
}

/// The result of a sending without the identifier.
pub open spec fn sent(result: Result<MessageID, Error>) -> Result<(), Error> {
    match result {
        Ok(_) => Ok(()),
        Err(e) => Err(e),
    }
}

impl GCounter {
    /// The counter and its writer after an envelope was handled.
    ///
    /// `add` is added to the node's share and answered with `add_ok`.
    /// `read` is answered with the stored sum as last learnt plus the
    /// node's share. A sum that does not fit 32 bits is a fault. Anything
    /// else is ignored.
    pub open spec fn after_handle(
        self,
        writer: WriterView,
        message: MessageView<CounterPayload>,
    ) -> CounterOutcome {
        match message.body.payload {
            CounterPayload::Add { delta } => if self.unconfirmed_delta + delta > u32::MAX {
                CounterOutcome { app: self, writer, result: Err(Error::Overflow) }
            } else {
                CounterOutcome {
                    app: GCounter {
                        unconfirmed_delta: (self.unconfirmed_delta + delta) as u32,
                        ..self
                    },
                    writer: writer.after_send::<CounterPayload>(
                        message.src,
                        message.body.msg_id,
                        CounterPayload::AddOk,
                    ),
                    result: sent(
                        writer.send_result::<CounterPayload>(
                            message.src,
                            message.body.msg_id,
                            CounterPayload::AddOk,
                        ),
                    ),
                }
            },
            CounterPayload::Read => if self.last_read + self.unconfirmed_delta > u32::MAX {
                CounterOutcome { app: self, writer, result: Err(Error::Overflow) }
            } else {
                let value = (self.last_read + self.unconfirmed_delta) as u32;
                CounterOutcome {
                    app: self,
                    writer: writer.after_send::<CounterPayload>(
                        message.src,
                        message.body.msg_id,
                        CounterPayload::ReadOk { value },
                    ),
                    result: sent(
                        writer.send_result::<CounterPayload>(
                            message.src,
                            message.body.msg_id,
                            CounterPayload::ReadOk { value },
                        ),
                    ),
                }
            },
            _ => CounterOutcome { app: self, writer, result: Ok(()) },
        }
    }

    /// The counter and its writer after the stored sum was asked for.
    pub open spec fn after_asking(self, writer: WriterView, then_swap: bool) -> CounterOutcome {
        let request = KVPayloadView::<Seq<char>, ()>::Read { key: "counter"@ };
        let result = sent(writer.send_result::<KVPayload<String, ()>>("seq-kv"@, None, request));
        CounterOutcome {
            app: if result is Ok {
                GCounter { phase: Phase::Reading { then_swap }, ..self }
            } else {
                self
            },
            writer: writer.after_request::<KVPayload<String, ()>>("seq-kv"@, request),
            result,
        }
    }

    /// The counter and its writer after a tick at `now`.
    ///
    /// A counter that waits for the store does nothing. One that has a
    /// share to move asks for the stored sum, to move the share next. One
    /// that has none asks for the stored sum if it last learnt it 500 ms
    /// ago or more.
    pub open spec fn after_tick(self, writer: WriterView, now: u64) -> CounterOutcome {
        if self.phase != Phase::Idle {
            CounterOutcome { app: self, writer, result: Ok(()) }
        } else if self.unconfirmed_delta > 0 {
            self.after_asking(writer, true)
        } else if age(now, self.last_read_time) >= READ_PERIOD {
            self.after_asking(writer, false)
        } else {
            CounterOutcome { app: self, writer, result: Ok(()) }
        }
    }

    /// The counter and its writer after the store's answer came at `now`.
    ///
    /// The stored sum, once learnt, is kept, and nothing counts as 0. If
    /// the share is to be moved, the store is asked to put the sum plus the
    /// share in place of the sum. The store's word on that ends the move:
    /// if it took the new sum, the share that it holds now is the node's
    /// no longer. An answer that the counter does not wait for is ignored.
    pub open spec fn after_receive(
        self,
        writer: WriterView,
        response: MessageView<JsonView>,
        now: u64,
    ) -> CounterOutcome {
        match self.phase {
            Phase::Idle => CounterOutcome { app: self, writer, result: Ok(()) },
            Phase::Reading { then_swap } => match read_outcome::<u32>(response.body.payload) {
                Err(e) => CounterOutcome { app: self, writer, result: Err(e) },
                Ok(held) => {
                    let sum = match held {
                        Some(value) => value,
                        None => 0u32,
                    };
                    if !then_swap {
                        CounterOutcome {
                            app: GCounter {
                                last_read: sum,
                                last_read_time: now,
                                phase: Phase::Idle,
                                ..self
                            },
                            writer,
                            result: Ok(()),
                        }
                    } else if sum + self.unconfirmed_delta > u32::MAX {
                        CounterOutcome { app: self, writer, result: Err(Error::Overflow) }
                    } else {
                        let request = KVPayloadView::<Seq<char>, u32>::CompareAndSet {
                            key: "counter"@,
                            from: sum,
                            to: (sum + self.unconfirmed_delta) as u32,
                            create_if_not_exists: Some(true),
                        };
                        let result = sent(
                            writer.send_result::<KVPayload<String, u32>>("seq-kv"@, None, request),
                        );
                        CounterOutcome {
                            app: if result is Ok {
                                GCounter {
                                    last_read: sum,
                                    phase: Phase::Swapping { delta: self.unconfirmed_delta },
                                    ..self
                                }
                            } else {
                                self
                            },
                            writer: writer.after_request::<KVPayload<String, u32>>(
                                "seq-kv"@,
                                request,
                            ),
                            result,
                        }
                    }
                },
            },
            Phase::Swapping { delta } => match swap_outcome(response.body.payload) {
                Err(e) => CounterOutcome { app: self, writer, result: Err(e) },
                Ok(false) => CounterOutcome {
                    app: GCounter { phase: Phase::Idle, ..self },
                    writer,
                    result: Ok(()),
                },
                Ok(true) => if self.last_read + delta > u32::MAX || delta
                    > self.unconfirmed_delta {
                    CounterOutcome { app: self, writer, result: Err(Error::Overflow) }
                } else {
                    CounterOutcome {
                        app: GCounter {
                            last_read: (self.last_read + delta) as u32,
                            last_read_time: now,
                            unconfirmed_delta: (self.unconfirmed_delta - delta) as u32,
                            phase: Phase::Idle,
                        },
                        writer,
                        result: Ok(()),
                    }
                },
            },
        }
    }

    /// Asks the store for the sum.
    fn ask(&mut self, writer: &mut MessageWriter, then_swap: bool) -> (result: Result<(), Error>)
        requires
            old(writer)@.wf(),
        ensures
            final(writer)@.wf(),
            (CounterOutcome { app: *final(self), writer: final(writer)@, result }) == old(
                self,
            ).after_asking(old(writer)@, then_swap),
    {
        let kv = SeqKV::new();
        match kv.read(writer, "counter".to_owned()) {
            Ok(_) => {
                self.phase = Phase::Reading { then_swap };
                Ok(())
            },
            Err(e) => Err(e),
        }
    }
}

impl App for GCounter {
    type Payload = CounterPayload;

    open spec fn wf(&self) -> bool {
        true
    }

    open spec fn can_start(node_id: Seq<char>, node_ids: Seq<Seq<char>>) -> bool {
        true
    }

    /// The counter begins with nothing read, nothing added and nothing to
    /// wait for, as if it had learnt the stored sum at `now`.
    open spec fn started(
        node_id: Seq<char>,
        node_ids: Seq<Seq<char>>,
        now: u64,
        app: Self,
    ) -> bool {
        app == (GCounter {
            last_read_time: now,
            last_read: 0,
            unconfirmed_delta: 0,
            phase: Phase::Idle,
        })
    }

    open spec fn handled(
        pre: Self,
        writer: WriterView,
        message: MessageView<CounterPayload>,
        now: u64,
        post: Self,
        after: WriterView,
        result: Result<(), Error>,
    ) -> bool {
        (CounterOutcome { app: post, writer: after, result }) == pre.after_handle(writer, message)
    }

    open spec fn ticked(
        pre: Self,
        writer: WriterView,
        now: u64,
        post: Self,
        after: WriterView,
        result: Result<(), Error>,
    ) -> bool {
        (CounterOutcome { app: post, writer: after, result }) == pre.after_tick(writer, now)
    }

    open spec fn received(
        pre: Self,
        writer: WriterView,
        response: MessageView<JsonView>,
        now: u64,
        post: Self,
        after: WriterView,
        result: Result<(), Error>,
    ) -> bool {
        (CounterOutcome { app: post, writer: after, result }) == pre.after_receive(
            writer,
            response,
            now,
        )
    }

    fn check_start(node_id: &NodeID, node_ids: &Vec<NodeID>) -> (ok: bool) {
        true
    }

    fn new(node_id: NodeID, node_ids: Vec<NodeID>, now: u64) -> (app: Self) {
        GCounter { last_read_time: now, last_read: 0, unconfirmed_delta: 0, phase: Phase::Idle }
    }

    fn handle(
        &mut self,
        message: Message<CounterPayload>,
        writer: &mut MessageWriter,
        now: u64,
    ) -> (result: Result<(), Error>) {
        match message.body.payload {
            CounterPayload::Add { delta } => {
                if delta > u32::MAX - self.unconfirmed_delta {
                    return Err(Error::Overflow);
                }
                self.unconfirmed_delta = self.unconfirmed_delta + delta;
                match writer.reply_to(&message, CounterPayload::AddOk) {
                    Ok(_) => Ok(()),
                    Err(e) => Err(e),
                }
            },
            CounterPayload::Read => {
                if self.unconfirmed_delta > u32::MAX - self.last_read {
                    return Err(Error::Overflow);
                }
                let value = self.last_read + self.unconfirmed_delta;
                match writer.reply_to(&message, CounterPayload::ReadOk { value }) {
                    Ok(_) => Ok(()),
                    Err(e) => Err(e),
                }
            },
            _ => Ok(()),
        }
    }

    fn tick(&mut self, writer: &mut MessageWriter, now: u64) -> (result: Result<(), Error>) {
        match self.phase {
            Phase::Idle => {},
            _ => {
                return Ok(());
            },
        }
        if self.unconfirmed_delta > 0 {
            self.ask(writer, true)
        } else if has_aged(now, self.last_read_time, READ_PERIOD) {
            self.ask(writer, false)
        } else {
            Ok(())
        }
    }

    fn receive(
        &mut self,
        response: Message<Json>,
        writer: &mut MessageWriter,
        now: u64,
    ) -> (result: Result<(), Error>) {
        match self.phase {
            Phase::Idle => Ok(()),
            Phase::Reading { then_swap } => {
                let sum = match SeqKV::read_answer::<u32>(response) {
                    Ok(Some(value)) => value,
                    Ok(None) => 0,
                    Err(e) => {
                        return Err(e);
                    },
                };
                if !then_swap {
                    self.last_read = sum;
                    self.last_read_time = now;
                    self.phase = Phase::Idle;
                    return Ok(());
                }
                if self.unconfirmed_delta > u32::MAX - sum {
                    return Err(Error::Overflow);
                }
                let kv = SeqKV::new();
                match kv.compare_and_swap(
                    writer,
                    "counter".to_owned(),
                    sum,
                    sum + self.unconfirmed_delta,
                ) {
                    Ok(_) => {
                        self.last_read = sum;
                        self.phase = Phase::Swapping { delta: self.unconfirmed_delta };
                        Ok(())
                    },
                    Err(e) => Err(e),
                }
            },
            Phase::Swapping { delta } => {
                let swapped = match SeqKV::compare_and_swap_answer(response) {
                    Ok(swapped) => swapped,
                    Err(e) => {
                        return Err(e);
                    },
                };
                if !swapped {
                    self.phase = Phase::Idle;
                    return Ok(());
                }
                if delta > u32::MAX - self.last_read || delta > self.unconfirmed_delta {
                    return Err(Error::Overflow);
                }
                self.last_read = self.last_read + delta;
                self.last_read_time = now;
                self.unconfirmed_delta = self.unconfirmed_delta - delta;
                self.phase = Phase::Idle;
                Ok(())
            },
        }
    }
}

} // verus!
