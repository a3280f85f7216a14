//! The outbound side of a node: identifiers are assigned here, one per
//! envelope, and the envelopes wait here as lines until the program around
//! the library writes them out.
use crate::error::Error;
use crate::protocol::{
    envelope_line, Message, MessageBody, MessageBodyView, MessageID, MessageView, NodeID, Payload,
};
use vstd::prelude::*;

verus! {

/// The mathematical form of a [`MessageWriter`].
pub struct WriterView {
    /// The node that the envelopes come from.
    pub node_id: Seq<char>,
    /// The identifier that the next envelope gets.
    pub next: u32,
    /// The lines that wait to be written, oldest first.
    pub outbox: Seq<Seq<char>>,
    /// The identifiers on which a caller waits for an answer and which the
    /// runtime has not taken note of yet, oldest first.
    pub awaited: Seq<MessageID>,
    /// How many identifiers were assigned since the writer was made.
    pub issued: nat,
    /// For each envelope that became a line since the writer was made, how
    /// many identifiers had been assigned before its own.
    pub log: Seq<nat>,
}

/// The identifier that is assigned after `issued` others.
pub open spec fn nth_id(issued: nat) -> MessageID {
    MessageID((issued % 0x1_0000_0000) as u32)
}

impl WriterView {
    /// What holds of every writer: the next identifier follows from the number
    /// of those assigned, and the envelopes are logged in the order of
    /// their identifiers.
    pub open spec fn wf(self) -> bool {
        &&& nth_id(self.issued) == MessageID(self.next)
        &&& forall|i: int| 0 <= i < self.log.len() ==> #[trigger] self.log[i] < self.issued
        &&& forall|i: int, j: int|
            0 <= i < j < self.log.len() ==> #[trigger] self.log[i] < #[trigger] self.log[j]
    }

    /// The identifiers of the envelopes that became lines, oldest first.
    pub open spec fn emitted_ids(self) -> Seq<MessageID> {
        Seq::new(self.log.len(), |i: int| nth_id(self.log[i]))
    }

    /// The envelope that the writer would send next.
    pub open spec fn envelope<V>(
        self,
        dst: Seq<char>,
        in_reply_to: Option<MessageID>,
        payload: V,
    ) -> MessageView<V> {
        MessageView {
            src: self.node_id,
            dst,
            body: MessageBodyView { msg_id: Some(MessageID(self.next)), in_reply_to, payload },
        }
    }

    /// The writer after one identifier was assigned.
    pub open spec fn step(self) -> WriterView {
        WriterView {
            next: if self.next == u32::MAX {
                0
            } else {
                (self.next + 1) as u32
            },
            issued: self.issued + 1,
            ..self
        }
    }

    /// The writer after it was asked to send a payload: the identifier is
    /// spent, and the envelope's line, where there is one, waits at the end
    /// of the outbox.
    pub open spec fn after_send<P: Payload>(
        self,
        dst: Seq<char>,
        in_reply_to: Option<MessageID>,
        payload: P::V,
    ) -> WriterView {
        match envelope_line::<P>(self.envelope(dst, in_reply_to, payload)) {
            Some(line) => WriterView {
                outbox: self.outbox.push(line),
                log: self.log.push(self.issued),
                ..self.step()
            },
            None => self.step(),
        }
    }

    /// What a request to send a payload returns: the identifier, where the
    /// envelope has a line.
    pub open spec fn send_result<P: Payload>(
        self,
        dst: Seq<char>,
        in_reply_to: Option<MessageID>,
        payload: P::V,
    ) -> Result<MessageID, Error> {
        match envelope_line::<P>(self.envelope(dst, in_reply_to, payload)) {
            Some(line) => Ok(MessageID(self.next)),
            None => Err(Error::Unprintable),
        }
    }

    /// The writer after it was asked to send a payload whose answer the
    /// caller waits for.
    pub open spec fn after_request<P: Payload>(self, dst: Seq<char>, payload: P::V) -> WriterView {
        WriterView {
            awaited: self.awaited.push(MessageID(self.next)),
            ..self.after_send::<P>(dst, None, payload)
        }
    }
}

/// Assigns identifiers to outbound envelopes and keeps their lines until
/// they are written.
pub struct MessageWriter {
    msg_id: u32,
    node_id: NodeID,
    lines: Vec<String>,
    awaited: Vec<MessageID>,
    issued: Ghost<nat>,
    log: Ghost<Seq<nat>>,
}

impl View for MessageWriter {
    type V = WriterView;

    closed spec fn view(&self) -> WriterView {
        WriterView {
            node_id: self.node_id@,
            next: self.msg_id,
            outbox: crate::json::strings_view(self.lines@),
            awaited: self.awaited@,
            issued: self.issued@,
            log: self.log@,
        }
    }
}

impl MessageWriter {
    /// A writer for the node `node_id`. Its first envelope gets the
    /// identifier 0.
    pub fn new(node_id: NodeID) -> (writer: MessageWriter)
        ensures
            writer@ == (WriterView {
                node_id: node_id@,
                next: 0,
                outbox: Seq::empty(),
                awaited: Seq::empty(),
                issued: 0,
                log: Seq::empty(),
            }),
            writer@.wf(),
    {
        let writer = MessageWriter {
            msg_id: 0,
            node_id,
            lines: Vec::new(),
            awaited: Vec::new(),
            issued: Ghost(0),
            log: Ghost(Seq::empty()),
        };
        proof {
            assert(writer@.outbox =~= Seq::empty());
        }
        writer
    }

    /// The node that the envelopes come from.
    pub fn node_id(&self) -> (id: &NodeID)
        ensures
            id@ == self@.node_id,
    {
        &self.node_id
    }

    /// The identifier that the next envelope gets.
    pub fn next_id(&self) -> (id: MessageID)
        ensures
            id == MessageID(self@.next),
    {
        MessageID(self.msg_id)
    }

    /// Hands out the next identifier.
    fn fresh_id(&mut self) -> (id: MessageID)
        requires
            old(self)@.wf(),
        ensures
            id == MessageID(old(self)@.next),
            final(self)@ == old(self)@.step(),
            final(self)@.wf(),
    {
        let id = MessageID(self.msg_id);
        self.msg_id = if self.msg_id == u32::MAX {
            0
        } else {
            self.msg_id + 1
        };
        proof {
            self.issued@ = self.issued@ + 1;
        }
        id
    }

    /// Puts an envelope's line at the end of the outbox.
    ///
    /// Fails with [`Error::Unprintable`], and changes nothing, exactly where
    /// the envelope has no line.
    fn write_message<P: Payload>(&mut self, message: &Message<P>, Ghost(serial): Ghost<nat>) -> (done:
        Result<(), Error>)
        ensures
            match envelope_line::<P>(message@) {
                Some(line) => done is Ok && final(self)@ == (WriterView {
                    outbox: old(self)@.outbox.push(line),
                    log: old(self)@.log.push(serial),
                    ..old(self)@
                }),
                None => done == Err::<(), Error>(Error::Unprintable) && final(self)@ == old(self)@,
            },
    {
        match message.to_line() {
            Ok(line) => {
                self.lines.push(line);
                proof {
                    self.log@ = self.log@.push(serial);
                    assert(self@.outbox =~= old(self)@.outbox.push(line@));
                }
                Ok(())
            },
            Err(e) => Err(e),
        }
    }

    /// Sends `payload` to `dst` under a fresh identifier.
    fn emit<P: Payload>(
        &mut self,
        dst: &NodeID,
        in_reply_to: Option<MessageID>,
        payload: P,
    ) -> (sent: Result<MessageID, Error>)
        requires
            old(self)@.wf(),
        ensures
            final(self)@ == old(self)@.after_send::<P>(dst@, in_reply_to, payload@),
            sent == old(self)@.send_result::<P>(dst@, in_reply_to, payload@),
            final(self)@.wf(),
    {
        let ghost serial = self@.issued;
        let message_id = self.fresh_id();
        let message = Message {
            src: self.node_id.clone(),
            dst: dst.clone(),
            body: MessageBody { msg_id: Some(message_id), in_reply_to, payload },
        };
        assert(message@ == old(self)@.envelope(dst@, in_reply_to, payload@));
        match self.write_message(&message, Ghost(serial)) {
            Ok(()) => Ok(message_id),
            Err(e) => Err(e),
        }
    }

    /// Answers `received_message` with `payload`.
    ///
    /// The envelope goes from this node to the sender of the received one,
    /// `in_reply_to` is the received `msg_id`, and `msg_id` is fresh. The
    /// identifier is spent even where the envelope cannot be printed.
    pub fn reply_to<P: Payload>(&mut self, received_message: &Message<P>, payload: P) -> (sent:
        Result<MessageID, Error>)
        requires
            old(self)@.wf(),
        ensures
            final(self)@ == old(self)@.after_send::<P>(
                received_message.src@,
                received_message.body.msg_id,
                payload@,
            ),
            sent == old(self)@.send_result::<P>(
                received_message.src@,
                received_message.body.msg_id,
                payload@,
            ),
            final(self)@.wf(),
    {
        self.emit(&received_message.src, received_message.body.msg_id, payload)
    }

    /// Sends `payload` to `node_id` and expects no answer.
    ///
    /// The envelope has a fresh `msg_id` and no `in_reply_to`.
    pub fn send_to<P: Payload>(&mut self, node_id: &NodeID, payload: P) -> (sent: Result<
        MessageID,
        Error,
    >)
        requires
            old(self)@.wf(),
        ensures
            final(self)@ == old(self)@.after_send::<P>(node_id@, None, payload@),
            sent == old(self)@.send_result::<P>(node_id@, None, payload@),
            final(self)@.wf(),
    {
        self.emit(node_id, None, payload)
    }

    /// Sends `payload` to `node_id` and notes that the caller waits for the
    /// answer: the first inbound envelope whose `in_reply_to` is the
    /// identifier returned here.
    ///
    /// The wait is noted even where the envelope cannot be printed.
    pub fn send_and_receive<P: Payload>(&mut self, node_id: &NodeID, payload: P) -> (sent: Result<
        MessageID,
        Error,
    >)
        requires
            old(self)@.wf(),
        ensures
            final(self)@ == old(self)@.after_request::<P>(node_id@, payload@),
            sent == old(self)@.send_result::<P>(node_id@, None, payload@),
            final(self)@.wf(),
    {
        let message_id = MessageID(self.msg_id);
        self.awaited.push(message_id);
        self.emit(node_id, None, payload)
    }

    /// Takes the lines that wait to be written, oldest first.
    pub fn take_lines(&mut self) -> (lines: Vec<String>)
        ensures
            crate::json::strings_view(lines@) == old(self)@.outbox,
            final(self)@ == (WriterView { outbox: Seq::empty(), ..old(self)@ }),
    {
        let mut lines: Vec<String> = Vec::new();
        std::mem::swap(&mut lines, &mut self.lines);
        proof {
            assert(self@.outbox =~= Seq::empty());
        }
        lines
    }

    /// Takes the identifiers on which callers began to wait, oldest first.
    pub fn take_awaited(&mut self) -> (awaited: Vec<MessageID>)
        ensures
            awaited@ == old(self)@.awaited,
            final(self)@ == (WriterView { awaited: Seq::empty(), ..old(self)@ }),
    {
        let mut awaited: Vec<MessageID> = Vec::new();
        std::mem::swap(&mut awaited, &mut self.awaited);
        awaited
    }
}

/// Outbound identifiers rise: as long as fewer than 2^32 identifiers were
/// assigned, every envelope that became a line has a larger `msg_id` than
/// the ones before it, and where none failed to print they are
/// 0, 1, 2 and so on.
pub proof fn lemma_outbound_ids_rise(w: WriterView)
    requires
        w.wf(),
        w.issued <= 0x1_0000_0000,
    ensures
        forall|i: int, j: int|
            0 <= i < j < w.emitted_ids().len() ==> (#[trigger] w.emitted_ids()[i]).0 < (
            #[trigger] w.emitted_ids()[j]).0,
        w.log.len() == w.issued ==> forall|i: int|
            0 <= i < w.emitted_ids().len() ==> (#[trigger] w.emitted_ids()[i]).0 == i,
{
    assert forall|i: int, j: int| 0 <= i < j < w.emitted_ids().len() implies (
    #[trigger] w.emitted_ids()[i]).0 < (#[trigger] w.emitted_ids()[j]).0 by {
        assert(w.log[i] < w.log[j]);
        assert(w.log[j] < w.issued);
    }
    if w.log.len() == w.issued {
        lemma_log_is_dense(w, 0);
        assert forall|i: int| 0 <= i < w.emitted_ids().len() implies (
        #[trigger] w.emitted_ids()[i]).0 == i by {
            assert(w.log[i] == i);
        }
    }
}

/// A rising log of `n` numbers below `n` holds 0 to `n - 1` in order.
proof fn lemma_log_is_dense(w: WriterView, upto: int)
    requires
        w.wf(),
        w.log.len() == w.issued,
        0 <= upto <= w.log.len(),
    ensures
        forall|i: int| upto <= i < w.log.len() ==> #[trigger] w.log[i] == i,
    decreases w.log.len() - upto,
{
    if upto < w.log.len() {
        lemma_log_is_dense(w, upto + 1);
        lemma_log_at_least(w, upto);
        if upto + 1 < w.log.len() {
            assert(w.log[upto] < w.log[upto + 1]);
        } else {
            assert(w.log[upto] < w.issued);
        }
    }
}

/// The entry at `i` of a rising log is at least `i`.
proof fn lemma_log_at_least(w: WriterView, i: int)
    requires
        w.wf(),
        0 <= i < w.log.len(),
    ensures
        w.log[i] >= i,
    decreases i,
{
    if i > 0 {
        lemma_log_at_least(w, i - 1);
        assert(w.log[i - 1] < w.log[i]);
    }
}

/// Reply correlation: the answer to an envelope goes from this node to the
/// sender of that envelope, names that envelope's `msg_id` as its
/// `in_reply_to`, and carries a `msg_id` that no earlier envelope of this
/// writer had, as long as fewer than 2^32 identifiers were assigned.
pub proof fn lemma_reply_correlates<P: Payload>(
    w: WriterView,
    received: MessageView<P::V>,
    payload: P::V,
)
    requires
        w.wf(),
        w.issued < 0x1_0000_0000,
    ensures
        w.envelope(received.src, received.body.msg_id, payload).src == w.node_id,
        w.envelope(received.src, received.body.msg_id, payload).dst == received.src,
        w.envelope(received.src, received.body.msg_id, payload).body.in_reply_to
            == received.body.msg_id,
        w.envelope(received.src, received.body.msg_id, payload).body.msg_id == Some(
            MessageID(w.next),
        ),
        !w.emitted_ids().contains(MessageID(w.next)),
        envelope_line::<P>(w.envelope(received.src, received.body.msg_id, payload)) matches Some(
            line,
        ) ==> w.after_send::<P>(received.src, received.body.msg_id, payload).outbox
            == w.outbox.push(line),
{
    assert forall|i: int| 0 <= i < w.emitted_ids().len() implies w.emitted_ids()[i] != MessageID(
        w.next,
    ) by {
        assert(w.log[i] < w.issued);
    }
}

} // verus!
