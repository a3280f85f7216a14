//! The broadcast as mathematics: what a node knows, and what each envelope
//! and each tick makes of it.
use crate::broadcast::payload::{BroadcastPayload, BroadcastPayloadView};
use crate::clock::age;
use crate::error::Error;
use crate::protocol::{is_client_id, MessageID, MessageView};
use crate::writer::WriterView;
use vstd::prelude::*;

verus! {

/// How long values for one neighbor are collected before they are sent, in
/// milliseconds.
pub const COALESCING_WINDOW: u64 = 100;

/// How long a node waits for an acknowledgement before it sends a batch
/// again, in milliseconds.
pub const RESEND_AFTER: u64 = 500;

/// What a node remembers of a batch that it has sent and that was not
/// acknowledged yet.
#[derive(Debug, PartialEq, Eq, Clone, Copy, Structural)]
pub struct AckContext {
    pub message_id: MessageID,
    pub time_sent: u64,
}

/// Values that wait to be sent to one neighbor.
pub struct BatchView {
    pub neighbor: Seq<char>,
    /// When the first of the values was put here.
    pub start_time: u64,
    pub messages: Seq<u32>,
}

/// A batch that was sent to a neighbor and not acknowledged yet.
pub struct UnackedView {
    pub neighbor: Seq<char>,
    pub messages: Seq<u32>,
    pub ack: AckContext,
}

/// The mathematical form of a broadcast node.
pub struct BroadcastView {
    /// The values seen so far, each once, in the order in which they came.
    pub messages_seen: Seq<u32>,
    pub neighbors: Seq<Seq<char>>,
    /// Whether values that come from other nodes are handed on too.
    pub always_broadcast: bool,
    /// The batches that wait for an acknowledgement, at most one for each
    /// neighbor and list of values.
    pub unacked: Seq<UnackedView>,
    /// The values that wait to be sent, at most one batch for each neighbor.
    pub batched: Seq<BatchView>,
}

/// A node and its writer after a step, and whether the step succeeded.
pub struct Outcome {
    pub app: BroadcastView,
    pub writer: WriterView,
    pub result: Result<(), Error>,
}

/// The place of the first item of a list that has a property; the length of
/// the list if no item has it.
pub open spec fn first_index<T>(s: Seq<T>, p: spec_fn(T) -> bool) -> int
    decreases s.len(),
{
    if s.len() == 0 {
        0
    } else if p(s[0]) {
        0
    } else {
        1 + first_index(s.drop_first(), p)
    }
}

/// The first item with a property is the one before which no item has it.
pub proof fn lemma_first_index<T>(s: Seq<T>, p: spec_fn(T) -> bool, at: int)
    requires
        0 <= at <= s.len(),
        forall|j: int| 0 <= j < at ==> !p(#[trigger] s[j]),
        at < s.len() ==> p(s[at]),
    ensures
        first_index(s, p) == at,
    decreases at,
{
    if at > 0 {
        let rest = s.drop_first();
        assert forall|j: int| 0 <= j < at - 1 implies !p(#[trigger] rest[j]) by {
            assert(rest[j] == s[j + 1]);
        }
        if at < s.len() {
            assert(rest[at - 1] == s[at]);
        }
        lemma_first_index(rest, p, at - 1);
    }
}

/// Where the first item with a property is, it has the property and no
/// item before it has.
pub proof fn lemma_first_index_is_first<T>(s: Seq<T>, p: spec_fn(T) -> bool)
    ensures
        0 <= first_index(s, p) <= s.len(),
        first_index(s, p) < s.len() ==> p(s[first_index(s, p)]),
        forall|j: int| 0 <= j < first_index(s, p) ==> !p(#[trigger] s[j]),
    decreases s.len(),
{
    if s.len() > 0 && !p(s[0]) {
        let rest = s.drop_first();
        lemma_first_index_is_first(rest, p);
        assert forall|j: int| 0 <= j < first_index(s, p) implies !p(#[trigger] s[j]) by {
            if j > 0 {
                assert(rest[j - 1] == s[j]);
            }
        }
        if first_index(s, p) < s.len() {
            assert(rest[first_index(rest, p)] == s[first_index(s, p)]);
        }
    }
}

impl BroadcastView {
    /// What holds of every node: no value is logged twice, no neighbor has
    /// two batches waiting, and no batch waits twice for its
    /// acknowledgement.
    pub open spec fn wf(self) -> bool {
        &&& self.messages_seen.no_duplicates()
        &&& forall|i: int, j: int|
            0 <= i < j < self.batched.len() ==> (#[trigger] self.batched[i]).neighbor != (
            #[trigger] self.batched[j]).neighbor
        &&& forall|i: int, j: int|
            0 <= i < j < self.unacked.len() ==> !((#[trigger] self.unacked[i]).neighbor == (
            #[trigger] self.unacked[j]).neighbor && self.unacked[i].messages
                == self.unacked[j].messages)
    }

    /// Where the batch for a neighbor waits; the number of batches if none
    /// waits for it.
    pub open spec fn batch_index(self, neighbor: Seq<char>) -> int {
        first_index(self.batched, |b: BatchView| b.neighbor == neighbor)
    }

    /// The node after a value was put aside for a neighbor: it joins the
    /// batch that waits for the neighbor, or begins one at `now`.
    pub open spec fn prepare_send_to_neighbor(
        self,
        neighbor: Seq<char>,
        message: u32,
        now: u64,
    ) -> BroadcastView {
        let at = self.batch_index(neighbor);
        if at < self.batched.len() {
            BroadcastView {
                batched: self.batched.update(
                    at,
                    BatchView {
                        messages: self.batched[at].messages.push(message),
                        ..self.batched[at]
                    },
                ),
                ..self
            }
        } else {
            BroadcastView {
                batched: self.batched.push(
                    BatchView { neighbor, start_time: now, messages: seq![message] },
                ),
                ..self
            }
        }
    }

    /// The node after a value was put aside for the first `count` of its
    /// neighbors.
    pub open spec fn enqueue(self, count: nat, message: u32, now: u64) -> BroadcastView
        decreases count,
    {
        if count == 0 {
            self
        } else {
            self.enqueue((count - 1) as nat, message, now).prepare_send_to_neighbor(
                self.neighbors[count - 1],
                message,
                now,
            )
        }
    }

    /// The node after a value came from `src`.
    ///
    /// A value seen before changes nothing. A new one is logged, and put
    /// aside for every neighbor where it comes from a client or the node
    /// always hands values on.
    pub open spec fn handle_message(self, src: Seq<char>, message: u32, now: u64) -> BroadcastView {
        if self.messages_seen.contains(message) {
            self
        } else {
            let logged = BroadcastView { messages_seen: self.messages_seen.push(message), ..self };
            if is_client_id(src) || self.always_broadcast {
                logged.enqueue(self.neighbors.len(), message, now)
            } else {
                logged
            }
        }
    }

    /// The node after the first `count` of `messages` came from `src`, one
    /// after the other.
    pub open spec fn handle_messages(
        self,
        src: Seq<char>,
        messages: Seq<u32>,
        count: nat,
        now: u64,
    ) -> BroadcastView
        decreases count,
    {
        if count == 0 {
            self
        } else {
            self.handle_messages(src, messages, (count - 1) as nat, now).handle_message(
                src,
                messages[count - 1],
                now,
            )
        }
    }

    /// Where a batch waits for its acknowledgement; the number of waiting
    /// batches if it does not wait.
    pub open spec fn unacked_index(self, neighbor: Seq<char>, messages: Seq<u32>) -> int {
        first_index(
            self.unacked,
            |u: UnackedView| u.neighbor == neighbor && u.messages == messages,
        )
    }

    /// The node after a batch was sent: the batch waits for its
    /// acknowledgement under the new identifier and time, whether it waited
    /// before or not.
    pub open spec fn note_sent(
        self,
        neighbor: Seq<char>,
        messages: Seq<u32>,
        ack: AckContext,
    ) -> BroadcastView {
        let at = self.unacked_index(neighbor, messages);
        if at < self.unacked.len() {
            BroadcastView {
                unacked: self.unacked.update(at, UnackedView { ack, ..self.unacked[at] }),
                ..self
            }
        } else {
            BroadcastView {
                unacked: self.unacked.push(UnackedView { neighbor, messages, ack }),
                ..self
            }
        }
    }

    /// Where the batch waits that an acknowledgement from `src` answers;
    /// the number of waiting batches if it answers none.
    pub open spec fn acked_index(self, src: Seq<char>, in_reply_to: Option<MessageID>) -> int {
        first_index(
            self.unacked,
            |u: UnackedView| u.neighbor == src && in_reply_to == Some(u.ack.message_id),
        )
    }

    /// The node after an acknowledgement came from `src`: the batch that it
    /// answers waits no longer.
    pub open spec fn acknowledge(self, src: Seq<char>, in_reply_to: Option<MessageID>) -> BroadcastView {
        let at = self.acked_index(src, in_reply_to);
        if at < self.unacked.len() {
            BroadcastView { unacked: self.unacked.remove(at), ..self }
        } else {
            self
        }
    }

    /// The node and its writer after a batch was sent to a neighbor.
    ///
    /// Where the envelope cannot be printed the node is unchanged and the
    /// step fails.
    pub open spec fn batched_send_to_neighbor(
        self,
        writer: WriterView,
        neighbor: Seq<char>,
        messages: Seq<u32>,
        now: u64,
    ) -> Outcome {
        let payload = BroadcastPayloadView::BroadcastBatched { messages };
        let after = writer.after_send::<BroadcastPayload>(neighbor, None, payload);
        match writer.send_result::<BroadcastPayload>(neighbor, None, payload) {
            Ok(message_id) => Outcome {
                app: self.note_sent(neighbor, messages, AckContext { message_id, time_sent: now }),
                writer: after,
                result: Ok(()),
            },
            Err(e) => Outcome { app: self, writer: after, result: Err(e) },
        }
    }

    /// The node and its writer after an envelope was answered.
    pub open spec fn reply(
        self,
        writer: WriterView,
        message: MessageView<BroadcastPayloadView>,
        payload: BroadcastPayloadView,
    ) -> Outcome {
        Outcome {
            app: self,
            writer: writer.after_send::<BroadcastPayload>(message.src, message.body.msg_id, payload),
            result: match writer.send_result::<BroadcastPayload>(
                message.src,
                message.body.msg_id,
                payload,
            ) {
                Ok(_) => Ok(()),
                Err(e) => Err(e),
            },
        }
    }

    /// The node and its writer after an envelope was handled at `now`.
    pub open spec fn handle(
        self,
        writer: WriterView,
        message: MessageView<BroadcastPayloadView>,
        now: u64,
    ) -> Outcome {
        match message.body.payload {
            BroadcastPayloadView::Broadcast { message: value } => self.handle_message(
                message.src,
                value,
                now,
            ).reply(writer, message, BroadcastPayloadView::BroadcastOk),
            BroadcastPayloadView::BroadcastBatched { messages } => self.handle_messages(
                message.src,
                messages,
                messages.len(),
                now,
            ).reply(writer, message, BroadcastPayloadView::BroadcastBatchedOk),
            BroadcastPayloadView::BroadcastBatchedOk => Outcome {
                app: self.acknowledge(message.src, message.body.in_reply_to),
                writer,
                result: Ok(()),
            },
            BroadcastPayloadView::Read => self.reply(
                writer,
                message,
                BroadcastPayloadView::ReadOk { messages: self.messages_seen },
            ),
            BroadcastPayloadView::Topology { topology } => self.reply(
                writer,
                message,
                BroadcastPayloadView::TopologyOk,
            ),
            _ => Outcome { app: self, writer, result: Ok(()) },
        }
    }

    /// Whether a batch has waited through the coalescing window.
    pub open spec fn ripe(batch: BatchView, now: u64) -> bool {
        age(now, batch.start_time) >= COALESCING_WINDOW
    }

    /// Whether a batch has waited for its acknowledgement long enough to be
    /// sent again.
    pub open spec fn overdue(entry: UnackedView, now: u64) -> bool {
        age(now, entry.ack.time_sent) >= RESEND_AFTER
    }

    /// The node and its writer after the ripe ones among the first `count`
    /// waiting batches were sent, in their order. The first failure ends it.
    pub open spec fn flush(self, writer: WriterView, count: nat, now: u64) -> Outcome
        decreases count,
    {
        if count == 0 {
            Outcome { app: self, writer, result: Ok(()) }
        } else {
            let before = self.flush(writer, (count - 1) as nat, now);
            let batch = self.batched[count - 1];
            if before.result is Ok && Self::ripe(batch, now) {
                before.app.batched_send_to_neighbor(
                    before.writer,
                    batch.neighbor,
                    batch.messages,
                    now,
                )
            } else {
                before
            }
        }
    }

    /// The node without the batches that were ripe at `now`.
    pub open spec fn without_ripe(self, now: u64) -> BroadcastView {
        BroadcastView { batched: self.batched.filter(|b: BatchView| !Self::ripe(b, now)), ..self }
    }

    /// The outcome after the overdue ones among the first `count` entries
    /// of `waiting` were sent again, in their order. The first failure ends
    /// it.
    pub open spec fn resend(
        start: Outcome,
        waiting: Seq<UnackedView>,
        count: nat,
        now: u64,
    ) -> Outcome
        decreases count,
    {
        if count == 0 {
            start
        } else {
            let before = Self::resend(start, waiting, (count - 1) as nat, now);
            let entry = waiting[count - 1];
            if before.result is Ok && Self::overdue(entry, now) {
                before.app.batched_send_to_neighbor(
                    before.writer,
                    entry.neighbor,
                    entry.messages,
                    now,
                )
            } else {
                before
            }
        }
    }

    /// The node and its writer after a tick at `now`.
    ///
    /// First every batch that has waited 100 ms or more is sent and waits
    /// for its acknowledgement from then on. Then every batch that has
    /// waited 500 ms or more for its acknowledgement is sent again. A batch
    /// that cannot be printed ends the tick with a failure, and then no
    /// batch has left the waiting ones.
    pub open spec fn tick(self, writer: WriterView, now: u64) -> Outcome {
        let flushed = self.flush(writer, self.batched.len(), now);
        if flushed.result is Err {
            flushed
        } else {
            let pruned = Outcome { app: flushed.app.without_ripe(now), ..flushed };
            Self::resend(pruned, pruned.app.unacked, pruned.app.unacked.len(), now)
        }
    }
}

/// Sending a batch that already waits for its acknowledgement renews what
/// is remembered of it and touches no other batch.
pub proof fn lemma_note_sent_known(app: BroadcastView, at: int, ack: AckContext)
    requires
        app.wf(),
        0 <= at < app.unacked.len(),
    ensures
        app.note_sent(app.unacked[at].neighbor, app.unacked[at].messages, ack).unacked
            == app.unacked.update(at, UnackedView { ack, ..app.unacked[at] }),
{
    let entry = app.unacked[at];
    let wanted = |u: UnackedView| u.neighbor == entry.neighbor && u.messages == entry.messages;
    assert forall|j: int| 0 <= j < at implies !wanted(#[trigger] app.unacked[j]) by {
        assert(!(app.unacked[j].neighbor == app.unacked[at].neighbor && app.unacked[j].messages
            == app.unacked[at].messages));
    }
    lemma_first_index(app.unacked, wanted, at);
}

/// Sending a batch leaves the node well formed.
pub proof fn lemma_note_sent_wf(
    app: BroadcastView,
    neighbor: Seq<char>,
    messages: Seq<u32>,
    ack: AckContext,
)
    requires
        app.wf(),
    ensures
        app.note_sent(neighbor, messages, ack).wf(),
        app.note_sent(neighbor, messages, ack).batched == app.batched,
        app.note_sent(neighbor, messages, ack).messages_seen == app.messages_seen,
        app.note_sent(neighbor, messages, ack).neighbors == app.neighbors,
{
    let wanted = |u: UnackedView| u.neighbor == neighbor && u.messages == messages;
    let after = app.note_sent(neighbor, messages, ack);
    let at = first_index(app.unacked, wanted);
    lemma_first_index_is_first(app.unacked, wanted);
    assert forall|i: int, j: int| 0 <= i < j < after.unacked.len() implies !((
    #[trigger] after.unacked[i]).neighbor == (#[trigger] after.unacked[j]).neighbor
        && after.unacked[i].messages == after.unacked[j].messages) by {
        if at < app.unacked.len() {
            assert(after.unacked[i].neighbor == app.unacked[i].neighbor);
            assert(after.unacked[j].neighbor == app.unacked[j].neighbor);
            assert(after.unacked[i].messages == app.unacked[i].messages);
            assert(after.unacked[j].messages == app.unacked[j].messages);
            assert(!(app.unacked[i].neighbor == app.unacked[j].neighbor && app.unacked[i].messages
                == app.unacked[j].messages));
        } else if j < app.unacked.len() {
            assert(!(app.unacked[i].neighbor == app.unacked[j].neighbor && app.unacked[i].messages
                == app.unacked[j].messages));
        } else {
            assert(!wanted(app.unacked[i]));
        }
    }
}

/// An acknowledgement leaves the node well formed.
pub proof fn lemma_acknowledge_wf(app: BroadcastView, src: Seq<char>, in_reply_to: Option<MessageID>)
    requires
        app.wf(),
    ensures
        app.acknowledge(src, in_reply_to).wf(),
{
    let wanted = |u: UnackedView| u.neighbor == src && in_reply_to == Some(u.ack.message_id);
    let after = app.acknowledge(src, in_reply_to);
    let at = first_index(app.unacked, wanted);
    lemma_first_index_is_first(app.unacked, wanted);
    if at < app.unacked.len() {
        assert forall|i: int, j: int| 0 <= i < j < after.unacked.len() implies !((
        #[trigger] after.unacked[i]).neighbor == (#[trigger] after.unacked[j]).neighbor
            && after.unacked[i].messages == after.unacked[j].messages) by {
            let a = if i < at {
                i
            } else {
                i + 1
            };
            let b = if j < at {
                j
            } else {
                j + 1
            };
            assert(after.unacked[i] == app.unacked[a]);
            assert(after.unacked[j] == app.unacked[b]);
            assert(!(app.unacked[a].neighbor == app.unacked[b].neighbor && app.unacked[a].messages
                == app.unacked[b].messages));
        }
    }
}

/// Once a batch could not be printed, nothing more is sent in the first
/// phase of a tick.
pub proof fn lemma_flush_stops(app: BroadcastView, writer: WriterView, failed: nat, count: nat, now: u64)
    requires
        failed <= count,
        app.flush(writer, failed, now).result is Err,
    ensures
        app.flush(writer, count, now) == app.flush(writer, failed, now),
    decreases count,
{
    if failed < count {
        lemma_flush_stops(app, writer, failed, (count - 1) as nat, now);
    }
}

/// Once a batch could not be printed, nothing more is sent in the second
/// phase of a tick.
pub proof fn lemma_resend_stops(
    start: Outcome,
    waiting: Seq<UnackedView>,
    failed: nat,
    count: nat,
    now: u64,
)
    requires
        failed <= count,
        BroadcastView::resend(start, waiting, failed, now).result is Err,
    ensures
        BroadcastView::resend(start, waiting, count, now) == BroadcastView::resend(
            start,
            waiting,
            failed,
            now,
        ),
    decreases count,
{
    if failed < count {
        lemma_resend_stops(start, waiting, failed, (count - 1) as nat, now);
    }
}

} // verus!
