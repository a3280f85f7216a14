//! What holds of the broadcast, whatever it is handed.
use crate::broadcast::model::{
    first_index, lemma_first_index_is_first, lemma_note_sent_wf, AckContext, BatchView,
    BroadcastView, Outcome, UnackedView,
};
use crate::broadcast::payload::BroadcastPayloadView;
use crate::protocol::{MessageID, MessageView};
use crate::writer::WriterView;
use vstd::prelude::*;

verus! {

/// Putting a value aside for a neighbor touches nothing but the waiting
/// batches.
pub proof fn lemma_prepare_keeps(app: BroadcastView, neighbor: Seq<char>, message: u32, now: u64)
    ensures
        app.prepare_send_to_neighbor(neighbor, message, now).messages_seen == app.messages_seen,
        app.prepare_send_to_neighbor(neighbor, message, now).neighbors == app.neighbors,
        app.prepare_send_to_neighbor(neighbor, message, now).always_broadcast
            == app.always_broadcast,
        app.prepare_send_to_neighbor(neighbor, message, now).unacked == app.unacked,
{
}

/// Putting a value aside for the neighbors touches nothing but the waiting
/// batches.
pub proof fn lemma_enqueue_keeps(app: BroadcastView, count: nat, message: u32, now: u64)
    ensures
        app.enqueue(count, message, now).messages_seen == app.messages_seen,
        app.enqueue(count, message, now).neighbors == app.neighbors,
        app.enqueue(count, message, now).always_broadcast == app.always_broadcast,
        app.enqueue(count, message, now).unacked == app.unacked,
    decreases count,
{
    if count > 0 {
        lemma_enqueue_keeps(app, (count - 1) as nat, message, now);
        lemma_prepare_keeps(
            app.enqueue((count - 1) as nat, message, now),
            app.neighbors[count - 1],
            message,
            now,
        );
    }
}

/// A value that came is seen from then on, with all that was seen before;
/// neighbors and unacknowledged batches stay as they are.
pub proof fn lemma_handle_message_sees(app: BroadcastView, src: Seq<char>, message: u32, now: u64)
    ensures
        app.handle_message(src, message, now).messages_seen.contains(message),
        forall|v: u32|
            app.messages_seen.contains(v) ==> #[trigger] app.handle_message(
                src,
                message,
                now,
            ).messages_seen.contains(v),
        app.handle_message(src, message, now).neighbors == app.neighbors,
        app.handle_message(src, message, now).always_broadcast == app.always_broadcast,
        app.handle_message(src, message, now).unacked == app.unacked,
{
    let logged = BroadcastView { messages_seen: app.messages_seen.push(message), ..app };
    lemma_enqueue_keeps(logged, app.neighbors.len(), message, now);
    assert(logged.messages_seen[app.messages_seen.len() as int] == message);
    assert forall|v: u32| app.messages_seen.contains(v) implies logged.messages_seen.contains(
        v,
    ) by {
        let at = choose|at: int| 0 <= at < app.messages_seen.len() && app.messages_seen[at] == v;
        assert(logged.messages_seen[at] == v);
    }
}

/// The values of a batch that came are seen from then on, with all that
/// was seen before; neighbors and unacknowledged batches stay as they are.
pub proof fn lemma_handle_messages_sees(
    app: BroadcastView,
    src: Seq<char>,
    messages: Seq<u32>,
    count: nat,
    now: u64,
)
    requires
        count <= messages.len(),
    ensures
        forall|j: int|
            0 <= j < count ==> app.handle_messages(src, messages, count, now).messages_seen.contains(
                #[trigger] messages[j],
            ),
        forall|v: u32|
            app.messages_seen.contains(v) ==> #[trigger] app.handle_messages(
                src,
                messages,
                count,
                now,
            ).messages_seen.contains(v),
        app.handle_messages(src, messages, count, now).neighbors == app.neighbors,
        app.handle_messages(src, messages, count, now).always_broadcast == app.always_broadcast,
        app.handle_messages(src, messages, count, now).unacked == app.unacked,
    decreases count,
{
    if count > 0 {
        let before = app.handle_messages(src, messages, (count - 1) as nat, now);
        lemma_handle_messages_sees(app, src, messages, (count - 1) as nat, now);
        lemma_handle_message_sees(before, src, messages[count - 1], now);
        let after = app.handle_messages(src, messages, count, now);
        assert forall|j: int| 0 <= j < count implies after.messages_seen.contains(
            #[trigger] messages[j],
        ) by {
            if j < count - 1 {
                assert(before.messages_seen.contains(messages[j]));
            }
        }
        assert forall|v: u32| app.messages_seen.contains(v) implies after.messages_seen.contains(
            v,
        ) by {
            assert(before.messages_seen.contains(v));
        }
    }
}

/// A batch whose values were all seen before changes nothing.
pub proof fn lemma_handle_seen_messages(
    app: BroadcastView,
    src: Seq<char>,
    messages: Seq<u32>,
    count: nat,
    now: u64,
)
    requires
        count <= messages.len(),
        forall|j: int| 0 <= j < count ==> app.messages_seen.contains(#[trigger] messages[j]),
    ensures
        app.handle_messages(src, messages, count, now) == app,
    decreases count,
{
    if count > 0 {
        lemma_handle_seen_messages(app, src, messages, (count - 1) as nat, now);
        assert(app.messages_seen.contains(messages[count - 1]));
    }
}

/// Delivering a batch a second time changes nothing: no value is logged
/// again, and nothing is put aside for any neighbor.
///
/// The second delivery may come at any later time and through a writer in
/// any state. All it does is answer.
pub proof fn lemma_duplicate_batch_is_idle(
    app: BroadcastView,
    writer: WriterView,
    again: WriterView,
    message: MessageView<BroadcastPayloadView>,
    now: u64,
    later: u64,
)
    requires
        message.body.payload is BroadcastBatched,
    ensures
        app.handle(writer, message, now).app.handle(again, message, later).app == app.handle(
            writer,
            message,
            now,
        ).app,
{
    let messages = message.body.payload->BroadcastBatched_messages;
    let once = app.handle_messages(message.src, messages, messages.len(), now);
    lemma_handle_messages_sees(app, message.src, messages, messages.len(), now);
    lemma_handle_seen_messages(once, message.src, messages, messages.len(), later);
}

/// A `topology` envelope changes nothing in the node: it is answered, and
/// the neighbors stay those that the node began with.
pub proof fn lemma_topology_is_ignored(
    app: BroadcastView,
    writer: WriterView,
    message: MessageView<BroadcastPayloadView>,
    now: u64,
)
    requires
        message.body.payload is Topology,
    ensures
        app.handle(writer, message, now).app == app,
{
}

/// No envelope changes the neighbors of a node.
pub proof fn lemma_handle_keeps_neighbors(
    app: BroadcastView,
    writer: WriterView,
    message: MessageView<BroadcastPayloadView>,
    now: u64,
)
    ensures
        app.handle(writer, message, now).app.neighbors == app.neighbors,
        app.handle(writer, message, now).app.always_broadcast == app.always_broadcast,
{
    match message.body.payload {
        BroadcastPayloadView::Broadcast { message: value } => {
            lemma_handle_message_sees(app, message.src, value, now);
        },
        BroadcastPayloadView::BroadcastBatched { messages } => {
            lemma_handle_messages_sees(app, message.src, messages, messages.len(), now);
        },
        _ => {},
    }
}

/// Only an acknowledgement ends the wait for a batch: after any other
/// envelope the same batches wait as before.
pub proof fn lemma_only_acks_end_waits(
    app: BroadcastView,
    writer: WriterView,
    message: MessageView<BroadcastPayloadView>,
    now: u64,
)
    requires
        !(message.body.payload is BroadcastBatchedOk),
    ensures
        app.handle(writer, message, now).app.unacked == app.unacked,
{
    match message.body.payload {
        BroadcastPayloadView::Broadcast { message: value } => {
            lemma_handle_message_sees(app, message.src, value, now);
        },
        BroadcastPayloadView::BroadcastBatched { messages } => {
            lemma_handle_messages_sees(app, message.src, messages, messages.len(), now);
        },
        _ => {},
    }
}

/// An acknowledgement ends the wait for the batch that was sent under the
/// identifier it names, and for no other: every other batch waits on, in
/// the same order.
pub proof fn lemma_ack_ends_one_wait(
    app: BroadcastView,
    src: Seq<char>,
    in_reply_to: Option<MessageID>,
    at: int,
)
    requires
        0 <= at < app.unacked.len(),
        app.unacked[at].neighbor == src,
        in_reply_to == Some(app.unacked[at].ack.message_id),
        forall|j: int|
            0 <= j < at ==> !((#[trigger] app.unacked[j]).neighbor == src && in_reply_to == Some(
                app.unacked[j].ack.message_id,
            )),
    ensures
        app.acknowledge(src, in_reply_to).unacked == app.unacked.remove(at),
{
    crate::broadcast::model::lemma_first_index(
        app.unacked,
        |u: UnackedView| u.neighbor == src && in_reply_to == Some(u.ack.message_id),
        at,
    );
}

/// How many of the first `count` waiting batches are ripe at `now`.
pub open spec fn ripe_count(batched: Seq<BatchView>, count: nat, now: u64) -> nat
    decreases count,
{
    if count == 0 {
        0
    } else if BroadcastView::ripe(batched[count - 1], now) {
        ripe_count(batched, (count - 1) as nat, now) + 1
    } else {
        ripe_count(batched, (count - 1) as nat, now)
    }
}

/// Whether `after` holds the batches that wait in `before` at their places
/// and under their names, each with what was remembered of it or with a
/// sending at `now`, and behind them only batches sent at `now`.
pub open spec fn waits_on(before: Seq<UnackedView>, after: Seq<UnackedView>, now: u64) -> bool {
    &&& before.len() <= after.len()
    &&& forall|k: int|
        0 <= k < before.len() ==> {
            &&& (#[trigger] after[k]).neighbor == before[k].neighbor
            &&& after[k].messages == before[k].messages
            &&& (after[k].ack == before[k].ack || after[k].ack.time_sent == now)
        }
    &&& forall|k: int| before.len() <= k < after.len() ==> (#[trigger] after[k]).ack.time_sent == now
}

/// Sending a batch at `now` keeps every waiting batch at its place.
pub proof fn lemma_note_sent_waits_on(
    app: BroadcastView,
    neighbor: Seq<char>,
    messages: Seq<u32>,
    message_id: MessageID,
    now: u64,
)
    requires
        app.wf(),
    ensures
        waits_on(
            app.unacked,
            app.note_sent(neighbor, messages, AckContext { message_id, time_sent: now }).unacked,
            now,
        ),
{
    lemma_first_index_is_first(
        app.unacked,
        |u: UnackedView| u.neighbor == neighbor && u.messages == messages,
    );
}

/// What the first phase of a tick does, and what it leaves alone.
///
/// It touches neither the waiting batches nor what the node has seen, and
/// it keeps every unacknowledged batch at its place. Where it succeeds, it
/// has spent one identifier for each ripe batch and none for any other.
pub proof fn lemma_flush(app: BroadcastView, writer: WriterView, count: nat, now: u64)
    requires
        app.wf(),
        count <= app.batched.len(),
    ensures
        app.flush(writer, count, now).app.wf(),
        app.flush(writer, count, now).app.batched == app.batched,
        app.flush(writer, count, now).app.messages_seen == app.messages_seen,
        app.flush(writer, count, now).app.neighbors == app.neighbors,
        app.flush(writer, count, now).app.always_broadcast == app.always_broadcast,
        waits_on(app.unacked, app.flush(writer, count, now).app.unacked, now),
        app.flush(writer, count, now).result is Ok ==> app.flush(writer, count, now).writer.issued
            == writer.issued + ripe_count(app.batched, count, now),
        ripe_count(app.batched, count, now) == 0 ==> app.flush(writer, count, now) == (Outcome {
            app,
            writer,
            result: Ok(()),
        }),
    decreases count,
{
    if count > 0 {
        let before = app.flush(writer, (count - 1) as nat, now);
        lemma_flush(app, writer, (count - 1) as nat, now);
        let batch = app.batched[count - 1];
        if before.result is Ok && BroadcastView::ripe(batch, now) {
            let ack = AckContext { message_id: MessageID(before.writer.next), time_sent: now };
            lemma_note_sent_wf(before.app, batch.neighbor, batch.messages, ack);
            lemma_note_sent_waits_on(
                before.app,
                batch.neighbor,
                batch.messages,
                MessageID(before.writer.next),
                now,
            );
        }
    }
}

/// What the second phase of a tick does where it succeeds: every batch
/// that was overdue is sent again at `now`, and every other batch is left
/// as it was.
pub proof fn lemma_resend(start: Outcome, waiting: Seq<UnackedView>, count: nat, now: u64)
    requires
        start.app.wf(),
        start.app.unacked == waiting,
        start.result is Ok,
        count <= waiting.len(),
        BroadcastView::resend(start, waiting, count, now).result is Ok,
    ensures
        BroadcastView::resend(start, waiting, count, now).app.wf(),
        BroadcastView::resend(start, waiting, count, now).app.batched == start.app.batched,
        BroadcastView::resend(start, waiting, count, now).app.messages_seen
            == start.app.messages_seen,
        BroadcastView::resend(start, waiting, count, now).app.neighbors == start.app.neighbors,
        BroadcastView::resend(start, waiting, count, now).app.unacked.len() == waiting.len(),
        forall|k: int|
            0 <= k < waiting.len() ==> {
                let after = #[trigger] BroadcastView::resend(
                    start,
                    waiting,
                    count,
                    now,
                ).app.unacked[k];
                &&& after.neighbor == waiting[k].neighbor
                &&& after.messages == waiting[k].messages
                &&& k < count && BroadcastView::overdue(waiting[k], now) ==> after.ack.time_sent
                    == now
                &&& !(k < count && BroadcastView::overdue(waiting[k], now)) ==> after == waiting[k]
            },
    decreases count,
{
    if count > 0 {
        let before = BroadcastView::resend(start, waiting, (count - 1) as nat, now);
        let entry = waiting[count - 1];
        if before.result is Err {
            crate::broadcast::model::lemma_resend_stops(
                start,
                waiting,
                (count - 1) as nat,
                count,
                now,
            );
        } else {
            lemma_resend(start, waiting, (count - 1) as nat, now);
            if BroadcastView::overdue(entry, now) {
                let ack = AckContext { message_id: MessageID(before.writer.next), time_sent: now };
                assert(before.app.unacked[count - 1] == waiting[count - 1]);
                crate::broadcast::model::lemma_note_sent_known(before.app, count - 1, ack);
                lemma_note_sent_wf(before.app, entry.neighbor, entry.messages, ack);
                let after = BroadcastView::resend(start, waiting, count, now);
                assert(after.app.unacked == before.app.unacked.update(
                    count - 1,
                    UnackedView { ack, ..before.app.unacked[count - 1] },
                ));
                assert forall|k: int| 0 <= k < waiting.len() implies {
                    let entry_after = #[trigger] after.app.unacked[k];
                    &&& entry_after.neighbor == waiting[k].neighbor
                    &&& entry_after.messages == waiting[k].messages
                    &&& k < count && BroadcastView::overdue(waiting[k], now)
                        ==> entry_after.ack.time_sent == now
                    &&& !(k < count && BroadcastView::overdue(waiting[k], now)) ==> entry_after
                        == waiting[k]
                } by {
                    if k != count - 1 {
                        assert(after.app.unacked[k] == before.app.unacked[k]);
                    }
                }
            }
        }
    }
}

/// The coalescing bound: a tick sends no batch that has waited less than
/// 100 ms since its first value.
///
/// Where the tick succeeds, the batches that wait afterwards are exactly
/// the ones that were not ripe, untouched and in their order; and the
/// first phase has spent one identifier for each ripe batch, none for any
/// other.
pub proof fn lemma_tick_respects_window(app: BroadcastView, writer: WriterView, now: u64)
    requires
        app.wf(),
        app.tick(writer, now).result is Ok,
    ensures
        app.tick(writer, now).app.batched == app.batched.filter(
            |b: BatchView| !BroadcastView::ripe(b, now),
        ),
        app.flush(writer, app.batched.len(), now).writer.issued == writer.issued + ripe_count(
            app.batched,
            app.batched.len(),
            now,
        ),
{
    let flushed = app.flush(writer, app.batched.len(), now);
    lemma_flush(app, writer, app.batched.len(), now);
    let pruned = Outcome { app: flushed.app.without_ripe(now), ..flushed };
    lemma_without_ripe_wf(flushed.app, now);
    lemma_resend(pruned, pruned.app.unacked, pruned.app.unacked.len(), now);
}

/// Taking the ripe batches away leaves the node well formed.
pub proof fn lemma_without_ripe_wf(app: BroadcastView, now: u64)
    requires
        app.wf(),
    ensures
        app.without_ripe(now).wf(),
{
    let young = |b: BatchView| !BroadcastView::ripe(b, now);
    let kept = app.batched.filter(young);
    assert forall|i: int, j: int| 0 <= i < j < kept.len() implies (#[trigger] kept[i]).neighbor != (
    #[trigger] kept[j]).neighbor by {
        lemma_filter_keeps_distinct(app.batched, young, i, j);
    }
}

/// Two batches of a filtered list are for different neighbors where all
/// batches of the list are.
pub proof fn lemma_filter_keeps_distinct(
    batches: Seq<BatchView>,
    keep: spec_fn(BatchView) -> bool,
    a: int,
    b: int,
)
    requires
        0 <= a < b < batches.filter(keep).len(),
        forall|i: int, j: int|
            0 <= i < j < batches.len() ==> (#[trigger] batches[i]).neighbor != (
            #[trigger] batches[j]).neighbor,
    ensures
        batches.filter(keep)[a].neighbor != batches.filter(keep)[b].neighbor,
    decreases batches.len(),
{
    reveal(Seq::filter);
    let rest = batches.drop_last();
    let kept = rest.filter(keep);
    if batches.len() > 0 {
        if keep(batches.last()) && b == kept.len() {
            assert(kept.contains(kept[a]));
            rest.lemma_filter_contains_rev(keep, kept[a]);
            let i = choose|i: int| 0 <= i < rest.len() && rest[i] == kept[a];
            assert(batches[i] == rest[i]);
            assert(batches[i].neighbor != batches[batches.len() - 1].neighbor);
        } else {
            assert forall|i: int, j: int| 0 <= i < j < rest.len() implies (
            #[trigger] rest[i]).neighbor != (#[trigger] rest[j]).neighbor by {
                assert(rest[i] == batches[i] && rest[j] == batches[j]);
            }
            lemma_filter_keeps_distinct(rest, keep, a, b);
        }
    }
}

/// Retransmission: a batch waits for its acknowledgement through every
/// tick, and a tick at which it has waited 500 ms or more sends it again.
///
/// Where the tick succeeds, the batch is at its place under its name
/// afterwards. If it was overdue, it has been sent at `now`. If it was not,
/// and no batch was ripe, the tick has left it as it was: it is not sent
/// again before its 500 ms have passed.
pub proof fn lemma_tick_resends_overdue(app: BroadcastView, writer: WriterView, now: u64, k: int)
    requires
        app.wf(),
        0 <= k < app.unacked.len(),
        app.tick(writer, now).result is Ok,
    ensures
        k < app.tick(writer, now).app.unacked.len(),
        app.tick(writer, now).app.unacked[k].neighbor == app.unacked[k].neighbor,
        app.tick(writer, now).app.unacked[k].messages == app.unacked[k].messages,
        BroadcastView::overdue(app.unacked[k], now) ==> app.tick(
            writer,
            now,
        ).app.unacked[k].ack.time_sent == now,
        !BroadcastView::overdue(app.unacked[k], now) && ripe_count(
            app.batched,
            app.batched.len(),
            now,
        ) == 0 ==> app.tick(writer, now).app.unacked[k] == app.unacked[k],
{
    let flushed = app.flush(writer, app.batched.len(), now);
    lemma_flush(app, writer, app.batched.len(), now);
    let pruned = Outcome { app: flushed.app.without_ripe(now), ..flushed };
    lemma_without_ripe_wf(flushed.app, now);
    let waiting = pruned.app.unacked;
    lemma_resend(pruned, waiting, waiting.len(), now);
    let after = BroadcastView::resend(pruned, waiting, waiting.len(), now).app.unacked[k];
    assert(waiting[k].neighbor == app.unacked[k].neighbor);
    assert(after.neighbor == waiting[k].neighbor);
}

/// Whether a value waits to be sent to a neighbor.
pub open spec fn waits_for(app: BroadcastView, neighbor: Seq<char>, message: u32) -> bool {
    exists|i: int|
        0 <= i < app.batched.len() && (#[trigger] app.batched[i]).neighbor == neighbor
            && app.batched[i].messages.contains(message)
}

/// A value that is put aside for a neighbor waits for it, and so does
/// every value that waited before.
pub proof fn lemma_prepare_waits(
    app: BroadcastView,
    neighbor: Seq<char>,
    message: u32,
    now: u64,
    other: Seq<char>,
    value: u32,
)
    ensures
        waits_for(app.prepare_send_to_neighbor(neighbor, message, now), neighbor, message),
        waits_for(app, other, value) ==> waits_for(
            app.prepare_send_to_neighbor(neighbor, message, now),
            other,
            value,
        ),
{
    let wanted = |b: BatchView| b.neighbor == neighbor;
    let at = first_index(app.batched, wanted);
    let after = app.prepare_send_to_neighbor(neighbor, message, now);
    lemma_first_index_is_first(app.batched, wanted);
    if at < app.batched.len() {
        assert(after.batched[at].neighbor == neighbor);
        assert(after.batched[at].messages[app.batched[at].messages.len() as int] == message);
    } else {
        assert(after.batched[at].neighbor == neighbor);
        assert(after.batched[at].messages[0] == message);
    }
    if waits_for(app, other, value) {
        let i = choose|i: int|
            0 <= i < app.batched.len() && (#[trigger] app.batched[i]).neighbor == other
                && app.batched[i].messages.contains(value);
        let held = choose|j: int|
            0 <= j < app.batched[i].messages.len() && app.batched[i].messages[j] == value;
        assert(after.batched[i].neighbor == other);
        assert(after.batched[i].messages[held] == value);
    }
}

/// A value that is put aside for the first `count` neighbors waits for
/// each of them.
pub proof fn lemma_enqueue_waits(app: BroadcastView, count: nat, message: u32, now: u64)
    requires
        count <= app.neighbors.len(),
    ensures
        forall|j: int|
            0 <= j < count ==> waits_for(
                app.enqueue(count, message, now),
                #[trigger] app.neighbors[j],
                message,
            ),
    decreases count,
{
    if count > 0 {
        let before = app.enqueue((count - 1) as nat, message, now);
        lemma_enqueue_waits(app, (count - 1) as nat, message, now);
        assert forall|j: int| 0 <= j < count implies waits_for(
            app.enqueue(count, message, now),
            #[trigger] app.neighbors[j],
            message,
        ) by {
            lemma_prepare_waits(
                before,
                app.neighbors[count - 1],
                message,
                now,
                app.neighbors[j],
                message,
            );
        }
    }
}

/// Dissemination: a value that a node sees for the first time, from a
/// client or on a node that always hands values on, waits for every
/// neighbor of the node afterwards.
pub proof fn lemma_new_value_is_handed_on(
    app: BroadcastView,
    src: Seq<char>,
    message: u32,
    now: u64,
)
    requires
        !app.messages_seen.contains(message),
        crate::protocol::is_client_id(src) || app.always_broadcast,
    ensures
        forall|j: int|
            0 <= j < app.neighbors.len() ==> waits_for(
                app.handle_message(src, message, now),
                #[trigger] app.neighbors[j],
                message,
            ),
{
    let logged = BroadcastView { messages_seen: app.messages_seen.push(message), ..app };
    lemma_enqueue_waits(logged, app.neighbors.len(), message, now);
}

/// Sending batches again changes no neighbor.
pub proof fn lemma_resend_keeps_neighbors(
    start: Outcome,
    waiting: Seq<UnackedView>,
    count: nat,
    now: u64,
)
    ensures
        BroadcastView::resend(start, waiting, count, now).app.neighbors == start.app.neighbors,
        BroadcastView::resend(start, waiting, count, now).app.always_broadcast
            == start.app.always_broadcast,
    decreases count,
{
    if count > 0 {
        lemma_resend_keeps_neighbors(start, waiting, (count - 1) as nat, now);
    }
}

/// Sending ripe batches changes no neighbor.
pub proof fn lemma_flush_keeps_neighbors(
    app: BroadcastView,
    writer: WriterView,
    count: nat,
    now: u64,
)
    ensures
        app.flush(writer, count, now).app.neighbors == app.neighbors,
        app.flush(writer, count, now).app.always_broadcast == app.always_broadcast,
    decreases count,
{
    if count > 0 {
        lemma_flush_keeps_neighbors(app, writer, (count - 1) as nat, now);
    }
}

/// Topology stability: the neighbors of a node, and whether it hands on
/// what other nodes send, are settled when the node is made. No envelope
/// and no tick changes them.
pub proof fn lemma_neighbors_are_settled(
    app: BroadcastView,
    writer: WriterView,
    message: MessageView<BroadcastPayloadView>,
    now: u64,
)
    ensures
        app.handle(writer, message, now).app.neighbors == app.neighbors,
        app.handle(writer, message, now).app.always_broadcast == app.always_broadcast,
        app.tick(writer, now).app.neighbors == app.neighbors,
        app.tick(writer, now).app.always_broadcast == app.always_broadcast,
{
    lemma_handle_keeps_neighbors(app, writer, message, now);
    let flushed = app.flush(writer, app.batched.len(), now);
    lemma_flush_keeps_neighbors(app, writer, app.batched.len(), now);
    let pruned = Outcome { app: flushed.app.without_ripe(now), ..flushed };
    lemma_resend_keeps_neighbors(pruned, pruned.app.unacked, pruned.app.unacked.len(), now);
}

} // verus!
