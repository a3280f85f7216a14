//! The broadcast node itself: its state, and the steps that the model
//! describes.
use crate::broadcast::model::{
    first_index, lemma_first_index, AckContext, BatchView, BroadcastView, Outcome,
    UnackedView, COALESCING_WINDOW, RESEND_AFTER,
};
use crate::broadcast::payload::{BroadcastPayload, BroadcastPayloadView};
use crate::broadcast::topology::{
    is_leader, lemma_chunk_bounds, lemma_chunk_of, neighbors_of, target_chunk,
};
use crate::clock::has_aged;
use crate::error::Error;
use crate::json::{Json, JsonView};
use crate::protocol::{ids_view, Message, MessageID, MessageView, NodeID};
use crate::runtime::App;
use crate::writer::{MessageWriter, WriterView};
use std::collections::HashSet;
use vstd::prelude::*;

verus! {

/// Values that wait to be sent to one neighbor.
struct Batch {
    neighbor: NodeID,
    start_time: u64,
    messages: Vec<u32>,
}

/// A batch that was sent to a neighbor and not acknowledged yet.
struct Unacked {
    neighbor: NodeID,
    messages: Vec<u32>,
    ack: AckContext,
}

impl View for Batch {
    type V = BatchView;

    closed spec fn view(&self) -> BatchView {
        BatchView {
            neighbor: self.neighbor@,
            start_time: self.start_time,
            messages: self.messages@,
        }
    }
}

impl View for Unacked {
    type V = UnackedView;

    closed spec fn view(&self) -> UnackedView {
        UnackedView { neighbor: self.neighbor@, messages: self.messages@, ack: self.ack }
    }
}

spec fn batches_view(batches: Seq<Batch>) -> Seq<BatchView> {
    Seq::new(batches.len(), |i: int| batches[i]@)
}

spec fn unacked_view(entries: Seq<Unacked>) -> Seq<UnackedView> {
    Seq::new(entries.len(), |i: int| entries[i]@)
}

/// A node of the broadcast.
pub struct Broadcast {
    messages_seen: HashSet<u32>,
    /// The values of `messages_seen` in the order in which they came.
    seen_log: Vec<u32>,
    neighbors: Vec<NodeID>,
    /// Determines whether to always broadcast to neighbors or only when
    /// receiving a message from a client.
    always_broadcast: bool,
    neighbor_messages_not_acked: Vec<Unacked>,
    batched_sends_to_neighbors: Vec<Batch>,
}

impl View for Broadcast {
    type V = BroadcastView;

    closed spec fn view(&self) -> BroadcastView {
        BroadcastView {
            messages_seen: self.seen_log@,
            neighbors: ids_view(self.neighbors@),
            always_broadcast: self.always_broadcast,
            unacked: unacked_view(self.neighbor_messages_not_acked@),
            batched: batches_view(self.batched_sends_to_neighbors@),
        }
    }
}

impl BroadcastView {
    /// A node that has seen nothing yet, with the neighbors that the
    /// topology gives it.
    pub open spec fn initial(node_id: Seq<char>, node_ids: Seq<Seq<char>>) -> BroadcastView {
        BroadcastView {
            messages_seen: Seq::empty(),
            neighbors: neighbors_of(node_id, node_ids),
            always_broadcast: is_leader(node_id, node_ids),
            unacked: Seq::empty(),
            batched: Seq::empty(),
        }
    }
}

impl Broadcast {
    /// What holds of every node between its steps.
    pub closed spec fn wf(&self) -> bool {
        &&& self@.wf()
        &&& self.messages_seen@ == self.seen_log@.to_set()
    }

    /// A node that is well formed has a well-formed model.
    pub proof fn lemma_wf(&self)
        requires
            self.wf(),
        ensures
            self@.wf(),
    {
    }

    /// The node `node_id` of the cluster `node_ids`, which must hold it.
    pub fn new(node_id: NodeID, node_ids: Vec<NodeID>) -> (app: Broadcast)
        requires
            ids_view(node_ids@).contains(node_id@),
        ensures
            app.wf(),
            app@ == BroadcastView::initial(node_id@, ids_view(node_ids@)),
    {
        let ghost all = ids_view(node_ids@);
        let ghost own = |id: Seq<char>| id == node_id@;
        let ghost other = |id: Seq<char>| id != node_id@;
        let n = node_ids.len();
        let mut place: usize = 0;
        while place < n && !(node_ids[place] == node_id)
            invariant
                n == node_ids.len(),
                all == ids_view(node_ids@),
                all.contains(node_id@),
                own == |id: Seq<char>| id == node_id@,
                place <= n,
                forall|j: int| 0 <= j < place ==> !own(#[trigger] all[j]),
            decreases n - place,
        {
            place = place + 1;
        }
        proof {
            if place == n {
                let at = choose|i: int| 0 <= i < all.len() && all[i] == node_id@;
                assert(!own(all[at]));
            }
            lemma_first_index(all, own, place as int);
            lemma_chunk_of(n as int, place as int);
        }
        let size = if n < 5 {
            1
        } else {
            n / 5
        };
        let count = if n < 5 {
            n
        } else {
            5
        };
        let mut own_chunk = place / size;
        if own_chunk >= count {
            own_chunk = count - 1;
        }
        proof {
            lemma_chunk_bounds(n as int, own_chunk as int);
        }
        let leader = place == own_chunk * size;
        let target = if leader {
            if own_chunk + 1 == count {
                0
            } else {
                own_chunk + 1
            }
        } else {
            own_chunk
        };
        proof {
            lemma_chunk_bounds(n as int, target as int);
            assert(target == target_chunk(node_id@, all));
        }
        let start = target * size;
        let end = if target == count - 1 {
            n
        } else {
            (target + 1) * size
        };
        let mut neighbors: Vec<NodeID> = Vec::new();
        let mut at: usize = start;
        proof {
            assert(all.subrange(start as int, at as int) =~= Seq::empty());
            assert(ids_view(neighbors@) =~= Seq::empty());
            reveal(Seq::filter);
        }
        while at < end
            invariant
                start <= at <= end <= node_ids.len(),
                all == ids_view(node_ids@),
                other == |id: Seq<char>| id != node_id@,
                ids_view(neighbors@) == all.subrange(start as int, at as int).filter(other),
            decreases end - at,
        {
            let ghost before = ids_view(neighbors@);
            proof {
                let seen = all.subrange(start as int, at as int);
                assert(all.subrange(start as int, at + 1) =~= seen.push(all[at as int]));
                seen.lemma_filter_push(all[at as int], other);
            }
            if !(node_ids[at] == node_id) {
                neighbors.push(node_ids[at].clone());
                proof {
                    assert(ids_view(neighbors@) =~= before.push(all[at as int]));
                }
            } else {
                proof {
                    assert(ids_view(neighbors@) =~= before);
                }
            }
            at = at + 1;
        }
        let app = Broadcast {
            messages_seen: HashSet::new(),
            seen_log: Vec::new(),
            neighbors,
            always_broadcast: leader,
            neighbor_messages_not_acked: Vec::new(),
            batched_sends_to_neighbors: Vec::new(),
        };
        proof {
            assert(app@.unacked =~= Seq::empty());
            assert(app@.batched =~= Seq::empty());
            assert(app.seen_log@.to_set() =~= Set::empty());
        }
        app
    }
}

fn copy_values(values: &Vec<u32>) -> (copy: Vec<u32>)
    ensures
        copy@ == values@,
{
    let mut copy: Vec<u32> = Vec::new();
    let mut i: usize = 0;
    while i < values.len()
        invariant
            i <= values.len(),
            copy@ == values@.take(i as int),
        decreases values.len() - i,
    {
        copy.push(values[i]);
        proof {
            assert(values@.take(i + 1) =~= values@.take(i as int).push(values[i as int]));
        }
        i = i + 1;
    }
    proof {
        assert(values@.take(i as int) =~= values@);
    }
    copy
}

fn same_values(a: &Vec<u32>, b: &Vec<u32>) -> (same: bool)
    ensures
        same == (a@ == b@),
{
    if a.len() != b.len() {
        return false;
    }
    let mut i: usize = 0;
    while i < a.len()
        invariant
            i <= a.len(),
            a.len() == b.len(),
            forall|j: int| 0 <= j < i ==> a[j] == b[j],
        decreases a.len() - i,
    {
        if a[i] != b[i] {
            return false;
        }
        i = i + 1;
    }
    proof {
        assert(a@ =~= b@);
    }
    true
}

impl Broadcast {
    /// Where the batch for a neighbor waits; the number of batches if none
    /// waits for it.
    fn batch_index(&self, neighbor: &NodeID) -> (at: usize)
        ensures
            at == self@.batch_index(neighbor@),
            at <= self.batched_sends_to_neighbors.len(),
    {
        let ghost wanted = |b: BatchView| b.neighbor == neighbor@;
        let mut at: usize = 0;
        while at < self.batched_sends_to_neighbors.len() && !(
        self.batched_sends_to_neighbors[at].neighbor == *neighbor)
            invariant
                at <= self.batched_sends_to_neighbors.len(),
                wanted == |b: BatchView| b.neighbor == neighbor@,
                forall|j: int| 0 <= j < at ==> !wanted(#[trigger] self@.batched[j]),
            decreases self.batched_sends_to_neighbors.len() - at,
        {
            at = at + 1;
        }
        proof {
            lemma_first_index(self@.batched, wanted, at as int);
        }
        at
    }

    /// Puts a value aside for a neighbor: it joins the batch that waits for
    /// the neighbor, or begins one at `now`.
    pub fn prepare_send_to_neighbor(&mut self, neighbor: NodeID, message: u32, now: u64)
        requires
            old(self).wf(),
        ensures
            final(self).wf(),
            final(self)@ == old(self)@.prepare_send_to_neighbor(neighbor@, message, now),
    {
        let at = self.batch_index(&neighbor);
        let ghost before = self@;
        let ghost wanted = |b: BatchView| b.neighbor == neighbor@;
        proof {
            crate::broadcast::model::lemma_first_index_is_first(before.batched, wanted);
            assert(at == first_index(before.batched, wanted));
        }
        if at < self.batched_sends_to_neighbors.len() {
            let mut batch = self.batched_sends_to_neighbors.remove(at);
            batch.messages.push(message);
            self.batched_sends_to_neighbors.insert(at, batch);
            proof {
                assert(self@.batched =~= before.batched.update(
                    at as int,
                    BatchView {
                        messages: before.batched[at as int].messages.push(message),
                        ..before.batched[at as int]
                    },
                ));
                assert forall|i: int| 0 <= i < self@.batched.len() implies (
                #[trigger] self@.batched[i]).neighbor == before.batched[i].neighbor by {}
                assert(self@.unacked == before.unacked);
                assert(self@.messages_seen == before.messages_seen);
                assert(self@.wf()) by {
                    assert forall|i: int, j: int| 0 <= i < j < self@.batched.len() implies (
                    #[trigger] self@.batched[i]).neighbor != (
                    #[trigger] self@.batched[j]).neighbor by {
                        assert(self@.batched[i].neighbor == before.batched[i].neighbor);
                        assert(self@.batched[j].neighbor == before.batched[j].neighbor);
                        assert(before.batched[i].neighbor != before.batched[j].neighbor);
                    }
                }
            }
        } else {
            let mut messages: Vec<u32> = Vec::new();
            messages.push(message);
            self.batched_sends_to_neighbors.push(Batch { neighbor, start_time: now, messages });
            proof {
                assert(self@.batched =~= before.batched.push(
                    BatchView { neighbor: neighbor@, start_time: now, messages: seq![message] },
                ));
                assert(self@.unacked == before.unacked);
                assert(self@.messages_seen == before.messages_seen);
                assert(self@.wf()) by {
                    assert forall|i: int, j: int| 0 <= i < j < self@.batched.len() implies (
                    #[trigger] self@.batched[i]).neighbor != (
                    #[trigger] self@.batched[j]).neighbor by {
                        if j < before.batched.len() {
                            assert(before.batched[i].neighbor != before.batched[j].neighbor);
                        } else {
                            assert(!wanted(before.batched[i]));
                        }
                    }
                }
            }
        }
    }

    /// Takes in a value that came with `message`.
    ///
    /// A value seen before changes nothing. A new one is logged, and put
    /// aside for every neighbor where it comes from a client or the node
    /// always hands values on.
    pub fn handle_message(
        &mut self,
        message: &Message<BroadcastPayload>,
        message_to_broadcast: u32,
        now: u64,
    )
        requires
            old(self).wf(),
        ensures
            final(self).wf(),
            final(self)@ == old(self)@.handle_message(message.src@, message_to_broadcast, now),
    {
        broadcast use vstd::std_specs::hash::group_hash_axioms;

        let ghost before = self@;
        let inserted = self.messages_seen.insert(message_to_broadcast);
        if inserted {
            self.seen_log.push(message_to_broadcast);
            proof {
                before.messages_seen.lemma_push_to_set_commute(message_to_broadcast);
                assert(!before.messages_seen.to_set().contains(message_to_broadcast));
                assert(!before.messages_seen.contains(message_to_broadcast));
                assert(self.seen_log@ == before.messages_seen.push(message_to_broadcast));
                assert(self.seen_log@.no_duplicates());
                assert(self@.unacked == before.unacked);
                assert(self@.batched == before.batched);
            }
        } else {
            proof {
                assert(before.messages_seen.to_set().contains(message_to_broadcast));
                assert(before.messages_seen.contains(message_to_broadcast));
                assert(self.messages_seen@ =~= before.messages_seen.to_set());
                assert(self@ == before);
            }
        }
        // Broadcast to neighbors if this was newly seen. Servers only broadcast
        // messages received from clients (unless they are configured to always
        // broadcast, i.e. when they are a link to the next chunk of servers).
        if inserted && (message.src.is_client() || self.always_broadcast) {
            let ghost logged = self@;
            let mut i: usize = 0;
            while i < self.neighbors.len()
                invariant
                    i <= self.neighbors.len(),
                    self.wf(),
                    ids_view(self.neighbors@) == logged.neighbors,
                    self@ == logged.enqueue(i as nat, message_to_broadcast, now),
                decreases logged.neighbors.len() - i,
            {
                let neighbor = self.neighbors[i].clone();
                self.prepare_send_to_neighbor(neighbor, message_to_broadcast, now);
                i = i + 1;
            }
        }
    }
}

impl Broadcast {
    /// Where a batch waits for its acknowledgement; the number of waiting
    /// batches if it does not wait.
    fn unacked_index(&self, neighbor: &NodeID, messages: &Vec<u32>) -> (at: usize)
        ensures
            at == self@.unacked_index(neighbor@, messages@),
            at <= self.neighbor_messages_not_acked.len(),
    {
        let ghost wanted = |u: UnackedView| u.neighbor == neighbor@ && u.messages == messages@;
        let mut at: usize = 0;
        while at < self.neighbor_messages_not_acked.len()
            invariant
                at <= self.neighbor_messages_not_acked.len(),
                wanted == |u: UnackedView| u.neighbor == neighbor@ && u.messages == messages@,
                forall|j: int| 0 <= j < at ==> !wanted(#[trigger] self@.unacked[j]),
            ensures
                at < self.neighbor_messages_not_acked.len() ==> wanted(self@.unacked[at as int]),
            decreases self.neighbor_messages_not_acked.len() - at,
        {
            if self.neighbor_messages_not_acked[at].neighbor == *neighbor && same_values(
                &self.neighbor_messages_not_acked[at].messages,
                messages,
            ) {
                break;
            }
            at = at + 1;
        }
        proof {
            lemma_first_index(self@.unacked, wanted, at as int);
        }
        at
    }

    /// Where the batch waits that an acknowledgement from `src` answers;
    /// the number of waiting batches if it answers none.
    fn acked_index(&self, src: &NodeID, in_reply_to: Option<MessageID>) -> (at: usize)
        ensures
            at == self@.acked_index(src@, in_reply_to),
            at <= self.neighbor_messages_not_acked.len(),
    {
        let ghost wanted = |u: UnackedView|
            u.neighbor == src@ && in_reply_to == Some(u.ack.message_id);
        let mut at: usize = 0;
        while at < self.neighbor_messages_not_acked.len()
            invariant
                at <= self.neighbor_messages_not_acked.len(),
                wanted == |u: UnackedView|
                    u.neighbor == src@ && in_reply_to == Some(u.ack.message_id),
                forall|j: int| 0 <= j < at ==> !wanted(#[trigger] self@.unacked[j]),
            ensures
                at < self.neighbor_messages_not_acked.len() ==> wanted(self@.unacked[at as int]),
            decreases self.neighbor_messages_not_acked.len() - at,
        {
            let answered = match in_reply_to {
                Some(id) => id == self.neighbor_messages_not_acked[at].ack.message_id,
                None => false,
            };
            if answered && self.neighbor_messages_not_acked[at].neighbor == *src {
                break;
            }
            at = at + 1;
        }
        proof {
            lemma_first_index(self@.unacked, wanted, at as int);
        }
        at
    }

    /// Sends a batch to a neighbor and remembers that it waits for its
    /// acknowledgement, under the identifier of this sending and the time
    /// `now`.
    ///
    /// Fails with [`Error::Unprintable`], and leaves the node as it was,
    /// exactly where the envelope cannot be printed.
    pub fn batched_send_to_neighbor(
        &mut self,
        writer: &mut MessageWriter,
        neighbor: NodeID,
        messages: Vec<u32>,
        now: u64,
    ) -> (sent: Result<(), Error>)
        requires
            old(self).wf(),
            old(writer)@.wf(),
        ensures
            final(self).wf(),
            final(writer)@.wf(),
            (Outcome { app: final(self)@, writer: final(writer)@, result: sent }) == old(
                self,
            )@.batched_send_to_neighbor(old(writer)@, neighbor@, messages@, now),
    {
        let ghost before = self@;
        let message_id = match writer.send_to(
            &neighbor,
            BroadcastPayload::BroadcastBatched { messages: copy_values(&messages) },
        ) {
            Ok(id) => id,
            Err(e) => {
                return Err(e);
            },
        };
        let ack = AckContext { message_id, time_sent: now };
        let at = self.unacked_index(&neighbor, &messages);
        proof {
            crate::broadcast::model::lemma_note_sent_wf(before, neighbor@, messages@, ack);
        }
        if at < self.neighbor_messages_not_acked.len() {
            let mut entry = self.neighbor_messages_not_acked.remove(at);
            entry.ack = ack;
            self.neighbor_messages_not_acked.insert(at, entry);
            proof {
                assert(self@.unacked =~= before.unacked.update(
                    at as int,
                    UnackedView { ack, ..before.unacked[at as int] },
                ));
            }
        } else {
            self.neighbor_messages_not_acked.push(Unacked { neighbor, messages, ack });
            proof {
                assert(self@.unacked =~= before.unacked.push(
                    UnackedView { neighbor: neighbor@, messages: messages@, ack },
                ));
            }
        }
        proof {
            assert(self@.batched == before.batched);
            assert(self@ == before.note_sent(neighbor@, messages@, ack));
        }
        Ok(())
    }

    /// Answers an envelope.
    fn reply(
        &self,
        writer: &mut MessageWriter,
        message: &Message<BroadcastPayload>,
        payload: BroadcastPayload,
    ) -> (sent: Result<(), Error>)
        requires
            old(writer)@.wf(),
        ensures
            final(writer)@.wf(),
            (Outcome { app: self@, writer: final(writer)@, result: sent }) == self@.reply(
                old(writer)@,
                message@,
                payload@,
            ),
    {
        match writer.reply_to(message, payload) {
            Ok(_) => Ok(()),
            Err(e) => Err(e),
        }
    }

    /// Handles an envelope at `now`.
    ///
    /// A value from a client, or a batch of values from a node, is taken in
    /// and answered. An acknowledgement ends the wait for the batch that it
    /// answers. `read` is answered with the values seen so far, `topology`
    /// with `topology_ok`, and the neighbors stay as they are. Anything else
    /// is ignored.
    pub fn handle(
        &mut self,
        message: Message<BroadcastPayload>,
        writer: &mut MessageWriter,
        now: u64,
    ) -> (handled: Result<(), Error>)
        requires
            old(self).wf(),
            old(writer)@.wf(),
        ensures
            final(self).wf(),
            final(writer)@.wf(),
            (Outcome { app: final(self)@, writer: final(writer)@, result: handled }) == old(
                self,
            )@.handle(old(writer)@, message@, now),
    {
        let ghost before = self@;
        match &message.body.payload {
            BroadcastPayload::Broadcast { message: message_to_broadcast } => {
                self.handle_message(&message, *message_to_broadcast, now);
                self.reply(writer, &message, BroadcastPayload::BroadcastOk)
            },
            BroadcastPayload::BroadcastOk => {
                // BroadcastOk is only in response to client messages, server to server
                // communication is always via BroadcastBatched / BroadcastBatchedOk.
                Ok(())
            },
            BroadcastPayload::BroadcastBatched { messages: messages_to_broadcast } => {
                let mut i: usize = 0;
                while i < messages_to_broadcast.len()
                    invariant
                        i <= messages_to_broadcast.len(),
                        self.wf(),
                        self@ == before.handle_messages(
                            message.src@,
                            messages_to_broadcast@,
                            i as nat,
                            now,
                        ),
                    decreases messages_to_broadcast.len() - i,
                {
                    self.handle_message(&message, messages_to_broadcast[i], now);
                    i = i + 1;
                }
                self.reply(writer, &message, BroadcastPayload::BroadcastBatchedOk)
            },
            BroadcastPayload::BroadcastBatchedOk => {
                let at = self.acked_index(&message.src, message.body.in_reply_to);
                proof {
                    crate::broadcast::model::lemma_acknowledge_wf(
                        before,
                        message.src@,
                        message.body.in_reply_to,
                    );
                }
                if at < self.neighbor_messages_not_acked.len() {
                    self.neighbor_messages_not_acked.remove(at);
                    proof {
                        assert(self@.unacked =~= before.unacked.remove(at as int));
                        assert(self@.batched == before.batched);
                    }
                }
                Ok(())
            },
            BroadcastPayload::ReadOk { messages: _ } => {
                // Nothing to do with ReadOks.
                Ok(())
            },
            BroadcastPayload::Read => {
                let messages = copy_values(&self.seen_log);
                self.reply(writer, &message, BroadcastPayload::ReadOk { messages })
            },
            BroadcastPayload::Topology { topology: _ } => {
                // Ignore topology, we constructed our own topology at initialization.
                self.reply(writer, &message, BroadcastPayload::TopologyOk)
            },
            BroadcastPayload::TopologyOk => Ok(()),
        }
    }
}

impl Broadcast {
    /// Takes the batches that were ripe at `now` out of the waiting ones.
    fn drop_ripe(&mut self, now: u64)
        requires
            old(self).wf(),
        ensures
            final(self).wf(),
            final(self)@ == old(self)@.without_ripe(now),
    {
        let ghost before = self@;
        let ghost young = |b: BatchView| !BroadcastView::ripe(b, now);
        let mut kept: Vec<Batch> = Vec::new();
        let mut i: usize = 0;
        proof {
            assert(before.batched.take(0) =~= Seq::empty());
            assert(batches_view(kept@) =~= Seq::empty());
            reveal(Seq::filter);
        }
        while i < self.batched_sends_to_neighbors.len()
            invariant
                i <= self.batched_sends_to_neighbors.len(),
                self@ == before,
                young == |b: BatchView| !BroadcastView::ripe(b, now),
                batches_view(kept@) == before.batched.take(i as int).filter(young),
            decreases self.batched_sends_to_neighbors.len() - i,
        {
            let ghost so_far = batches_view(kept@);
            let ghost next = before.batched[i as int];
            proof {
                assert(before.batched.take(i + 1) =~= before.batched.take(i as int).push(next));
                before.batched.take(i as int).lemma_filter_push(next, young);
            }
            let batch = &self.batched_sends_to_neighbors[i];
            if !has_aged(now, batch.start_time, COALESCING_WINDOW) {
                kept.push(
                    Batch {
                        neighbor: batch.neighbor.clone(),
                        start_time: batch.start_time,
                        messages: copy_values(&batch.messages),
                    },
                );
                proof {
                    assert(batches_view(kept@) =~= so_far.push(next));
                }
            } else {
                proof {
                    assert(batches_view(kept@) =~= so_far);
                }
            }
            i = i + 1;
        }
        proof {
            assert(before.batched.take(i as int) =~= before.batched);
            let after = before.batched.filter(young);
            assert forall|a: int, b: int| 0 <= a < b < after.len() implies (
            #[trigger] after[a]).neighbor != (#[trigger] after[b]).neighbor by {
                crate::broadcast::laws::lemma_filter_keeps_distinct(before.batched, young, a, b);
            }
        }
        self.batched_sends_to_neighbors = kept;
        proof {
            assert(self@.unacked == before.unacked);
        }
    }

    /// Does what is due at `now`.
    ///
    /// First every batch that has waited 100 ms or more is sent and waits
    /// for its acknowledgement from then on. Then every batch that has
    /// waited 500 ms or more for its acknowledgement is sent again, under a
    /// new identifier. A batch that cannot be printed ends the tick with
    /// [`Error::Unprintable`].
    pub fn tick(&mut self, writer: &mut MessageWriter, now: u64) -> (done: Result<(), Error>)
        requires
            old(self).wf(),
            old(writer)@.wf(),
        ensures
            final(self).wf(),
            final(writer)@.wf(),
            (Outcome { app: final(self)@, writer: final(writer)@, result: done }) == old(
                self,
            )@.tick(old(writer)@, now),
    {
        let ghost start = self@;
        let ghost w0 = writer@;
        let mut i: usize = 0;
        while i < self.batched_sends_to_neighbors.len()
            invariant
                i <= self.batched_sends_to_neighbors.len(),
                self.wf(),
                writer@.wf(),
                self@.batched == start.batched,
                start == old(self)@,
                w0 == old(writer)@,
                (Outcome { app: self@, writer: writer@, result: Ok(()) }) == start.flush(
                    w0,
                    i as nat,
                    now,
                ),
            decreases self.batched_sends_to_neighbors.len() - i,
        {
            if has_aged(now, self.batched_sends_to_neighbors[i].start_time, COALESCING_WINDOW) {
                let neighbor = self.batched_sends_to_neighbors[i].neighbor.clone();
                let messages = copy_values(&self.batched_sends_to_neighbors[i].messages);
                proof {
                    crate::broadcast::model::lemma_note_sent_wf(
                        self@,
                        neighbor@,
                        messages@,
                        AckContext { message_id: MessageID(writer@.next), time_sent: now },
                    );
                }
                proof {
                    assert(start.batched[i as int].neighbor == neighbor@);
                    assert(start.batched[i as int].messages == messages@);
                    assert(BroadcastView::ripe(start.batched[i as int], now));
                }
                let ghost prev = start.flush(w0, i as nat, now);
                match self.batched_send_to_neighbor(writer, neighbor, messages, now) {
                    Ok(()) => {},
                    Err(e) => {
                        proof {
                            assert(start.flush(w0, (i + 1) as nat, now)
                                == prev.app.batched_send_to_neighbor(
                                prev.writer,
                                neighbor@,
                                messages@,
                                now,
                            ));
                            crate::broadcast::model::lemma_flush_stops(
                                start,
                                w0,
                                (i + 1) as nat,
                                start.batched.len(),
                                now,
                            );
                            assert(start.flush(w0, start.batched.len(), now) == (Outcome {
                                app: self@,
                                writer: writer@,
                                result: Err(e),
                            }));
                        }
                        return Err(e);
                    },
                }
            }
            i = i + 1;
        }
        self.drop_ripe(now);
        // Resend logic.
        let ghost pruned = Outcome { app: self@, writer: writer@, result: Ok(()) };
        let ghost waiting = self@.unacked;
        let mut k: usize = 0;
        while k < self.neighbor_messages_not_acked.len()
            invariant
                k <= self.neighbor_messages_not_acked.len(),
                self.wf(),
                writer@.wf(),
                self@.unacked.len() == waiting.len(),
                old(self)@.tick(old(writer)@, now) == BroadcastView::resend(
                    pruned,
                    waiting,
                    waiting.len(),
                    now,
                ),
                forall|j: int| k <= j < waiting.len() ==> #[trigger] self@.unacked[j] == waiting[j],
                (Outcome { app: self@, writer: writer@, result: Ok(()) }) == BroadcastView::resend(
                    pruned,
                    waiting,
                    k as nat,
                    now,
                ),
            decreases waiting.len() - k,
        {
            let ghost prev = BroadcastView::resend(pruned, waiting, k as nat, now);
            proof {
                assert(self@.unacked[k as int] == waiting[k as int]);
                assert(waiting[k as int].ack.time_sent
                    == self.neighbor_messages_not_acked[k as int].ack.time_sent);
            }
            if has_aged(now, self.neighbor_messages_not_acked[k].ack.time_sent, RESEND_AFTER) {
                let neighbor = self.neighbor_messages_not_acked[k].neighbor.clone();
                let messages = copy_values(&self.neighbor_messages_not_acked[k].messages);
                proof {
                    self.lemma_wf();
                    assert(self@.unacked[k as int] == waiting[k as int]);
                    assert(waiting[k as int].neighbor == neighbor@);
                    assert(waiting[k as int].messages == messages@);
                    assert(BroadcastView::overdue(waiting[k as int], now));
                    crate::broadcast::model::lemma_note_sent_known(
                        self@,
                        k as int,
                        AckContext { message_id: MessageID(writer@.next), time_sent: now },
                    );
                }
                match self.batched_send_to_neighbor(writer, neighbor, messages, now) {
                    Ok(()) => {
                        proof {
                            assert(BroadcastView::resend(pruned, waiting, (k + 1) as nat, now)
                                == prev.app.batched_send_to_neighbor(
                                prev.writer,
                                neighbor@,
                                messages@,
                                now,
                            ));
                        }
                    },
                    Err(e) => {
                        proof {
                            assert(BroadcastView::resend(pruned, waiting, (k + 1) as nat, now)
                                == prev.app.batched_send_to_neighbor(
                                prev.writer,
                                neighbor@,
                                messages@,
                                now,
                            ));
                            crate::broadcast::model::lemma_resend_stops(
                                pruned,
                                waiting,
                                (k + 1) as nat,
                                waiting.len(),
                                now,
                            );
                            assert(BroadcastView::resend(pruned, waiting, waiting.len(), now)
                                == (Outcome { app: self@, writer: writer@, result: Err(e) }));
                        }
                        return Err(e);
                    },
                }
            }
            else {
                proof {
                    assert(!BroadcastView::overdue(waiting[k as int], now));
                    assert(BroadcastView::resend(pruned, waiting, (k + 1) as nat, now) == prev);
                }
            }
            proof {
                assert(self@.unacked.len() == self.neighbor_messages_not_acked.len());
            }
            k = k + 1;
        }
        proof {
            assert(self@.unacked.len() == self.neighbor_messages_not_acked.len());
        }
        Ok(())
    }
}

impl Broadcast {
    /// The values seen so far, each once, in the order in which they came.
    pub fn messages_seen(&self) -> (values: Vec<u32>)
        ensures
            values@ == self@.messages_seen,
    {
        copy_values(&self.seen_log)
    }

    /// The nodes that this node hands values to.
    pub fn neighbors(&self) -> (neighbors: Vec<NodeID>)
        ensures
            ids_view(neighbors@) == self@.neighbors,
    {
        crate::protocol::copy_node_ids(&self.neighbors)
    }

    /// Whether values that come from other nodes are handed on too.
    pub fn always_broadcast(&self) -> (always: bool)
        ensures
            always == self@.always_broadcast,
    {
        self.always_broadcast
    }

    /// The batch that waits to be sent to a neighbor: when it was begun,
    /// and its values.
    pub fn batched_for(&self, neighbor: &NodeID) -> (batch: Option<(u64, Vec<u32>)>)
        ensures
            match batch {
                Some((start_time, messages)) => {
                    let at = self@.batch_index(neighbor@);
                    &&& at < self@.batched.len()
                    &&& self@.batched[at].start_time == start_time
                    &&& self@.batched[at].messages == messages@
                },
                None => self@.batch_index(neighbor@) == self@.batched.len(),
            },
    {
        let at = self.batch_index(neighbor);
        if at < self.batched_sends_to_neighbors.len() {
            let batch = &self.batched_sends_to_neighbors[at];
            Some((batch.start_time, copy_values(&batch.messages)))
        } else {
            None
        }
    }

    /// What is remembered of a batch that waits for its acknowledgement.
    pub fn unacked_for(&self, neighbor: &NodeID, messages: &Vec<u32>) -> (ack: Option<AckContext>)
        ensures
            match ack {
                Some(ack) => {
                    let at = self@.unacked_index(neighbor@, messages@);
                    at < self@.unacked.len() && self@.unacked[at].ack == ack
                },
                None => self@.unacked_index(neighbor@, messages@) == self@.unacked.len(),
            },
    {
        let at = self.unacked_index(neighbor, messages);
        if at < self.neighbor_messages_not_acked.len() {
            Some(self.neighbor_messages_not_acked[at].ack)
        } else {
            None
        }
    }

    /// How many batches wait for their acknowledgement.
    pub fn unacked_len(&self) -> (count: usize)
        ensures
            count == self@.unacked.len(),
    {
        self.neighbor_messages_not_acked.len()
    }
}

impl App for Broadcast {
    type Payload = BroadcastPayload;

    open spec fn wf(&self) -> bool {
        Broadcast::wf(self)
    }

    /// The node must be one of the cluster: its place in the list decides
    /// who its neighbors are.
    open spec fn can_start(node_id: Seq<char>, node_ids: Seq<Seq<char>>) -> bool {
        node_ids.contains(node_id)
    }

    open spec fn started(
        node_id: Seq<char>,
        node_ids: Seq<Seq<char>>,
        now: u64,
        app: Self,
    ) -> bool {
        app@ == BroadcastView::initial(node_id, node_ids)
    }

    open spec fn handled(
        pre: Self,
        writer: WriterView,
        message: MessageView<BroadcastPayloadView>,
        now: u64,
        post: Self,
        after: WriterView,
        result: Result<(), Error>,
    ) -> bool {
        (Outcome { app: post@, writer: after, result }) == pre@.handle(writer, message, now)
    }

    open spec fn ticked(
        pre: Self,
        writer: WriterView,
        now: u64,
        post: Self,
        after: WriterView,
        result: Result<(), Error>,
    ) -> bool {
        (Outcome { app: post@, writer: after, result }) == pre@.tick(writer, now)
    }

    /// The broadcast calls no service: an answer changes nothing.
    open spec fn received(
        pre: Self,
        writer: WriterView,
        response: MessageView<JsonView>,
        now: u64,
        post: Self,
        after: WriterView,
        result: Result<(), Error>,
    ) -> bool {
        post@ == pre@ && after == writer && result is Ok
    }

    fn check_start(node_id: &NodeID, node_ids: &Vec<NodeID>) -> (ok: bool) {
        let mut i: usize = 0;
        while i < node_ids.len()
            invariant
                i <= node_ids.len(),
                forall|j: int| 0 <= j < i ==> ids_view(node_ids@)[j] != node_id@,
            decreases node_ids.len() - i,
        {
            if node_ids[i] == *node_id {
                proof {
                    assert(ids_view(node_ids@)[i as int] == node_id@);
                }
                return true;
            }
            i = i + 1;
        }
        false
    }

    fn new(node_id: NodeID, node_ids: Vec<NodeID>, now: u64) -> (app: Self) {
        Broadcast::new(node_id, node_ids)
    }

    fn handle(
        &mut self,
        message: Message<BroadcastPayload>,
        writer: &mut MessageWriter,
        now: u64,
    ) -> (result: Result<(), Error>) {
        Broadcast::handle(self, message, writer, now)
    }

    fn tick(&mut self, writer: &mut MessageWriter, now: u64) -> (result: Result<(), Error>) {
        Broadcast::tick(self, writer, now)
    }

    fn receive(
        &mut self,
        response: Message<Json>,
        writer: &mut MessageWriter,
        now: u64,
    ) -> (result: Result<(), Error>) {
        Ok(())
    }
}

} // verus!
