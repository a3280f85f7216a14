//! A cluster of broadcast nodes under a harness that loses nothing.
//!
//! Here the nodes stand side by side, and what a node sends is handed to
//! the node it is for. A step of the cluster is a step of one of its nodes:
//! a client hands a value to a node, or a node ticks and its ripe batches
//! are handed over. The cluster keeps of each node what it has seen and what
//! waits at it; it leaves out the batches that wait for their
//! acknowledgement, since nothing is lost and a batch that comes twice
//! changes nothing.
//!
//! This is the place of the one law that speaks of all nodes at once,
//! [`lemma_cluster_converges`]: every value that a client hands to a node
//! reaches every node. It rests on what holds of the cluster between any
//! two steps, [`ClusterView::sound`]: what a node has seen has reached every
//! node of the chunk that the node hands values to, so that with every
//! round of ticks a value goes one chunk further round the ring.
use crate::broadcast::laws::waits_for;
use crate::broadcast::model::{BatchView, BroadcastView, Outcome, COALESCING_WINDOW};
use crate::broadcast::payload::BroadcastPayloadView;
use crate::broadcast::queues::{
    batch_for, batches_differ, begun_by, follows, lemma_follows_on, lemma_handle_messages_follows,
    lemma_handle_messages_times, lemma_waits_in_batch, lemma_without_ripe, ripe_for, ripe_in,
};
use crate::broadcast::topology::{
    chunk_count, chunk_of, chunk_start, is_leader, lemma_chunk_bounds, lemma_chunk_of,
    lemma_chunk_start_is_in_chunk, lemma_neighbor, lemma_neighbor_place, lemma_place_holds,
    lemma_place_of, lemma_target_chunk, neighbors_of, place_of, target_chunk,
};
use crate::protocol::{is_client_id, MessageView};
use crate::writer::WriterView;
use vstd::prelude::*;

verus! {

/// The nodes of a cluster, side by side in the order of the list of their
/// identifiers.
pub struct ClusterView {
    pub node_ids: Seq<Seq<char>>,
    pub apps: Seq<BroadcastView>,
}

/// What one step of a run does to a cluster.
pub enum Step {
    /// A client hands a value to the node at a place.
    Request { node: int, src: Seq<char>, value: u32, now: u64 },
    /// The node at a place ticks, and what it sends is handed over.
    Tick { node: int, now: u64 },
}

impl ClusterView {
    /// The cluster when every node was made and has seen nothing.
    pub open spec fn started(node_ids: Seq<Seq<char>>) -> ClusterView {
        ClusterView {
            node_ids,
            apps: Seq::new(
                node_ids.len(),
                |i: int| BroadcastView::initial(node_ids[i], node_ids),
            ),
        }
    }

    /// The cluster after a value came from `src` to the node at a place.
    pub open spec fn request(self, node: int, src: Seq<char>, value: u32, now: u64) -> ClusterView {
        self.deliver(src, node, seq![value], now)
    }

    /// The cluster after a batch from `src` was handed to the node at the
    /// place `to`. A batch for a node that the cluster does not have is
    /// lost.
    pub open spec fn deliver(self, src: Seq<char>, to: int, messages: Seq<u32>, now: u64) -> ClusterView {
        if 0 <= to < self.apps.len() {
            ClusterView {
                apps: self.apps.update(
                    to,
                    self.apps[to].handle_messages(src, messages, messages.len(), now),
                ),
                ..self
            }
        } else {
            self
        }
    }

    /// The cluster after the ripe ones among the first `count` of the
    /// batches of a node were handed to the nodes that they are for.
    pub open spec fn hand_out(
        self,
        src: Seq<char>,
        batches: Seq<BatchView>,
        count: nat,
        now: u64,
    ) -> ClusterView
        decreases count,
    {
        if count == 0 {
            self
        } else {
            let before = self.hand_out(src, batches, (count - 1) as nat, now);
            let batch = batches[count - 1];
            if BroadcastView::ripe(batch, now) {
                before.deliver(src, place_of(batch.neighbor, self.node_ids), batch.messages, now)
            } else {
                before
            }
        }
    }

    /// The cluster after the node at a place ticked at `now`: its ripe
    /// batches wait no longer, and each was handed to the node it is for.
    pub open spec fn tick(self, node: int, now: u64) -> ClusterView {
        if 0 <= node < self.apps.len() && node < self.node_ids.len() {
            let kept = ClusterView {
                apps: self.apps.update(node, self.apps[node].without_ripe(now)),
                ..self
            };
            kept.hand_out(
                self.node_ids[node],
                self.apps[node].batched,
                self.apps[node].batched.len(),
                now,
            )
        } else {
            self
        }
    }

    /// The cluster after a step.
    pub open spec fn step(self, step: Step) -> ClusterView {
        match step {
            Step::Request { node, src, value, now } => self.request(node, src, value, now),
            Step::Tick { node, now } => self.tick(node, now),
        }
    }

    /// The cluster after the first `count` steps of a run.
    pub open spec fn run(self, steps: Seq<Step>, count: nat) -> ClusterView
        decreases count,
    {
        if count == 0 {
            self
        } else {
            self.run(steps, (count - 1) as nat).step(steps[count - 1])
        }
    }

    /// The cluster after the first `count` nodes ticked at `now`, one
    /// after the other.
    pub open spec fn round(self, count: nat, now: u64) -> ClusterView
        decreases count,
    {
        if count == 0 {
            self
        } else {
            self.round((count - 1) as nat, now).tick(count - 1, now)
        }
    }

    /// The cluster after the first `count` of a list of rounds, in each of
    /// which every node ticked once.
    pub open spec fn rounds(self, times: Seq<u64>, count: nat) -> ClusterView
        decreases count,
    {
        if count == 0 {
            self
        } else {
            let before = self.rounds(times, (count - 1) as nat);
            before.round(before.apps.len(), times[count - 1])
        }
    }

    /// Whether the node at a place has the neighbors that the list of the
    /// cluster gives it, and at most one waiting batch for each.
    pub open spec fn settled(self, place: int) -> bool {
        &&& self.apps[place].neighbors == neighbors_of(self.node_ids[place], self.node_ids)
        &&& self.apps[place].always_broadcast == is_leader(self.node_ids[place], self.node_ids)
        &&& batches_differ(self.apps[place])
    }

    /// Whether the cluster has a node for each identifier of its list, no
    /// identifier twice, and every node is settled.
    pub open spec fn framed(self) -> bool {
        &&& self.node_ids.len() > 0
        &&& self.node_ids.no_duplicates()
        &&& self.apps.len() == self.node_ids.len()
        &&& forall|place: int| 0 <= place < self.apps.len() ==> #[trigger] self.settled(place)
    }
}

/// Whether a step fits a cluster of `n` nodes and a time: it names a node
/// of the cluster, a request comes from a client, and the step is taken at
/// that time or before.
pub open spec fn fits(step: Step, n: int, by: u64) -> bool {
    match step {
        Step::Request { node, src, value, now } => 0 <= node < n && is_client_id(src) && now <= by,
        Step::Tick { node, now } => 0 <= node < n && now <= by,
    }
}

/// Whether a step hands a value to a node.
pub open spec fn asks(step: Step, value: u32) -> bool {
    step matches Step::Request { value: handed, .. } && handed == value
}

/// Whether one of the first `count` steps of a run hands a value to a
/// node.
pub open spec fn asked(steps: Seq<Step>, count: nat, value: u32) -> bool {
    exists|i: int| 0 <= i < count && i < steps.len() && asks(#[trigger] steps[i], value)
}

/// The time of the last step before the round `count` of a list of
/// rounds that begins after `since`.
pub open spec fn time_before(times: Seq<u64>, since: u64, count: nat) -> u64 {
    if count == 0 {
        since
    } else {
        times[count - 1]
    }
}

/// Whether each round of a list comes a coalescing window or more after
/// the one before it, and the first one as long after `since`.
pub open spec fn spaced(times: Seq<u64>, since: u64) -> bool {
    forall|m: int|
        0 <= m < times.len() ==> #[trigger] times[m] >= time_before(times, since, m as nat)
            + COALESCING_WINDOW
}

/// A node as the cluster holds it: the batches that wait for their
/// acknowledgement are left out, since every batch is handed over when it is
/// sent, and a batch that is sent again changes nothing where it comes.
pub open spec fn acknowledged(app: BroadcastView) -> BroadcastView {
    BroadcastView { unacked: Seq::empty(), ..app }
}

/// What a node makes of values that are put aside does not depend on the
/// acknowledgements that it waits for.
pub proof fn lemma_acknowledged_enqueue(app: BroadcastView, count: nat, message: u32, now: u64)
    ensures
        acknowledged(app.enqueue(count, message, now)) == acknowledged(app).enqueue(
            count,
            message,
            now,
        ),
    decreases count,
{
    if count > 0 {
        lemma_acknowledged_enqueue(app, (count - 1) as nat, message, now);
    }
}

/// What a node makes of a batch does not depend on the acknowledgements
/// that it waits for.
pub proof fn lemma_acknowledged_handle_messages(
    app: BroadcastView,
    src: Seq<char>,
    messages: Seq<u32>,
    count: nat,
    now: u64,
)
    ensures
        acknowledged(app.handle_messages(src, messages, count, now)) == acknowledged(
            app,
        ).handle_messages(src, messages, count, now),
    decreases count,
{
    if count > 0 {
        let before = app.handle_messages(src, messages, (count - 1) as nat, now);
        let last = messages[count - 1];
        lemma_acknowledged_handle_messages(app, src, messages, (count - 1) as nat, now);
        let logged = BroadcastView { messages_seen: before.messages_seen.push(last), ..before };
        lemma_acknowledged_enqueue(logged, before.neighbors.len(), last, now);
        assert(acknowledged(logged) == (BroadcastView {
            messages_seen: acknowledged(before).messages_seen.push(last),
            ..acknowledged(before)
        }));
    }
}

/// The steps of the cluster are the steps of its nodes: as the cluster
/// holds it, a node that has handled an envelope is the node of the
/// cluster after the values of the envelope were handed to it, and is
/// unchanged by an envelope that brings no values.
pub proof fn lemma_node_handles(
    app: BroadcastView,
    writer: WriterView,
    message: MessageView<BroadcastPayloadView>,
    now: u64,
)
    ensures
        acknowledged(app.handle(writer, message, now).app) == match message.body.payload {
            BroadcastPayloadView::Broadcast { message: value } => acknowledged(
                app,
            ).handle_messages(message.src, seq![value], 1, now),
            BroadcastPayloadView::BroadcastBatched { messages } => acknowledged(
                app,
            ).handle_messages(message.src, messages, messages.len(), now),
            _ => acknowledged(app),
        },
{
    match message.body.payload {
        BroadcastPayloadView::Broadcast { message: value } => {
            let batch = seq![value];
            assert(batch[0] == value);
            reveal_with_fuel(BroadcastView::handle_messages, 2);
            assert(app.handle_message(message.src, value, now) == app.handle_messages(
                message.src,
                batch,
                1,
                now,
            ));
            lemma_acknowledged_handle_messages(app, message.src, batch, 1, now);
        },
        BroadcastPayloadView::BroadcastBatched { messages } => {
            lemma_acknowledged_handle_messages(app, message.src, messages, messages.len(), now);
        },
        _ => {},
    }
}

/// As the cluster holds it, a node that has ticked is the node without
/// its ripe batches.
pub proof fn lemma_node_ticks(app: BroadcastView, writer: WriterView, now: u64)
    requires
        app.wf(),
        app.tick(writer, now).result is Ok,
    ensures
        acknowledged(app.tick(writer, now).app) == acknowledged(app).without_ripe(now),
{
    let flushed = app.flush(writer, app.batched.len(), now);
    crate::broadcast::laws::lemma_flush(app, writer, app.batched.len(), now);
    let pruned = Outcome { app: flushed.app.without_ripe(now), ..flushed };
    crate::broadcast::laws::lemma_without_ripe_wf(flushed.app, now);
    crate::broadcast::laws::lemma_resend(
        pruned,
        pruned.app.unacked,
        pruned.app.unacked.len(),
        now,
    );
    crate::broadcast::laws::lemma_resend_keeps_neighbors(
        pruned,
        pruned.app.unacked,
        pruned.app.unacked.len(),
        now,
    );
}

impl ClusterView {
    /// Whether the node at a place has seen a value.
    pub open spec fn has(self, place: int, value: u32) -> bool {
        self.apps[place].messages_seen.contains(value)
    }

    /// Whether a value waits at some node for the node at a place.
    pub open spec fn owed(self, place: int, value: u32) -> bool {
        exists|from: int|
            0 <= from < self.apps.len() && waits_for(
                #[trigger] self.apps[from],
                self.node_ids[place],
                value,
            )
    }

    /// Whether the node at a place has seen a value or is owed it.
    pub open spec fn reached(self, place: int, value: u32) -> bool {
        self.has(place, value) || self.owed(place, value)
    }

    /// Whether a value has reached every node of a chunk.
    pub open spec fn covered(self, chunk: int, value: u32) -> bool {
        forall|place: int|
            0 <= place < self.apps.len() && chunk_of(self.apps.len() as int, place) == chunk
                ==> #[trigger] self.reached(place, value)
    }

    /// What holds of a cluster between the steps of every run: the nodes
    /// are settled; batches wait for neighbors only; what waits at a node,
    /// the node has seen; and what a node has seen has reached every node
    /// of the chunk that the node hands values to.
    pub open spec fn sound(self) -> bool {
        &&& self.framed()
        &&& forall|place: int, neighbor: Seq<char>|
            0 <= place < self.apps.len() && #[trigger] batch_for(self.apps[place], neighbor)
                ==> self.apps[place].neighbors.contains(neighbor)
        &&& forall|place: int, neighbor: Seq<char>, value: u32|
            0 <= place < self.apps.len() && #[trigger] waits_for(
                self.apps[place],
                neighbor,
                value,
            ) ==> self.has(place, value)
        &&& forall|place: int, value: u32|
            0 <= place < self.apps.len() && #[trigger] self.has(place, value) ==> self.covered(
                target_chunk(self.node_ids[place], self.node_ids),
                value,
            )
    }

    /// Whether every waiting batch of the cluster was begun at `by` or
    /// before.
    pub open spec fn begun(self, by: u64) -> bool {
        forall|place: int|
            0 <= place < self.apps.len() ==> begun_by(#[trigger] self.apps[place], by)
    }

    /// Whether some node of the cluster has seen a value.
    pub open spec fn known(self, value: u32) -> bool {
        exists|place: int| 0 <= place < self.apps.len() && #[trigger] self.has(place, value)
    }

    /// Whether a value waits for the node at a place in a batch that is
    /// ripe at `now`, at a node that stands at `from` or after it.
    pub open spec fn due(self, place: int, value: u32, now: u64, from: int) -> bool {
        exists|node: int|
            0 <= from <= node < self.apps.len() && ripe_for(
                #[trigger] self.apps[node],
                self.node_ids[place],
                value,
                now,
            )
    }

    /// Whether every node of a chunk has seen a value.
    pub open spec fn done(self, chunk: int, value: u32) -> bool {
        forall|place: int|
            0 <= place < self.apps.len() && chunk_of(self.apps.len() as int, place) == chunk
                ==> #[trigger] self.has(place, value)
    }
}

/// The chunk that lies `hops` after a chunk on the ring.
pub open spec fn ring(n: int, chunk: int, hops: int) -> int {
    if chunk + hops < chunk_count(n) {
        chunk + hops
    } else {
        chunk + hops - chunk_count(n)
    }
}

/// Whether every one of the first `count` batches of a list is for
/// another node than `node_id`.
pub open spec fn for_others(batches: Seq<BatchView>, count: nat, node_id: Seq<char>) -> bool {
    forall|i: int| 0 <= i < count && i < batches.len() ==> (#[trigger] batches[i]).neighbor != node_id
}

/// A cluster after a batch was handed to a node: that node has handled
/// it, and no other node has changed.
pub proof fn lemma_deliver(
    c: ClusterView,
    src: Seq<char>,
    to: int,
    messages: Seq<u32>,
    now: u64,
    place: int,
    other: Seq<char>,
    value: u32,
    at: u64,
    by: u64,
)
    requires
        c.framed(),
        0 <= place < c.apps.len(),
    ensures
        c.deliver(src, to, messages, now).framed(),
        c.deliver(src, to, messages, now).node_ids == c.node_ids,
        place != to ==> c.deliver(src, to, messages, now).apps[place] == c.apps[place],
        follows(c.apps[place], c.deliver(src, to, messages, now).apps[place], other, value, at),
        c.deliver(src, to, messages, now).apps[place].messages_seen.contains(value) <==> (
        c.apps[place].messages_seen.contains(value) || (place == to && messages.contains(value))),
        place == to && is_client_id(src) && !c.apps[place].messages_seen.contains(value)
            && messages.contains(value) && c.apps[place].neighbors.contains(other) ==> waits_for(
            c.deliver(src, to, messages, now).apps[place],
            other,
            value,
        ),
        begun_by(c.apps[place], by) && now <= by ==> begun_by(
            c.deliver(src, to, messages, now).apps[place],
            by,
        ),
{
    let after = c.deliver(src, to, messages, now);
    if 0 <= to < c.apps.len() {
        assert(c.settled(to));
        lemma_handle_messages_follows(c.apps[to], src, messages, now, other, value, at);
        lemma_handle_messages_times(
            c.apps[to],
            src,
            messages,
            messages.len(),
            now,
            other,
            value,
            at,
            by,
        );
        assert forall|p: int| 0 <= p < after.apps.len() implies #[trigger] after.settled(p) by {
            assert(c.settled(p));
        }
    }
}

/// A cluster after batches were handed out: every node follows the node
/// it was, and has seen what it had seen and what the ripe batches for it
/// held.
pub proof fn lemma_hand_out(
    c: ClusterView,
    src: Seq<char>,
    batches: Seq<BatchView>,
    count: nat,
    now: u64,
    place: int,
    other: Seq<char>,
    value: u32,
    at: u64,
    by: u64,
)
    requires
        c.framed(),
        count <= batches.len(),
        0 <= place < c.apps.len(),
    ensures
        c.hand_out(src, batches, count, now).framed(),
        c.hand_out(src, batches, count, now).node_ids == c.node_ids,
        follows(c.apps[place], c.hand_out(src, batches, count, now).apps[place], other, value, at),
        c.hand_out(src, batches, count, now).apps[place].messages_seen.contains(value) <==> (
        c.apps[place].messages_seen.contains(value) || ripe_in(
            batches,
            count,
            c.node_ids[place],
            value,
            now,
        )),
        for_others(batches, count, c.node_ids[place]) ==> c.hand_out(
            src,
            batches,
            count,
            now,
        ).apps[place] == c.apps[place],
        begun_by(c.apps[place], by) && now <= by ==> begun_by(
            c.hand_out(src, batches, count, now).apps[place],
            by,
        ),
    decreases count,
{
    if count > 0 {
        let before = c.hand_out(src, batches, (count - 1) as nat, now);
        let after = c.hand_out(src, batches, count, now);
        let batch = batches[count - 1];
        let to = place_of(batch.neighbor, c.node_ids);
        let own = c.node_ids[place];
        lemma_hand_out(c, src, batches, (count - 1) as nat, now, place, other, value, at, by);
        lemma_place_of(c.node_ids, place);
        lemma_place_holds(batch.neighbor, c.node_ids);
        if BroadcastView::ripe(batch, now) {
            lemma_deliver(before, src, to, batch.messages, now, place, other, value, at, by);
            lemma_follows_on(
                c.apps[place],
                before.apps[place],
                after.apps[place],
                other,
                value,
                at,
            );
        }
        if ripe_in(batches, (count - 1) as nat, own, value, now) {
            let i = choose|i: int|
                0 <= i < count - 1 && i < batches.len() && (#[trigger] batches[i]).neighbor == own
                    && batches[i].messages.contains(value) && BroadcastView::ripe(
                    batches[i],
                    now,
                );
            assert(batches[i].neighbor == own);
            assert(ripe_in(batches, count, own, value, now));
        }
        if batch.neighbor == own && batch.messages.contains(value) && BroadcastView::ripe(
            batch,
            now,
        ) {
            assert(batches[count - 1].neighbor == own);
            assert(ripe_in(batches, count, own, value, now));
        }
        if ripe_in(batches, count, own, value, now) {
            let i = choose|i: int|
                0 <= i < count && i < batches.len() && (#[trigger] batches[i]).neighbor == own
                    && batches[i].messages.contains(value) && BroadcastView::ripe(
                    batches[i],
                    now,
                );
            if i < count - 1 {
                assert(ripe_in(batches, (count - 1) as nat, own, value, now));
            }
        }
        if for_others(batches, count, own) {
            assert(for_others(batches, (count - 1) as nat, own));
            assert(batches[count - 1].neighbor != own);
        }
    }
}

/// A cluster after a node ticked: that node is without its ripe batches,
/// every other node follows the node it was, and every node has seen what
/// it had seen and what waited for it in a ripe batch of the node that
/// ticked.
pub proof fn lemma_tick(
    c: ClusterView,
    node: int,
    now: u64,
    place: int,
    other: Seq<char>,
    value: u32,
    at: u64,
    by: u64,
)
    requires
        c.sound(),
        0 <= node < c.apps.len(),
        0 <= place < c.apps.len(),
    ensures
        c.tick(node, now).framed(),
        c.tick(node, now).node_ids == c.node_ids,
        c.tick(node, now).apps[node] == c.apps[node].without_ripe(now),
        place != node ==> follows(c.apps[place], c.tick(node, now).apps[place], other, value, at),
        c.tick(node, now).has(place, value) <==> (c.has(place, value) || ripe_for(
            c.apps[node],
            c.node_ids[place],
            value,
            now,
        )),
        begun_by(c.apps[place], by) && now <= by ==> begun_by(c.tick(node, now).apps[place], by),
{
    let batches = c.apps[node].batched;
    let kept = ClusterView {
        apps: c.apps.update(node, c.apps[node].without_ripe(now)),
        ..c
    };
    assert(c.settled(node));
    lemma_without_ripe(c.apps[node], now, other, value, by);
    assert forall|p: int| 0 <= p < kept.apps.len() implies #[trigger] kept.settled(p) by {
        assert(c.settled(p));
    }
    assert(for_others(batches, batches.len(), c.node_ids[node])) by {
        assert forall|i: int| 0 <= i < batches.len() implies (#[trigger] batches[i]).neighbor
            != c.node_ids[node] by {
            assert(batch_for(c.apps[node], batches[i].neighbor));
            if batches[i].neighbor == c.node_ids[node] {
                lemma_neighbor_place(c.node_ids, node, c.node_ids[node]);
                lemma_place_of(c.node_ids, node);
            }
        }
    }
    lemma_hand_out(kept, c.node_ids[node], batches, batches.len(), now, node, other, value, at, by);
    lemma_hand_out(kept, c.node_ids[node], batches, batches.len(), now, place, other, value, at, by);
    if ripe_for(c.apps[node], c.node_ids[node], value, now) {
        lemma_waits_in_batch(c.apps[node], c.node_ids[node], value, now);
        assert(batch_for(c.apps[node], c.node_ids[node]));
        lemma_neighbor_place(c.node_ids, node, c.node_ids[node]);
        lemma_place_of(c.node_ids, node);
    }
}

/// A value that has reached a node has reached it after a tick too.
pub proof fn lemma_tick_keeps_reached(c: ClusterView, node: int, now: u64, place: int, value: u32)
    requires
        c.sound(),
        0 <= node < c.apps.len(),
        0 <= place < c.apps.len(),
        c.reached(place, value),
    ensures
        c.tick(node, now).reached(place, value),
{
    let after = c.tick(node, now);
    let own = c.node_ids[place];
    lemma_tick(c, node, now, place, own, value, now, now);
    if !c.has(place, value) {
        let from = choose|from: int|
            0 <= from < c.apps.len() && waits_for(#[trigger] c.apps[from], own, value);
        lemma_tick(c, node, now, from, own, value, now, now);
        if from == node {
            assert(c.settled(node));
            lemma_without_ripe(c.apps[node], now, own, value, now);
        }
        if !after.has(place, value) {
            assert(waits_for(after.apps[from], own, value));
        }
    }
}

/// A tick leaves a sound cluster sound.
pub proof fn lemma_tick_sound(c: ClusterView, node: int, now: u64)
    requires
        c.sound(),
    ensures
        c.tick(node, now).sound(),
{
    let after = c.tick(node, now);
    let ids = c.node_ids;
    let n = ids.len() as int;
    if 0 <= node < c.apps.len() {
        lemma_tick(c, node, now, node, ids[node], 0, now, now);
        assert(c.settled(node));
        assert forall|place: int, neighbor: Seq<char>|
            0 <= place < after.apps.len() && #[trigger] batch_for(
                after.apps[place],
                neighbor,
            ) implies after.apps[place].neighbors.contains(neighbor) by {
            lemma_tick(c, node, now, place, neighbor, 0, now, now);
            lemma_without_ripe(c.apps[node], now, neighbor, 0, now);
            assert(c.settled(place));
        }
        assert forall|place: int, neighbor: Seq<char>, value: u32|
            0 <= place < after.apps.len() && #[trigger] waits_for(
                after.apps[place],
                neighbor,
                value,
            ) implies after.has(place, value) by {
            lemma_tick(c, node, now, place, neighbor, value, now, now);
            lemma_without_ripe(c.apps[node], now, neighbor, value, now);
            if waits_for(c.apps[place], neighbor, value) {
                assert(c.has(place, value));
            }
        }
        assert forall|place: int, value: u32|
            0 <= place < after.apps.len() && #[trigger] after.has(place, value) implies after.covered(
            target_chunk(after.node_ids[place], after.node_ids),
            value,
        ) by {
            let k = target_chunk(ids[place], ids);
            lemma_tick(c, node, now, place, ids[place], value, now, now);
            assert forall|to: int|
                0 <= to < after.apps.len() && chunk_of(after.apps.len() as int, to)
                    == k implies #[trigger] after.reached(to, value) by {
                if c.has(place, value) {
                    assert(c.covered(k, value));
                    assert(c.reached(to, value));
                    lemma_tick_keeps_reached(c, node, now, to, value);
                } else {
                    lemma_waits_in_batch(c.apps[node], ids[place], value, now);
                    assert(batch_for(c.apps[node], ids[place]));
                    assert(c.has(node, value));
                    if to == place {
                    } else if is_leader(ids[place], ids) {
                        assert(c.settled(place));
                        lemma_neighbor(ids, place, to);
                        lemma_tick(c, node, now, place, ids[to], value, now, now);
                        assert(waits_for(after.apps[place], ids[to], value));
                    } else {
                        lemma_neighbor_place(ids, node, ids[place]);
                        lemma_place_of(ids, place);
                        lemma_target_chunk(ids, place);
                        assert(c.covered(target_chunk(ids[node], ids), value));
                        assert(c.reached(to, value));
                        lemma_tick_keeps_reached(c, node, now, to, value);
                    }
                }
            }
        }
    }
}

/// A cluster after a client handed a value to a node: that node has seen
/// the value, no node has forgotten anything, and the cluster is sound as it
/// was.
pub proof fn lemma_request(
    c: ClusterView,
    node: int,
    src: Seq<char>,
    message: u32,
    now: u64,
    place: int,
    value: u32,
    by: u64,
)
    requires
        c.sound(),
        is_client_id(src),
        0 <= node < c.apps.len(),
        0 <= place < c.apps.len(),
    ensures
        c.request(node, src, message, now).sound(),
        c.request(node, src, message, now).node_ids == c.node_ids,
        c.request(node, src, message, now).has(place, value) <==> (c.has(place, value) || (place
            == node && value == message)),
        begun_by(c.apps[place], by) && now <= by ==> begun_by(
            c.request(node, src, message, now).apps[place],
            by,
        ),
{
    let after = c.request(node, src, message, now);
    let ids = c.node_ids;
    let batch = seq![message];
    assert(batch[0] == message);
    lemma_deliver(c, src, node, batch, now, place, ids[place], value, now, by);
    assert forall|at: int, neighbor: Seq<char>|
        0 <= at < after.apps.len() && #[trigger] batch_for(
            after.apps[at],
            neighbor,
        ) implies after.apps[at].neighbors.contains(neighbor) by {
        lemma_deliver(c, src, node, batch, now, at, neighbor, 0, now, by);
    }
    assert forall|at: int, neighbor: Seq<char>, held: u32|
        0 <= at < after.apps.len() && #[trigger] waits_for(
            after.apps[at],
            neighbor,
            held,
        ) implies after.has(at, held) by {
        lemma_deliver(c, src, node, batch, now, at, neighbor, held, now, by);
        if waits_for(c.apps[at], neighbor, held) {
            assert(c.has(at, held));
        }
    }
    assert forall|at: int, held: u32|
        0 <= at < after.apps.len() && #[trigger] after.has(at, held) implies after.covered(
        target_chunk(after.node_ids[at], after.node_ids),
        held,
    ) by {
        let k = target_chunk(ids[at], ids);
        lemma_deliver(c, src, node, batch, now, at, ids[at], held, now, by);
        assert forall|to: int|
            0 <= to < after.apps.len() && chunk_of(after.apps.len() as int, to)
                == k implies #[trigger] after.reached(to, held) by {
            lemma_deliver(c, src, node, batch, now, to, ids[to], held, now, by);
            if c.has(at, held) {
                assert(c.covered(k, held));
                assert(c.reached(to, held));
                if !c.has(to, held) {
                    let from = choose|from: int|
                        0 <= from < c.apps.len() && waits_for(
                            #[trigger] c.apps[from],
                            ids[to],
                            held,
                        );
                    lemma_deliver(c, src, node, batch, now, from, ids[to], held, now, by);
                    assert(waits_for(after.apps[from], ids[to], held));
                }
            } else if to != at {
                assert(c.settled(at));
                lemma_neighbor(ids, at, to);
                lemma_deliver(c, src, node, batch, now, at, ids[to], held, now, by);
                assert(waits_for(after.apps[at], ids[to], held));
            }
        }
    }
}

/// A cluster that was started is sound, and no node of it has seen
/// anything.
pub proof fn lemma_started(node_ids: Seq<Seq<char>>, by: u64)
    requires
        node_ids.len() > 0,
        node_ids.no_duplicates(),
    ensures
        ClusterView::started(node_ids).sound(),
        ClusterView::started(node_ids).begun(by),
        forall|place: int, value: u32|
            0 <= place < node_ids.len() ==> !#[trigger] ClusterView::started(node_ids).has(
                place,
                value,
            ),
{
    let c = ClusterView::started(node_ids);
    assert forall|place: int| 0 <= place < c.apps.len() implies #[trigger] c.settled(place) by {}
    assert forall|place: int, value: u32| 0 <= place < node_ids.len() implies !#[trigger] c.has(
        place,
        value,
    ) by {
        assert(c.apps[place].messages_seen.len() == 0);
    }
}

/// Every run leaves the cluster sound, and the nodes have seen the values
/// that clients have handed to nodes, and no others.
pub proof fn lemma_run(
    node_ids: Seq<Seq<char>>,
    steps: Seq<Step>,
    count: nat,
    by: u64,
    place: int,
    value: u32,
)
    requires
        node_ids.len() > 0,
        node_ids.no_duplicates(),
        count <= steps.len(),
        forall|i: int| 0 <= i < steps.len() ==> fits(#[trigger] steps[i], node_ids.len() as int, by),
        0 <= place < node_ids.len(),
    ensures
        ClusterView::started(node_ids).run(steps, count).sound(),
        ClusterView::started(node_ids).run(steps, count).node_ids == node_ids,
        begun_by(ClusterView::started(node_ids).run(steps, count).apps[place], by),
        ClusterView::started(node_ids).run(steps, count).has(place, value) ==> asked(
            steps,
            count,
            value,
        ),
        asked(steps, count, value) ==> ClusterView::started(node_ids).run(steps, count).known(
            value,
        ),
    decreases count,
{
    let start = ClusterView::started(node_ids);
    lemma_started(node_ids, by);
    if count > 0 {
        let before = start.run(steps, (count - 1) as nat);
        let after = start.run(steps, count);
        lemma_run(node_ids, steps, (count - 1) as nat, by, place, value);
        assert(fits(steps[count - 1], node_ids.len() as int, by));
        if asked(steps, (count - 1) as nat, value) {
            let i = choose|i: int|
                0 <= i < count - 1 && i < steps.len() && asks(#[trigger] steps[i], value);
            assert(asks(steps[i], value));
            assert(asked(steps, count, value));
        }
        if asked(steps, count, value) && !asks(steps[count - 1], value) {
            let i = choose|i: int|
                0 <= i < count && i < steps.len() && asks(#[trigger] steps[i], value);
            assert(asks(steps[i], value));
            assert(asked(steps, (count - 1) as nat, value));
        }
        if asks(steps[count - 1], value) {
            assert(asked(steps, count, value));
        }
        match steps[count - 1] {
            Step::Request { node, src, value: message, now } => {
                lemma_request(before, node, src, message, now, place, value, by);
                lemma_request(before, node, src, message, now, node, value, by);
                if before.known(value) {
                    let seen = choose|seen: int|
                        0 <= seen < before.apps.len() && #[trigger] before.has(seen, value);
                    lemma_request(before, node, src, message, now, seen, value, by);
                    assert(after.has(seen, value));
                }
                if message == value {
                    assert(after.has(node, value));
                }
            },
            Step::Tick { node, now } => {
                lemma_tick_sound(before, node, now);
                lemma_tick(before, node, now, place, node_ids[place], value, now, by);
                lemma_run(node_ids, steps, (count - 1) as nat, by, node, value);
                lemma_waits_in_batch(before.apps[node], node_ids[place], value, now);
                if ripe_for(before.apps[node], node_ids[place], value, now) {
                    assert(before.has(node, value));
                }
                if before.known(value) {
                    let seen = choose|seen: int|
                        0 <= seen < before.apps.len() && #[trigger] before.has(seen, value);
                    lemma_tick(before, node, now, seen, node_ids[seen], value, now, by);
                    assert(after.has(seen, value));
                }
            },
        }
    } else {
        assert(start.apps[place].batched.len() == 0);
    }
}

/// A cluster after the first `count` nodes ticked: it is sound, no node
/// has forgotten anything, and what a node has seen, some node had seen
/// before. A value that was due to a node has been seen by it, or is still
/// due at a node that has not ticked yet.
pub proof fn lemma_round(c: ClusterView, count: nat, now: u64, by: u64, place: int, value: u32)
    requires
        c.sound(),
        count <= c.apps.len(),
        0 <= place < c.apps.len(),
    ensures
        c.round(count, now).sound(),
        c.round(count, now).node_ids == c.node_ids,
        c.round(count, now).apps.len() == c.apps.len(),
        c.has(place, value) ==> c.round(count, now).has(place, value),
        c.has(place, value) || c.due(place, value, now, 0) ==> c.round(count, now).has(
            place,
            value,
        ) || c.round(count, now).due(place, value, now, count as int),
        begun_by(c.apps[place], by) && now <= by ==> begun_by(
            c.round(count, now).apps[place],
            by,
        ),
        c.round(count, now).has(place, value) ==> c.known(value),
    decreases count,
{
    if count > 0 {
        let before = c.round((count - 1) as nat, now);
        let after = c.round(count, now);
        let node = count - 1;
        let own = c.node_ids[place];
        lemma_round(c, (count - 1) as nat, now, by, place, value);
        lemma_round(c, (count - 1) as nat, now, by, node, value);
        lemma_tick_sound(before, node, now);
        lemma_tick(before, node, now, place, own, value, now, by);
        if !before.has(place, value) && before.due(place, value, now, count - 1) {
            let from = choose|from: int|
                0 <= count - 1 <= from < before.apps.len() && ripe_for(
                    #[trigger] before.apps[from],
                    own,
                    value,
                    now,
                );
            if from != node {
                lemma_tick(before, node, now, from, own, value, now, by);
                assert(ripe_for(after.apps[from], own, value, now));
            }
        }
        if ripe_for(before.apps[node], own, value, now) {
            lemma_waits_in_batch(before.apps[node], own, value, now);
            assert(before.has(node, value));
        }
    } else if c.has(place, value) {
        assert(c.known(value));
    }
}

/// One round hands over what was owed: where a value had reached every
/// node of a chunk, and the round comes a coalescing window or more after
/// every batch was begun, every node of the chunk has seen the value after
/// it.
pub proof fn lemma_round_covers(c: ClusterView, now: u64, since: u64, chunk: int, value: u32)
    requires
        c.sound(),
        c.begun(since),
        now >= since + COALESCING_WINDOW,
        c.covered(chunk, value),
    ensures
        c.round(c.apps.len(), now).done(chunk, value),
{
    let after = c.round(c.apps.len(), now);
    lemma_round(c, c.apps.len(), now, now, 0, value);
    assert forall|place: int|
        0 <= place < after.apps.len() && chunk_of(after.apps.len() as int, place)
            == chunk implies #[trigger] after.has(place, value) by {
        let own = c.node_ids[place];
        lemma_round(c, c.apps.len(), now, now, place, value);
        assert(c.reached(place, value));
        if !c.has(place, value) {
            let from = choose|from: int|
                0 <= from < c.apps.len() && waits_for(#[trigger] c.apps[from], own, value);
            let i = choose|i: int|
                0 <= i < c.apps[from].batched.len() && (#[trigger] c.apps[from].batched[i]).neighbor
                    == own && c.apps[from].batched[i].messages.contains(value);
            assert(begun_by(c.apps[from], since));
            assert(c.apps[from].batched[i].start_time <= since);
            assert(BroadcastView::ripe(c.apps[from].batched[i], now));
            assert(c.apps[from].batched[i].neighbor == own);
            assert(ripe_for(c.apps[from], own, value, now));
            assert(c.due(place, value, now, 0));
        }
    }
}

/// Rounds leave a sound cluster sound, and no batch waits after them that
/// was begun later than the last of them.
pub proof fn lemma_rounds_sound(c: ClusterView, times: Seq<u64>, count: nat, since: u64)
    requires
        c.sound(),
        c.begun(since),
        spaced(times, since),
        count <= times.len(),
    ensures
        c.rounds(times, count).sound(),
        c.rounds(times, count).node_ids == c.node_ids,
        c.rounds(times, count).apps.len() == c.apps.len(),
        c.rounds(times, count).begun(time_before(times, since, count)),
    decreases count,
{
    if count > 0 {
        let before = c.rounds(times, (count - 1) as nat);
        let after = c.rounds(times, count);
        let now = times[count - 1];
        lemma_rounds_sound(c, times, (count - 1) as nat, since);
        assert(now >= time_before(times, since, (count - 1) as nat) + COALESCING_WINDOW);
        lemma_round(before, before.apps.len(), now, now, 0, 0);
        assert forall|place: int| 0 <= place < after.apps.len() implies begun_by(
            #[trigger] after.apps[place],
            now,
        ) by {
            assert(begun_by(before.apps[place], time_before(times, since, (count - 1) as nat)));
            assert(begun_by(before.apps[place], now));
            lemma_round(before, before.apps.len(), now, now, place, 0);
        }
    }
}

/// What a node has seen after rounds, some node had seen before them.
pub proof fn lemma_rounds_known(
    c: ClusterView,
    times: Seq<u64>,
    count: nat,
    since: u64,
    place: int,
    value: u32,
)
    requires
        c.sound(),
        c.begun(since),
        spaced(times, since),
        count <= times.len(),
        0 <= place < c.apps.len(),
    ensures
        c.has(place, value) ==> c.rounds(times, count).has(place, value),
        c.rounds(times, count).has(place, value) ==> c.known(value),
    decreases count,
{
    if count > 0 {
        let before = c.rounds(times, (count - 1) as nat);
        let now = times[count - 1];
        lemma_rounds_sound(c, times, (count - 1) as nat, since);
        lemma_rounds_known(c, times, (count - 1) as nat, since, place, value);
        lemma_round(before, before.apps.len(), now, now, place, value);
        if before.known(value) {
            let seen = choose|seen: int|
                0 <= seen < before.apps.len() && #[trigger] before.has(seen, value);
            lemma_rounds_known(c, times, (count - 1) as nat, since, seen, value);
        }
    } else if c.has(place, value) {
        assert(c.known(value));
    }
}

/// With every round a value goes one chunk further round the ring: where
/// it had reached every node of a chunk, after `count` rounds every node
/// of that chunk and of the `count - 1` chunks after it has seen it.
pub proof fn lemma_rounds_reach(
    c: ClusterView,
    times: Seq<u64>,
    count: nat,
    since: u64,
    chunk: int,
    hops: int,
    value: u32,
)
    requires
        c.sound(),
        c.begun(since),
        spaced(times, since),
        count <= times.len(),
        0 <= chunk < chunk_count(c.apps.len() as int),
        c.covered(chunk, value),
        0 <= hops < count,
        hops < chunk_count(c.apps.len() as int),
    ensures
        c.rounds(times, count).done(ring(c.apps.len() as int, chunk, hops), value),
    decreases count,
{
    let n = c.apps.len() as int;
    let ids = c.node_ids;
    let before = c.rounds(times, (count - 1) as nat);
    let after = c.rounds(times, count);
    let now = times[count - 1];
    let last = time_before(times, since, (count - 1) as nat);
    let to = ring(n, chunk, hops);
    lemma_rounds_sound(c, times, (count - 1) as nat, since);
    assert(now >= last + COALESCING_WINDOW);
    if hops < count - 1 {
        lemma_rounds_reach(c, times, (count - 1) as nat, since, chunk, hops, value);
        lemma_round(before, before.apps.len(), now, now, 0, value);
        assert forall|place: int|
            0 <= place < after.apps.len() && chunk_of(after.apps.len() as int, place)
                == to implies #[trigger] after.has(place, value) by {
            assert(before.has(place, value));
            lemma_round(before, before.apps.len(), now, now, place, value);
        }
    } else {
        if hops > 0 {
            let from = ring(n, chunk, hops - 1);
            let leader = chunk_start(n, from);
            lemma_rounds_reach(c, times, (count - 1) as nat, since, chunk, hops - 1, value);
            lemma_chunk_bounds(n, from);
            lemma_chunk_start_is_in_chunk(n, from);
            lemma_place_of(ids, leader);
            lemma_target_chunk(ids, leader);
            assert(before.has(leader, value));
            assert(before.covered(target_chunk(ids[leader], ids), value));
        }
        lemma_round_covers(before, now, last, to, value);
    }
}

/// Convergence: in a cluster whose harness loses nothing, every value
/// that a client hands to a node reaches every node, and nothing else does.
///
/// The cluster is started with the topology that every node computes for
/// itself. Then come any steps in any order: clients hand values to nodes,
/// and nodes tick, each tick handing the ripe batches of its node to the
/// nodes that they are for. After these, let every node tick once in each
/// of as many rounds as the cluster has chunks, each round a coalescing
/// window or more after the one before. Then every node has seen exactly
/// the values that clients handed to nodes.
pub proof fn lemma_cluster_converges(
    node_ids: Seq<Seq<char>>,
    steps: Seq<Step>,
    by: u64,
    times: Seq<u64>,
    place: int,
    value: u32,
)
    requires
        node_ids.len() > 0,
        node_ids.no_duplicates(),
        forall|i: int| 0 <= i < steps.len() ==> fits(#[trigger] steps[i], node_ids.len() as int, by),
        times.len() == chunk_count(node_ids.len() as int),
        spaced(times, by),
        0 <= place < node_ids.len(),
    ensures
        ClusterView::started(node_ids).run(steps, steps.len()).rounds(times, times.len()).has(
            place,
            value,
        ) <==> asked(steps, steps.len(), value),
{
    let n = node_ids.len() as int;
    let c = ClusterView::started(node_ids).run(steps, steps.len());
    let end = c.rounds(times, times.len());
    lemma_run(node_ids, steps, steps.len(), by, place, value);
    assert forall|at: int| 0 <= at < c.apps.len() implies begun_by(#[trigger] c.apps[at], by) by {
        lemma_run(node_ids, steps, steps.len(), by, at, value);
    }
    lemma_rounds_sound(c, times, times.len(), by);
    lemma_rounds_known(c, times, times.len(), by, place, value);
    if c.known(value) {
        let seen = choose|seen: int| 0 <= seen < c.apps.len() && #[trigger] c.has(seen, value);
        lemma_run(node_ids, steps, steps.len(), by, seen, value);
        let from = target_chunk(node_ids[seen], node_ids);
        let to = chunk_of(n, place);
        let hops = if to >= from {
            to - from
        } else {
            to - from + chunk_count(n)
        };
        lemma_target_chunk(node_ids, seen);
        lemma_chunk_of(n, place);
        assert(c.covered(from, value));
        lemma_rounds_reach(c, times, times.len(), by, from, hops, value);
        assert(end.has(place, value));
    }
}

} // verus!
