//! What waits at a node, and what the steps of the node make of it.
//!
//! The laws of this module say of each step exactly which values wait for
//! which neighbor afterwards. They are what the laws of a whole cluster are
//! proved from.
use crate::broadcast::laws::waits_for;
use crate::broadcast::model::{first_index, lemma_first_index_is_first, BatchView, BroadcastView};
use crate::protocol::is_client_id;
use vstd::prelude::*;

verus! {

/// Whether a batch waits for a neighbor, whatever it holds.
pub open spec fn batch_for(app: BroadcastView, neighbor: Seq<char>) -> bool {
    exists|i: int| 0 <= i < app.batched.len() && (#[trigger] app.batched[i]).neighbor == neighbor
}

/// Whether the waiting batches of a node are for different neighbors.
pub open spec fn batches_differ(app: BroadcastView) -> bool {
    forall|i: int, j: int|
        0 <= i < j < app.batched.len() ==> (#[trigger] app.batched[i]).neighbor != (
        #[trigger] app.batched[j]).neighbor
}

/// What waits after a value was put aside for a neighbor: what waited
/// before, and that value for that neighbor.
pub proof fn lemma_prepare(
    app: BroadcastView,
    neighbor: Seq<char>,
    message: u32,
    now: u64,
    other: Seq<char>,
    value: u32,
)
    requires
        batches_differ(app),
    ensures
        batches_differ(app.prepare_send_to_neighbor(neighbor, message, now)),
        waits_for(app.prepare_send_to_neighbor(neighbor, message, now), other, value) <==> (
        waits_for(app, other, value) || (other == neighbor && value == message)),
        batch_for(app.prepare_send_to_neighbor(neighbor, message, now), other) <==> (batch_for(
            app,
            other,
        ) || other == neighbor),
{
    let wanted = |b: BatchView| b.neighbor == neighbor;
    let at = first_index(app.batched, wanted);
    let after = app.prepare_send_to_neighbor(neighbor, message, now);
    lemma_first_index_is_first(app.batched, wanted);
    assert forall|i: int| 0 <= i < after.batched.len() && i < app.batched.len() implies (
    #[trigger] after.batched[i]).neighbor == app.batched[i].neighbor by {}
    assert(batches_differ(after)) by {
        assert forall|i: int, j: int| 0 <= i < j < after.batched.len() implies (
        #[trigger] after.batched[i]).neighbor != (#[trigger] after.batched[j]).neighbor by {
            if j < app.batched.len() {
                assert(app.batched[i].neighbor != app.batched[j].neighbor);
            } else {
                assert(!wanted(app.batched[i]));
            }
        }
    }
    crate::broadcast::laws::lemma_prepare_waits(app, neighbor, message, now, other, value);
    if waits_for(after, other, value) && !(other == neighbor && value == message) {
        let i = choose|i: int|
            0 <= i < after.batched.len() && (#[trigger] after.batched[i]).neighbor == other
                && after.batched[i].messages.contains(value);
        let held = choose|j: int|
            0 <= j < after.batched[i].messages.len() && after.batched[i].messages[j] == value;
        if i < app.batched.len() {
            if i == at {
                if held < app.batched[i].messages.len() {
                    assert(app.batched[i].messages[held] == value);
                }
            } else {
                assert(app.batched[i].messages[held] == value);
            }
            assert(app.batched[i].neighbor == other);
            assert(app.batched[i].messages.contains(value));
        }
    }
    if batch_for(app, other) {
        let i = choose|i: int|
            0 <= i < app.batched.len() && (#[trigger] app.batched[i]).neighbor == other;
        assert(after.batched[i].neighbor == other);
    }
    if other == neighbor {
        assert(after.batched[at].neighbor == other);
    }
    if batch_for(after, other) && other != neighbor {
        let i = choose|i: int|
            0 <= i < after.batched.len() && (#[trigger] after.batched[i]).neighbor == other;
        assert(app.batched[i].neighbor == other);
    }
}

/// Whether a text is among the first `count` of a list.
pub open spec fn among(list: Seq<Seq<char>>, count: nat, text: Seq<char>) -> bool {
    exists|j: int| 0 <= j < count && #[trigger] list[j] == text
}

/// Whether a value is among the first `count` of a list.
pub open spec fn among_values(list: Seq<u32>, count: nat, value: u32) -> bool {
    exists|j: int| 0 <= j < count && #[trigger] list[j] == value
}

/// What waits after a value was put aside for the first `count` neighbors:
/// what waited before, and that value for each of those neighbors.
pub proof fn lemma_enqueue(
    app: BroadcastView,
    count: nat,
    message: u32,
    now: u64,
    other: Seq<char>,
    value: u32,
)
    requires
        batches_differ(app),
        count <= app.neighbors.len(),
    ensures
        batches_differ(app.enqueue(count, message, now)),
        waits_for(app.enqueue(count, message, now), other, value) <==> (waits_for(
            app,
            other,
            value,
        ) || (value == message && among(app.neighbors, count, other))),
        batch_for(app.enqueue(count, message, now), other) <==> (batch_for(app, other) || among(
            app.neighbors,
            count,
            other,
        )),
    decreases count,
{
    if count > 0 {
        let before = app.enqueue((count - 1) as nat, message, now);
        lemma_enqueue(app, (count - 1) as nat, message, now, other, value);
        lemma_prepare(before, app.neighbors[count - 1], message, now, other, value);
        if among(app.neighbors, (count - 1) as nat, other) {
            let j = choose|j: int| 0 <= j < count - 1 && #[trigger] app.neighbors[j] == other;
            assert(app.neighbors[j] == other);
        }
        if among(app.neighbors, count, other) {
            let j = choose|j: int| 0 <= j < count && #[trigger] app.neighbors[j] == other;
            if j < count - 1 {
                assert(among(app.neighbors, (count - 1) as nat, other));
            }
        }
        if app.neighbors[count - 1] == other {
            assert(among(app.neighbors, count, other));
        }
    }
}

/// Whether a node hands on a value that comes from `src`: it does if it
/// has not seen the value, and the value comes from a client or the node
/// always hands values on.
pub open spec fn forwards(app: BroadcastView, src: Seq<char>, value: u32) -> bool {
    !app.messages_seen.contains(value) && (is_client_id(src) || app.always_broadcast)
}

/// What a node has seen, and what waits at it, after a value came: what
/// there was before, the value, and the value for every neighbor if the
/// node hands it on.
pub proof fn lemma_handle_message(
    app: BroadcastView,
    src: Seq<char>,
    message: u32,
    now: u64,
    other: Seq<char>,
    value: u32,
)
    requires
        batches_differ(app),
    ensures
        batches_differ(app.handle_message(src, message, now)),
        app.handle_message(src, message, now).neighbors == app.neighbors,
        app.handle_message(src, message, now).always_broadcast == app.always_broadcast,
        app.handle_message(src, message, now).messages_seen.contains(value) <==> (
        app.messages_seen.contains(value) || value == message),
        waits_for(app.handle_message(src, message, now), other, value) <==> (waits_for(
            app,
            other,
            value,
        ) || (value == message && forwards(app, src, message) && app.neighbors.contains(other))),
        batch_for(app.handle_message(src, message, now), other) <==> (batch_for(app, other) || (
        forwards(app, src, message) && app.neighbors.contains(other))),
{
    crate::broadcast::laws::lemma_handle_message_sees(app, src, message, now);
    let after = app.handle_message(src, message, now);
    if !app.messages_seen.contains(message) {
        let logged = BroadcastView { messages_seen: app.messages_seen.push(message), ..app };
        if after.messages_seen.contains(value) && value != message {
            crate::broadcast::laws::lemma_enqueue_keeps(
                logged,
                app.neighbors.len(),
                message,
                now,
            );
            let at = choose|at: int|
                0 <= at < logged.messages_seen.len() && logged.messages_seen[at] == value;
            assert(app.messages_seen[at] == value);
        }
        assert(waits_for(logged, other, value) == waits_for(app, other, value)) by {
            assert(logged.batched == app.batched);
        }
        assert(batch_for(logged, other) == batch_for(app, other)) by {
            assert(logged.batched == app.batched);
        }
        if is_client_id(src) || app.always_broadcast {
            lemma_enqueue(logged, app.neighbors.len(), message, now, other, value);
            if among(app.neighbors, app.neighbors.len(), other) {
                let j = choose|j: int|
                    0 <= j < app.neighbors.len() && #[trigger] app.neighbors[j] == other;
                assert(app.neighbors[j] == other);
            }
            if app.neighbors.contains(other) {
                let j = choose|j: int| 0 <= j < app.neighbors.len() && app.neighbors[j] == other;
                assert(app.neighbors[j] == other);
                assert(among(app.neighbors, app.neighbors.len(), other));
            }
        }
    }
}

/// What a node has seen, and what waits at it, after the first `count`
/// values of a list came: what there was before, those values, and each of
/// them that the node hands on for every neighbor.
pub proof fn lemma_handle_messages(
    app: BroadcastView,
    src: Seq<char>,
    messages: Seq<u32>,
    count: nat,
    now: u64,
    other: Seq<char>,
    value: u32,
)
    requires
        batches_differ(app),
        count <= messages.len(),
    ensures
        batches_differ(app.handle_messages(src, messages, count, now)),
        app.handle_messages(src, messages, count, now).neighbors == app.neighbors,
        app.handle_messages(src, messages, count, now).always_broadcast == app.always_broadcast,
        app.handle_messages(src, messages, count, now).messages_seen.contains(value) <==> (
        app.messages_seen.contains(value) || among_values(messages, count, value)),
        waits_for(app.handle_messages(src, messages, count, now), other, value) <==> (waits_for(
            app,
            other,
            value,
        ) || (among_values(messages, count, value) && forwards(app, src, value)
            && app.neighbors.contains(other))),
        batch_for(app.handle_messages(src, messages, count, now), other) ==> (batch_for(
            app,
            other,
        ) || app.neighbors.contains(other)),
    decreases count,
{
    if count > 0 {
        let before = app.handle_messages(src, messages, (count - 1) as nat, now);
        let last = messages[count - 1];
        lemma_handle_messages(app, src, messages, (count - 1) as nat, now, other, value);
        lemma_handle_messages(app, src, messages, (count - 1) as nat, now, other, last);
        lemma_handle_message(before, src, last, now, other, value);
        if among_values(messages, (count - 1) as nat, value) {
            let j = choose|j: int| 0 <= j < count - 1 && #[trigger] messages[j] == value;
            assert(messages[j] == value);
            assert(among_values(messages, count, value));
        }
        if among_values(messages, count, value) && value != last {
            let j = choose|j: int| 0 <= j < count && #[trigger] messages[j] == value;
            assert(messages[j] == value);
            assert(among_values(messages, (count - 1) as nat, value));
        }
        if value == last {
            assert(messages[count - 1] == value);
            assert(among_values(messages, count, value));
        }
    }
}

/// Whether a value waits for a neighbor in one of the first `count`
/// batches of a list, in a batch that is ripe at `at`.
pub open spec fn ripe_in(
    batches: Seq<BatchView>,
    count: nat,
    neighbor: Seq<char>,
    value: u32,
    at: u64,
) -> bool {
    exists|i: int|
        0 <= i < count && i < batches.len() && (#[trigger] batches[i]).neighbor == neighbor
            && batches[i].messages.contains(value) && BroadcastView::ripe(batches[i], at)
}

/// Whether a value waits for a neighbor in a batch that is ripe at `at`.
pub open spec fn ripe_for(app: BroadcastView, neighbor: Seq<char>, value: u32, at: u64) -> bool {
    ripe_in(app.batched, app.batched.len(), neighbor, value, at)
}

/// Whether every waiting batch of a node was begun at `by` or before.
pub open spec fn begun_by(app: BroadcastView, by: u64) -> bool {
    forall|i: int| 0 <= i < app.batched.len() ==> (#[trigger] app.batched[i]).start_time <= by
}

/// A value that is put aside joins a batch without making it younger, or
/// begins one now.
pub proof fn lemma_prepare_times(
    app: BroadcastView,
    neighbor: Seq<char>,
    message: u32,
    now: u64,
    other: Seq<char>,
    value: u32,
    at: u64,
    by: u64,
)
    ensures
        ripe_for(app, other, value, at) ==> ripe_for(
            app.prepare_send_to_neighbor(neighbor, message, now),
            other,
            value,
            at,
        ),
        begun_by(app, by) && now <= by ==> begun_by(
            app.prepare_send_to_neighbor(neighbor, message, now),
            by,
        ),
{
    let wanted = |b: BatchView| b.neighbor == neighbor;
    let after = app.prepare_send_to_neighbor(neighbor, message, now);
    lemma_first_index_is_first(app.batched, wanted);
    if ripe_for(app, other, value, at) {
        let i = choose|i: int|
            0 <= i < app.batched.len() && (#[trigger] app.batched[i]).neighbor == other
                && app.batched[i].messages.contains(value) && BroadcastView::ripe(
                app.batched[i],
                at,
            );
        let held = choose|j: int|
            0 <= j < app.batched[i].messages.len() && app.batched[i].messages[j] == value;
        assert(after.batched[i].neighbor == other);
        assert(after.batched[i].messages[held] == value);
        assert(after.batched[i].start_time == app.batched[i].start_time);
    }
    if begun_by(app, by) && now <= by {
        assert forall|i: int| 0 <= i < after.batched.len() implies (
        #[trigger] after.batched[i]).start_time <= by by {
            if i < app.batched.len() {
                assert(after.batched[i].start_time == app.batched[i].start_time);
            }
        }
    }
}

/// Values that are put aside make no waiting batch younger.
pub proof fn lemma_enqueue_times(
    app: BroadcastView,
    count: nat,
    message: u32,
    now: u64,
    other: Seq<char>,
    value: u32,
    at: u64,
    by: u64,
)
    ensures
        ripe_for(app, other, value, at) ==> ripe_for(
            app.enqueue(count, message, now),
            other,
            value,
            at,
        ),
        begun_by(app, by) && now <= by ==> begun_by(app.enqueue(count, message, now), by),
    decreases count,
{
    if count > 0 {
        let before = app.enqueue((count - 1) as nat, message, now);
        lemma_enqueue_times(app, (count - 1) as nat, message, now, other, value, at, by);
        lemma_prepare_times(before, app.neighbors[count - 1], message, now, other, value, at, by);
    }
}

/// Values that come make no waiting batch younger.
pub proof fn lemma_handle_messages_times(
    app: BroadcastView,
    src: Seq<char>,
    messages: Seq<u32>,
    count: nat,
    now: u64,
    other: Seq<char>,
    value: u32,
    at: u64,
    by: u64,
)
    ensures
        ripe_for(app, other, value, at) ==> ripe_for(
            app.handle_messages(src, messages, count, now),
            other,
            value,
            at,
        ),
        begun_by(app, by) && now <= by ==> begun_by(
            app.handle_messages(src, messages, count, now),
            by,
        ),
    decreases count,
{
    if count > 0 {
        let before = app.handle_messages(src, messages, (count - 1) as nat, now);
        let last = messages[count - 1];
        lemma_handle_messages_times(
            app,
            src,
            messages,
            (count - 1) as nat,
            now,
            other,
            value,
            at,
            by,
        );
        if !before.messages_seen.contains(last) {
            let logged = BroadcastView {
                messages_seen: before.messages_seen.push(last),
                ..before
            };
            assert(logged.batched == before.batched);
            lemma_enqueue_times(logged, before.neighbors.len(), last, now, other, value, at, by);
        }
    }
}

/// How a node stands to what it was before values came to it, for one
/// neighbor and one value: it has the neighbors it had, has forgotten
/// nothing, and what waited waits as it did. What waits and did not is a
/// value that the node has seen, for a neighbor of it; and a node that always
/// hands values on lets each value that is new to it wait for every
/// neighbor.
pub open spec fn follows(
    before: BroadcastView,
    after: BroadcastView,
    neighbor: Seq<char>,
    value: u32,
    at: u64,
) -> bool {
    &&& after.neighbors == before.neighbors
    &&& after.always_broadcast == before.always_broadcast
    &&& before.messages_seen.contains(value) ==> after.messages_seen.contains(value)
    &&& waits_for(before, neighbor, value) ==> waits_for(after, neighbor, value)
    &&& ripe_for(before, neighbor, value, at) ==> ripe_for(after, neighbor, value, at)
    &&& waits_for(after, neighbor, value) ==> waits_for(before, neighbor, value) || (
    after.messages_seen.contains(value) && before.neighbors.contains(neighbor))
    &&& batch_for(after, neighbor) ==> batch_for(before, neighbor) || before.neighbors.contains(
        neighbor,
    )
    &&& before.always_broadcast && after.messages_seen.contains(value)
        && !before.messages_seen.contains(value) && before.neighbors.contains(neighbor)
        ==> waits_for(after, neighbor, value)
}

/// A node that has handled a batch follows the node it was, and has seen
/// what it had seen and what the batch held. Where the batch came from a
/// client, each value that was new to the node waits for every neighbor.
pub proof fn lemma_handle_messages_follows(
    app: BroadcastView,
    src: Seq<char>,
    messages: Seq<u32>,
    now: u64,
    other: Seq<char>,
    value: u32,
    at: u64,
)
    requires
        batches_differ(app),
    ensures
        batches_differ(app.handle_messages(src, messages, messages.len(), now)),
        follows(app, app.handle_messages(src, messages, messages.len(), now), other, value, at),
        app.handle_messages(src, messages, messages.len(), now).messages_seen.contains(value)
            <==> (app.messages_seen.contains(value) || messages.contains(value)),
        is_client_id(src) && !app.messages_seen.contains(value) && messages.contains(value)
            && app.neighbors.contains(other) ==> waits_for(
            app.handle_messages(src, messages, messages.len(), now),
            other,
            value,
        ),
{
    lemma_handle_messages(app, src, messages, messages.len(), now, other, value);
    lemma_handle_messages_times(app, src, messages, messages.len(), now, other, value, at, at);
    if messages.contains(value) {
        let j = choose|j: int| 0 <= j < messages.len() && messages[j] == value;
        assert(messages[j] == value);
        assert(among_values(messages, messages.len(), value));
    }
    if among_values(messages, messages.len(), value) {
        let j = choose|j: int| 0 <= j < messages.len() && #[trigger] messages[j] == value;
        assert(messages[j] == value);
    }
}

/// Following is handed on: a node that follows one that follows a third
/// follows the third.
pub proof fn lemma_follows_on(
    first: BroadcastView,
    second: BroadcastView,
    third: BroadcastView,
    neighbor: Seq<char>,
    value: u32,
    at: u64,
)
    requires
        follows(first, second, neighbor, value, at),
        follows(second, third, neighbor, value, at),
    ensures
        follows(first, third, neighbor, value, at),
{
}

/// A node without its ripe batches: nothing new waits, and what waits no
/// longer was ripe.
pub proof fn lemma_without_ripe(
    app: BroadcastView,
    now: u64,
    other: Seq<char>,
    value: u32,
    by: u64,
)
    requires
        batches_differ(app),
    ensures
        batches_differ(app.without_ripe(now)),
        batch_for(app.without_ripe(now), other) ==> batch_for(app, other),
        waits_for(app.without_ripe(now), other, value) ==> waits_for(app, other, value),
        waits_for(app, other, value) ==> waits_for(app.without_ripe(now), other, value)
            || ripe_for(app, other, value, now),
        begun_by(app, by) ==> begun_by(app.without_ripe(now), by),
{
    let young = |b: BatchView| !BroadcastView::ripe(b, now);
    let kept = app.batched.filter(young);
    assert(app.without_ripe(now).batched == kept);
    assert forall|i: int, j: int| 0 <= i < j < kept.len() implies (#[trigger] kept[i]).neighbor != (
    #[trigger] kept[j]).neighbor by {
        crate::broadcast::laws::lemma_filter_keeps_distinct(app.batched, young, i, j);
    }
    assert forall|i: int| 0 <= i < kept.len() implies app.batched.contains(#[trigger] kept[i]) by {
        assert(kept.contains(kept[i]));
        app.batched.lemma_filter_contains_rev(young, kept[i]);
    }
    if batch_for(app.without_ripe(now), other) {
        let i = choose|i: int| 0 <= i < kept.len() && (#[trigger] kept[i]).neighbor == other;
        let at = choose|at: int| 0 <= at < app.batched.len() && app.batched[at] == kept[i];
        assert(app.batched[at].neighbor == other);
    }
    if waits_for(app.without_ripe(now), other, value) {
        let i = choose|i: int|
            0 <= i < kept.len() && (#[trigger] kept[i]).neighbor == other
                && kept[i].messages.contains(value);
        let at = choose|at: int| 0 <= at < app.batched.len() && app.batched[at] == kept[i];
        assert(app.batched[at].neighbor == other);
    }
    if waits_for(app, other, value) {
        let at = choose|at: int|
            0 <= at < app.batched.len() && (#[trigger] app.batched[at]).neighbor == other
                && app.batched[at].messages.contains(value);
        if young(app.batched[at]) {
            app.batched.lemma_filter_contains(young, at);
            let i = choose|i: int| 0 <= i < kept.len() && kept[i] == app.batched[at];
            assert(kept[i].neighbor == other);
        } else {
            assert(app.batched[at].neighbor == other);
        }
    }
    if begun_by(app, by) {
        assert forall|i: int| 0 <= i < kept.len() implies (#[trigger] kept[i]).start_time
            <= by by {
            let at = choose|at: int| 0 <= at < app.batched.len() && app.batched[at] == kept[i];
            assert(app.batched[at].start_time <= by);
        }
    }
}

/// A value that waits for a neighbor waits in a batch for it.
pub proof fn lemma_waits_in_batch(app: BroadcastView, neighbor: Seq<char>, value: u32, at: u64)
    ensures
        waits_for(app, neighbor, value) ==> batch_for(app, neighbor),
        ripe_for(app, neighbor, value, at) ==> waits_for(app, neighbor, value),
{
    if waits_for(app, neighbor, value) {
        let i = choose|i: int|
            0 <= i < app.batched.len() && (#[trigger] app.batched[i]).neighbor == neighbor
                && app.batched[i].messages.contains(value);
        assert(app.batched[i].neighbor == neighbor);
    }
    if ripe_for(app, neighbor, value, at) {
        let i = choose|i: int|
            0 <= i < app.batched.len() && (#[trigger] app.batched[i]).neighbor == neighbor
                && app.batched[i].messages.contains(value) && BroadcastView::ripe(
                app.batched[i],
                at,
            );
        assert(app.batched[i].neighbor == neighbor);
    }
}

} // verus!
