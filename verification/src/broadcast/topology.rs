//! Who hands values to whom.
//!
//! The nodes of the cluster are cut into five chunks in the order of the
//! list of their identifiers: four of `len / 5` nodes each, and a fifth that
//! takes the rest. The first node of a chunk is its leader. A leader hands
//! values to the nodes of the next chunk, the last chunk's leader to those of
//! the first; every other node hands values to the nodes of its own chunk.
//! So a value travels round the ring of chunks through the leaders and
//! reaches the members of each chunk from the leader of the chunk before.
//!
//! A cluster of fewer than five nodes has one chunk for each node. Every
//! node is then a leader, and hands values to the node after it.
use crate::broadcast::model::first_index;
use vstd::prelude::*;

verus! {

/// The number of chunks of a cluster of `n` nodes.
pub open spec fn chunk_count(n: int) -> int {
    if n < 5 {
        n
    } else {
        5
    }
}

/// The number of nodes in each chunk but the last.
pub open spec fn chunk_size(n: int) -> int {
    if n < 5 {
        1
    } else {
        n / 5
    }
}

/// The chunk of the node at `index`.
pub open spec fn chunk_of(n: int, index: int) -> int {
    let k = index / chunk_size(n);
    if k >= chunk_count(n) {
        chunk_count(n) - 1
    } else {
        k
    }
}

/// The place of the first node of chunk `k`.
pub open spec fn chunk_start(n: int, k: int) -> int {
    k * chunk_size(n)
}

/// The place after the last node of chunk `k`.
pub open spec fn chunk_end(n: int, k: int) -> int {
    if k == chunk_count(n) - 1 {
        n
    } else {
        (k + 1) * chunk_size(n)
    }
}

/// The place of a node in the list of the cluster: where its identifier
/// first stands.
pub open spec fn place_of(node_id: Seq<char>, node_ids: Seq<Seq<char>>) -> int {
    first_index(node_ids, |id: Seq<char>| id == node_id)
}

/// Whether a node is the leader of its chunk.
pub open spec fn is_leader(node_id: Seq<char>, node_ids: Seq<Seq<char>>) -> bool {
    let n = node_ids.len() as int;
    let place = place_of(node_id, node_ids);
    place == chunk_start(n, chunk_of(n, place))
}

/// The chunk whose nodes a node hands values to: the next one for a
/// leader, its own for a member.
pub open spec fn target_chunk(node_id: Seq<char>, node_ids: Seq<Seq<char>>) -> int {
    let n = node_ids.len() as int;
    let own = chunk_of(n, place_of(node_id, node_ids));
    if !is_leader(node_id, node_ids) {
        own
    } else if own + 1 == chunk_count(n) {
        0
    } else {
        own + 1
    }
}

/// The neighbors of a node: the nodes of its target chunk, itself left out.
pub open spec fn neighbors_of(node_id: Seq<char>, node_ids: Seq<Seq<char>>) -> Seq<Seq<char>> {
    let n = node_ids.len() as int;
    let k = target_chunk(node_id, node_ids);
    node_ids.subrange(chunk_start(n, k), chunk_end(n, k)).filter(|id: Seq<char>| id != node_id)
}

/// The chunks lie inside the list, one after the other.
pub proof fn lemma_chunk_bounds(n: int, k: int)
    requires
        n > 0,
        0 <= k < chunk_count(n),
    ensures
        0 <= chunk_start(n, k) < chunk_end(n, k) <= n,
        k + 1 < chunk_count(n) ==> chunk_end(n, k) == chunk_start(n, k + 1),
{
    let size = chunk_size(n);
    assert(size >= 1);
    assert(size * chunk_count(n) <= n) by (nonlinear_arith)
        requires
            size == chunk_size(n),
    ;
    assert(0 <= k * size && (k + 1) * size == k * size + size && (k + 1) * size <= chunk_count(n)
        * size) by (nonlinear_arith)
        requires
            0 <= k < chunk_count(n),
            size >= 1,
    ;
    assert(size * chunk_count(n) == chunk_count(n) * size) by (nonlinear_arith);
}

/// Every node lies in its chunk.
pub proof fn lemma_chunk_of(n: int, index: int)
    requires
        0 <= index < n,
    ensures
        0 <= chunk_of(n, index) < chunk_count(n),
        chunk_start(n, chunk_of(n, index)) <= index < chunk_end(n, chunk_of(n, index)),
{
    let size = chunk_size(n);
    let k = index / size;
    assert(k >= 0 && k * size <= index < (k + 1) * size) by (nonlinear_arith)
        requires
            k == index / size,
            size >= 1,
            index >= 0,
    ;
    if k >= chunk_count(n) {
        let last = chunk_count(n) - 1;
        assert(last * size <= k * size) by (nonlinear_arith)
            requires
                last <= k,
                size >= 1,
        ;
    } else if k == chunk_count(n) - 1 {
    }
}

/// The node at a place of a list without repetitions has that place.
pub proof fn lemma_place_of(node_ids: Seq<Seq<char>>, at: int)
    requires
        node_ids.no_duplicates(),
        0 <= at < node_ids.len(),
    ensures
        place_of(node_ids[at], node_ids) == at,
{
    crate::broadcast::model::lemma_first_index(
        node_ids,
        |id: Seq<char>| id == node_ids[at],
        at,
    );
}

/// The place of a node is where its identifier stands; for an identifier
/// that the list does not hold it is the length of the list.
pub proof fn lemma_place_holds(node_id: Seq<char>, node_ids: Seq<Seq<char>>)
    ensures
        0 <= place_of(node_id, node_ids) <= node_ids.len(),
        place_of(node_id, node_ids) < node_ids.len() ==> node_ids[place_of(node_id, node_ids)]
            == node_id,
        place_of(node_id, node_ids) == node_ids.len() ==> !node_ids.contains(node_id),
{
    // The closure below is matched with the one in `place_of` when both are
    // written over a term that is read out of a sequence.
    let held = seq![node_id];
    assert(held[0] == node_id);
    crate::broadcast::model::lemma_first_index_is_first(
        node_ids,
        |id: Seq<char>| id == held[0],
    );
}

/// A node of the target chunk of another node is a neighbor of that node.
pub proof fn lemma_neighbor(node_ids: Seq<Seq<char>>, from: int, to: int)
    requires
        node_ids.no_duplicates(),
        0 <= from < node_ids.len(),
        0 <= to < node_ids.len(),
        from != to,
        chunk_of(node_ids.len() as int, to) == target_chunk(node_ids[from], node_ids),
    ensures
        neighbors_of(node_ids[from], node_ids).contains(node_ids[to]),
{
    let n = node_ids.len() as int;
    let k = target_chunk(node_ids[from], node_ids);
    lemma_chunk_of(n, to);
    lemma_chunk_bounds(n, k);
    let chunk = node_ids.subrange(chunk_start(n, k), chunk_end(n, k));
    assert(chunk[to - chunk_start(n, k)] == node_ids[to]);
    assert(node_ids[to] != node_ids[from]);
    chunk.lemma_filter_contains(
        |id: Seq<char>| id != node_ids[from],
        to - chunk_start(n, k),
    );
}

/// Every member of a chunk hands values to the leader of its chunk.
pub proof fn lemma_member_reaches_leader(node_ids: Seq<Seq<char>>, member: int)
    requires
        node_ids.no_duplicates(),
        0 <= member < node_ids.len(),
        !is_leader(node_ids[member], node_ids),
    ensures
        ({
            let n = node_ids.len() as int;
            let leader = chunk_start(n, chunk_of(n, member));
            &&& 0 <= leader < n
            &&& is_leader(node_ids[leader], node_ids)
            &&& neighbors_of(node_ids[member], node_ids).contains(node_ids[leader])
        }),
{
    let n = node_ids.len() as int;
    let k = chunk_of(n, member);
    lemma_place_of(node_ids, member);
    lemma_chunk_of(n, member);
    lemma_chunk_bounds(n, k);
    let leader = chunk_start(n, k);
    lemma_place_of(node_ids, leader);
    lemma_chunk_start_is_in_chunk(n, k);
    lemma_neighbor(node_ids, member, leader);
}

/// The first node of a chunk lies in that chunk.
pub proof fn lemma_chunk_start_is_in_chunk(n: int, k: int)
    requires
        n > 0,
        0 <= k < chunk_count(n),
    ensures
        chunk_of(n, chunk_start(n, k)) == k,
{
    let size = chunk_size(n);
    assert((k * size) / size == k) by (nonlinear_arith)
        requires
            size >= 1,
            k >= 0,
    ;
}

/// Every leader hands values to every node of the next chunk, the leader
/// of the last chunk to every node of the first: so to every node of the
/// cluster but itself, where the cluster has one chunk only.
pub proof fn lemma_leader_reaches_next_chunk(node_ids: Seq<Seq<char>>, leader: int, to: int)
    requires
        node_ids.no_duplicates(),
        0 <= leader < node_ids.len(),
        0 <= to < node_ids.len(),
        leader != to,
        is_leader(node_ids[leader], node_ids),
        ({
            let n = node_ids.len() as int;
            let own = chunk_of(n, leader);
            chunk_of(n, to) == if own + 1 == chunk_count(n) {
                0
            } else {
                own + 1
            }
        }),
    ensures
        neighbors_of(node_ids[leader], node_ids).contains(node_ids[to]),
{
    lemma_place_of(node_ids, leader);
    lemma_neighbor(node_ids, leader, to);
}

/// A place between the start and the end of a chunk lies in that chunk.
pub proof fn lemma_chunk_holds(n: int, k: int, index: int)
    requires
        n > 0,
        0 <= k < chunk_count(n),
        chunk_start(n, k) <= index < chunk_end(n, k),
    ensures
        chunk_of(n, index) == k,
{
    let size = chunk_size(n);
    lemma_chunk_bounds(n, k);
    if k == chunk_count(n) - 1 {
        assert(index / size >= k) by (nonlinear_arith)
            requires
                index >= k * size,
                size >= 1,
                k >= 0,
        ;
    } else {
        assert(index / size == k) by (nonlinear_arith)
            requires
                k * size <= index < (k + 1) * size,
                size >= 1,
        ;
    }
}

/// The chunk after a chunk on the ring: the first one after the last.
pub open spec fn next_chunk(n: int, k: int) -> int {
    if k + 1 == chunk_count(n) {
        0
    } else {
        k + 1
    }
}

/// The target chunk of a node is a chunk of the cluster: the next one on
/// the ring for a leader, its own for a member.
pub proof fn lemma_target_chunk(node_ids: Seq<Seq<char>>, from: int)
    requires
        node_ids.no_duplicates(),
        0 <= from < node_ids.len(),
    ensures
        0 <= target_chunk(node_ids[from], node_ids) < chunk_count(node_ids.len() as int),
        target_chunk(node_ids[from], node_ids) == if is_leader(node_ids[from], node_ids) {
            next_chunk(node_ids.len() as int, chunk_of(node_ids.len() as int, from))
        } else {
            chunk_of(node_ids.len() as int, from)
        },
{
    lemma_place_of(node_ids, from);
    lemma_chunk_of(node_ids.len() as int, from);
}

/// A neighbor of a node is another node of the cluster, and lies in the
/// target chunk of the node.
pub proof fn lemma_neighbor_place(node_ids: Seq<Seq<char>>, from: int, neighbor: Seq<char>)
    requires
        node_ids.no_duplicates(),
        0 <= from < node_ids.len(),
        neighbors_of(node_ids[from], node_ids).contains(neighbor),
    ensures
        0 <= place_of(neighbor, node_ids) < node_ids.len(),
        place_of(neighbor, node_ids) != from,
        node_ids[place_of(neighbor, node_ids)] == neighbor,
        chunk_of(node_ids.len() as int, place_of(neighbor, node_ids)) == target_chunk(
            node_ids[from],
            node_ids,
        ),
{
    let n = node_ids.len() as int;
    let k = target_chunk(node_ids[from], node_ids);
    lemma_target_chunk(node_ids, from);
    lemma_chunk_bounds(n, k);
    let chunk = node_ids.subrange(chunk_start(n, k), chunk_end(n, k));
    let others = |id: Seq<char>| id != node_ids[from];
    let found = choose|i: int|
        0 <= i < chunk.filter(others).len() && chunk.filter(others)[i] == neighbor;
    chunk.lemma_filter_pred(others, found);
    chunk.lemma_filter_contains_rev(others, neighbor);
    let at = choose|i: int| 0 <= i < chunk.len() && chunk[i] == neighbor;
    let to = chunk_start(n, k) + at;
    assert(node_ids[to] == neighbor);
    lemma_place_of(node_ids, to);
    lemma_chunk_holds(n, k, to);
}

} // verus!
