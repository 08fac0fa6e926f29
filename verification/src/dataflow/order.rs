//! The order in which Kahn's algorithm schedules the nodes of a graph, and why
//! it is topological just where the graph has no cycle.

use vstd::prelude::*;

use crate::dataflow::edge::ThrillerEdge;
use crate::dataflow::node::ThrillerNode;
use crate::dataflow::structure::{
    all_connected, connected, edges_from, lemma_edges_from_members, lemma_occurrences_contains,
    lemma_pending_mark, lemma_pending_zero, linked, node_ids, node_successors, nodes_wf,
    none_done, occurrences, pending, targets,
};

verus! {

/// One scan of Kahn's algorithm over the nodes from position `p` on: a node
/// that is not marked in `done` and to which no edge is pending is marked and
/// appended to `out`; the edges that start at it are no longer pending for the
/// nodes behind it.
pub open spec fn scan(
    succ: Seq<Seq<usize>>,
    ids: Seq<usize>,
    done: Seq<bool>,
    out: Seq<int>,
    p: nat,
) -> (Seq<bool>, Seq<int>)
    decreases ids.len() - p,
{
    if p >= ids.len() {
        (done, out)
    } else if !done[p as int] && pending(succ, done, ids[p as int], ids.len()) == 0 {
        scan(succ, ids, done.update(p as int, true), out.push(p as int), p + 1)
    } else {
        scan(succ, ids, done, out, p + 1)
    }
}

/// Scans repeated until every node is in `out`, at most `fuel` times: the
/// positions of the nodes in the order in which they were appended, or nothing
/// where a scan appends no node.
pub open spec fn passes(
    succ: Seq<Seq<usize>>,
    ids: Seq<usize>,
    done: Seq<bool>,
    out: Seq<int>,
    fuel: nat,
) -> Option<Seq<int>>
    decreases fuel,
{
    if out.len() >= ids.len() {
        Some(out)
    } else if fuel == 0 {
        None
    } else {
        let next = scan(succ, ids, done, out, 0);
        if next.1.len() == out.len() {
            None
        } else {
            passes(succ, ids, next.0, next.1, (fuel - 1) as nat)
        }
    }
}

/// The order in which Kahn's algorithm schedules `nodes`, as positions among
/// them: it scans the nodes again and again in the order in which they stand,
/// and schedules a node as soon as a scan finds all its predecessors scheduled.
/// Nothing where some nodes can never be scheduled.
pub open spec fn schedule(nodes: Seq<ThrillerNode>) -> Option<Seq<int>> {
    passes(
        node_successors(nodes),
        node_ids(nodes),
        none_done(nodes.len()),
        Seq::empty(),
        nodes.len(),
    )
}

/// Whether the node at position `i` is a structural predecessor of the node at
/// position `j`: the latter is among the successors of the former.
pub open spec fn precedes(nodes: Seq<ThrillerNode>, i: int, j: int) -> bool {
    nodes[i].nexts().contains(nodes[j].id())
}

/// Whether `rank` numbers the nodes so that every node has a smaller number
/// than each of its successors.
pub open spec fn is_ranking(nodes: Seq<ThrillerNode>, rank: Seq<nat>) -> bool {
    &&& rank.len() == nodes.len()
    &&& forall|i: int, j: int|
        0 <= i < nodes.len() && 0 <= j < nodes.len() && #[trigger] precedes(nodes, i, j) ==> rank[i]
            < rank[j]
}

/// The graph of `nodes` has no cycle: its nodes can be numbered so that every
/// edge leads from a smaller to a larger number.
pub open spec fn nodes_acyclic(nodes: Seq<ThrillerNode>) -> bool {
    exists|rank: Seq<nat>| is_ranking(nodes, rank)
}

/// Whether `order` holds the position of every node exactly once, and that of
/// every node behind those of all its structural predecessors.
pub open spec fn is_topological(nodes: Seq<ThrillerNode>, order: Seq<int>) -> bool {
    &&& order.len() == nodes.len()
    &&& order.no_duplicates()
    &&& forall|t: int| 0 <= t < order.len() ==> 0 <= #[trigger] order[t] < nodes.len()
    &&& forall|j: int| 0 <= j < nodes.len() ==> order.contains(j)
    &&& forall|a: int, b: int|
        0 <= a < order.len() && 0 <= b < order.len() && #[trigger] precedes(
            nodes,
            order[a],
            order[b],
        ) ==> a < b
}

/// The identifiers of the nodes at the positions `order`.
pub open spec fn ids_at(nodes: Seq<ThrillerNode>, order: Seq<int>) -> Seq<usize> {
    Seq::new(order.len(), |t: int| nodes[order[t]].id())
}

/// How many of the first `k` entries of `done` are set.
pub open spec fn count_done(done: Seq<bool>, k: nat) -> nat
    decreases k,
{
    if k == 0 {
        0
    } else {
        count_done(done, (k - 1) as nat) + if done[k - 1] {
            1nat
        } else {
            0nat
        }
    }
}

/// Where no entry is set, none is counted.
pub proof fn lemma_count_zero(done: Seq<bool>, k: nat)
    requires
        k <= done.len(),
        forall|j: int| 0 <= j < k ==> !done[j],
    ensures
        count_done(done, k) == 0,
    decreases k,
{
    if k > 0 {
        lemma_count_zero(done, (k - 1) as nat);
    }
}

/// Setting one more entry counts one more.
pub proof fn lemma_count_done_set(done: Seq<bool>, at: int, k: nat)
    requires
        0 <= at < done.len(),
        k <= done.len(),
        !done[at],
    ensures
        count_done(done.update(at, true), k) == count_done(done, k) + if at < k {
            1nat
        } else {
            0nat
        },
    decreases k,
{
    if k > 0 {
        lemma_count_done_set(done, at, (k - 1) as nat);
    }
}

/// Where fewer than `k` entries are set, one of the first `k` is not; no more
/// than `k` are ever set.
pub proof fn lemma_count_done_bound(done: Seq<bool>, k: nat)
    requires
        k <= done.len(),
    ensures
        count_done(done, k) <= k,
        count_done(done, k) < k ==> exists|j: int| 0 <= j < k && !done[j],
        count_done(done, k) == k ==> forall|j: int| 0 <= j < k ==> done[j],
    decreases k,
{
    if k > 0 {
        lemma_count_done_bound(done, (k - 1) as nat);
        if count_done(done, k) < k {
            if done[k - 1] {
                let j = choose|j: int| 0 <= j < k - 1 && !done[j];
                assert(0 <= j < k && !done[j]);
            } else {
                assert(!done[k - 1]);
            }
        }
    }
}

/// Whether no node that is not marked in `done` is a structural predecessor of
/// the node at position `b`.
pub open spec fn unblocked(nodes: Seq<ThrillerNode>, done: Seq<bool>, b: int) -> bool {
    forall|a: int| 0 <= a < nodes.len() && !done[a] ==> !#[trigger] precedes(nodes, a, b)
}

/// In a graph without cycle, as long as a node is not marked, some node that is
/// not marked has no predecessor that is not marked.
pub proof fn lemma_some_unblocked(nodes: Seq<ThrillerNode>, rank: Seq<nat>, done: Seq<bool>, j: int)
    requires
        is_ranking(nodes, rank),
        done.len() == nodes.len(),
        0 <= j < nodes.len(),
        !done[j],
    ensures
        exists|b: int| 0 <= b < nodes.len() && !done[b] && unblocked(nodes, done, b),
    decreases rank[j],
{
    if !unblocked(nodes, done, j) {
        let a = choose|a: int| 0 <= a < nodes.len() && !done[a] && #[trigger] precedes(nodes, a, j);
        assert(rank[a] < rank[j]);
        lemma_some_unblocked(nodes, rank, done, a);
    }
}

/// The positions `order`, as integers.
pub open spec fn positions(order: Seq<usize>) -> Seq<int> {
    Seq::new(order.len(), |t: int| order[t] as int)
}

/// The state of Kahn's algorithm: `done` marks the nodes that are scheduled,
/// `out` holds their positions in the order in which they were scheduled, `pos`
/// the place of each in `out`, and `remaining` for each node the number of
/// edges that lead to it from nodes that are not scheduled. Every predecessor
/// of a scheduled node is scheduled before it.
pub open spec fn sort_state(
    nodes: Seq<ThrillerNode>,
    done: Seq<bool>,
    remaining: Seq<usize>,
    out: Seq<int>,
    pos: Seq<int>,
) -> bool {
    &&& done.len() == nodes.len()
    &&& remaining.len() == nodes.len()
    &&& pos.len() == nodes.len()
    &&& forall|j: int|
        0 <= j < nodes.len() ==> #[trigger] remaining[j] == pending(
            node_successors(nodes),
            done,
            nodes[j].id(),
            nodes.len(),
        )
    &&& out.len() == count_done(done, nodes.len())
    &&& forall|t: int|
        0 <= t < out.len() ==> 0 <= #[trigger] out[t] < nodes.len() && done[out[t]] && pos[out[t]]
            == t
    &&& forall|j: int|
        0 <= j < nodes.len() && #[trigger] done[j] ==> 0 <= pos[j] < out.len() && out[pos[j]] == j
    &&& forall|a: int, b: int|
        0 <= a < nodes.len() && 0 <= b < nodes.len() && done[b] && #[trigger] precedes(nodes, a, b)
            ==> done[a] && pos[a] < pos[b]
}

/// Scheduling a node to which no edge is pending keeps the state of Kahn's algorithm.
pub proof fn lemma_schedule_node(
    nodes: Seq<ThrillerNode>,
    done: Seq<bool>,
    remaining: Seq<usize>,
    out: Seq<int>,
    pos: Seq<int>,
    p: int,
    remaining2: Seq<usize>,
)
    requires
        sort_state(nodes, done, remaining, out, pos),
        0 <= p < nodes.len(),
        !done[p],
        remaining[p] == 0,
        remaining2.len() == nodes.len(),
        forall|j: int|
            0 <= j < nodes.len() ==> #[trigger] remaining2[j] == remaining[j] - occurrences(
                nodes[p].nexts(),
                nodes[j].id(),
            ),
    ensures
        sort_state(
            nodes,
            done.update(p, true),
            remaining2,
            out.push(p),
            pos.update(p, out.len() as int),
        ),
{
    let n = nodes.len();
    let succ = node_successors(nodes);
    let done2 = done.update(p, true);
    let out2 = out.push(p);
    let pos2 = pos.update(p, out.len() as int);
    assert forall|j: int| 0 <= j < n implies #[trigger] remaining2[j] == pending(
        succ,
        done2,
        nodes[j].id(),
        n,
    ) by {
        lemma_pending_mark(succ, done, p, nodes[j].id(), n);
        assert(remaining[j] == pending(succ, done, nodes[j].id(), n));
    }
    lemma_count_done_set(done, p, n);
    assert forall|t: int| 0 <= t < out2.len() implies 0 <= #[trigger] out2[t] < n && done2[out2[t]]
        && pos2[out2[t]] == t by {
        if t < out.len() {
            assert(out[t] != p);
        }
    }
    assert forall|j: int| 0 <= j < n && #[trigger] done2[j] implies 0 <= pos2[j] < out2.len()
        && out2[pos2[j]] == j by {
        if j != p {
            assert(done[j]);
        }
    }
    assert forall|a: int, b: int|
        0 <= a < n && 0 <= b < n && done2[b] && #[trigger] precedes(nodes, a, b) implies done2[a]
            && pos2[a] < pos2[b] by {
        if b == p {
            lemma_pending_zero(succ, done, nodes[p].id(), n);
            assert(remaining[p] == pending(succ, done, nodes[p].id(), n));
            assert(succ[a] == nodes[a].nexts());
            assert(done[a]);
        } else {
            assert(done[b]);
            assert(done[a] && pos[a] < pos[b]);
        }
    }
}

/// Where a scan of Kahn's algorithm finds an edge pending to every node that is
/// not scheduled, and some node is not scheduled, the graph has a cycle.
pub proof fn lemma_stuck_is_cyclic(
    nodes: Seq<ThrillerNode>,
    done: Seq<bool>,
    remaining: Seq<usize>,
    out: Seq<int>,
    pos: Seq<int>,
)
    requires
        sort_state(nodes, done, remaining, out, pos),
        out.len() < nodes.len(),
        forall|j: int| 0 <= j < nodes.len() && !done[j] ==> #[trigger] remaining[j] != 0,
    ensures
        !nodes_acyclic(nodes),
{
    let n = nodes.len();
    let succ = node_successors(nodes);
    if nodes_acyclic(nodes) {
        let rank = choose|rank: Seq<nat>| is_ranking(nodes, rank);
        lemma_count_done_bound(done, n);
        let j = choose|j: int| 0 <= j < n && !done[j];
        lemma_some_unblocked(nodes, rank, done, j);
        let b = choose|b: int| 0 <= b < n && !done[b] && unblocked(nodes, done, b);
        lemma_pending_zero(succ, done, nodes[b].id(), n);
        assert(remaining[b] == pending(succ, done, nodes[b].id(), n));
        assert forall|i: int| 0 <= i < n && !done[i] implies !(#[trigger] succ[i]).contains(
            nodes[b].id(),
        ) by {
            assert(!precedes(nodes, i, b));
        }
        assert(remaining[b] == 0);
    }
}

/// Where Kahn's algorithm has scheduled every node, the order is topological,
/// and the graph has no cycle.
pub proof fn lemma_done_is_topological(
    nodes: Seq<ThrillerNode>,
    done: Seq<bool>,
    remaining: Seq<usize>,
    out: Seq<int>,
    pos: Seq<int>,
)
    requires
        sort_state(nodes, done, remaining, out, pos),
        out.len() >= nodes.len(),
    ensures
        is_topological(nodes, out),
        nodes_acyclic(nodes),
{
    let n = nodes.len();
    lemma_count_done_bound(done, n);
    assert(out.len() == n);
    assert forall|j: int| 0 <= j < n implies out.contains(j) by {
        assert(done[j]);
        assert(out[pos[j]] == j);
    }
    assert forall|a: int, b: int| 0 <= a < out.len() && 0 <= b < out.len() && a != b implies out[a]
        != out[b] by {
        assert(pos[out[a]] == a && pos[out[b]] == b);
    }
    assert forall|a: int, b: int|
        0 <= a < out.len() && 0 <= b < out.len() && #[trigger] precedes(
            nodes,
            out[a],
            out[b],
        ) implies a < b by {
        assert(done[out[b]]);
        assert(pos[out[a]] == a && pos[out[b]] == b);
    }
    let rank = Seq::new(n, |j: int| pos[j] as nat);
    assert(is_ranking(nodes, rank)) by {
        assert forall|i: int, j: int|
            0 <= i < n && 0 <= j < n && #[trigger] precedes(nodes, i, j) implies rank[i]
                < rank[j] by {
            assert(done[j]);
            assert(done[i] && pos[i] < pos[j]);
        }
    }
}

/// A topological order of positions is one of identifiers.
pub proof fn lemma_sorted_ids(nodes: Seq<ThrillerNode>, order: Seq<int>)
    requires
        nodes_wf(nodes),
        is_topological(nodes, order),
    ensures
        ids_at(nodes, order).no_duplicates(),
        forall|j: int| 0 <= j < nodes.len() ==> ids_at(nodes, order).contains(#[trigger] node_ids(nodes)[j]),
        forall|t: int|
            0 <= t < order.len() ==> node_ids(nodes).contains(#[trigger] ids_at(nodes, order)[t]),
        forall|i: int, a: int, b: int|
            0 <= i < nodes.len() && 0 <= a < order.len() && 0 <= b < order.len()
                && #[trigger] node_ids(nodes)[i] == #[trigger] ids_at(nodes, order)[a]
                && nodes[i].nexts().contains(#[trigger] ids_at(nodes, order)[b]) ==> a < b,
        forall|j: int, a: int, b: int|
            0 <= j < nodes.len() && 0 <= a < order.len() && 0 <= b < order.len()
                && #[trigger] node_ids(nodes)[j] == #[trigger] ids_at(nodes, order)[b]
                && nodes[j].prevs().contains(#[trigger] ids_at(nodes, order)[a]) ==> a < b,
{
    let sorted = ids_at(nodes, order);
    let ids = node_ids(nodes);
    assert forall|a: int, b: int| 0 <= a < sorted.len() && 0 <= b < sorted.len() && a != b implies sorted[a]
        != sorted[b] by {
        assert(ids[order[a]] == sorted[a] && ids[order[b]] == sorted[b]);
        assert(order[a] != order[b]);
    }
    assert forall|j: int| 0 <= j < nodes.len() implies sorted.contains(#[trigger] ids[j]) by {
        assert(order.contains(j));
        let t = choose|t: int| 0 <= t < order.len() && order[t] == j;
        assert(sorted[t] == ids[j]);
    }
    assert forall|t: int| 0 <= t < order.len() implies ids.contains(#[trigger] sorted[t]) by {
        assert(ids[order[t]] == sorted[t]);
    }
    assert forall|i: int, a: int, b: int|
        0 <= i < nodes.len() && 0 <= a < order.len() && 0 <= b < order.len() && #[trigger] ids[i]
            == #[trigger] sorted[a] && nodes[i].nexts().contains(#[trigger] sorted[b]) implies a
            < b by {
        assert(ids[order[a]] == sorted[a]);
        assert(order[a] == i);
        assert(precedes(nodes, order[a], order[b]));
    }
    assert forall|j: int, a: int, b: int|
        0 <= j < nodes.len() && 0 <= a < order.len() && 0 <= b < order.len() && #[trigger] ids[j]
            == #[trigger] sorted[b] && nodes[j].prevs().contains(#[trigger] sorted[a]) implies a
            < b by {
        let i = order[a];
        assert(ids[order[b]] == sorted[b]);
        assert(order[b] == j);
        assert(ids[i] == sorted[a]);
        assert(linked(nodes, i, j));
        lemma_occurrences_contains(nodes[j].prevs(), nodes[i].id());
        lemma_occurrences_contains(nodes[i].nexts(), nodes[j].id());
        assert(precedes(nodes, order[a], order[b]));
    }
}

/// Nodes to which nothing was connected, connected by edges each of which
/// leads from a smaller to a larger number, form a graph without cycle.
pub proof fn lemma_connected_acyclic(
    before: Seq<ThrillerNode>,
    after: Seq<ThrillerNode>,
    edges: Seq<ThrillerEdge>,
    rank: Seq<nat>,
)
    requires
        all_connected(after, before, edges),
        forall|i: int| 0 <= i < before.len() ==> (#[trigger] before[i]).is_fresh(),
        rank.len() == before.len(),
        forall|k: int, i: int, j: int|
            0 <= k < edges.len() && 0 <= i < before.len() && 0 <= j < before.len()
                && (#[trigger] before[i]).id() == (#[trigger] edges[k]).src && (
            #[trigger] before[j]).id() == edges[k].dst ==> rank[i] < rank[j],
    ensures
        nodes_acyclic(after),
{
    assert forall|i: int, j: int|
        0 <= i < after.len() && 0 <= j < after.len() && #[trigger] precedes(after, i, j) implies rank[i]
            < rank[j] by {
        assert(connected(after[i], before[i], edges));
        assert(connected(after[j], before[j], edges));
        assert(before[i].is_fresh());
        let from = edges_from(edges, before[i].id());
        assert(after[i].nexts() =~= targets(from));
        let t = choose|t: int| 0 <= t < after[i].nexts().len() && after[i].nexts()[t] == after[j].id();
        lemma_edges_from_members(edges, before[i].id());
        let e = from[t];
        assert(edges.contains(e));
        let k = choose|k: int| 0 <= k < edges.len() && edges[k] == e;
        assert(before[i].id() == edges[k].src && before[j].id() == edges[k].dst);
    }
    assert(is_ranking(after, rank));
}

} // verus!
