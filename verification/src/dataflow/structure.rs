//! What a well-formed graph is, and how connecting edges keeps a graph well formed.

use vstd::prelude::*;

use crate::dataflow::edge::ThrillerEdge;
use crate::dataflow::node::ThrillerNode;

verus! {

/// How often `x` occurs in `s`.
pub open spec fn occurrences(s: Seq<usize>, x: usize) -> nat
    decreases s.len(),
{
    if s.len() == 0 {
        0
    } else {
        occurrences(s.drop_last(), x) + if s.last() == x {
            1nat
        } else {
            0nat
        }
    }
}

/// The edges of `edges` that start at the node `id`, in order.
pub open spec fn edges_from(edges: Seq<ThrillerEdge>, id: usize) -> Seq<ThrillerEdge>
    decreases edges.len(),
{
    if edges.len() == 0 {
        Seq::empty()
    } else if edges.last().src == id {
        edges_from(edges.drop_last(), id).push(edges.last())
    } else {
        edges_from(edges.drop_last(), id)
    }
}

/// The edges of `edges` that end at the node `id`, in order.
pub open spec fn edges_to(edges: Seq<ThrillerEdge>, id: usize) -> Seq<ThrillerEdge>
    decreases edges.len(),
{
    if edges.len() == 0 {
        Seq::empty()
    } else if edges.last().dst == id {
        edges_to(edges.drop_last(), id).push(edges.last())
    } else {
        edges_to(edges.drop_last(), id)
    }
}

/// The number of edges that lead to the node `target` from those of the first
/// `k` nodes that are not marked in `done`: `succ` holds each node's successors.
pub open spec fn pending(succ: Seq<Seq<usize>>, done: Seq<bool>, target: usize, k: nat) -> nat
    decreases k,
{
    if k == 0 {
        0
    } else {
        pending(succ, done, target, (k - 1) as nat) + if done[k - 1] {
            0nat
        } else {
            occurrences(succ[k - 1], target)
        }
    }
}

/// `n` times `false`.
pub open spec fn none_done(n: nat) -> Seq<bool> {
    Seq::new(n, |i: int| false)
}

/// The nodes that the edges `edges` start at, in order.
pub open spec fn sources(edges: Seq<ThrillerEdge>) -> Seq<usize> {
    Seq::new(edges.len(), |k: int| edges[k].src)
}

/// The nodes that the edges `edges` end at, in order.
pub open spec fn targets(edges: Seq<ThrillerEdge>) -> Seq<usize> {
    Seq::new(edges.len(), |k: int| edges[k].dst)
}

/// The identifier of each of `nodes`.
pub open spec fn node_ids(nodes: Seq<ThrillerNode>) -> Seq<usize> {
    Seq::new(nodes.len(), |i: int| nodes[i].id())
}

/// The successors of each of `nodes`.
pub open spec fn node_successors(nodes: Seq<ThrillerNode>) -> Seq<Seq<usize>> {
    Seq::new(nodes.len(), |i: int| nodes[i].nexts())
}

/// Whether the node at position `i` has the node at position `j` among its
/// successors as often as the latter has the former among its predecessors.
pub open spec fn linked(nodes: Seq<ThrillerNode>, i: int, j: int) -> bool {
    occurrences(nodes[i].nexts(), nodes[j].id()) == occurrences(nodes[j].prevs(), nodes[i].id())
}

/// The nodes `nodes` form a well-formed graph: no two of them have the same
/// identifier; every successor and every predecessor of a node is one of them;
/// a node is a successor of another as often as the other is a predecessor of
/// it; and the in-degree of a node is the number of its predecessors and the
/// number of times that it is a successor.
pub open spec fn nodes_wf(nodes: Seq<ThrillerNode>) -> bool {
    &&& node_ids(nodes).no_duplicates()
    &&& forall|i: int, t: int|
        0 <= i < nodes.len() && 0 <= t < nodes[i].nexts().len() ==> node_ids(nodes).contains(
            #[trigger] nodes[i].nexts()[t],
        )
    &&& forall|j: int, t: int|
        0 <= j < nodes.len() && 0 <= t < nodes[j].prevs().len() ==> node_ids(nodes).contains(
            #[trigger] nodes[j].prevs()[t],
        )
    &&& forall|i: int, j: int|
        0 <= i < nodes.len() && 0 <= j < nodes.len() ==> #[trigger] linked(nodes, i, j)
    &&& forall|j: int|
        0 <= j < nodes.len() ==> (#[trigger] nodes[j]).in_degree() == pending(
            node_successors(nodes),
            none_done(nodes.len()),
            nodes[j].id(),
            nodes.len(),
        )
    &&& forall|j: int|
        0 <= j < nodes.len() ==> (#[trigger] nodes[j]).in_degree() == nodes[j].prevs().len()
}

/// What `connect` makes of the node `before` in a graph with the edges `edges`:
/// the edges that start at the node and their targets are added to its
/// out-edges and successors, the edges that end at it and their sources to its
/// in-edges and predecessors, and its in-degree grows by the number of the latter.
pub open spec fn connected(
    after: ThrillerNode,
    before: ThrillerNode,
    edges: Seq<ThrillerEdge>,
) -> bool {
    &&& after.same_payload(&before)
    &&& after.out_edges() == before.out_edges() + edges_from(edges, before.id())
    &&& after.nexts() == before.nexts() + targets(edges_from(edges, before.id()))
    &&& after.in_edges() == before.in_edges() + edges_to(edges, before.id())
    &&& after.prevs() == before.prevs() + sources(edges_to(edges, before.id()))
    &&& after.in_degree() == before.in_degree() + edges_to(edges, before.id()).len()
}

/// `connected`, node by node.
pub open spec fn all_connected(
    after: Seq<ThrillerNode>,
    before: Seq<ThrillerNode>,
    edges: Seq<ThrillerEdge>,
) -> bool {
    &&& after.len() == before.len()
    &&& forall|i: int| 0 <= i < before.len() ==> connected(#[trigger] after[i], before[i], edges)
}

/// Counting in a sequence with one more item at its end.
pub proof fn lemma_occurrences_push(s: Seq<usize>, y: usize, x: usize)
    ensures
        occurrences(s.push(y), x) == occurrences(s, x) + if y == x {
            1nat
        } else {
            0nat
        },
{
    assert(s.push(y).drop_last() =~= s);
}

/// What is counted occurs, and what does not occur counts zero.
pub proof fn lemma_occurrences_contains(s: Seq<usize>, x: usize)
    ensures
        occurrences(s, x) > 0 <==> s.contains(x),
    decreases s.len(),
{
    if s.len() > 0 {
        lemma_occurrences_contains(s.drop_last(), x);
        if s.last() == x {
            assert(s[s.len() - 1] == x);
        } else if s.contains(x) {
            let i = choose|i: int| 0 <= i < s.len() && s[i] == x;
            assert(s.drop_last()[i] == x);
        } else if s.drop_last().contains(x) {
            let i = choose|i: int| 0 <= i < s.drop_last().len() && s.drop_last()[i] == x;
            assert(s[i] == x);
        }
    }
}

/// Nothing occurs more often in a part than in the whole.
pub proof fn lemma_occurrences_take(s: Seq<usize>, t: int, x: usize)
    requires
        0 <= t <= s.len(),
    ensures
        occurrences(s.take(t), x) <= occurrences(s, x),
    decreases s.len() - t,
{
    if t < s.len() {
        lemma_occurrences_take(s, t + 1, x);
        assert(s.take(t + 1).drop_last() =~= s.take(t));
    } else {
        assert(s.take(t) =~= s);
    }
}

/// `pending` looks only at the first `k` nodes.
pub proof fn lemma_pending_prefix(
    succ: Seq<Seq<usize>>,
    done: Seq<bool>,
    succ2: Seq<Seq<usize>>,
    done2: Seq<bool>,
    x: usize,
    k: nat,
)
    requires
        k <= succ.len(),
        k <= succ2.len(),
        k <= done.len(),
        k <= done2.len(),
        forall|i: int| 0 <= i < k ==> succ[i] == succ2[i] && done[i] == done2[i],
    ensures
        pending(succ, done, x, k) == pending(succ2, done2, x, k),
    decreases k,
{
    if k > 0 {
        lemma_pending_prefix(succ, done, succ2, done2, x, (k - 1) as nat);
    }
}

/// One more successor of the node at `at` is one more pending edge to it, if
/// that node is counted.
pub proof fn lemma_pending_push(
    succ: Seq<Seq<usize>>,
    done: Seq<bool>,
    at: int,
    y: usize,
    x: usize,
    k: nat,
)
    requires
        0 <= at < succ.len(),
        k <= succ.len(),
        k <= done.len(),
    ensures
        pending(succ.update(at, succ[at].push(y)), done, x, k) == pending(succ, done, x, k) + if at
            < k && !done[at] && y == x {
            1nat
        } else {
            0nat
        },
    decreases k,
{
    if k > 0 {
        lemma_pending_push(succ, done, at, y, x, (k - 1) as nat);
        if at == k - 1 {
            lemma_occurrences_push(succ[at], y, x);
        }
    }
}

/// Marking the node at `at` takes its edges out of what is pending.
pub proof fn lemma_pending_mark(succ: Seq<Seq<usize>>, done: Seq<bool>, at: int, x: usize, k: nat)
    requires
        0 <= at < succ.len(),
        at < done.len(),
        k <= succ.len(),
        k <= done.len(),
        !done[at],
    ensures
        pending(succ, done, x, k) == pending(succ, done.update(at, true), x, k) + if at < k {
            occurrences(succ[at], x)
        } else {
            0nat
        },
    decreases k,
{
    if k > 0 {
        lemma_pending_mark(succ, done, at, x, (k - 1) as nat);
    }
}

/// Nothing is pending where no counted node has the target among its successors.
pub proof fn lemma_pending_zero(succ: Seq<Seq<usize>>, done: Seq<bool>, x: usize, k: nat)
    requires
        k <= succ.len(),
        k <= done.len(),
    ensures
        pending(succ, done, x, k) == 0 <==> (forall|i: int|
            0 <= i < k && !done[i] ==> !(#[trigger] succ[i]).contains(x)),
    decreases k,
{
    if k > 0 {
        lemma_pending_zero(succ, done, x, (k - 1) as nat);
        lemma_occurrences_contains(succ[k - 1], x);
        if pending(succ, done, x, k) == 0 {
            assert forall|i: int| 0 <= i < k && !done[i] implies !(#[trigger] succ[i]).contains(
                x,
            ) by {
                if i < k - 1 {
                } else {
                }
            }
        } else {
            if pending(succ, done, x, (k - 1) as nat) == 0 {
                assert(!done[k - 1] && succ[k - 1].contains(x));
            } else {
                let i = choose|i: int| 0 <= i < k - 1 && !done[i] && (#[trigger] succ[i]).contains(x);
                assert(0 <= i < k && !done[i] && succ[i].contains(x));
            }
        }
    }
}

/// What is pending from the first `k` nodes is pending from more.
pub proof fn lemma_pending_grows(succ: Seq<Seq<usize>>, done: Seq<bool>, x: usize, k: nat, m: nat)
    requires
        k <= m,
    ensures
        pending(succ, done, x, k) <= pending(succ, done, x, m),
    decreases m,
{
    if m > k {
        lemma_pending_grows(succ, done, x, k, (m - 1) as nat);
    }
}

/// Nodes without successors add nothing to what is pending.
pub proof fn lemma_pending_tail(succ: Seq<Seq<usize>>, done: Seq<bool>, x: usize, n: nat, k: nat)
    requires
        n <= k <= succ.len(),
        k <= done.len(),
        forall|i: int| n <= i < k ==> (#[trigger] succ[i]).len() == 0,
    ensures
        pending(succ, done, x, k) == pending(succ, done, x, n),
    decreases k,
{
    if k > n {
        lemma_pending_tail(succ, done, x, n, (k - 1) as nat);
        assert(succ[k - 1].len() == 0);
    }
}

/// Fresh nodes with new identifiers keep a graph well formed.
pub proof fn lemma_add_nodes_wf(old_nodes: Seq<ThrillerNode>, added: Seq<ThrillerNode>)
    requires
        nodes_wf(old_nodes),
        forall|i: int| 0 <= i < added.len() ==> (#[trigger] added[i]).is_fresh(),
        node_ids(old_nodes + added).no_duplicates(),
    ensures
        nodes_wf(old_nodes + added),
{
    let all = old_nodes + added;
    let n = old_nodes.len();
    let succ = node_successors(all);
    let succ0 = node_successors(old_nodes);
    assert forall|i: int, t: int| 0 <= i < all.len() && 0 <= t < all[i].nexts().len() implies node_ids(
        all,
    ).contains(#[trigger] all[i].nexts()[t]) by {
        if i < n {
            let x = old_nodes[i].nexts()[t];
            assert(node_ids(old_nodes).contains(x));
            let w = choose|w: int| 0 <= w < n && node_ids(old_nodes)[w] == x;
            assert(node_ids(all)[w] == x);
        } else {
            assert(added[i - n].is_fresh());
        }
    }
    assert forall|j: int| 0 <= j < all.len() implies (#[trigger] all[j]).in_degree() == pending(
        succ,
        none_done(all.len()),
        all[j].id(),
        all.len(),
    ) by {
        let x = all[j].id();
        assert forall|i: int| n <= i < all.len() implies (#[trigger] succ[i]).len() == 0 by {
            assert(added[i - n].is_fresh());
        }
        lemma_pending_tail(succ, none_done(all.len()), x, n, all.len());
        lemma_pending_prefix(succ, none_done(all.len()), succ0, none_done(n), x, n);
        if j >= n {
            assert(added[j - n].is_fresh());
            lemma_pending_zero(succ0, none_done(n), x, n);
            assert forall|i: int| 0 <= i < n && !none_done(n)[i] implies !(#[trigger] succ0[i]).contains(
                x,
            ) by {
                if succ0[i].contains(x) {
                    let t = choose|t: int| 0 <= t < succ0[i].len() && succ0[i][t] == x;
                    assert(node_ids(old_nodes).contains(old_nodes[i].nexts()[t]));
                    let w = choose|w: int| 0 <= w < n && node_ids(old_nodes)[w] == x;
                    assert(node_ids(all)[w] == x && node_ids(all)[j] == x);
                }
            }
        } else {
            assert(all[j] == old_nodes[j]);
        }
    }
    assert forall|j: int| 0 <= j < all.len() implies (#[trigger] all[j]).in_degree()
        == all[j].prevs().len() by {
        if j >= n {
            assert(added[j - n].is_fresh());
        } else {
            assert(all[j] == old_nodes[j]);
        }
    }
    assert forall|j: int, t: int| 0 <= j < all.len() && 0 <= t < all[j].prevs().len() implies node_ids(
        all,
    ).contains(#[trigger] all[j].prevs()[t]) by {
        if j < n {
            let x = old_nodes[j].prevs()[t];
            assert(node_ids(old_nodes).contains(x));
            let w = choose|w: int| 0 <= w < n && node_ids(old_nodes)[w] == x;
            assert(node_ids(all)[w] == x);
        } else {
            assert(added[j - n].is_fresh());
        }
    }
    assert forall|i: int, j: int| 0 <= i < all.len() && 0 <= j < all.len() implies #[trigger] linked(
        all,
        i,
        j,
    ) by {
        if i < n && j < n {
            assert(linked(old_nodes, i, j));
        } else {
            lemma_occurrences_contains(all[i].nexts(), all[j].id());
            lemma_occurrences_contains(all[j].prevs(), all[i].id());
            if i >= n {
                assert(added[i - n].is_fresh());
            } else if all[i].nexts().contains(all[j].id()) {
                let t = choose|t: int| 0 <= t < all[i].nexts().len() && all[i].nexts()[t] == all[j].id();
                assert(node_ids(old_nodes).contains(old_nodes[i].nexts()[t]));
                let w = choose|w: int| 0 <= w < n && node_ids(old_nodes)[w] == all[j].id();
                assert(node_ids(all)[w] == all[j].id() && node_ids(all)[j] == all[j].id());
            }
            if j >= n {
                assert(added[j - n].is_fresh());
            } else if all[j].prevs().contains(all[i].id()) {
                let t = choose|t: int| 0 <= t < all[j].prevs().len() && all[j].prevs()[t] == all[i].id();
                assert(node_ids(old_nodes).contains(old_nodes[j].prevs()[t]));
                let w = choose|w: int| 0 <= w < n && node_ids(old_nodes)[w] == all[i].id();
                assert(node_ids(all)[w] == all[i].id() && node_ids(all)[i] == all[i].id());
            }
        }
    }
}

/// What connecting the edge `e` makes of the nodes `cur`: `next`.
pub open spec fn edge_connected(
    next: Seq<ThrillerNode>,
    cur: Seq<ThrillerNode>,
    e: ThrillerEdge,
    si: int,
    di: int,
) -> bool {
    &&& next.len() == cur.len()
    &&& forall|i: int|
        0 <= i < cur.len() ==> {
            &&& (#[trigger] next[i]).same_payload(&cur[i])
            &&& next[i].out_edges() == if i == si {
                cur[i].out_edges().push(e)
            } else {
                cur[i].out_edges()
            }
            &&& next[i].nexts() == if i == si {
                cur[i].nexts().push(e.dst)
            } else {
                cur[i].nexts()
            }
            &&& next[i].in_edges() == if i == di {
                cur[i].in_edges().push(e)
            } else {
                cur[i].in_edges()
            }
            &&& next[i].prevs() == if i == di {
                cur[i].prevs().push(e.src)
            } else {
                cur[i].prevs()
            }
            &&& next[i].in_degree() == cur[i].in_degree() + if i == di {
                1nat
            } else {
                0nat
            }
        }
}

/// The edges from or to a node among one more edge.
pub proof fn lemma_edges_take(edges: Seq<ThrillerEdge>, k: int, id: usize)
    requires
        0 <= k < edges.len(),
    ensures
        edges_from(edges.take(k + 1), id) == if edges[k].src == id {
            edges_from(edges.take(k), id).push(edges[k])
        } else {
            edges_from(edges.take(k), id)
        },
        edges_to(edges.take(k + 1), id) == if edges[k].dst == id {
            edges_to(edges.take(k), id).push(edges[k])
        } else {
            edges_to(edges.take(k), id)
        },
{
    assert(edges.take(k + 1).drop_last() =~= edges.take(k));
    assert(edges.take(k + 1).last() == edges[k]);
}

/// Connecting one more edge keeps the graph well formed, and keeps each node
/// what `connect` makes of it.
pub proof fn lemma_connect_step(
    orig: Seq<ThrillerNode>,
    cur: Seq<ThrillerNode>,
    next: Seq<ThrillerNode>,
    edges: Seq<ThrillerEdge>,
    k: int,
    si: int,
    di: int,
)
    requires
        nodes_wf(cur),
        all_connected(cur, orig, edges.take(k)),
        0 <= k < edges.len(),
        0 <= si < cur.len(),
        0 <= di < cur.len(),
        cur[si].id() == edges[k].src,
        cur[di].id() == edges[k].dst,
        edge_connected(next, cur, edges[k], si, di),
    ensures
        nodes_wf(next),
        all_connected(next, orig, edges.take(k + 1)),
{
    let e = edges[k];
    let n = cur.len();
    assert(node_ids(next) =~= node_ids(cur));
    assert forall|i: int| 0 <= i < n implies connected(#[trigger] next[i], orig[i], edges.take(k + 1)) by {
        lemma_edges_take(edges, k, orig[i].id());
        assert(connected(cur[i], orig[i], edges.take(k)));
        assert(node_ids(cur)[i] == cur[i].id());
        assert(node_ids(cur)[si] == e.src && node_ids(cur)[di] == e.dst);
        let from0 = edges_from(edges.take(k), orig[i].id());
        let to0 = edges_to(edges.take(k), orig[i].id());
        if i == si {
            assert(next[i].out_edges() =~= orig[i].out_edges() + from0.push(e));
            assert(next[i].nexts() =~= orig[i].nexts() + targets(from0.push(e)));
        } else {
            assert(e.src != orig[i].id());
        }
        if i == di {
            assert(next[i].in_edges() =~= orig[i].in_edges() + to0.push(e));
            assert(next[i].prevs() =~= orig[i].prevs() + sources(to0.push(e)));
        } else {
            assert(e.dst != orig[i].id());
        }
    }
    let succ = node_successors(cur);
    let succ2 = node_successors(next);
    assert(succ2 =~= succ.update(si, succ[si].push(e.dst)));
    assert forall|i: int, t: int| 0 <= i < n && 0 <= t < next[i].nexts().len() implies node_ids(
        next,
    ).contains(#[trigger] next[i].nexts()[t]) by {
        if i == si && t == cur[i].nexts().len() {
            assert(node_ids(cur)[di] == e.dst);
        } else {
            assert(next[i].nexts()[t] == cur[i].nexts()[t]);
            assert(node_ids(cur).contains(cur[i].nexts()[t]));
        }
    }
    assert forall|j: int| 0 <= j < n implies (#[trigger] next[j]).in_degree() == pending(
        succ2,
        none_done(n),
        next[j].id(),
        n,
    ) by {
        lemma_pending_push(succ, none_done(n), si, e.dst, cur[j].id(), n);
        assert(cur[j].in_degree() == pending(succ, none_done(n), cur[j].id(), n));
        assert(node_ids(cur)[j] == cur[j].id() && node_ids(cur)[di] == e.dst);
    }
    assert forall|j: int| 0 <= j < n implies (#[trigger] next[j]).in_degree()
        == next[j].prevs().len() by {
        assert(cur[j].in_degree() == cur[j].prevs().len());
    }
    assert forall|j: int, t: int| 0 <= j < n && 0 <= t < next[j].prevs().len() implies node_ids(
        next,
    ).contains(#[trigger] next[j].prevs()[t]) by {
        if j == di && t == cur[j].prevs().len() {
            assert(node_ids(cur)[si] == e.src);
        } else {
            assert(next[j].prevs()[t] == cur[j].prevs()[t]);
            assert(node_ids(cur).contains(cur[j].prevs()[t]));
        }
    }
    assert forall|i: int, j: int| 0 <= i < n && 0 <= j < n implies #[trigger] linked(next, i, j) by {
        assert(linked(cur, i, j));
        assert(node_ids(cur)[i] == cur[i].id() && node_ids(cur)[j] == cur[j].id());
        assert(node_ids(cur)[si] == e.src && node_ids(cur)[di] == e.dst);
        if i == si {
            lemma_occurrences_push(cur[i].nexts(), e.dst, cur[j].id());
        }
        if j == di {
            lemma_occurrences_push(cur[j].prevs(), e.src, cur[i].id());
        }
    }
}

/// The edges that start at a node are edges that start at that node.
pub proof fn lemma_edges_from_members(edges: Seq<ThrillerEdge>, id: usize)
    ensures
        forall|t: int|
            0 <= t < edges_from(edges, id).len() ==> (#[trigger] edges_from(edges, id)[t]).src == id
                && edges.contains(edges_from(edges, id)[t]),
    decreases edges.len(),
{
    if edges.len() > 0 {
        let init = edges.drop_last();
        lemma_edges_from_members(init, id);
        assert forall|t: int| 0 <= t < edges_from(edges, id).len() implies (#[trigger] edges_from(
            edges,
            id,
        )[t]).src == id && edges.contains(edges_from(edges, id)[t]) by {
            if t < edges_from(init, id).len() {
                let e = edges_from(init, id)[t];
                assert(init.contains(e));
                let w = choose|w: int| 0 <= w < init.len() && init[w] == e;
                assert(edges[w] == e);
            } else {
                assert(edges[edges.len() - 1] == edges.last());
            }
        }
    }
}

} // verus!
