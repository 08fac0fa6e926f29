//! The dataflow graph: nodes, structural edges, scheduling and emission.

use std::rc::Rc;
use vstd::prelude::*;
use vstd::string::*;

use crate::buffer::Buffer;
use crate::dataflow::block::BlockType;
use crate::dataflow::edge::{AttachedEdge, ThrillerEdge};
use crate::dataflow::node::{ThrillerNode, ThrillerNodeInner, buffer_values};
use crate::dataflow::order::{
    count_done, ids_at, is_topological, lemma_count_zero, lemma_done_is_topological,
    lemma_schedule_node, lemma_sorted_ids, lemma_stuck_is_cyclic, nodes_acyclic, passes,
    positions, scan, schedule, sort_state,
};
use crate::dataflow::structure::{
    all_connected, connected, edge_connected, lemma_add_nodes_wf, lemma_connect_step,
    lemma_occurrences_take, lemma_pending_grows, lemma_pending_mark, linked, node_ids,
    node_successors,
    nodes_wf, none_done, occurrences, pending, sources, targets,
};
use crate::dataflow::transfer::edge_values;
use crate::error::{ThrillerError, ThrillerResult, emitted};
use crate::task::Task;
use crate::text::{decimal, push_decimal};

verus! {

/// The output edges of the reducing blocks among the first `k` of `nodes`.
pub open spec fn reduce_outputs_of(nodes: Seq<ThrillerNode>, k: nat) -> Seq<AttachedEdge>
    decreases k,
{
    if k == 0 {
        Seq::empty()
    } else {
        reduce_outputs_of(nodes, (k - 1) as nat) + match nodes[k - 1].inner() {
            ThrillerNodeInner::Block(block) => if block.block_type() == BlockType::Reduce {
                block.outputs()
            } else {
                Seq::empty()
            },
            _ => Seq::empty(),
        }
    }
}

/// What the nodes at the first `k` positions of `order` emit, one behind the
/// other: their code, or the first error among them.
pub open spec fn emit_in_order(nodes: Seq<ThrillerNode>, order: Seq<int>, k: nat) -> Result<
    Seq<char>,
    ThrillerError,
>
    decreases nodes, k,
{
    if k == 0 {
        Ok(Seq::empty())
    } else {
        match emit_in_order(nodes, order, (k - 1) as nat) {
            Err(e) => Err(e),
            Ok(code) => {
                let i = order[k - 1];
                if 0 <= i < nodes.len() {
                    match nodes[i].node_text() {
                        Err(e) => Err(e),
                        Ok(text) => Ok(code + text),
                    }
                } else {
                    Ok(code)
                }
            },
        }
    }
}

/// An error among the first `k` nodes is the error of all.
pub proof fn lemma_error_sticks(nodes: Seq<ThrillerNode>, order: Seq<int>, k: nat, m: nat)
    requires
        k <= m,
        emit_in_order(nodes, order, k) is Err,
    ensures
        emit_in_order(nodes, order, m) == emit_in_order(nodes, order, k),
    decreases m,
{
    if m > k {
        lemma_error_sticks(nodes, order, k, (m - 1) as nat);
    }
}

/// The buffers of the first `k` of `nodes`, node by node.
pub open spec fn buffers_of(nodes: Seq<ThrillerNode>, k: nat) -> Seq<Buffer>
    decreases nodes, k,
{
    if k == 0 || k > nodes.len() {
        Seq::empty()
    } else {
        buffers_of(nodes, (k - 1) as nat) + nodes[k - 1].buffers()
    }
}

/// The attached edges of the first `k` of `nodes`, node by node.
pub open spec fn attached_edges_of(nodes: Seq<ThrillerNode>, k: nat) -> Seq<AttachedEdge>
    decreases nodes, k,
{
    if k == 0 || k > nodes.len() {
        Seq::empty()
    } else {
        attached_edges_of(nodes, (k - 1) as nat) + nodes[k - 1].attached_edges()
    }
}

/// [`ThrillerGraph`] is a dataflow graph within a loop nest: nodes, and
/// structural edges that say which node is scheduled before which.
pub struct ThrillerGraph {
    id: usize,
    nodes: Vec<ThrillerNode>,
    edges: Vec<ThrillerEdge>,
}

impl ThrillerGraph {
    /// The graph's identifier.
    pub closed spec fn id(&self) -> usize {
        self.id
    }

    /// The nodes, in the order in which they were added.
    pub closed spec fn nodes(&self) -> Seq<ThrillerNode> {
        self.nodes@
    }

    /// The structural edges, in the order in which they were added.
    pub closed spec fn edges(&self) -> Seq<ThrillerEdge> {
        self.edges@
    }

    /// The identifier of each node.
    pub open spec fn ids(&self) -> Seq<usize> {
        node_ids(self.nodes())
    }

    /// The successors of each node.
    pub open spec fn successors(&self) -> Seq<Seq<usize>> {
        node_successors(self.nodes())
    }

    /// Whether the graph has a node with the identifier `id`.
    pub open spec fn has_node(&self, id: usize) -> bool {
        self.ids().contains(id)
    }

    /// The graph is well formed: see `nodes_wf`.
    pub open spec fn wf(&self) -> bool {
        nodes_wf(self.nodes())
    }

    /// Whether both ends of every structural edge are nodes of the graph.
    pub open spec fn edges_in_graph(&self) -> bool {
        forall|k: int|
            0 <= k < self.edges().len() ==> self.has_node((#[trigger] self.edges()[k]).src)
                && self.has_node(self.edges()[k].dst)
    }

    /// Create a new empty ThrillerGraph.
    pub fn new(id: usize) -> (graph: Self)
        ensures
            graph.id() == id,
            graph.nodes().len() == 0,
            graph.edges().len() == 0,
            graph.wf(),
    {
        ThrillerGraph { id, nodes: Vec::new(), edges: Vec::new() }
    }

    /// Add nodes into the graph. They are nodes to which nothing has been connected
    /// yet, and their identifiers are new to the graph.
    pub fn add_nodes(&mut self, nodes: Vec<ThrillerNode>)
        requires
            forall|i: int| 0 <= i < nodes@.len() ==> (#[trigger] nodes@[i]).is_fresh(),
            node_ids(old(self).nodes() + nodes@).no_duplicates(),
        ensures
            final(self).nodes() == old(self).nodes() + nodes@,
            final(self).edges() == old(self).edges(),
            final(self).id() == old(self).id(),
            old(self).wf() ==> final(self).wf(),
    {
        proof {
            if self.wf() {
                lemma_add_nodes_wf(self.nodes(), nodes@);
            }
        }
        let mut nodes = nodes;
        self.nodes.append(&mut nodes);
    }

    /// Add edges into the graph.
    pub fn add_edges(&mut self, edges: Vec<ThrillerEdge>)
        ensures
            final(self).edges() == old(self).edges() + edges@,
            final(self).nodes() == old(self).nodes(),
            final(self).id() == old(self).id(),
    {
        let mut edges = edges;
        self.edges.append(&mut edges);
    }

    /// Connect the nodes in the graph: every structural edge is added to the
    /// out-edges of its source and to the in-edges of its target, its target to
    /// the successors of its source, its source to the predecessors of its
    /// target, and the in-degree of its target grows by one.
    pub fn connect(&mut self)
        requires
            old(self).wf(),
            old(self).edges_in_graph(),
        ensures
            final(self).wf(),
            final(self).edges() == old(self).edges(),
            final(self).id() == old(self).id(),
            all_connected(final(self).nodes(), old(self).nodes(), old(self).edges()),
    {
        let ghost orig = self.nodes();
        let ghost edges = self.edges();
        let mut k: usize = 0;
        assert(edges.take(0) =~= Seq::<ThrillerEdge>::empty());
        assert(all_connected(orig, orig, edges.take(0))) by {
            assert forall|i: int| 0 <= i < orig.len() implies connected(
                #[trigger] orig[i],
                orig[i],
                edges.take(0),
            ) by {
                assert(orig[i].out_edges() + Seq::<ThrillerEdge>::empty() =~= orig[i].out_edges());
                assert(orig[i].in_edges() + Seq::<ThrillerEdge>::empty() =~= orig[i].in_edges());
                assert(orig[i].nexts() + targets(Seq::<ThrillerEdge>::empty()) =~= orig[i].nexts());
                assert(orig[i].prevs() + sources(Seq::<ThrillerEdge>::empty()) =~= orig[i].prevs());
            }
        }
        while k < self.edges.len()
            invariant
                k <= edges.len(),
                self.edges() == edges,
                self.id() == old(self).id(),
                self.wf(),
                old(self).edges_in_graph(),
                edges == old(self).edges(),
                orig == old(self).nodes(),
                all_connected(self.nodes(), orig, edges.take(k as int)),
            decreases edges.len() - k,
        {
            let e = self.edges[k];
            let ghost cur = self.nodes();
            proof {
                assert(node_ids(cur) =~= node_ids(orig)) by {
                    assert forall|i: int| 0 <= i < orig.len() implies node_ids(cur)[i] == node_ids(
                        orig,
                    )[i] by {
                        assert(connected(cur[i], orig[i], edges.take(k as int)));
                    }
                }
                assert(old(self).has_node(edges[k as int].src));
                assert(old(self).has_node(edges[k as int].dst));
            }
            let src = self.position(e.src);
            let dst = self.position(e.dst);
            match (src, dst) {
                (Some(si), Some(di)) => {
                    self.nodes[si].add_out_edge(e);
                    self.nodes[di].add_in_edge(e);
                    self.nodes[si].add_next(e.dst);
                    self.nodes[di].add_prev(e.src);
                    assert(self.nodes@[di as int].in_degree() < usize::MAX) by {
                        assert(cur[di as int].in_degree() == cur[di as int].prevs().len());
                    }
                    self.nodes[di].inc_in_degrees();
                    proof {
                        let next = self.nodes();
                        assert(edge_connected(next, cur, e, si as int, di as int));
                        lemma_connect_step(orig, cur, next, edges, k as int, si as int, di as int);
                    }
                },
                _ => {},
            }
            k = k + 1;
        }
        assert(edges.take(k as int) =~= edges);
    }

    /// The position of the node with the identifier `id`, if the graph has one.
    pub fn position(&self, id: usize) -> (r: Option<usize>)
        ensures
            match r {
                Some(i) => i < self.nodes().len() && self.ids()[i as int] == id,
                None => !self.has_node(id),
            },
    {
        let mut i: usize = 0;
        while i < self.nodes.len()
            invariant
                i <= self.nodes@.len(),
                forall|k: int| 0 <= k < i ==> self.ids()[k] != id,
            decreases self.nodes.len() - i,
        {
            if self.nodes[i].get_id() == id {
                return Some(i);
            }
            i = i + 1;
        }
        None
    }
}

impl ThrillerGraph {
    /// Whether the graph has no cycle: see `nodes_acyclic`.
    pub open spec fn acyclic(&self) -> bool {
        nodes_acyclic(self.nodes())
    }

    /// Takes the edges that start at the node at position `p` out of the numbers
    /// of pending edges.
    fn release(&self, p: usize, remaining: &mut Vec<usize>, Ghost(done): Ghost<Seq<bool>>)
        requires
            self.wf(),
            p < self.nodes().len(),
            done.len() == self.nodes().len(),
            !done[p as int],
            old(remaining)@.len() == self.nodes().len(),
            forall|j: int|
                0 <= j < self.nodes().len() ==> #[trigger] old(remaining)@[j] == pending(
                    self.successors(),
                    done,
                    self.nodes()[j].id(),
                    self.nodes().len(),
                ),
        ensures
            final(remaining)@.len() == self.nodes().len(),
            forall|j: int|
                0 <= j < self.nodes().len() ==> #[trigger] final(remaining)@[j] == old(
                    remaining,
                )@[j] - occurrences(self.nodes()[p as int].nexts(), self.nodes()[j].id()),
    {
        let ghost nodes = self.nodes();
        let ghost n = nodes.len();
        let ghost succ = self.successors();
        let ghost start = remaining@;
        let nexts = self.nodes[p].get_nexts();
        proof {
            assert forall|j: int| 0 <= j < n implies occurrences(nexts@, nodes[j].id())
                <= #[trigger] start[j] by {
                lemma_pending_mark(succ, done, p as int, nodes[j].id(), n);
                assert(succ[p as int] == nexts@);
            }
            assert(nexts@.take(0) =~= Seq::<usize>::empty());
        }
        let mut t: usize = 0;
        while t < nexts.len()
            invariant
                t <= nexts@.len(),
                self.wf(),
                nodes == self.nodes(),
                n == nodes.len(),
                p < n,
                nexts@ == nodes[p as int].nexts(),
                start.len() == n,
                remaining@.len() == n,
                forall|j: int| 0 <= j < n ==> occurrences(nexts@, nodes[j].id()) <= #[trigger] start[j],
                forall|j: int|
                    0 <= j < n ==> #[trigger] remaining@[j] == start[j] - occurrences(
                        nexts@.take(t as int),
                        nodes[j].id(),
                    ),
            decreases nexts.len() - t,
        {
            let next = nexts[t];
            let ghost held = remaining@;
            proof {
                assert(node_ids(nodes).contains(nodes[p as int].nexts()[t as int]));
                assert(nexts@.take(t + 1).drop_last() =~= nexts@.take(t as int));
                assert(nexts@.take(t + 1).last() == next);
            }
            match self.position(next) {
                Some(q) => {
                    proof {
                        lemma_occurrences_take(nexts@, t + 1, nodes[q as int].id());
                        assert(node_ids(nodes)[q as int] == nodes[q as int].id());
                        assert(occurrences(nexts@, nodes[q as int].id()) <= start[q as int]);
                    }
                    let v = remaining[q];
                    remaining.set(q, v - 1);
                    proof {
                        assert forall|j: int| 0 <= j < n implies #[trigger] remaining@[j] == start[j]
                            - occurrences(nexts@.take(t + 1), nodes[j].id()) by {
                            assert(held[j] == start[j] - occurrences(
                                nexts@.take(t as int),
                                nodes[j].id(),
                            ));
                            if j != q {
                                assert(node_ids(nodes)[j] == nodes[j].id());
                                assert(node_ids(nodes)[q as int] == next);
                                assert(nodes[j].id() != next);
                            }
                        }
                    }
                },
                None => {},
            }
            t = t + 1;
        }
        assert(nexts@.take(t as int) =~= nexts@);
    }

    /// Schedules the nodes with Kahn's algorithm, where the graph has no cycle: the
    /// positions of the nodes, each once and behind all its structural predecessors.
    pub fn try_schedule(&self) -> (r: Option<Vec<usize>>)
        requires
            self.wf(),
        ensures
            r is Some <==> self.acyclic(),
            match r {
                Some(order) => schedule(self.nodes()) == Some(positions(order@)) && is_topological(
                    self.nodes(),
                    positions(order@),
                ),
                None => schedule(self.nodes()) is None,
            },
    {
        let n = self.nodes.len();
        let ghost nodes = self.nodes();
        let ghost succ = self.successors();
        let ghost ids = self.ids();
        let mut remaining: Vec<usize> = Vec::new();
        let mut done: Vec<bool> = Vec::new();
        let mut i: usize = 0;
        while i < n
            invariant
                i <= n == self.nodes@.len(),
                nodes == self.nodes(),
                remaining@.len() == i,
                done@.len() == i,
                forall|j: int| 0 <= j < i ==> !done@[j],
                forall|j: int| 0 <= j < i ==> #[trigger] remaining@[j] == nodes[j].in_degree(),
            decreases n - i,
        {
            remaining.push(self.nodes[i].get_in_degrees());
            done.push(false);
            i = i + 1;
        }
        let mut order: Vec<usize> = Vec::new();
        let ghost mut pos = Seq::new(n as nat, |j: int| 0int);
        let ghost mut rounds: nat = 0;
        proof {
            assert(done@ =~= none_done(n as nat));
            assert(positions(order@) =~= Seq::<int>::empty());
            assert(count_done(done@, n as nat) == 0) by {
                lemma_count_zero(done@, n as nat);
            }
            assert(sort_state(nodes, done@, remaining@, positions(order@), pos));
        }
        while order.len() < n
            invariant
                n == nodes.len(),
                nodes == self.nodes(),
                succ == node_successors(nodes),
                ids == node_ids(nodes),
                self.wf(),
                sort_state(nodes, done@, remaining@, positions(order@), pos),
                rounds <= order@.len(),
                schedule(nodes) == passes(succ, ids, done@, positions(order@), (n - rounds) as nat),
            decreases n - rounds,
        {
            let before = order.len();
            let ghost done0 = done@;
            let ghost out0 = positions(order@);
            let mut p: usize = 0;
            while p < n
                invariant
                    p <= n == nodes.len(),
                    nodes == self.nodes(),
                    succ == node_successors(nodes),
                    ids == node_ids(nodes),
                    self.wf(),
                    sort_state(nodes, done@, remaining@, positions(order@), pos),
                    order@.len() >= before,
                    before == out0.len(),
                    scan(succ, ids, done0, out0, 0) == scan(succ, ids, done@, positions(order@), p as nat),
                    order@.len() == before ==> forall|j: int|
                        0 <= j < p && !done@[j] ==> #[trigger] remaining@[j] != 0,
                decreases n - p,
            {
                if !done[p] && remaining[p] == 0 {
                    let ghost rem0 = remaining@;
                    let ghost d = done@;
                    let ghost o = positions(order@);
                    proof {
                        assert(rem0[p as int] == pending(succ, d, nodes[p as int].id(), n as nat));
                        assert(ids[p as int] == nodes[p as int].id());
                    }
                    self.release(p, &mut remaining, Ghost(d));
                    order.push(p);
                    done.set(p, true);
                    proof {
                        lemma_schedule_node(nodes, d, rem0, o, pos, p as int, remaining@);
                        pos = pos.update(p as int, o.len() as int);
                        assert(positions(order@) =~= o.push(p as int));
                    }
                } else {
                    proof {
                        assert(remaining@[p as int] == pending(
                            succ,
                            done@,
                            nodes[p as int].id(),
                            n as nat,
                        ));
                        assert(ids[p as int] == nodes[p as int].id());
                    }
                }
                p = p + 1;
            }
            if order.len() == before {
                proof {
                    lemma_stuck_is_cyclic(nodes, done@, remaining@, positions(order@), pos);
                }
                return None;
            }
            proof {
                rounds = rounds + 1;
            }
        }
        proof {
            lemma_done_is_topological(nodes, done@, remaining@, positions(order@), pos);
        }
        Some(order)
    }

    /// How often `id` occurs in `list`.
    fn count_in(list: &Vec<usize>, id: usize) -> (n: usize)
        ensures
            n == occurrences(list@, id),
    {
        let mut n: usize = 0;
        let mut t: usize = 0;
        assert(list@.take(0) =~= Seq::<usize>::empty());
        while t < list.len()
            invariant
                t <= list@.len(),
                n <= t,
                n == occurrences(list@.take(t as int), id),
            decreases list.len() - t,
        {
            proof {
                assert(list@.take(t + 1).drop_last() =~= list@.take(t as int));
            }
            if list[t] == id {
                n = n + 1;
            }
            t = t + 1;
        }
        assert(list@.take(t as int) =~= list@);
        n
    }

    /// Whether the in-degree of the node at position `j` is the number of times
    /// that the node is a successor.
    fn in_degree_matches(&self, j: usize) -> (b: bool)
        requires
            j < self.nodes().len(),
        ensures
            b == (self.nodes()[j as int].in_degree() == pending(
                self.successors(),
                none_done(self.nodes().len()),
                self.nodes()[j as int].id(),
                self.nodes().len(),
            )),
    {
        let id = self.nodes[j].get_id();
        let wanted = self.nodes[j].get_in_degrees();
        let ghost succ = self.successors();
        let ghost done = none_done(self.nodes().len());
        let mut found: usize = 0;
        let mut i: usize = 0;
        while i < self.nodes.len()
            invariant
                i <= self.nodes@.len(),
                j < self.nodes@.len(),
                succ == self.successors(),
                done == none_done(self.nodes().len()),
                id == self.nodes()[j as int].id(),
                wanted == self.nodes()[j as int].in_degree(),
                found <= wanted,
                found == pending(succ, done, id, i as nat),
            decreases self.nodes.len() - i,
        {
            let here = Self::count_in(self.nodes[i].get_nexts(), id);
            proof {
                assert(succ[i as int] == self.nodes()[i as int].nexts());
                lemma_pending_grows(succ, done, id, (i + 1) as nat, self.nodes().len());
            }
            if here > wanted - found {
                return false;
            }
            found = found + here;
            i = i + 1;
        }
        found == wanted
    }

    /// Whether the graph is well formed.
    pub fn is_well_formed(&self) -> (b: bool)
        ensures
            b == self.wf(),
    {
        let n = self.nodes.len();
        if !self.has_distinct_ids() {
            return false;
        }
        let mut j: usize = 0;
        while j < n
            invariant
                j <= n == self.nodes@.len(),
                self.ids().no_duplicates(),
                forall|i: int, t: int|
                    0 <= i < j && 0 <= t < self.nodes()[i].nexts().len() ==> self.ids().contains(
                        #[trigger] self.nodes()[i].nexts()[t],
                    ),
                forall|i: int|
                    0 <= i < j ==> (#[trigger] self.nodes()[i]).in_degree() == pending(
                        self.successors(),
                        none_done(self.nodes().len()),
                        self.nodes()[i].id(),
                        self.nodes().len(),
                    ),
                forall|i: int|
                    0 <= i < j ==> (#[trigger] self.nodes()[i]).in_degree()
                        == self.nodes()[i].prevs().len(),
                forall|i: int, t: int|
                    0 <= i < j && 0 <= t < self.nodes()[i].prevs().len() ==> self.ids().contains(
                        #[trigger] self.nodes()[i].prevs()[t],
                    ),
                forall|i: int, k: int|
                    0 <= i < n && 0 <= k < j ==> #[trigger] linked(self.nodes(), i, k),
            decreases n - j,
        {
            let node = &self.nodes[j];
            let id = node.get_id();
            let nexts = node.get_nexts();
            let mut t: usize = 0;
            while t < nexts.len()
                invariant
                    t <= nexts@.len(),
                    j < self.nodes@.len(),
                    nexts@ == self.nodes()[j as int].nexts(),
                    forall|u: int| 0 <= u < t ==> self.ids().contains(#[trigger] nexts@[u]),
                decreases nexts.len() - t,
            {
                match self.position(nexts[t]) {
                    Some(q) => {
                        assert(self.ids()[q as int] == nexts@[t as int]);
                    },
                    None => {
                        assert(!self.ids().contains(self.nodes()[j as int].nexts()[t as int]));
                        return false;
                    },
                }
                t = t + 1;
            }
            let prevs = node.get_prevs();
            let mut t: usize = 0;
            while t < prevs.len()
                invariant
                    t <= prevs@.len(),
                    j < self.nodes@.len(),
                    prevs@ == self.nodes()[j as int].prevs(),
                    forall|u: int| 0 <= u < t ==> self.ids().contains(#[trigger] prevs@[u]),
                decreases prevs.len() - t,
            {
                match self.position(prevs[t]) {
                    Some(q) => {
                        assert(self.ids()[q as int] == prevs@[t as int]);
                    },
                    None => {
                        assert(!self.ids().contains(self.nodes()[j as int].prevs()[t as int]));
                        return false;
                    },
                }
                t = t + 1;
            }
            let mut i: usize = 0;
            while i < n
                invariant
                    i <= n == self.nodes@.len(),
                    j < n,
                    id == self.nodes()[j as int].id(),
                    prevs@ == self.nodes()[j as int].prevs(),
                    forall|k: int| 0 <= k < i ==> #[trigger] linked(self.nodes(), k, j as int),
                decreases n - i,
            {
                let other = &self.nodes[i];
                if Self::count_in(other.get_nexts(), id) != Self::count_in(prevs, other.get_id()) {
                    assert(!linked(self.nodes(), i as int, j as int));
                    return false;
                }
                i = i + 1;
            }
            if node.get_in_degrees() != prevs.len() {
                return false;
            }
            if !self.in_degree_matches(j) {
                return false;
            }
            j = j + 1;
        }
        true
    }

    /// Whether no two nodes have the same identifier.
    fn has_distinct_ids(&self) -> (b: bool)
        ensures
            b == self.ids().no_duplicates(),
    {
        let n = self.nodes.len();
        let mut j: usize = 0;
        while j < n
            invariant
                j <= n == self.nodes@.len(),
                forall|a: int, b: int|
                    0 <= a < j && 0 <= b < n && a != b ==> self.ids()[a] != self.ids()[b],
            decreases n - j,
        {
            let id = self.nodes[j].get_id();
            let mut k: usize = 0;
            while k < n
                invariant
                    k <= n == self.nodes@.len(),
                    j < n,
                    id == self.ids()[j as int],
                    forall|b: int| 0 <= b < k && b != j ==> self.ids()[b] != id,
                decreases n - k,
            {
                if k != j && self.nodes[k].get_id() == id {
                    assert(self.ids()[k as int] == self.ids()[j as int]);
                    return false;
                }
                k = k + 1;
            }
            j = j + 1;
        }
        true
    }

    /// Whether `nodes` can be added to the graph: nothing has been connected to
    /// them yet, and their identifiers are new to the graph and differ from one
    /// another.
    pub fn accepts(&self, nodes: &Vec<ThrillerNode>) -> (b: bool)
        ensures
            b == ((forall|i: int| 0 <= i < nodes@.len() ==> (#[trigger] nodes@[i]).is_fresh())
                && node_ids(self.nodes() + nodes@).no_duplicates()),
    {
        let ghost all = node_ids(self.nodes() + nodes@);
        let ghost n = self.nodes().len() as int;
        if !self.has_distinct_ids() {
            proof {
                let a = choose|a: int, b: int|
                    0 <= a < n && 0 <= b < n && a != b && self.ids()[a] == self.ids()[b];
                assert(all[a.0] == self.ids()[a.0] && all[a.1] == self.ids()[a.1]);
            }
            return false;
        }
        let mut i: usize = 0;
        assert forall|a: int, b: int| 0 <= a < b < n implies all[a] != all[b] by {
            assert(self.ids()[a] == all[a] && self.ids()[b] == all[b]);
        }
        while i < nodes.len()
            invariant
                i <= nodes@.len(),
                n == self.nodes().len(),
                all == node_ids(self.nodes() + nodes@),
                self.ids().no_duplicates(),
                forall|k: int| 0 <= k < i ==> (#[trigger] nodes@[k]).is_fresh(),
                forall|a: int, b: int| 0 <= a < b < n + i ==> all[a] != all[b],
            decreases nodes.len() - i,
        {
            let node = &nodes[i];
            if !node.check_fresh() {
                return false;
            }
            let id = node.get_id();
            assert(all[n + i] == id);
            match self.position(id) {
                Some(q) => {
                    assert(all[q as int] == id);
                    return false;
                },
                None => {
                    assert forall|a: int| 0 <= a < n implies all[a] != id by {
                        assert(self.ids()[a] == all[a]);
                    }
                },
            }
            let mut k: usize = 0;
            while k < i
                invariant
                    k <= i < nodes@.len(),
                    n == self.nodes().len(),
                    all == node_ids(self.nodes() + nodes@),
                    id == all[n + i],
                    forall|a: int| n <= a < n + k ==> all[a] != id,
                decreases i - k,
            {
                if nodes[k].get_id() == id {
                    assert(all[n + k] == id);
                    return false;
                }
                k = k + 1;
            }
            i = i + 1;
        }
        assert forall|a: int, b: int| 0 <= a < all.len() && 0 <= b < all.len() && a != b implies all[a]
            != all[b] by {
            if a < b {
            } else {
                assert(all[b] != all[a]);
            }
        }
        true
    }

    /// Whether both ends of every structural edge are nodes of the graph.
    pub fn has_edge_ends(&self) -> (b: bool)
        ensures
            b == self.edges_in_graph(),
    {
        let mut k: usize = 0;
        while k < self.edges.len()
            invariant
                k <= self.edges@.len(),
                forall|e: int|
                    0 <= e < k ==> self.has_node((#[trigger] self.edges()[e]).src) && self.has_node(
                        self.edges()[e].dst,
                    ),
            decreases self.edges.len() - k,
        {
            let edge = self.edges[k];
            let src = self.position(edge.src);
            let dst = self.position(edge.dst);
            match (src, dst) {
                (Some(s), Some(d)) => {
                    assert(self.ids()[s as int] == edge.src);
                    assert(self.ids()[d as int] == edge.dst);
                },
                _ => {
                    assert(!(self.has_node(self.edges()[k as int].src) && self.has_node(
                        self.edges()[k as int].dst,
                    )));
                    return false;
                },
            }
            k = k + 1;
        }
        true
    }

    /// Whether the graph can be emitted.
    pub fn is_emittable(&self) -> (b: bool)
        ensures
            b == self.emittable(),
        decreases self,
    {
        if !self.is_well_formed() {
            return false;
        }
        if self.try_schedule().is_none() {
            return false;
        }
        let mut i: usize = 0;
        while i < self.nodes.len()
            invariant
                i <= self.nodes@.len(),
                forall|k: int| 0 <= k < i ==> (#[trigger] self.nodes@[k]).emittable(),
            decreases self.nodes.len() - i,
        {
            if !self.nodes[i].is_emittable() {
                return false;
            }
            i = i + 1;
        }
        true
    }

    /// Topological sort of the nodes in the graph, where it has no cycle: the
    /// identifiers of the nodes in the order of `schedule`.
    pub fn try_topo_sort(&self) -> (r: Option<Vec<usize>>)
        requires
            self.wf(),
        ensures
            r is Some <==> self.acyclic(),
            r matches Some(sorted) ==> self.sorted_by(sorted@),
    {
        match self.try_schedule() {
            None => None,
            Some(order) => {
                let mut sorted: Vec<usize> = Vec::new();
                let mut t: usize = 0;
                while t < order.len()
                    invariant
                        t <= order@.len(),
                        is_topological(self.nodes(), positions(order@)),
                        sorted@.len() == t,
                        forall|k: int|
                            0 <= k < t ==> #[trigger] sorted@[k] == self.nodes()[order@[k] as int].id(),
                    decreases order.len() - t,
                {
                    assert(0 <= positions(order@)[t as int] < self.nodes().len());
                    sorted.push(self.nodes[order[t]].get_id());
                    t = t + 1;
                }
                proof {
                    assert(sorted@ =~= ids_at(self.nodes(), positions(order@)));
                    lemma_sorted_ids(self.nodes(), positions(order@));
                }
                Some(sorted)
            },
        }
    }

    /// Topological sort the nodes in the graph: the identifier of every node
    /// exactly once, and that of every node behind those of all its structural
    /// predecessors.
    pub fn topo_sort(&self) -> (sorted: Vec<usize>)
        requires
            self.wf(),
            self.acyclic(),
        ensures
            self.sorted_by(sorted@),
    {
        match self.try_topo_sort() {
            Some(sorted) => sorted,
            None => unreached(),
        }
    }

    /// Whether `sorted` is the topological order in which Kahn's algorithm
    /// schedules the nodes: it holds the identifier of every node exactly once,
    /// that of every node before those of all its successors, and that of every
    /// node behind those of all its predecessors.
    pub open spec fn sorted_by(&self, sorted: Seq<usize>) -> bool {
        &&& schedule(self.nodes()) matches Some(order) && sorted == ids_at(self.nodes(), order)
        &&& sorted.len() == self.nodes().len()
        &&& sorted.no_duplicates()
        &&& forall|j: int| 0 <= j < self.nodes().len() ==> sorted.contains(#[trigger] self.ids()[j])
        &&& forall|t: int| 0 <= t < sorted.len() ==> self.has_node(#[trigger] sorted[t])
        &&& forall|i: int, a: int, b: int|
            0 <= i < self.nodes().len() && 0 <= a < sorted.len() && 0 <= b < sorted.len()
                && #[trigger] self.ids()[i] == #[trigger] sorted[a]
                && self.nodes()[i].nexts().contains(#[trigger] sorted[b]) ==> a < b
        &&& forall|j: int, a: int, b: int|
            0 <= j < self.nodes().len() && 0 <= a < sorted.len() && 0 <= b < sorted.len()
                && #[trigger] self.ids()[j] == #[trigger] sorted[b]
                && self.nodes()[j].prevs().contains(#[trigger] sorted[a]) ==> a < b
    }

    /// The output edges of the reducing blocks among the nodes: the edges that
    /// the block around this graph has to store.
    pub open spec fn reduce_outputs(&self) -> Seq<AttachedEdge> {
        reduce_outputs_of(self.nodes(), self.nodes().len())
    }

    /// The output edges of the reducing blocks among the nodes.
    pub fn get_reduce_outputs(&self) -> (edges: Vec<Rc<AttachedEdge>>)
        ensures
            edge_values(edges@) == self.reduce_outputs(),
    {
        let mut edges: Vec<Rc<AttachedEdge>> = Vec::new();
        let mut i: usize = 0;
        assert(edge_values(edges@) =~= reduce_outputs_of(self.nodes(), 0));
        while i < self.nodes.len()
            invariant
                i <= self.nodes@.len(),
                edge_values(edges@) == reduce_outputs_of(
                    self.nodes(),
                    i as nat,
                ),
            decreases self.nodes.len() - i,
        {
            let ghost before = edge_values(edges@);
            match self.nodes[i].get_inner() {
                ThrillerNodeInner::Block(block) => {
                    if block.is_reduce() {
                        let outputs = block.get_outputs();
                        let mut k: usize = 0;
                        while k < outputs.len()
                            invariant
                                k <= outputs@.len(),
                                edge_values(outputs@) == block.outputs(),
                                edge_values(edges@) == before
                                    + block.outputs().take(k as int),
                            decreases outputs.len() - k,
                        {
                            let ghost held = edge_values(edges@);
                            let edge = Rc::clone(&outputs[k]);
                            edges.push(edge);
                            proof {
                                assert(block.outputs()[k as int] == *outputs@[k as int]);
                                assert(block.outputs().take(k + 1) =~= block.outputs().take(
                                    k as int,
                                ).push(block.outputs()[k as int]));
                                assert(edge_values(edges@) =~= held.push(
                                    *edge,
                                ));
                            }
                            k = k + 1;
                        }
                        assert(block.outputs().take(k as int) =~= block.outputs());
                    } else {
                        assert(edge_values(edges@) =~= before
                            + Seq::<AttachedEdge>::empty());
                    }
                },
                _ => {
                    assert(edge_values(edges@) =~= before
                        + Seq::<AttachedEdge>::empty());
                },
            }
            i = i + 1;
        }
        edges
    }

    /// Whether the graph can be emitted: it is well formed and has no cycle, and
    /// every block among its nodes can be emitted.
    pub closed spec fn emittable(&self) -> bool
        decreases self,
    {
        &&& nodes_wf(self.nodes@)
        &&& nodes_acyclic(self.nodes@)
        &&& forall|i: int| 0 <= i < self.nodes@.len() ==> (#[trigger] self.nodes@[i]).emittable()
    }

    /// What the graph emits: the code of its nodes in the order of `schedule`, or
    /// the first error among them.
    pub closed spec fn graph_text(&self) -> Result<Seq<char>, ThrillerError>
        decreases self,
    {
        match schedule(self.nodes@) {
            Some(order) => emit_in_order(self.nodes@, order, order.len()),
            None => Ok(Seq::empty()),
        }
    }

    /// `emittable` and `graph_text`, by the nodes.
    pub proof fn lemma_graph_text(&self)
        ensures
            self.emittable() == (self.wf() && self.acyclic() && forall|i: int|
                0 <= i < self.nodes().len() ==> (#[trigger] self.nodes()[i]).emittable()),
            self.graph_text() == (match schedule(self.nodes()) {
                Some(order) => emit_in_order(self.nodes(), order, order.len()),
                None => Ok(Seq::empty()),
            }),
    {
    }

    /// The buffers of the graph: those of its nodes, in the order of the nodes.
    pub closed spec fn buffers(&self) -> Seq<Buffer>
        decreases self,
    {
        buffers_of(self.nodes@, self.nodes@.len())
    }

    /// The attached edges of the graph: those of the blocks among its nodes, in
    /// the order of the nodes.
    pub closed spec fn attached_edges(&self) -> Seq<AttachedEdge>
        decreases self,
    {
        attached_edges_of(self.nodes@, self.nodes@.len())
    }

    /// `buffers` and `attached_edges`, by the nodes.
    pub proof fn lemma_graph_parts(&self)
        ensures
            self.buffers() == buffers_of(self.nodes(), self.nodes().len()),
            self.attached_edges() == attached_edges_of(self.nodes(), self.nodes().len()),
    {
    }

    /// Appends the buffers of the graph to `out`.
    pub fn collect_buffers(&self, out: &mut Vec<Rc<Buffer>>)
        ensures
            buffer_values(final(out)@) == buffer_values(old(out)@) + self.buffers(),
        decreases self,
    {
        let ghost start = buffer_values(out@);
        let mut i: usize = 0;
        assert(buffer_values(out@) =~= start + buffers_of(self.nodes@, 0));
        while i < self.nodes.len()
            invariant
                i <= self.nodes@.len(),
                buffer_values(out@) == start + buffers_of(self.nodes@, i as nat),
            decreases self.nodes.len() - i,
        {
            self.nodes[i].collect_buffers(out);
            i = i + 1;
            assert(buffer_values(out@) =~= start + buffers_of(self.nodes@, i as nat));
        }
    }

    /// Appends the attached edges of the graph to `out`.
    pub fn collect_attached_edges(&self, out: &mut Vec<Rc<AttachedEdge>>)
        ensures
            edge_values(final(out)@) == edge_values(old(out)@) + self.attached_edges(),
        decreases self,
    {
        let ghost start = edge_values(out@);
        let mut i: usize = 0;
        assert(edge_values(out@) =~= start + attached_edges_of(self.nodes@, 0));
        while i < self.nodes.len()
            invariant
                i <= self.nodes@.len(),
                edge_values(out@) == start + attached_edges_of(self.nodes@, i as nat),
            decreases self.nodes.len() - i,
        {
            self.nodes[i].collect_attached_edges(out);
            i = i + 1;
            assert(edge_values(out@) =~= start + attached_edges_of(self.nodes@, i as nat));
        }
    }

    /// The nodes, in the order in which they were added.
    pub fn get_nodes(&self) -> (nodes: &Vec<ThrillerNode>)
        ensures
            nodes@ == self.nodes(),
    {
        &self.nodes
    }

    /// The structural edges, in the order in which they were added.
    pub fn get_edges(&self) -> (edges: &Vec<ThrillerEdge>)
        ensures
            edges@ == self.edges(),
    {
        &self.edges
    }

    /// The graph's name.
    pub open spec fn graph_name(&self) -> Seq<char> {
        "graph_"@ + decimal(self.id() as nat)
    }

    /// Emits the code of the graph.
    pub fn emit_graph(&self) -> (r: ThrillerResult<String>)
        requires
            self.emittable(),
        ensures
            emitted(r, self.graph_text()),
        decreases self,
    {
        let order = match self.try_schedule() {
            Some(order) => order,
            None => unreached(),
        };
        let ghost nodes = self.nodes();
        let ghost ord = positions(order@);
        let mut code = String::new();
        let mut t: usize = 0;
        while t < order.len()
            invariant
                t <= order@.len(),
                nodes == self.nodes@,
                ord == positions(order@),
                is_topological(nodes, ord),
                schedule(nodes) == Some(ord),
                self.emittable(),
                emit_in_order(nodes, ord, t as nat) == Ok::<Seq<char>, ThrillerError>(code@),
            decreases order.len() - t,
        {
            assert(0 <= ord[t as int] < nodes.len());
            match self.nodes[order[t]].emit_inner() {
                Ok(text) => {
                    code.append(text.as_str());
                },
                Err(e) => {
                    proof {
                        assert(emit_in_order(nodes, ord, (t + 1) as nat) == Err::<
                            Seq<char>,
                            ThrillerError,
                        >(e));
                        lemma_error_sticks(nodes, ord, (t + 1) as nat, ord.len());
                    }
                    return Err(e);
                },
            }
            t = t + 1;
        }
        Ok(code)
    }
}

impl Task for ThrillerGraph {
    open spec fn ready(&self) -> bool {
        self.emittable()
    }

    open spec fn emit_text(&self) -> Result<Seq<char>, ThrillerError> {
        self.graph_text()
    }

    open spec fn name_text(&self) -> Seq<char> {
        self.graph_name()
    }

    fn emit(&self) -> (r: ThrillerResult<String>) {
        self.emit_graph()
    }

    fn get_name(&self) -> (name: String) {
        let mut name = String::from_str("graph_");
        push_decimal(&mut name, self.id);
        name
    }
}

} // verus!
