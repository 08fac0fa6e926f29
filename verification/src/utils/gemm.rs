//! Builders for the blocks of a tiled GEMM.

use std::rc::Rc;
use vstd::prelude::*;

use crate::access::{AccessMap, AccessMatrix, AccessOffset};
use crate::buffer::{BufType, Buffer};
use crate::dataflow::block::{BlockType, ThrillerBlock};
use crate::dataflow::transfer::{all_loadable, all_storable, loadable, storable};
use crate::dataflow::edge::{AttachedEdge, ThrillerEdge};
use crate::dataflow::graph::{reduce_outputs_of, ThrillerGraph};
use crate::dataflow::order::lemma_connected_acyclic;
use crate::dataflow::structure::node_ids;
use crate::dataflow::node::{ThrillerNode, ThrillerNodeInner};
use crate::id::IdCounter;
use crate::task::{Gemm, Operator};
use crate::utils::buf::BufBuilder;
use crate::var::{IterationBound, IterationVar};
use crate::MemoryLevel;

verus! {

/// Builders of the blocks of a tiled GEMM.
pub struct ThrillerUtils();

/// The access map of one loop over `name` from zero to ten that indexes two
/// buffers by the loop variable.
fn unit_access_map(name: &str, id: usize) -> (map: AccessMap)
    ensures
        map.depth() == 1,
        map.ivars().len() == 1,
{
    let iter_var = Rc::new(
        IterationVar::new(name, (IterationBound::Fixed(0), IterationBound::Fixed(10)), id),
    );
    let mut access_map = AccessMap::new(1, vec![1]);
    access_map.add_iter_var(iter_var);
    let mut row: Vec<usize> = Vec::new();
    row.push(1);
    let mut rows: Vec<Vec<usize>> = Vec::new();
    rows.push(row);
    access_map.add_access_matrix(AccessMatrix(rows));
    let mut row: Vec<usize> = Vec::new();
    row.push(1);
    let mut rows: Vec<Vec<usize>> = Vec::new();
    rows.push(row);
    access_map.add_access_matrix(AccessMatrix(rows));
    let mut offsets: Vec<usize> = Vec::new();
    offsets.push(0);
    access_map.add_access_offset(AccessOffset(offsets));
    let mut offsets: Vec<usize> = Vec::new();
    offsets.push(0);
    access_map.add_access_offset(AccessOffset(offsets));
    access_map
}

/// The graph of three nodes around a fourth: `a` and `b` lead to `op`, and
/// `op` leads to `c`.
fn fan_graph(
    a: ThrillerNode,
    b: ThrillerNode,
    c: ThrillerNode,
    op: ThrillerNode,
    id: usize,
) -> (graph: ThrillerGraph)
    requires
        a.is_fresh(),
        b.is_fresh(),
        c.is_fresh(),
        op.is_fresh(),
        a.id() != b.id(),
        a.id() != c.id(),
        a.id() != op.id(),
        b.id() != c.id(),
        b.id() != op.id(),
        c.id() != op.id(),
    ensures
        graph.wf(),
        graph.acyclic(),
        graph.nodes().len() == 4,
        graph.nodes()[0].same_payload(&a),
        graph.nodes()[1].same_payload(&b),
        graph.nodes()[2].same_payload(&c),
        graph.nodes()[3].same_payload(&op),
{
    let mut edges: Vec<ThrillerEdge> = Vec::new();
    edges.push(ThrillerEdge::new(&a, &op));
    edges.push(ThrillerEdge::new(&b, &op));
    edges.push(ThrillerEdge::new(&op, &c));
    let mut nodes: Vec<ThrillerNode> = Vec::new();
    nodes.push(a);
    nodes.push(b);
    nodes.push(c);
    nodes.push(op);
    let mut graph = ThrillerGraph::new(id);
    proof {
        let ids = node_ids(graph.nodes() + nodes@);
        assert(ids.len() == 4);
        assert(ids[0] == a.id() && ids[1] == b.id() && ids[2] == c.id() && ids[3] == op.id());
    }
    graph.add_nodes(nodes);
    graph.add_edges(edges);
    let ghost before = graph.nodes();
    let ghost all = graph.edges();
    proof {
        assert(before.len() == 4);
        assert(before[0] == a && before[1] == b && before[2] == c && before[3] == op);
        assert(all.len() == 3);
        assert(graph.ids()[0] == a.id() && graph.ids()[1] == b.id() && graph.ids()[2] == c.id()
            && graph.ids()[3] == op.id());
        assert(graph.edges_in_graph());
    }
    graph.connect();
    proof {
        let rank: Seq<nat> = seq![0nat, 0nat, 2nat, 1nat];
        lemma_connected_acyclic(before, graph.nodes(), all, rank);
    }
    graph
}

impl ThrillerUtils {
    /// Build a RF level GEMM graph: the reducing block at the register level that
    /// loads tiles of `s_a` and `s_b` into registers and multiplies them into
    /// an accumulator, whose store into `s_c` it leaves to the block around it.
    pub fn build_gemm_rf_block(
        s_a: Rc<Buffer>,
        s_b: Rc<Buffer>,
        s_c: Rc<Buffer>,
        ids: &mut IdCounter,
    ) -> (block: ThrillerBlock)
        requires
            old(ids).upcoming() + 14 <= usize::MAX,
            s_a.typing() == BufType::SharedTile,
            s_b.typing() == BufType::SharedTile,
        ensures
            final(ids).upcoming() == old(ids).upcoming() + 14,
            block.emittable(),
            block.id() == old(ids).upcoming() + 13,
            block.block_type() == BlockType::Reduce,
            block.mem_level() == MemoryLevel::Register,
            block.unified_access_map() is Some,
            block.inputs().len() == 2,
            block.inputs()[0].src() == *s_a,
            block.inputs()[1].src() == *s_b,
            block.outputs().len() == 1,
            block.outputs()[0].src().typing() == BufType::RegTile,
            block.outputs()[0].dst() == *s_c,
    {
        let r_a = Rc::new(BufBuilder::row_major_reg_tile("rA", &[64, 64], ids.next()));
        let r_b = Rc::new(BufBuilder::col_major_reg_tile("rB", &[64, 64], ids.next()));
        let acc = Rc::new(BufBuilder::row_major_reg_tile("acc", &[64, 64], ids.next()));
        let access_map = Rc::new(unit_access_map("i", ids.next()));

        let in_edge0 = Rc::new(
            AttachedEdge::new(s_a, Rc::clone(&r_a), Some(Rc::clone(&access_map)), ids.next()),
        );
        let in_edge1 = Rc::new(
            AttachedEdge::new(s_b, Rc::clone(&r_b), Some(Rc::clone(&access_map)), ids.next()),
        );
        let out_edge = Rc::new(AttachedEdge::new(Rc::clone(&acc), s_c, None, ids.next()));

        let r_a_node = ThrillerNode::new(ThrillerNodeInner::Buffer(r_a), ids.next());
        let r_b_node = ThrillerNode::new(ThrillerNodeInner::Buffer(r_b), ids.next());
        let acc_node = ThrillerNode::new(ThrillerNodeInner::Buffer(acc), ids.next());
        let mut prevs: Vec<&ThrillerNode> = Vec::new();
        prevs.push(&r_a_node);
        prevs.push(&r_b_node);
        let gemm = Gemm::new(prevs, &acc_node, Rc::clone(&access_map), ids.next());
        let gemm_node = ThrillerNode::new(ThrillerNodeInner::Op(Operator::Gemm(gemm)), ids.next());

        let subgraph = fan_graph(r_a_node, r_b_node, acc_node, gemm_node, ids.next());
        proof {
            subgraph.lemma_graph_text();
            assert forall|i: int| 0 <= i < subgraph.nodes().len() implies (
            #[trigger] subgraph.nodes()[i]).emittable() by {
                subgraph.nodes()[i].lemma_node_text();
            }
            assert(subgraph.emittable());
            assert(subgraph.reduce_outputs() =~= Seq::<AttachedEdge>::empty()) by {
                let nodes = subgraph.nodes();
                assert(reduce_outputs_of(nodes, 0) =~= Seq::<AttachedEdge>::empty());
                assert(reduce_outputs_of(nodes, 1) =~= Seq::<AttachedEdge>::empty());
                assert(reduce_outputs_of(nodes, 2) =~= Seq::<AttachedEdge>::empty());
                assert(reduce_outputs_of(nodes, 3) =~= Seq::<AttachedEdge>::empty());
                assert(reduce_outputs_of(nodes, 4) =~= Seq::<AttachedEdge>::empty());
            }
        }

        let mut inputs: Vec<Rc<AttachedEdge>> = Vec::new();
        inputs.push(in_edge0);
        inputs.push(in_edge1);
        let mut outputs: Vec<Rc<AttachedEdge>> = Vec::new();
        outputs.push(out_edge);
        let mut block = ThrillerBlock::new(
            inputs,
            outputs,
            MemoryLevel::Register,
            Rc::new(subgraph),
            BlockType::Reduce,
            ids.next(),
        );
        let merged = block.merge_access_map();
        proof {
            assert(loadable(block.inputs()[0]));
            assert(loadable(block.inputs()[1]));
            assert(all_loadable(block.inputs()));
            assert(all_storable(block.subgraph().reduce_outputs()));
            block.lemma_block_text();
        }
        block
    }

    /// Build a shared level GEMM graph: the block at the shared level that loads
    /// tiles of `g_a` and `g_b` into shared memory, runs the block at the
    /// register level on them and stores the result into `g_c`.
    pub fn build_shared_gemm_block(
        g_a: Rc<Buffer>,
        g_b: Rc<Buffer>,
        g_c: Rc<Buffer>,
        ids: &mut IdCounter,
    ) -> (block: ThrillerBlock)
        requires
            old(ids).upcoming() + 27 <= usize::MAX,
            g_a.typing() == BufType::GlobalTile,
            g_b.typing() == BufType::GlobalTile,
            g_c.typing() == BufType::GlobalTile,
        ensures
            final(ids).upcoming() == old(ids).upcoming() + 27,
            block.emittable(),
            block.id() == old(ids).upcoming() + 26,
            block.block_type() == BlockType::Mapping,
            block.mem_level() == MemoryLevel::Shared,
            block.unified_access_map() is Some,
            block.inputs().len() == 2,
            block.inputs()[0].src() == *g_a,
            block.inputs()[1].src() == *g_b,
            block.outputs().len() == 1,
            block.outputs()[0].dst() == *g_c,
    {
        let access_map = Rc::new(unit_access_map("j", ids.next()));
        let s_a = Rc::new(BufBuilder::row_major_shared_tile("sA", &[256, 256], ids.next()));
        let s_b = Rc::new(BufBuilder::col_major_shared_tile("sB", &[256, 256], ids.next()));
        let s_c = Rc::new(BufBuilder::row_major_shared_tile("sC", &[256, 256], ids.next()));

        let in_edge0 = Rc::new(
            AttachedEdge::new(g_a, Rc::clone(&s_a), Some(Rc::clone(&access_map)), ids.next()),
        );
        let in_edge1 = Rc::new(
            AttachedEdge::new(g_b, Rc::clone(&s_b), Some(Rc::clone(&access_map)), ids.next()),
        );
        let out_edge = Rc::new(AttachedEdge::new(Rc::clone(&s_c), g_c, None, ids.next()));

        let rf = Self::build_gemm_rf_block(Rc::clone(&s_a), Rc::clone(&s_b), Rc::clone(&s_c), ids);
        let ghost inner = rf;
        let rf_block = Rc::new(rf);

        let s_a_node = ThrillerNode::new(ThrillerNodeInner::Buffer(s_a), ids.next());
        let s_b_node = ThrillerNode::new(ThrillerNodeInner::Buffer(s_b), ids.next());
        let s_c_node = ThrillerNode::new(ThrillerNodeInner::Buffer(s_c), ids.next());
        let rf_block_node = ThrillerNode::new(ThrillerNodeInner::Block(rf_block), ids.next());

        let subgraph = fan_graph(s_a_node, s_b_node, s_c_node, rf_block_node, ids.next());
        proof {
            subgraph.lemma_graph_text();
            assert forall|i: int| 0 <= i < subgraph.nodes().len() implies (
            #[trigger] subgraph.nodes()[i]).emittable() by {
                subgraph.nodes()[i].lemma_node_text();
            }
            assert(subgraph.emittable());
            assert(subgraph.reduce_outputs() =~= inner.outputs()) by {
                let nodes = subgraph.nodes();
                assert(reduce_outputs_of(nodes, 0) =~= Seq::<AttachedEdge>::empty());
                assert(reduce_outputs_of(nodes, 1) =~= Seq::<AttachedEdge>::empty());
                assert(reduce_outputs_of(nodes, 2) =~= Seq::<AttachedEdge>::empty());
                assert(reduce_outputs_of(nodes, 3) =~= Seq::<AttachedEdge>::empty());
                assert(reduce_outputs_of(nodes, 4) =~= inner.outputs());
            }
            assert(storable(inner.outputs()[0]));
            assert(all_storable(subgraph.reduce_outputs()));
        }

        let mut inputs: Vec<Rc<AttachedEdge>> = Vec::new();
        inputs.push(in_edge0);
        inputs.push(in_edge1);
        let mut outputs: Vec<Rc<AttachedEdge>> = Vec::new();
        outputs.push(out_edge);
        let mut block = ThrillerBlock::new(
            inputs,
            outputs,
            MemoryLevel::Shared,
            Rc::new(subgraph),
            BlockType::Mapping,
            ids.next(),
        );
        let merged = block.merge_access_map();
        proof {
            assert(loadable(block.inputs()[0]));
            assert(loadable(block.inputs()[1]));
            assert(all_loadable(block.inputs()));
            assert(storable(block.outputs()[0]));
            assert(all_storable(block.outputs()));
            block.lemma_block_text();
        }
        block
    }
}

} // verus!
