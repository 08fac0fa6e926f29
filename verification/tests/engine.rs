use std::rc::Rc;

use thriller_core::kernels::memory::Memory;
use thriller_core::kernels::sync::Sync;
use thriller_core::{
    AccessMap, AccessMatrix, AccessOffset, AllocateEdge, AllocateVar, AttachedEdge, BlockLayout,
    BlockShape, BlockType, BufType, Buffer, CopyTask, CopyType, Gemm, GraphPass, IdCounter,
    IterationBound, IterationVar, Layout, MemoryLevel, Operator, RegularVar, ScheduleNode,
    ScheduleTree, ThrillerBlock, ThrillerEngine, ThrillerError, ThrillerGraph, ThrillerNode,
    ThrillerNodeInner, Var,
};

fn buffer(name: &str, typing: BufType, ids: &mut IdCounter) -> Rc<Buffer> {
    Rc::new(Buffer::new(name, typing, &[64, 64], Layout::RowMajor, ids.next()))
}

fn ivar(name: &str, upper: usize, ids: &mut IdCounter) -> Rc<IterationVar> {
    Rc::new(IterationVar::new(
        name,
        (IterationBound::Fixed(0), IterationBound::Fixed(upper)),
        ids.next(),
    ))
}

/// One block at the register level with two inputs from shared memory, neither
/// with an access map, and no output.
#[test]
fn register_block_with_two_loads_and_no_store() {
    let mut ids = IdCounter::new();
    let s_a = buffer("sA", BufType::SharedTile, &mut ids);
    let r_a = buffer("rA", BufType::RegTile, &mut ids);
    let s_b = buffer("sB", BufType::SharedTile, &mut ids);
    let r_b = buffer("rB", BufType::RegTile, &mut ids);
    let block = ThrillerBlock::new(
        vec![
            Rc::new(AttachedEdge::new(s_a, r_a, None, ids.next())),
            Rc::new(AttachedEdge::new(s_b, r_b, None, ids.next())),
        ],
        vec![],
        MemoryLevel::Register,
        Rc::new(ThrillerGraph::new(ids.next())),
        BlockType::Mapping,
        ids.next(),
    );
    let engine = ThrillerEngine::new(block);
    let code = engine.dataflow_generate().unwrap();
    assert_eq!(
        code,
        "copy_2d_tile_s2r(sA, rA);\ncopy_2d_tile_s2r(sB, rB);\n__copy_async();\n__syncthreads();\n"
    );
    let lines: Vec<&str> = code.lines().collect();
    assert!(lines[0].starts_with("copy_2d_tile_s2r(sA"));
    assert!(lines[1].starts_with("copy_2d_tile_s2r(sB"));
    assert_eq!(*lines.last().unwrap(), "__syncthreads();");
    assert!(!code.contains("storer"));
    assert_eq!(engine.get_dataflow_block().gen_store().unwrap(), "");
}

fn gemm_block(ids: &mut IdCounter) -> ThrillerBlock {
    let r_a = buffer("rA", BufType::RegTile, ids);
    let r_b = buffer("rB", BufType::RegTile, ids);
    let acc = buffer("acc", BufType::RegTile, ids);
    let a = ThrillerNode::new(ThrillerNodeInner::Buffer(r_a), ids.next());
    let b = ThrillerNode::new(ThrillerNodeInner::Buffer(r_b), ids.next());
    let c = ThrillerNode::new(ThrillerNodeInner::Buffer(acc), ids.next());
    let gemm = Gemm::new(vec![&a, &b], &c, Rc::new(AccessMap::new(0, vec![])), ids.next());
    let op = ThrillerNode::new(ThrillerNodeInner::Op(Operator::Gemm(gemm)), ids.next());
    let mut graph = ThrillerGraph::new(ids.next());
    graph.add_nodes(vec![op, a, b, c]);
    ThrillerBlock::new(
        vec![],
        vec![],
        MemoryLevel::Global,
        Rc::new(graph),
        BlockType::Mapping,
        ids.next(),
    )
}

const DECLARATION: &str = "extern __shared__ __align__(sizeof(double)) unsigned char shared_buf[];
auto* shm = reinterpret_cast<Element*>(shared_buf);
";

#[test]
fn kernel_around_a_block() {
    let mut ids = IdCounter::new();
    let mut engine = ThrillerEngine::new(gemm_block(&mut ids));
    let var_a = Rc::new(RegularVar::new(String::from("A"), ids.next()));
    let var_b = Rc::new(RegularVar::new(String::from("B"), ids.next()));
    let var_c = Rc::new(RegularVar::new(String::from("C"), ids.next()));
    engine.add_inputs(vec![var_a, var_b]);
    engine.add_outputs(vec![var_c]);
    engine.add_input_blocks(vec![
        Rc::new(BlockLayout::new([BlockShape::Num(1), BlockShape::Num(2), BlockShape::Num(3)])),
        Rc::new(BlockLayout::new([
            BlockShape::Var(RegularVar::new(String::from("M"), ids.next())),
            BlockShape::Num(16),
            BlockShape::Num(1),
        ])),
    ]);
    assert_eq!(engine.input_counts(), (2, 2));
    let signature = "template<typename Element, typename KeTraits>\n__global__ void thriller_gemm(const Element* A, const Element* B, Element* C)";
    assert_eq!(engine.emit_function_signature("thriller_gemm").unwrap(), signature);
    assert_eq!(
        engine.emit_header().unwrap(),
        "#include \"cell/mod.hpp\"\n#include \"layout.hpp\"\n\n\n"
    );
    let kernel = format!(
        "{}{{\n// Declare shared memory buffer\n{}\n{}{}// Emit dataflow code.\n{}}}\n",
        signature,
        DECLARATION,
        "Element* todo = const_cast<Element*>(A) + blockIdx.x * 1 + blockIdx.y * 2 + blockIdx.z * 3;\n",
        "Element* todo = const_cast<Element*>(B) + blockIdx.x * M + blockIdx.y * 16 + blockIdx.z * 1;\n",
        "cute::gemm(rA, rB, acc);\n",
    );
    assert_eq!(engine.emit_dataflow("thriller_gemm").unwrap(), kernel);
    let file = format!(
        "#include \"cell/mod.hpp\"\n#include \"layout.hpp\"\n\n\nnamespace tiledcuda::kernels {{\n\n{}\n}}  // namespace tiledcuda::kernels\n",
        kernel
    );
    assert_eq!(engine.emit_kernel_file("thriller_gemm").unwrap(), file);
}

#[test]
fn signature_without_inputs() {
    let mut ids = IdCounter::new();
    let mut engine = ThrillerEngine::new(gemm_block(&mut ids));
    assert_eq!(
        engine.emit_function_signature("k").unwrap(),
        "template<typename Element, typename KeTraits>\n__global__ void k()"
    );
    engine.add_outputs(vec![Rc::new(RegularVar::new(String::from("C"), ids.next()))]);
    assert_eq!(
        engine.emit_function_signature("k").unwrap(),
        "template<typename Element, typename KeTraits>\n__global__ void k(, Element* C)"
    );
}

#[test]
fn error_of_the_block_is_the_error_of_the_kernel() {
    let mut ids = IdCounter::new();
    let s = buffer("s", BufType::SharedTile, &mut ids);
    let r = buffer("r", BufType::RegTile, &mut ids);
    let block = ThrillerBlock::new(
        vec![Rc::new(AttachedEdge::new(s, r, None, ids.next()))],
        vec![],
        MemoryLevel::Register,
        Rc::new(ThrillerGraph::new(ids.next())),
        BlockType::Mapping,
        ids.next(),
    );
    let engine = ThrillerEngine::new(block);
    assert_eq!(engine.emit_dataflow("k"), Err(ThrillerError::MissingAccessMap));
    assert_eq!(engine.emit_kernel_file("k"), Err(ThrillerError::MissingAccessMap));
}

#[test]
fn block_layout_dimensions() {
    let layout = BlockLayout::new([
        BlockShape::Num(128),
        BlockShape::Var(RegularVar::new(String::from("N"), 0)),
        BlockShape::Num(0),
    ]);
    assert_eq!(layout.get_dim_x(), "128");
    assert_eq!(layout.get_dim_y(), "N");
    assert_eq!(layout.get_dim_z(), "0");
    assert!(matches!(layout.get_dim3()[0], BlockShape::Num(128)));
    assert_eq!(BlockShape::Num(5).to_string(), "5");
}

#[test]
fn kernel_primitives() {
    assert_eq!(Sync::emit_sync(), "__syncthreads();\n");
    assert_eq!(Sync::emit_copy_async(), "__copy_async();\n");
    assert_eq!(Memory::emit_shared_buf_decl(), DECLARATION);
    assert_eq!(
        thriller_core::kernels::copy::Copy::emit_copy_2d_tile_g2s("gA", 3, "sA", 12),
        "copy_2d_tile_g2s(gA[3], sA[12])"
    );
}

/// A graph with a buffer of each kind and, in a block, another graph.
fn nested_graph(ids: &mut IdCounter) -> ThrillerGraph {
    let g = buffer("gA", BufType::GlobalTile, ids);
    let s = buffer("sA", BufType::SharedTile, ids);
    let r = buffer("rA", BufType::RegTile, ids);
    let v = Rc::new(Buffer::new("vA", BufType::RegVec, &[64], Layout::RowMajor, ids.next()));
    let mut inner = ThrillerGraph::new(ids.next());
    inner.add_nodes(vec![
        ThrillerNode::new(ThrillerNodeInner::Buffer(r.clone()), ids.next()),
        ThrillerNode::new(ThrillerNodeInner::Buffer(v.clone()), ids.next()),
        ThrillerNode::new(
            ThrillerNodeInner::Op(Operator::Copy(CopyTask::new(CopyType::SharedToRF, ids.next()))),
            ids.next(),
        ),
    ]);
    let block = ThrillerBlock::new(
        vec![
            Rc::new(AttachedEdge::new(g.clone(), s.clone(), None, ids.next())),
            Rc::new(AttachedEdge::new(s.clone(), r.clone(), None, ids.next())),
            Rc::new(AttachedEdge::new(g.clone(), r.clone(), None, ids.next())),
        ],
        vec![
            Rc::new(AttachedEdge::new(r.clone(), s.clone(), None, ids.next())),
            Rc::new(AttachedEdge::new(s.clone(), g.clone(), None, ids.next())),
        ],
        MemoryLevel::Shared,
        Rc::new(inner),
        BlockType::Mapping,
        ids.next(),
    );
    let mut graph = ThrillerGraph::new(ids.next());
    graph.add_nodes(vec![
        ThrillerNode::new(ThrillerNodeInner::Buffer(g), ids.next()),
        ThrillerNode::new(ThrillerNodeInner::Block(Rc::new(block)), ids.next()),
        ThrillerNode::new(ThrillerNodeInner::Buffer(s), ids.next()),
    ]);
    graph
}

#[test]
fn variables_are_declared_for_all_buffers() {
    let mut ids = IdCounter::new();
    let mut graph = nested_graph(&mut ids);
    let mut pass = AllocateVar::new();
    assert_eq!(pass.code(), "");
    pass.run(&mut graph);
    assert_eq!(pass.code(), "GlobalgA gA;\nRegrA rA;\nRegvA vA;\nSharedsA sA;\n");
    pass.run(&mut graph);
    assert_eq!(
        pass.code(),
        "GlobalgA gA;\nRegrA rA;\nRegvA vA;\nSharedsA sA;\nGlobalgA gA;\nRegrA rA;\nRegvA vA;\nSharedsA sA;\n"
    );
}

#[test]
fn movers_are_declared_for_attached_edges() {
    let mut ids = IdCounter::new();
    let mut graph = nested_graph(&mut ids);
    let mut pass = AllocateEdge::new();
    pass.run(&mut graph);
    assert_eq!(
        pass.code(),
        "G2SLoadergA_sA g2sgA_sA;\nS2RLoadersA_rA s2rsA_rA;\nR2SStorerrA_sA r2srA_sA;\nS2GStorersA_gA s2gsA_gA;\n"
    );
    let g = buffer("x", BufType::GlobalTile, &mut ids);
    let s = buffer("y", BufType::SharedTile, &mut ids);
    let mut pass = AllocateEdge::new();
    pass.allocate_edge(&AttachedEdge::new(s.clone(), s.clone(), None, ids.next()));
    assert_eq!(pass.code(), "");
    pass.allocate_edge(&AttachedEdge::new(g, s, None, ids.next()));
    assert_eq!(pass.code(), "G2SLoaderx_y g2sx_y;\n");
}

#[test]
fn schedule_nodes_emit_their_loops_and_tasks() {
    let mut ids = IdCounter::new();
    let mut node = ScheduleNode::new(vec![ivar("i", 4, &mut ids), ivar("j", 8, &mut ids)]);
    assert_eq!(
        node.emit_loop().unwrap(),
        "for(int i = 0; i < 4; i++) {\n    for(int j = 0; j < 8; j++) {\n"
    );
    assert_eq!(node.emit().unwrap(), "");
    node.mount_task(Operator::Copy(CopyTask::new(CopyType::GlobalToShared, ids.next())));
    node.mount_task(Operator::Copy(CopyTask::new(CopyType::SharedToRF, ids.next())));
    assert_eq!(node.emit().unwrap(), "copy_tensor_g2s(a, b, c)copy_tensor_s2rf(a, b, c)");
    let a = ThrillerNode::new(
        ThrillerNodeInner::Buffer(buffer("a", BufType::RegTile, &mut ids)),
        ids.next(),
    );
    node.mount_task(Operator::Gemm(Gemm::new(
        vec![&a],
        &a,
        Rc::new(AccessMap::new(0, vec![])),
        ids.next(),
    )));
    node.mount_task(Operator::Copy(CopyTask::new(CopyType::SharedToRF, ids.next())));
    assert_eq!(node.emit(), Err(ThrillerError::WrongInputsNum));
    node.add_child(ScheduleNode::new(vec![]));
    let tree = ScheduleTree::new(node);
    assert_eq!(tree.get_root().emit(), Err(ThrillerError::WrongInputsNum));
    assert_eq!(ScheduleNode::new(vec![]).emit_loop().unwrap(), "");
}

#[test]
fn variables_have_names_and_identifiers() {
    let var = RegularVar::new(String::from("M"), 9);
    assert_eq!(var.get_name(), "M");
    assert_eq!(var.get_id(), 9);
    let iter = IterationVar::new("i", (IterationBound::Fixed(2), IterationBound::Var(var)), 4);
    assert_eq!(iter.get_name(), "i");
    assert_eq!(iter.get_id(), 4);
    assert_eq!(iter.get_domain().0.to_string(), "2");
    assert_eq!(iter.get_domain().1.to_string(), "M");
    let mut map = AccessMap::new(1, vec![3]);
    map.add_iter_var(Rc::new(iter));
    assert_eq!(map.gen_loop_access(String::new()).unwrap(), "for(int i = 2; i < M; i++) {\n}\n");
    assert_eq!(map.get_loop_depth(), 1);
    assert_eq!(map.get_iter_vars().len(), 1);
    map.add_access_matrix(AccessMatrix(vec![vec![4]]));
    map.add_access_offset(AccessOffset(vec![1]));
    assert_eq!(map.get_access_matrixs().len(), 1);
    assert_eq!(map.get_access_offsets()[0].0, vec![1]);
}
