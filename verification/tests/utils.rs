use std::rc::Rc;

use thriller_core::{
    AttachedEdge, BlockType, BufBuilder, BufType, Buffer, Dimension, IdCounter, Layout,
    MemoryLevel, Task, ThrillerBlock, ThrillerEdge, ThrillerGraph, ThrillerNode,
    ThrillerNodeInner, ThrillerUtils,
};

#[test]
fn tiles_of_each_kind_and_layout() {
    let tile = BufBuilder::row_major_global_tile("gA", &[256, 128], 0);
    assert_eq!(tile.get_name(), "gA");
    assert_eq!(*tile.get_typing(), BufType::GlobalTile);
    assert_eq!(tile.get_id(), 0);
    assert_eq!(tile.get_shape().get_strides().slice(), &[128, 1]);
    let tile = BufBuilder::col_major_global_tile("gB", &[256, 128], 1);
    assert_eq!(*tile.get_typing(), BufType::GlobalTile);
    assert_eq!(tile.get_shape().get_strides().slice(), &[1, 256]);
    let tile = BufBuilder::row_major_shared_tile("sA", &[64, 32], 2);
    assert_eq!(*tile.get_typing(), BufType::SharedTile);
    assert_eq!(tile.get_shape().get_strides().slice(), &[32, 1]);
    let tile = BufBuilder::col_major_shared_tile("sB", &[64, 32], 3);
    assert_eq!(*tile.get_typing(), BufType::SharedTile);
    assert_eq!(tile.get_shape().get_strides().slice(), &[1, 64]);
    let tile = BufBuilder::row_major_reg_tile("rA", &[16, 8], 4);
    assert_eq!(*tile.get_typing(), BufType::RegTile);
    assert_eq!(tile.get_shape().get_strides().slice(), &[8, 1]);
    let tile = BufBuilder::col_major_reg_tile("rB", &[16, 8], 5);
    assert_eq!(*tile.get_typing(), BufType::RegTile);
    assert_eq!(tile.get_name(), "rB");
    assert_eq!(tile.get_id(), 5);
    assert_eq!(tile.get_shape().get_strides().slice(), &[1, 16]);
}

#[test]
fn gemm_block_at_the_register_level() {
    let mut ids = IdCounter::new();
    let s_a = Rc::new(BufBuilder::row_major_shared_tile("sA", &[256, 256], ids.next()));
    let s_b = Rc::new(BufBuilder::col_major_shared_tile("sB", &[256, 256], ids.next()));
    let s_c = Rc::new(BufBuilder::row_major_shared_tile("sC", &[256, 256], ids.next()));
    let block = ThrillerUtils::build_gemm_rf_block(s_a, s_b, s_c, &mut ids);
    assert_eq!(ids.next(), 17);
    assert_eq!(block.get_name(), "block_16");
    assert!(block.is_emittable());
    assert!(block.is_reduce());
    assert_eq!(block.get_mem_level(), MemoryLevel::Register);
    assert_eq!(
        block.emit().unwrap(),
        "for(int i = 0; i < 10; i++) {
    copy_2d_tile_s2r(sA[1 * i], rA[1 * i]);
    copy_2d_tile_s2r(sB[1 * i], rB[1 * i]);
    __copy_async();
    __syncthreads();
    cute::gemm(rA[1 * i + 0], rB[1 * i + 0], acc);
}
__syncthreads();
"
    );
}

#[test]
fn gemm_block_at_the_shared_level() {
    let mut ids = IdCounter::new();
    let g_a = Rc::new(BufBuilder::row_major_global_tile("gA", &[256, 256], ids.next()));
    let g_b = Rc::new(BufBuilder::col_major_global_tile("gB", &[256, 256], ids.next()));
    let g_c = Rc::new(BufBuilder::row_major_global_tile("gC", &[256, 256], ids.next()));
    let block = ThrillerUtils::build_shared_gemm_block(g_a, g_b, g_c, &mut ids);
    assert_eq!(ids.next(), 30);
    assert!(block.is_emittable());
    assert!(!block.is_reduce());
    assert_eq!(block.get_mem_level(), MemoryLevel::Shared);
    assert!(block.get_subgraph().is_well_formed());
    assert_eq!(block.get_subgraph().get_nodes().len(), 4);
    assert_eq!(
        block.emit().unwrap(),
        "for(int j = 0; j < 10; j++) {
    copy_2d_tile_g2s(gA[1 * j], sA[1 * j]);
    copy_2d_tile_g2s(gB[1 * j], sB[1 * j]);
    __syncthreads();
    __copy_async();
    for(int i = 0; i < 10; i++) {
        copy_2d_tile_s2r(sA[1 * i], rA[1 * i]);
        copy_2d_tile_s2r(sB[1 * i], rB[1 * i]);
        __copy_async();
        __syncthreads();
        cute::gemm(rA[1 * i + 0], rB[1 * i + 0], acc);
    }
    __syncthreads();
}
__syncthreads();
storer_tile_r2s(acc, sC);
storer_tile_s2g(sC, gC);
"
    );
}

fn reg(name: &str, ids: &mut IdCounter) -> Rc<Buffer> {
    Rc::new(Buffer::new(name, BufType::RegTile, &[8, 8], Layout::RowMajor, ids.next()))
}

#[test]
fn graphs_are_checked_before_they_are_built_on() {
    let mut ids = IdCounter::new();
    let a = ThrillerNode::new(ThrillerNodeInner::Buffer(reg("a", &mut ids)), 7);
    let b = ThrillerNode::new(ThrillerNodeInner::Buffer(reg("b", &mut ids)), 8);
    let twin = ThrillerNode::new(ThrillerNodeInner::Buffer(reg("c", &mut ids)), 7);
    let edge = ThrillerEdge::new(&a, &b);
    let stray = ThrillerEdge { src: 7, dst: 99 };

    let mut graph = ThrillerGraph::new(0);
    assert!(graph.is_well_formed());
    let first = vec![a, b];
    assert!(graph.accepts(&first));
    graph.add_nodes(first);
    // the identifier 7 is taken
    let second = vec![twin];
    assert!(!graph.accepts(&second));
    let pair = vec![
        ThrillerNode::new(ThrillerNodeInner::Buffer(reg("d", &mut ids)), 20),
        ThrillerNode::new(ThrillerNodeInner::Buffer(reg("e", &mut ids)), 20),
    ];
    assert!(!graph.accepts(&pair));
    assert!(graph.accepts(&Vec::new()));

    graph.add_edges(vec![edge]);
    assert!(graph.has_edge_ends());
    assert!(graph.is_well_formed());
    graph.connect();
    assert!(graph.is_well_formed());
    assert!(graph.is_emittable());
    assert!(graph.get_nodes()[0].check_fresh() == false);

    let mut other = ThrillerGraph::new(1);
    other.add_nodes(vec![ThrillerNode::new(ThrillerNodeInner::Buffer(reg("f", &mut ids)), 7)]);
    other.add_edges(vec![stray]);
    assert!(!other.has_edge_ends());
}

#[test]
fn a_block_around_a_cycle_cannot_be_emitted() {
    let mut ids = IdCounter::new();
    let a = ThrillerNode::new(ThrillerNodeInner::Buffer(reg("a", &mut ids)), ids.next());
    let b = ThrillerNode::new(ThrillerNodeInner::Buffer(reg("b", &mut ids)), ids.next());
    let edges = vec![ThrillerEdge::new(&a, &b), ThrillerEdge::new(&b, &a)];
    let mut graph = ThrillerGraph::new(ids.next());
    graph.add_nodes(vec![a, b]);
    graph.add_edges(edges);
    graph.connect();
    assert!(graph.is_well_formed());
    assert!(!graph.is_emittable());
    let block = ThrillerBlock::new(
        vec![],
        vec![],
        MemoryLevel::Global,
        Rc::new(graph),
        BlockType::Mapping,
        ids.next(),
    );
    assert!(!block.is_emittable());
    let node = ThrillerNode::new(ThrillerNodeInner::Block(Rc::new(block)), ids.next());
    assert!(!node.is_emittable());
    let mut outer = ThrillerGraph::new(ids.next());
    outer.add_nodes(vec![node]);
    assert!(outer.is_well_formed());
    assert!(!outer.is_emittable());
}

#[test]
fn a_block_whose_edges_have_no_primitive_cannot_be_emitted() {
    let mut ids = IdCounter::new();
    let r = reg("r", &mut ids);
    let s = Rc::new(BufBuilder::row_major_shared_tile("s", &[8, 8], ids.next()));
    // from registers into shared memory is a store, no load
    let map = {
        let mut ids2 = IdCounter::new();
        let g_a = Rc::new(BufBuilder::row_major_global_tile("gA", &[8, 8], ids2.next()));
        let block = ThrillerUtils::build_shared_gemm_block(g_a.clone(), g_a.clone(), g_a, &mut ids2);
        block.get_unified_access_map().clone().unwrap()
    };
    let edge = Rc::new(AttachedEdge::new(r.clone(), s.clone(), Some(map.clone()), ids.next()));
    let mut block = ThrillerBlock::new(
        vec![edge.clone()],
        vec![],
        MemoryLevel::Register,
        Rc::new(ThrillerGraph::new(ids.next())),
        BlockType::Mapping,
        ids.next(),
    );
    // without a unified access map nothing is loaded
    assert!(block.is_emittable());
    block.merge_access_map().unwrap();
    assert!(!block.is_emittable());
    // the same edge can be stored
    let mut block = ThrillerBlock::new(
        vec![],
        vec![edge.clone()],
        MemoryLevel::Register,
        Rc::new(ThrillerGraph::new(ids.next())),
        BlockType::Mapping,
        ids.next(),
    );
    block.merge_access_map().unwrap();
    assert!(block.is_emittable());
    // a load cannot be stored, unless the block reduces and stores nothing
    let load = Rc::new(AttachedEdge::new(s.clone(), r.clone(), Some(map.clone()), ids.next()));
    for (kind, expected) in [(BlockType::Mapping, false), (BlockType::Reduce, true)] {
        let mut block = ThrillerBlock::new(
            vec![load.clone()],
            vec![load.clone()],
            MemoryLevel::Register,
            Rc::new(ThrillerGraph::new(ids.next())),
            kind,
            ids.next(),
        );
        block.merge_access_map().unwrap();
        assert_eq!(block.is_emittable(), expected);
    }
}
