use std::rc::Rc;

use thriller_core::{
    AccessMap, AccessMatrix, AccessOffset, AttachedEdge, BlockType, BufType, Buffer, Gemm,
    IdCounter, IterationBound, IterationVar, Layout, MemoryLevel, Operator, Task, ThrillerBlock,
    ThrillerEdge, ThrillerError, ThrillerGraph, ThrillerNode, ThrillerNodeInner,
};

fn buffer(name: &str, typing: BufType, ids: &mut IdCounter) -> Rc<Buffer> {
    Rc::new(Buffer::new(name, typing, &[64, 64], Layout::RowMajor, ids.next()))
}

fn map_over(name: &str, upper: usize, ids: &mut IdCounter) -> Rc<AccessMap> {
    let iter_var = Rc::new(IterationVar::new(
        name,
        (IterationBound::Fixed(0), IterationBound::Fixed(upper)),
        ids.next(),
    ));
    let mut access_map = AccessMap::new(1, vec![1]);
    access_map.add_iter_var(iter_var);
    access_map.add_access_matrix(AccessMatrix(vec![vec![1]]));
    access_map.add_access_matrix(AccessMatrix(vec![vec![1]]));
    access_map.add_access_offset(AccessOffset(vec![0]));
    access_map.add_access_offset(AccessOffset(vec![0]));
    Rc::new(access_map)
}

#[test]
fn test_block() {
    let mut ids = IdCounter::new();

    let s_a = buffer("sA", BufType::SharedTile, &mut ids);
    let r_a = buffer("rA", BufType::RegTile, &mut ids);
    let in_edge = AttachedEdge::new(s_a, r_a, None, ids.next());

    let acc = buffer("acc", BufType::RegTile, &mut ids);
    let s_c = buffer("sC", BufType::SharedTile, &mut ids);
    let out_edge = AttachedEdge::new(acc, s_c, None, ids.next());

    let block = ThrillerBlock::new(
        vec![Rc::new(in_edge)],
        vec![Rc::new(out_edge)],
        MemoryLevel::Register,
        Rc::new(ThrillerGraph::new(ids.next())),
        BlockType::Mapping,
        ids.next(),
    );

    let code = block.emit();

    println!("{:?}", code);
    assert_eq!(code, Err(ThrillerError::MissingAccessMap));
    assert_eq!(block.emit_load().unwrap(), "copy_2d_tile_s2r(sA, rA);\n__copy_async();\n__syncthreads();\n");
    assert_eq!(block.gen_store().unwrap(), "storer_tile_r2s(acc, sC);\n");
    assert_eq!(block.get_name(), "block_7");
}

/// The block at the register level of a GEMM: it loads `sA` and `sB` into
/// registers, multiplies them and leaves the store of `acc` to the block around it.
fn rf_block(
    s_a: Rc<Buffer>,
    s_b: Rc<Buffer>,
    s_c: Rc<Buffer>,
    access_map: Rc<AccessMap>,
    ids: &mut IdCounter,
) -> ThrillerBlock {
    let r_a = buffer("rA", BufType::RegTile, ids);
    let r_b = buffer("rB", BufType::RegTile, ids);
    let acc = buffer("acc", BufType::RegTile, ids);
    let in_edge0 = AttachedEdge::new(s_a, r_a.clone(), Some(access_map.clone()), ids.next());
    let in_edge1 = AttachedEdge::new(s_b, r_b.clone(), Some(access_map.clone()), ids.next());
    let out_edge = AttachedEdge::new(acc.clone(), s_c, None, ids.next());

    let r_a_node = ThrillerNode::new(ThrillerNodeInner::Buffer(r_a), ids.next());
    let r_b_node = ThrillerNode::new(ThrillerNodeInner::Buffer(r_b), ids.next());
    let acc_node = ThrillerNode::new(ThrillerNodeInner::Buffer(acc), ids.next());
    let gemm = Gemm::new(vec![&r_a_node, &r_b_node], &acc_node, access_map, ids.next());
    let gemm_node = ThrillerNode::new(ThrillerNodeInner::Op(Operator::Gemm(gemm)), ids.next());
    let edges = vec![
        ThrillerEdge::new(&r_a_node, &gemm_node),
        ThrillerEdge::new(&r_b_node, &gemm_node),
        ThrillerEdge::new(&gemm_node, &acc_node),
    ];
    let mut subgraph = ThrillerGraph::new(ids.next());
    subgraph.add_nodes(vec![r_a_node, r_b_node, acc_node, gemm_node]);
    subgraph.add_edges(edges);
    subgraph.connect();

    let mut block = ThrillerBlock::new(
        vec![Rc::new(in_edge0), Rc::new(in_edge1)],
        vec![Rc::new(out_edge)],
        MemoryLevel::Register,
        Rc::new(subgraph),
        BlockType::Reduce,
        ids.next(),
    );
    block.merge_access_map().unwrap();
    block
}

const RF_BLOCK_CODE: &str = "for(int i = 0; i < 10; i++) {
    copy_2d_tile_s2r(sA[1 * i], rA[1 * i]);
    copy_2d_tile_s2r(sB[1 * i], rB[1 * i]);
    __copy_async();
    __syncthreads();
    cute::gemm(rA[1 * i + 0], rB[1 * i + 0], acc);
}
__syncthreads();
";

#[test]
fn reducing_block_at_the_register_level() {
    let mut ids = IdCounter::new();
    let s_a = buffer("sA", BufType::SharedTile, &mut ids);
    let s_b = buffer("sB", BufType::SharedTile, &mut ids);
    let s_c = buffer("sC", BufType::SharedTile, &mut ids);
    let map = map_over("i", 10, &mut ids);
    let block = rf_block(s_a, s_b, s_c, map.clone(), &mut ids);
    assert!(Rc::ptr_eq(block.get_unified_access_map().as_ref().unwrap(), &map));
    assert_eq!(block.emit().unwrap(), RF_BLOCK_CODE);
    // emission has no effect on the block
    assert_eq!(block.emit_block().unwrap(), RF_BLOCK_CODE);
    assert_eq!(block.gen_store().unwrap(), "");
    assert!(block.is_reduce());
}

#[test]
fn mapping_block_at_the_shared_level_around_a_reducing_block() {
    let mut ids = IdCounter::new();
    let g_a = buffer("gA", BufType::GlobalTile, &mut ids);
    let g_b = buffer("gB", BufType::GlobalTile, &mut ids);
    let g_c = buffer("gC", BufType::GlobalTile, &mut ids);
    let s_a = buffer("sA", BufType::SharedTile, &mut ids);
    let s_b = buffer("sB", BufType::SharedTile, &mut ids);
    let s_c = buffer("sC", BufType::SharedTile, &mut ids);
    let inner_map = map_over("i", 10, &mut ids);
    let outer_map = map_over("j", 20, &mut ids);

    let in_edge0 = AttachedEdge::new(g_a, s_a.clone(), Some(outer_map.clone()), ids.next());
    let in_edge1 = AttachedEdge::new(g_b, s_b.clone(), Some(outer_map.clone()), ids.next());
    let out_edge = AttachedEdge::new(s_c.clone(), g_c, None, ids.next());

    let inner = rf_block(s_a.clone(), s_b.clone(), s_c.clone(), inner_map, &mut ids);
    let s_a_node = ThrillerNode::new(ThrillerNodeInner::Buffer(s_a), ids.next());
    let s_b_node = ThrillerNode::new(ThrillerNodeInner::Buffer(s_b), ids.next());
    let s_c_node = ThrillerNode::new(ThrillerNodeInner::Buffer(s_c), ids.next());
    let block_node = ThrillerNode::new(ThrillerNodeInner::Block(Rc::new(inner)), ids.next());
    let edges = vec![
        ThrillerEdge::new(&s_a_node, &block_node),
        ThrillerEdge::new(&s_b_node, &block_node),
        ThrillerEdge::new(&block_node, &s_c_node),
    ];
    let mut subgraph = ThrillerGraph::new(ids.next());
    subgraph.add_nodes(vec![s_a_node, s_b_node, s_c_node, block_node]);
    subgraph.add_edges(edges);
    subgraph.connect();

    let mut block = ThrillerBlock::new(
        vec![Rc::new(in_edge0), Rc::new(in_edge1)],
        vec![Rc::new(out_edge)],
        MemoryLevel::Shared,
        Rc::new(subgraph),
        BlockType::Mapping,
        ids.next(),
    );
    assert_eq!(block.merge_access_map(), Ok(()));
    let expected = "for(int j = 0; j < 20; j++) {
    copy_2d_tile_g2s(gA[1 * j], sA[1 * j]);
    copy_2d_tile_g2s(gB[1 * j], sB[1 * j]);
    __syncthreads();
    __copy_async();
    for(int i = 0; i < 10; i++) {
        copy_2d_tile_s2r(sA[1 * i], rA[1 * i]);
        copy_2d_tile_s2r(sB[1 * i], rB[1 * i]);
        __copy_async();
        __syncthreads();
        cute::gemm(rA[1 * i + 0], rB[1 * i + 0], acc);
    }
    __syncthreads();
}
__syncthreads();
storer_tile_r2s(acc, sC);
storer_tile_s2g(sC, gC);
";
    assert_eq!(block.emit().unwrap(), expected);
    assert_eq!(block.emit_load().unwrap(), "copy_2d_tile_g2s(gA, sA);\ncopy_2d_tile_g2s(gB, sB);\n__syncthreads();\n");
    assert_eq!(block.gen_store().unwrap(), "storer_tile_s2g(sC, gC);\n");

    // a block without edges around it emits what is inside
    let block_node = ThrillerNode::new(ThrillerNodeInner::Block(Rc::new(block)), ids.next());
    let mut global_graph = ThrillerGraph::new(ids.next());
    global_graph.add_nodes(vec![block_node]);
    let global_block = ThrillerBlock::new(
        vec![],
        vec![],
        MemoryLevel::Global,
        Rc::new(global_graph),
        BlockType::Mapping,
        ids.next(),
    );
    assert_eq!(global_block.emit().unwrap(), expected);
}

#[test]
fn loads_by_the_kinds_of_the_buffers() {
    let mut ids = IdCounter::new();
    let g = buffer("g", BufType::GlobalTile, &mut ids);
    let s = buffer("s", BufType::SharedTile, &mut ids);
    let r = buffer("r", BufType::RegTile, &mut ids);
    let edges = vec![
        Rc::new(AttachedEdge::new(g.clone(), r.clone(), None, ids.next())),
        Rc::new(AttachedEdge::new(g.clone(), s.clone(), None, ids.next())),
    ];
    let block = ThrillerBlock::new(
        edges,
        vec![
            Rc::new(AttachedEdge::new(r.clone(), g.clone(), None, ids.next())),
            Rc::new(AttachedEdge::new(r.clone(), s.clone(), None, ids.next())),
            Rc::new(AttachedEdge::new(s.clone(), g.clone(), None, ids.next())),
        ],
        MemoryLevel::Shared,
        Rc::new(ThrillerGraph::new(ids.next())),
        BlockType::Mapping,
        ids.next(),
    );
    // only a load from shared memory into registers needs the commit
    assert_eq!(
        block.emit_load().unwrap(),
        "copy_2d_tile_g2r(g, r);\ncopy_2d_tile_g2s(g, s);\n__syncthreads();\n"
    );
    assert_eq!(
        block.gen_store().unwrap(),
        "storer_tile_r2g(r, g);\nstorer_tile_r2s(r, s);\nstorer_tile_s2g(s, g);\n"
    );
    let empty = ThrillerBlock::new(
        vec![],
        vec![],
        MemoryLevel::Shared,
        Rc::new(ThrillerGraph::new(ids.next())),
        BlockType::Mapping,
        ids.next(),
    );
    assert_eq!(empty.emit_load().unwrap(), "");
    assert_eq!(empty.emit().unwrap(), "");
}

fn block_of(inputs: Vec<Rc<AttachedEdge>>, ids: &mut IdCounter) -> ThrillerBlock {
    ThrillerBlock::new(
        inputs,
        vec![],
        MemoryLevel::Register,
        Rc::new(ThrillerGraph::new(ids.next())),
        BlockType::Mapping,
        ids.next(),
    )
}

#[test]
fn access_load_errors() {
    let mut ids = IdCounter::new();
    let s = buffer("s", BufType::SharedTile, &mut ids);
    let r = buffer("r", BufType::RegTile, &mut ids);
    // no access map
    let edge = Rc::new(AttachedEdge::new(s.clone(), r.clone(), None, ids.next()));
    assert_eq!(block_of(vec![edge], &mut ids).gen_load(), Err(ThrillerError::MissingAccessMap));
    // a map that is not of depth one
    let mut deep = AccessMap::new(2, vec![1, 1]);
    deep.add_access_matrix(AccessMatrix(vec![vec![1]]));
    let edge = Rc::new(AttachedEdge::new(s.clone(), r.clone(), Some(Rc::new(deep)), ids.next()));
    assert_eq!(block_of(vec![edge], &mut ids).gen_load(), Err(ThrillerError::InvalidLoadAccess));
    // a map with the indices of one buffer only
    let mut single = AccessMap::new(1, vec![1]);
    single.add_iter_var(Rc::new(IterationVar::new(
        "i",
        (IterationBound::Fixed(0), IterationBound::Fixed(4)),
        ids.next(),
    )));
    single.add_access_matrix(AccessMatrix(vec![vec![1]]));
    single.add_access_offset(AccessOffset(vec![0]));
    let edge = Rc::new(AttachedEdge::new(s.clone(), r.clone(), Some(Rc::new(single)), ids.next()));
    assert_eq!(block_of(vec![edge], &mut ids).gen_load(), Err(ThrillerError::InvalidAccessPattern));
    // the first error counts
    let good = Rc::new(AttachedEdge::new(s.clone(), r.clone(), Some(map_over("i", 4, &mut ids)), ids.next()));
    let bad = Rc::new(AttachedEdge::new(s.clone(), r.clone(), None, ids.next()));
    assert_eq!(
        block_of(vec![good.clone(), bad], &mut ids).gen_load(),
        Err(ThrillerError::MissingAccessMap)
    );
    assert_eq!(
        block_of(vec![good], &mut ids).gen_load().unwrap(),
        "copy_2d_tile_s2r(s[1 * i], r[1 * i]);\n"
    );
}

#[test]
fn two_dimensional_access_load() {
    let mut ids = IdCounter::new();
    let g = buffer("g", BufType::GlobalTile, &mut ids);
    let s = buffer("s", BufType::SharedTile, &mut ids);
    let mut map = AccessMap::new(1, vec![1]);
    map.add_iter_var(Rc::new(IterationVar::new(
        "k",
        (IterationBound::Fixed(0), IterationBound::Fixed(4)),
        ids.next(),
    )));
    map.add_access_matrixs(vec![
        AccessMatrix(vec![vec![2], vec![0]]),
        AccessMatrix(vec![vec![0], vec![1]]),
    ]);
    map.add_access_offsets(vec![AccessOffset(vec![3, 0]), AccessOffset(vec![5, 6])]);
    let edge = Rc::new(AttachedEdge::new(g, s, Some(Rc::new(map)), ids.next()));
    assert_eq!(edge.emit_access(0).unwrap(), vec!["2 * k + 3", ""]);
    assert_eq!(edge.emit_access(1).unwrap(), vec![" + 5", "1 * k + 6"]);
    assert_eq!(edge.emit_access(2), Err(ThrillerError::InvalidAccessPattern));
    assert_eq!(
        block_of(vec![edge], &mut ids).gen_load().unwrap(),
        "copy_2d_tile_g2s(g[2 * k + 3][], s[ + 5][1 * k + 6]);\n"
    );
}

#[test]
fn merge_access_map_wants_identical_maps() {
    let mut ids = IdCounter::new();
    let s = buffer("s", BufType::SharedTile, &mut ids);
    let r = buffer("r", BufType::RegTile, &mut ids);
    let map = map_over("i", 10, &mut ids);
    let same = Rc::new({
        // another map of the same contents over the same variable
        let mut copy = AccessMap::new(1, vec![1]);
        copy.add_iter_vars(map.get_iter_vars().clone());
        copy.add_access_matrix(AccessMatrix(vec![vec![1]]));
        copy.add_access_matrix(AccessMatrix(vec![vec![1]]));
        copy.add_access_offsets(vec![AccessOffset(vec![0]), AccessOffset(vec![0])]);
        copy
    });
    let other = map_over("i", 10, &mut ids);
    let edge = |m: Option<Rc<AccessMap>>, ids: &mut IdCounter| {
        Rc::new(AttachedEdge::new(s.clone(), r.clone(), m, ids.next()))
    };

    let mut block = block_of(
        vec![edge(Some(map.clone()), &mut ids), edge(Some(same), &mut ids), edge(Some(map.clone()), &mut ids)],
        &mut ids,
    );
    assert_eq!(block.merge_access_map(), Ok(()));
    assert!(Rc::ptr_eq(block.get_unified_access_map().as_ref().unwrap(), &map));

    // the variable of `other` has another identifier
    let mut block = block_of(
        vec![edge(Some(map.clone()), &mut ids), edge(Some(map.clone()), &mut ids), edge(Some(other), &mut ids)],
        &mut ids,
    );
    assert_eq!(block.merge_access_map(), Err(ThrillerError::InvalidAccessPattern));
    assert!(block.get_unified_access_map().is_none());

    let mut block = block_of(vec![edge(Some(map.clone()), &mut ids), edge(None, &mut ids)], &mut ids);
    assert_eq!(block.merge_access_map(), Err(ThrillerError::InvalidAccessPattern));

    let mut block = block_of(vec![], &mut ids);
    assert_eq!(block.merge_access_map(), Ok(()));
    assert!(block.get_unified_access_map().is_none());

    let mut block = block_of(vec![edge(Some(map.clone()), &mut ids)], &mut ids);
    assert_eq!(block.merge_access_map(), Ok(()));
    assert!(Rc::ptr_eq(block.get_unified_access_map().as_ref().unwrap(), &map));
}

#[test]
fn access_maps_differ_in_each_part() {
    let mut ids = IdCounter::new();
    let var = Rc::new(IterationVar::new(
        "i",
        (IterationBound::Fixed(0), IterationBound::Fixed(4)),
        ids.next(),
    ));
    let build = |depth: usize, dims: Vec<usize>, coef: usize, offset: usize| {
        let mut map = AccessMap::new(depth, dims);
        map.add_iter_var(var.clone());
        map.add_access_matrix(AccessMatrix(vec![vec![coef]]));
        map.add_access_offset(AccessOffset(vec![offset]));
        map
    };
    let base = build(1, vec![1], 1, 0);
    assert!(base.same_as(&build(1, vec![1], 1, 0)));
    assert!(!base.same_as(&build(2, vec![1], 1, 0)));
    assert!(!base.same_as(&build(1, vec![2], 1, 0)));
    assert!(!base.same_as(&build(1, vec![1, 1], 1, 0)));
    assert!(!base.same_as(&build(1, vec![1], 2, 0)));
    assert!(!base.same_as(&build(1, vec![1], 1, 1)));
    let mut more = build(1, vec![1], 1, 0);
    more.add_access_matrix(AccessMatrix(vec![]));
    assert!(!base.same_as(&more));
    let mut more = build(1, vec![1], 1, 0);
    more.add_access_offset(AccessOffset(vec![]));
    assert!(!base.same_as(&more));
    let mut more = build(1, vec![1], 1, 0);
    more.add_iter_var(var.clone());
    assert!(!base.same_as(&more));
}

#[test]
fn merge_loops_groups_loop_equal_edges() {
    let mut ids = IdCounter::new();
    let s_a = buffer("sA", BufType::SharedTile, &mut ids);
    let r_a = buffer("rA", BufType::RegTile, &mut ids);
    let s_b = buffer("sB", BufType::SharedTile, &mut ids);
    let r_b = buffer("rB", BufType::RegTile, &mut ids);
    let map1 = map_over("i1", 10, &mut ids);
    let map2 = map_over("i2", 20, &mut ids);
    let in_edge0 = Rc::new(AttachedEdge::new(s_a.clone(), r_a.clone(), Some(map1.clone()), ids.next()));
    let in_edge1 = Rc::new(AttachedEdge::new(s_b.clone(), r_b.clone(), Some(map2.clone()), ids.next()));
    let in_edge2 = Rc::new(AttachedEdge::new(s_a.clone(), r_b.clone(), Some(map1.clone()), ids.next()));
    let in_edge3 = Rc::new(AttachedEdge::new(s_a.clone(), r_b.clone(), None, ids.next()));
    let in_edge4 = Rc::new(AttachedEdge::new(s_b.clone(), r_b.clone(), None, ids.next()));
    assert!(in_edge0.check_loop_equal(&in_edge2));
    assert!(!in_edge0.check_loop_equal(&in_edge1));
    assert!(!in_edge0.check_loop_equal(&in_edge3));
    assert!(in_edge3.check_loop_equal(&in_edge4));

    let mut block = block_of(
        vec![in_edge0.clone(), in_edge1.clone(), in_edge2.clone(), in_edge3.clone(), in_edge4.clone()],
        &mut ids,
    );
    assert_eq!(block.get_loop_groups().len(), 0);
    block.merge_loops();
    let groups = block.get_loop_groups();
    assert_eq!(groups.len(), 3);
    let holds = |k: usize, expected: &[&Rc<AttachedEdge>]| -> bool {
        let edges = groups[k].get_edges();
        edges.len() == expected.len()
            && edges.iter().zip(expected.iter()).all(|(a, b)| Rc::ptr_eq(a, b))
    };
    assert!(holds(0, &[&in_edge0, &in_edge2]));
    assert!(holds(1, &[&in_edge1]));
    assert!(holds(2, &[&in_edge3, &in_edge4]));
    for (k, group) in groups.iter().enumerate() {
        assert_eq!(group.get_index(), k);
    }
    assert_eq!(
        ThrillerBlock::check_loop_edge_equal(&in_edge4, groups),
        Some(2)
    );
    // merging again gives the same groups
    block.merge_loops();
    assert_eq!(block.get_loop_groups().len(), 3);
}

#[test]
fn loop_equality_looks_at_depth_and_variables_only() {
    let mut ids = IdCounter::new();
    let s = buffer("s", BufType::SharedTile, &mut ids);
    let r = buffer("r", BufType::RegTile, &mut ids);
    let var = Rc::new(IterationVar::new(
        "i",
        (IterationBound::Fixed(0), IterationBound::Fixed(4)),
        ids.next(),
    ));
    let build = |depth: usize, coef: usize, vars: usize| {
        let mut map = AccessMap::new(depth, vec![1]);
        for _ in 0..vars {
            map.add_iter_var(var.clone());
        }
        map.add_access_matrix(AccessMatrix(vec![vec![coef]]));
        Rc::new(map)
    };
    let edge = |m: Rc<AccessMap>, ids: &mut IdCounter| {
        AttachedEdge::new(s.clone(), r.clone(), Some(m), ids.next())
    };
    let base = edge(build(1, 1, 1), &mut ids);
    assert!(base.check_loop_equal(&edge(build(1, 5, 1), &mut ids)));
    assert!(!base.check_loop_equal(&edge(build(2, 1, 1), &mut ids)));
    assert!(!base.check_loop_equal(&edge(build(1, 1, 2), &mut ids)));
    assert!(!base.check_loop_equal(&edge(build(1, 1, 0), &mut ids)));
}

#[test]
fn loop_mismatch_of_the_unified_map_is_reported() {
    let mut ids = IdCounter::new();
    let s = buffer("s", BufType::SharedTile, &mut ids);
    let r = buffer("r", BufType::RegTile, &mut ids);
    // depth one, good for the load, with two variables
    let mut map = AccessMap::new(1, vec![1]);
    for name in ["i", "j"] {
        map.add_iter_var(Rc::new(IterationVar::new(
            name,
            (IterationBound::Fixed(0), IterationBound::Fixed(4)),
            ids.next(),
        )));
    }
    map.add_access_matrixs(vec![AccessMatrix(vec![vec![1, 1]]), AccessMatrix(vec![vec![0, 0]])]);
    map.add_access_offsets(vec![AccessOffset(vec![0]), AccessOffset(vec![1])]);
    let edge = Rc::new(AttachedEdge::new(s, r, Some(Rc::new(map)), ids.next()));
    let mut block = block_of(vec![edge], &mut ids);
    block.merge_access_map().unwrap();
    assert_eq!(block.gen_load().unwrap(), "copy_2d_tile_s2r(s[1 * i1 * j], r[ + 1]);\n");
    assert_eq!(block.emit(), Err(ThrillerError::LoopMisMatch));
}

#[test]
fn edges_hand_out_what_they_hold() {
    let mut ids = IdCounter::new();
    let s = buffer("sA", BufType::SharedTile, &mut ids);
    let r = buffer("rA", BufType::RegTile, &mut ids);
    let mut edge = AttachedEdge::new(s.clone(), r.clone(), None, ids.next());
    assert_eq!(edge.get_src_name(), "sA");
    assert_eq!(edge.get_dst_name(), "rA");
    assert!(Rc::ptr_eq(edge.get_src(), &s));
    assert!(Rc::ptr_eq(edge.get_dst(), &r));
    assert!(edge.get_access().is_none());
    assert_eq!(edge.emit_access(0), Err(ThrillerError::MissingAccessMap));
    let map = map_over("i", 3, &mut ids);
    edge.replace_access_map(map.clone());
    assert!(Rc::ptr_eq(edge.get_access().as_ref().unwrap(), &map));
    assert_eq!(edge.emit_access(1).unwrap(), vec!["1 * i"]);
    assert_eq!(s.get_id(), 0);
    assert_eq!(*r.get_typing(), BufType::RegTile);
    assert_eq!(s.get_name(), "sA");
}
