use std::rc::Rc;

use thriller_core::{
    BufType, Buffer, IdCounter, Layout, Task, ThrillerEdge, ThrillerGraph, ThrillerNode,
    ThrillerNodeInner,
};

fn buffer_node(name: &str, ids: &mut IdCounter) -> ThrillerNode {
    let buffer = Rc::new(Buffer::new(
        name,
        BufType::RegTile,
        &[64, 64],
        Layout::RowMajor,
        ids.next(),
    ));
    ThrillerNode::new(ThrillerNodeInner::Buffer(buffer), ids.next())
}

/// A graph of the nodes `names`, with an edge for each pair of positions.
fn graph_of(names: &[&str], edges: &[(usize, usize)]) -> (ThrillerGraph, Vec<usize>) {
    let mut ids = IdCounter::new();
    let nodes: Vec<ThrillerNode> = names.iter().map(|n| buffer_node(n, &mut ids)).collect();
    let node_ids: Vec<usize> = nodes.iter().map(|n| n.get_id()).collect();
    let structural: Vec<ThrillerEdge> = edges
        .iter()
        .map(|(s, d)| ThrillerEdge::new(&nodes[*s], &nodes[*d]))
        .collect();
    let mut graph = ThrillerGraph::new(ids.next());
    graph.add_nodes(nodes);
    graph.add_edges(structural);
    graph.connect();
    (graph, node_ids)
}

fn assert_topological(graph: &ThrillerGraph, sorted: &[usize]) {
    let nodes = graph.get_nodes();
    assert_eq!(sorted.len(), nodes.len());
    for node in nodes.iter() {
        let at = sorted.iter().filter(|id| **id == node.get_id()).count();
        assert_eq!(at, 1, "node {} is sorted once", node.get_id());
        let own = sorted.iter().position(|id| *id == node.get_id()).unwrap();
        for next in node.get_nexts().iter() {
            let after = sorted.iter().position(|id| id == next).unwrap();
            assert!(own < after);
        }
        for prev in node.get_prevs().iter() {
            let before = sorted.iter().position(|id| id == prev).unwrap();
            assert!(before < own);
        }
    }
}

#[test]
fn connect_registers_edges_on_both_ends() {
    let (graph, ids) = graph_of(&["a", "b", "c"], &[(0, 1), (0, 2), (1, 2)]);
    let nodes = graph.get_nodes();
    assert_eq!(nodes[0].get_in_degrees(), 0);
    assert_eq!(nodes[1].get_in_degrees(), 1);
    assert_eq!(nodes[2].get_in_degrees(), 2);
    assert_eq!(nodes[0].get_nexts(), &vec![ids[1], ids[2]]);
    assert_eq!(nodes[1].get_nexts(), &vec![ids[2]]);
    assert_eq!(nodes[2].get_nexts(), &Vec::<usize>::new());
    assert_eq!(nodes[0].get_prevs(), &Vec::<usize>::new());
    assert_eq!(nodes[1].get_prevs(), &vec![ids[0]]);
    assert_eq!(nodes[2].get_prevs(), &vec![ids[0], ids[1]]);
    assert_eq!(graph.get_edges().len(), 3);
    assert_eq!(graph.get_edges()[1].get_src(), ids[0]);
    assert_eq!(graph.get_edges()[1].get_dst(), ids[2]);
}

#[test]
fn connecting_twice_counts_twice() {
    let (mut graph, ids) = graph_of(&["a", "b"], &[(0, 1)]);
    graph.connect();
    let nodes = graph.get_nodes();
    assert_eq!(nodes[1].get_in_degrees(), 2);
    assert_eq!(nodes[0].get_nexts(), &vec![ids[1], ids[1]]);
    assert_eq!(graph.topo_sort(), vec![ids[0], ids[1]]);
}

#[test]
fn position_finds_nodes_by_identifier() {
    let (graph, ids) = graph_of(&["a", "b", "c"], &[]);
    assert_eq!(graph.position(ids[0]), Some(0));
    assert_eq!(graph.position(ids[2]), Some(2));
    assert_eq!(graph.position(usize::MAX), None);
}

#[test]
fn topo_sort_of_the_gemm_graph() {
    // rA, rB, acc, gemm with rA -> gemm, rB -> gemm, gemm -> acc
    let (graph, ids) = graph_of(&["rA", "rB", "acc", "gemm"], &[(0, 3), (1, 3), (3, 2)]);
    let sorted = graph.topo_sort();
    assert_topological(&graph, &sorted);
    assert_eq!(sorted, vec![ids[0], ids[1], ids[3], ids[2]]);
}

#[test]
fn topo_sort_schedules_within_a_scan_what_the_scan_frees() {
    // a chain in the order of the nodes is sorted by one scan
    let (graph, ids) = graph_of(&["a", "b", "c", "d"], &[(0, 1), (1, 2), (2, 3)]);
    assert_eq!(graph.topo_sort(), ids);
    // a chain against the order of the nodes takes a scan for each node
    let (graph, ids) = graph_of(&["a", "b", "c", "d"], &[(3, 2), (2, 1), (1, 0)]);
    assert_eq!(graph.topo_sort(), vec![ids[3], ids[2], ids[1], ids[0]]);
    // mixed: d is free at once, c waits for d, a for c, b for a
    let (graph, ids) = graph_of(&["a", "b", "c", "d"], &[(3, 2), (2, 0), (0, 1)]);
    let sorted = graph.topo_sort();
    assert_topological(&graph, &sorted);
    assert_eq!(sorted, vec![ids[3], ids[2], ids[0], ids[1]]);
}

#[test]
fn topo_sort_without_edges_keeps_the_order_of_the_nodes() {
    let (graph, ids) = graph_of(&["a", "b", "c"], &[]);
    assert_eq!(graph.topo_sort(), ids);
    assert_eq!(graph.try_topo_sort(), Some(ids));
}

#[test]
fn topo_sort_of_the_empty_graph() {
    let (graph, _) = graph_of(&[], &[]);
    assert_eq!(graph.topo_sort(), Vec::<usize>::new());
    assert_eq!(graph.try_schedule(), Some(Vec::new()));
}

#[test]
fn topo_sort_of_a_diamond_with_a_double_edge() {
    let (graph, _) = graph_of(
        &["sink", "left", "right", "source"],
        &[(3, 1), (3, 2), (1, 0), (2, 0), (3, 1)],
    );
    let sorted = graph.topo_sort();
    assert_topological(&graph, &sorted);
}

#[test]
fn a_cycle_is_found() {
    let (graph, _) = graph_of(&["a", "b", "c"], &[(0, 1), (1, 2), (2, 0)]);
    assert_eq!(graph.try_topo_sort(), None);
    assert_eq!(graph.try_schedule(), None);
    let (graph, _) = graph_of(&["a", "b", "c"], &[(0, 1), (1, 1)]);
    assert_eq!(graph.try_topo_sort(), None);
    // a cycle behind nodes that can be scheduled
    let (graph, _) = graph_of(&["a", "b", "c", "d"], &[(0, 1), (1, 2), (2, 3), (3, 2)]);
    assert_eq!(graph.try_topo_sort(), None);
}

#[test]
fn schedule_gives_positions() {
    let (graph, _) = graph_of(&["a", "b", "c", "d"], &[(3, 2), (2, 0), (0, 1)]);
    assert_eq!(graph.try_schedule(), Some(vec![3, 2, 0, 1]));
}

#[test]
fn buffer_nodes_emit_nothing() {
    let (graph, _) = graph_of(&["a", "b", "c"], &[(0, 1), (1, 2)]);
    assert_eq!(graph.emit_graph(), Ok(String::new()));
    assert_eq!(graph.emit(), Ok(String::new()));
}

#[test]
fn names_of_nodes_and_graphs() {
    let mut ids = IdCounter::new();
    let node = buffer_node("rA", &mut ids);
    assert_eq!(node.get_node_name(), "rA");
    assert_eq!(node.get_name(), "rA");
    assert_eq!(node.get_id(), 1);
    let reference = node.node_ref();
    assert_eq!(reference.id, 1);
    assert_eq!(reference.name, "rA");
    let graph = ThrillerGraph::new(42);
    assert_eq!(graph.get_name(), "graph_42");
}
