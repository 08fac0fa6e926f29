//! Passes over a graph and the blocks inside it.

use vstd::prelude::*;

use crate::dataflow::graph::ThrillerGraph;

pub mod allocate_edge;
pub mod allocate_var;

pub use allocate_edge::AllocateEdge;
pub use allocate_var::AllocateVar;

verus! {

/// A trait for graph passes.
pub trait GraphPass {
    /// Run the pass on the graph.
    fn run(&mut self, graph: &mut ThrillerGraph)
        ensures
            *final(graph) == *old(graph),
    ;
}

} // verus!
