//! A code generator for tiled tensor computations on a memory hierarchy of
//! global memory, shared memory and registers.
//!
//! A computation is described by a nested dataflow graph:
//!
//! - a [`Buffer`] is a named tile of memory at one level of the hierarchy;
//! - an [`AccessMap`] holds the iteration variables of a loop nest and, for each
//!   buffer that takes part, the index expressions by which the loops reach it;
//! - an [`AttachedEdge`] is a load or a store between two buffers, with its
//!   access map;
//! - a [`ThrillerGraph`] holds nodes (buffers, operations and blocks) and the
//!   structural edges that say which node is scheduled before which;
//! - a [`ThrillerBlock`] is a loop nest at one level of the hierarchy around a
//!   graph: it loads its inputs, runs the graph and stores its outputs.
//!
//! Emission turns a block into the text of a kernel. Every function that emits
//! text has a contract that says, over sequences of characters, which text that
//! is, and on which inputs which error comes instead.

use vstd::prelude::*;

pub mod access;
pub mod buffer;
pub mod dataflow;
pub mod dtype;
pub mod engine;
pub mod error;
pub mod id;
pub mod kernels;
pub mod shape;
pub mod task;
pub mod text;
pub mod utils;
pub mod var;

pub use access::{AccessMap, AccessMatrix, AccessOffset};
pub use buffer::{BufType, Buffer};
pub use dataflow::{
    AllocateEdge, AllocateVar, AttachedEdge, BlockType, GraphPass, LoopGroup, NodeRef,
    ScheduleNode, ScheduleTree, ThrillerBlock, ThrillerEdge, ThrillerGraph, ThrillerNode,
    ThrillerNodeInner,
};
pub use dtype::DataType;
pub use engine::{BlockLayout, BlockShape, ThrillerEngine};
pub use error::{ThrillerError, ThrillerResult};
pub use id::IdCounter;
pub use shape::{Dim, Dimension, Layout, Shape};
pub use task::{gen_gemm, Compute, Convert, CopyTask, CopyType, Gemm, Operator, Task};
pub use utils::{BufBuilder, ThrillerUtils};
pub use var::{IterationBound, IterationVar, RegularVar, Var};

verus! {

/// Level of the memory hierarchy a block or a graph is bound to.
#[derive(Clone, Copy, PartialEq, Eq, Structural, Debug)]
pub enum MemoryLevel {
    /// Register file.
    Register,
    /// Shared memory.
    Shared,
    /// Global memory.
    Global,
}

impl Default for MemoryLevel {
    fn default() -> (level: Self)
        ensures
            level == MemoryLevel::Register,
    {
        MemoryLevel::Register
    }
}

} // verus!
