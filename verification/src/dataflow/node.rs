//! Nodes of the dataflow graph.

use std::rc::Rc;
use vstd::prelude::*;
use vstd::string::*;

use crate::buffer::Buffer;
use crate::dataflow::block::ThrillerBlock;
use crate::dataflow::edge::{AttachedEdge, ThrillerEdge};
use crate::dataflow::transfer::edge_values;
use crate::error::{emitted, ThrillerError, ThrillerResult};
use crate::task::{Operator, Task};

verus! {

/// What a task keeps of a node that it reads or writes: the node's identifier
/// and its name.
pub struct NodeRef {
    /// The node's identifier.
    pub id: usize,
    /// The node's name.
    pub name: String,
}

/// [`ThrillerNodeInner`] is what a node holds: an operation, a buffer or a block.
///
/// A buffer node is a placeholder for a tensor in memory and computes nothing;
/// an operation is a task that the graph emits; a block is a loop nest with a
/// graph of its own.
pub enum ThrillerNodeInner {
    /// An operation.
    Op(Operator),
    /// A buffer.
    Buffer(Rc<Buffer>),
    /// A subgraph block.
    Block(Rc<ThrillerBlock>),
}

/// The buffers that `buffers` points to.
pub open spec fn buffer_values(buffers: Seq<Rc<Buffer>>) -> Seq<Buffer> {
    Seq::new(buffers.len(), |i: int| *buffers[i])
}

/// [`ThrillerNode`] is a node of the dataflow graph: a buffer, an operation or
/// a block, with the structural edges that the graph has connected to it.
pub struct ThrillerNode {
    inner: ThrillerNodeInner,
    in_edges: Vec<ThrillerEdge>,
    out_edges: Vec<ThrillerEdge>,
    prevs: Vec<usize>,
    nexts: Vec<usize>,
    id: usize,
    in_degrees: usize,
}

impl ThrillerNode {
    /// The node's identifier.
    pub closed spec fn id(&self) -> usize {
        self.id
    }

    /// What the node holds.
    pub closed spec fn inner(&self) -> ThrillerNodeInner {
        self.inner
    }

    /// The edges that end at the node, in the order in which they were connected.
    pub closed spec fn in_edges(&self) -> Seq<ThrillerEdge> {
        self.in_edges@
    }

    /// The edges that start at the node, in the order in which they were connected.
    pub closed spec fn out_edges(&self) -> Seq<ThrillerEdge> {
        self.out_edges@
    }

    /// The identifiers of the node's predecessors, in the order in which they
    /// were connected.
    pub closed spec fn prevs(&self) -> Seq<usize> {
        self.prevs@
    }

    /// The identifiers of the node's successors, in the order in which they were
    /// connected.
    pub closed spec fn nexts(&self) -> Seq<usize> {
        self.nexts@
    }

    /// The number of predecessors that have been counted.
    pub closed spec fn in_degree(&self) -> nat {
        self.in_degrees as nat
    }

    /// Whether nothing has been connected to the node yet.
    pub open spec fn is_fresh(&self) -> bool {
        &&& self.in_edges().len() == 0
        &&& self.out_edges().len() == 0
        &&& self.prevs().len() == 0
        &&& self.nexts().len() == 0
        &&& self.in_degree() == 0
    }

    /// The node's name: that of its buffer, its operation or its block.
    pub open spec fn node_name(&self) -> Seq<char> {
        match self.inner() {
            ThrillerNodeInner::Buffer(buffer) => buffer.name(),
            ThrillerNodeInner::Op(task) => task.name_text(),
            ThrillerNodeInner::Block(block) => block.block_name(),
        }
    }

    /// Whether what the node holds can be emitted: anything but a block that cannot.
    pub closed spec fn emittable(&self) -> bool
        decreases self,
    {
        match self.inner {
            ThrillerNodeInner::Block(block) => block.emittable(),
            _ => true,
        }
    }

    /// What the node adds to the code of its graph: the code of its operation or
    /// of its block, and nothing for a buffer.
    pub closed spec fn node_text(&self) -> Result<Seq<char>, ThrillerError>
        decreases self,
    {
        match self.inner {
            ThrillerNodeInner::Op(task) => task.emit_text(),
            ThrillerNodeInner::Buffer(_) => Ok(Seq::empty()),
            ThrillerNodeInner::Block(block) => block.block_text(),
        }
    }

    /// `emittable` and `node_text`, by what the node holds.
    pub proof fn lemma_node_text(&self)
        ensures
            self.emittable() == (match self.inner() {
                ThrillerNodeInner::Block(block) => block.emittable(),
                _ => true,
            }),
            self.node_text() == (match self.inner() {
                ThrillerNodeInner::Op(task) => task.emit_text(),
                ThrillerNodeInner::Buffer(_) => Ok(Seq::empty()),
                ThrillerNodeInner::Block(block) => block.block_text(),
            }),
    {
    }

    /// Create a new `ThrillerNode` with the given inner type.
    pub fn new(inner: ThrillerNodeInner, id: usize) -> (node: Self)
        ensures
            node.inner() == inner,
            node.id() == id,
            node.is_fresh(),
    {
        ThrillerNode {
            inner,
            in_edges: Vec::new(),
            out_edges: Vec::new(),
            prevs: Vec::new(),
            nexts: Vec::new(),
            id,
            in_degrees: 0,
        }
    }

    /// Whether nothing has been connected to the node yet.
    pub fn check_fresh(&self) -> (b: bool)
        ensures
            b == self.is_fresh(),
    {
        self.in_edges.len() == 0 && self.out_edges.len() == 0 && self.prevs.len() == 0
            && self.nexts.len() == 0 && self.in_degrees == 0
    }

    /// Whether what the node holds can be emitted.
    pub fn is_emittable(&self) -> (b: bool)
        ensures
            b == self.emittable(),
        decreases self,
    {
        match &self.inner {
            ThrillerNodeInner::Block(block) => block.is_emittable(),
            _ => true,
        }
    }

    /// Get the name of the node.
    pub fn get_node_name(&self) -> (name: String)
        ensures
            name@ == self.node_name(),
    {
        match &self.inner {
            ThrillerNodeInner::Buffer(buffer) => buffer.get_name().clone(),
            ThrillerNodeInner::Op(task) => task.get_name(),
            ThrillerNodeInner::Block(block) => block.get_name(),
        }
    }

    /// The node's identifier and name, for a task that reads or writes the node.
    pub fn node_ref(&self) -> (r: NodeRef)
        ensures
            r.id == self.id(),
            r.name@ == self.node_name(),
    {
        NodeRef { id: self.id, name: self.get_node_name() }
    }

    /// The node's identifier.
    pub fn get_id(&self) -> (id: usize)
        ensures
            id == self.id(),
    {
        self.id
    }

    /// The number of edges that end at the node.
    pub fn get_in_degrees(&self) -> (n: usize)
        ensures
            n == self.in_degree(),
    {
        self.in_degrees
    }

    /// The node's predecessors.
    pub fn get_prevs(&self) -> (prevs: &Vec<usize>)
        ensures
            prevs@ == self.prevs(),
    {
        &self.prevs
    }

    /// The node's successors.
    pub fn get_nexts(&self) -> (nexts: &Vec<usize>)
        ensures
            nexts@ == self.nexts(),
    {
        &self.nexts
    }

    /// What the node holds.
    pub fn get_inner(&self) -> (inner: &ThrillerNodeInner)
        ensures
            *inner == self.inner(),
    {
        &self.inner
    }

    /// Adds an edge that ends at the node.
    pub(crate) fn add_in_edge(&mut self, edge: ThrillerEdge)
        ensures
            final(self).in_edges() == old(self).in_edges().push(edge),
            final(self).same_but_in_edges(old(self)),
    {
        self.in_edges.push(edge);
    }

    /// Adds an edge that starts at the node.
    pub(crate) fn add_out_edge(&mut self, edge: ThrillerEdge)
        ensures
            final(self).out_edges() == old(self).out_edges().push(edge),
            final(self).same_but_out_edges(old(self)),
    {
        self.out_edges.push(edge);
    }

    /// Adds a predecessor.
    pub(crate) fn add_prev(&mut self, node: usize)
        ensures
            final(self).prevs() == old(self).prevs().push(node),
            final(self).prevs().len() <= usize::MAX,
            final(self).same_but_prevs(old(self)),
    {
        self.prevs.push(node);
        let _ = self.prevs.len();
    }

    /// Adds a successor.
    pub(crate) fn add_next(&mut self, node: usize)
        ensures
            final(self).nexts() == old(self).nexts().push(node),
            final(self).same_but_nexts(old(self)),
    {
        self.nexts.push(node);
    }

    /// Counts one more predecessor.
    pub(crate) fn inc_in_degrees(&mut self)
        requires
            old(self).in_degree() < usize::MAX,
        ensures
            final(self).in_degree() == old(self).in_degree() + 1,
            final(self).same_but_in_degree(old(self)),
    {
        self.in_degrees = self.in_degrees + 1;
    }

    /// Whether the two nodes have the same identifier and hold the same, and so
    /// emit the same.
    pub open spec fn same_payload(&self, other: &ThrillerNode) -> bool {
        &&& self.id() == other.id()
        &&& self.inner() == other.inner()
        &&& self.emittable() == other.emittable()
        &&& self.node_text() == other.node_text()
    }

    /// Whether the two nodes differ at most in the edges that end at them.
    pub open spec fn same_but_in_edges(&self, other: &ThrillerNode) -> bool {
        &&& self.same_payload(other)
        &&& self.out_edges() == other.out_edges()
        &&& self.prevs() == other.prevs()
        &&& self.nexts() == other.nexts()
        &&& self.in_degree() == other.in_degree()
    }

    /// Whether the two nodes differ at most in the edges that start at them.
    pub open spec fn same_but_out_edges(&self, other: &ThrillerNode) -> bool {
        &&& self.same_payload(other)
        &&& self.in_edges() == other.in_edges()
        &&& self.prevs() == other.prevs()
        &&& self.nexts() == other.nexts()
        &&& self.in_degree() == other.in_degree()
    }

    /// Whether the two nodes differ at most in their predecessors.
    pub open spec fn same_but_prevs(&self, other: &ThrillerNode) -> bool {
        &&& self.same_payload(other)
        &&& self.in_edges() == other.in_edges()
        &&& self.out_edges() == other.out_edges()
        &&& self.nexts() == other.nexts()
        &&& self.in_degree() == other.in_degree()
    }

    /// Whether the two nodes differ at most in their successors.
    pub open spec fn same_but_nexts(&self, other: &ThrillerNode) -> bool {
        &&& self.same_payload(other)
        &&& self.in_edges() == other.in_edges()
        &&& self.out_edges() == other.out_edges()
        &&& self.prevs() == other.prevs()
        &&& self.in_degree() == other.in_degree()
    }

    /// Whether the two nodes differ at most in their in-degree.
    pub open spec fn same_but_in_degree(&self, other: &ThrillerNode) -> bool {
        &&& self.same_payload(other)
        &&& self.in_edges() == other.in_edges()
        &&& self.out_edges() == other.out_edges()
        &&& self.prevs() == other.prevs()
        &&& self.nexts() == other.nexts()
    }

    /// The buffers of the node: its buffer, or those of the graph inside its block.
    pub closed spec fn buffers(&self) -> Seq<Buffer>
        decreases self,
    {
        match self.inner {
            ThrillerNodeInner::Buffer(buffer) => seq![*buffer],
            ThrillerNodeInner::Block(block) => block.buffers(),
            ThrillerNodeInner::Op(_) => Seq::empty(),
        }
    }

    /// The attached edges of the node: those of its block and of the blocks inside it.
    pub closed spec fn attached_edges(&self) -> Seq<AttachedEdge>
        decreases self,
    {
        match self.inner {
            ThrillerNodeInner::Block(block) => block.attached_edges(),
            _ => Seq::empty(),
        }
    }

    /// `buffers` and `attached_edges`, by what the node holds.
    pub proof fn lemma_node_parts(&self)
        ensures
            self.buffers() == (match self.inner() {
                ThrillerNodeInner::Buffer(buffer) => seq![*buffer],
                ThrillerNodeInner::Block(block) => block.buffers(),
                ThrillerNodeInner::Op(_) => Seq::empty(),
            }),
            self.attached_edges() == (match self.inner() {
                ThrillerNodeInner::Block(block) => block.attached_edges(),
                _ => Seq::empty(),
            }),
    {
    }

    /// Appends the buffers of the node to `out`.
    pub fn collect_buffers(&self, out: &mut Vec<Rc<Buffer>>)
        ensures
            buffer_values(final(out)@) == buffer_values(old(out)@) + self.buffers(),
        decreases self,
    {
        match &self.inner {
            ThrillerNodeInner::Buffer(buffer) => {
                out.push(Rc::clone(buffer));
                assert(buffer_values(out@) =~= buffer_values(old(out)@) + seq![**buffer]);
            },
            ThrillerNodeInner::Block(block) => {
                block.collect_buffers(out);
            },
            ThrillerNodeInner::Op(_) => {
                assert(buffer_values(out@) =~= buffer_values(old(out)@) + Seq::<Buffer>::empty());
            },
        }
    }

    /// Appends the attached edges of the node to `out`.
    pub fn collect_attached_edges(&self, out: &mut Vec<Rc<AttachedEdge>>)
        ensures
            edge_values(final(out)@) == edge_values(
                old(out)@,
            ) + self.attached_edges(),
        decreases self,
    {
        match &self.inner {
            ThrillerNodeInner::Block(block) => {
                block.collect_attached_edges(out);
            },
            _ => {
                assert(edge_values(out@)
                    =~= edge_values(old(out)@) + Seq::<
                    AttachedEdge,
                >::empty());
            },
        }
    }

    /// Emits what the node adds to the code of its graph.
    pub fn emit_inner(&self) -> (r: ThrillerResult<String>)
        requires
            self.emittable(),
        ensures
            emitted(r, self.node_text()),
        decreases self,
    {
        match &self.inner {
            ThrillerNodeInner::Op(task) => task.emit(),
            ThrillerNodeInner::Buffer(_) => Ok(String::new()),
            ThrillerNodeInner::Block(block) => block.emit_block(),
        }
    }
}

impl Task for ThrillerNode {
    /// A node is emitted as a task only where it holds an operation.
    open spec fn ready(&self) -> bool {
        self.inner() is Op
    }

    open spec fn emit_text(&self) -> Result<Seq<char>, ThrillerError> {
        self.inner()->Op_0.emit_text()
    }

    open spec fn name_text(&self) -> Seq<char> {
        self.node_name()
    }

    fn emit(&self) -> (r: ThrillerResult<String>) {
        match &self.inner {
            ThrillerNodeInner::Op(task) => task.emit(),
            _ => unreached(),
        }
    }

    fn get_name(&self) -> (name: String) {
        self.get_node_name()
    }
}

} // verus!
