//! Edges: attached edges between buffers, and structural edges between nodes.

use std::rc::Rc;
use vstd::prelude::*;

use crate::access::{pointees, var_ids, AccessMap};
use crate::buffer::Buffer;
use crate::dataflow::node::ThrillerNode;
use crate::error::{ThrillerError, ThrillerResult};
use crate::text::views;
use crate::var::{IterationVar, Var};

verus! {

/// What the loop nest of an access map is known by: its declared depth and the
/// identifiers of its iteration variables, outermost first.
pub open spec fn loop_key(access: Option<Rc<AccessMap>>) -> Option<(nat, Seq<usize>)> {
    match access {
        Some(map) => Some((map.depth(), var_ids(map.ivars()))),
        None => None,
    }
}

/// [`AttachedEdge`] is an edge that connects a source and destination buffer
/// with additional access pattern information [`AccessMap`]: one load or store
/// across a boundary of the memory hierarchy.
pub struct AttachedEdge {
    id: usize,
    src: Rc<Buffer>,
    dst: Rc<Buffer>,
    access: Option<Rc<AccessMap>>,
}

impl AttachedEdge {
    /// The edge's identifier.
    pub closed spec fn id(&self) -> usize {
        self.id
    }

    /// The buffer that is read.
    pub closed spec fn src(&self) -> Buffer {
        *self.src
    }

    /// The buffer that is written.
    pub closed spec fn dst(&self) -> Buffer {
        *self.dst
    }

    /// The access map, if the edge carries one.
    pub closed spec fn access(&self) -> Option<Rc<AccessMap>> {
        self.access
    }

    /// Two edges are loop-equal where their access maps have the same declared
    /// depth and iteration variables of the same identifiers in the same order;
    /// two edges without access map are loop-equal, and no edge with one is
    /// loop-equal to an edge without.
    pub open spec fn loop_equal(&self, other: &AttachedEdge) -> bool {
        loop_key(self.access()) == loop_key(other.access())
    }

    /// Create a new `AttachedEdge` with the given source and destination buffers.
    pub fn new(src: Rc<Buffer>, dst: Rc<Buffer>, access: Option<Rc<AccessMap>>, id: usize) -> (edge:
        Self)
        ensures
            edge.id() == id,
            edge.src() == *src,
            edge.dst() == *dst,
            edge.access() == access,
    {
        AttachedEdge { id, src, dst, access }
    }

    /// Get the source buffer of the edge.
    pub fn get_src(&self) -> (src: &Rc<Buffer>)
        ensures
            **src == self.src(),
    {
        &self.src
    }

    /// Get the destination buffer of the edge.
    pub fn get_dst(&self) -> (dst: &Rc<Buffer>)
        ensures
            **dst == self.dst(),
    {
        &self.dst
    }

    /// Get the name of the source buffer of the edge.
    pub fn get_src_name(&self) -> (name: &String)
        ensures
            name@ == self.src().name(),
    {
        self.src.get_name()
    }

    /// Get the name of the destination buffer of the edge.
    pub fn get_dst_name(&self) -> (name: &String)
        ensures
            name@ == self.dst().name(),
    {
        self.dst.get_name()
    }

    /// Get the access pattern of the edge.
    pub fn get_access(&self) -> (access: &Option<Rc<AccessMap>>)
        ensures
            *access == self.access(),
    {
        &self.access
    }

    /// Replace the access pattern of the edge.
    pub fn replace_access_map(&mut self, access: Rc<AccessMap>)
        ensures
            final(self).access() == Some(access),
            final(self).id() == old(self).id(),
            final(self).src() == old(self).src(),
            final(self).dst() == old(self).dst(),
    {
        self.access = Some(access);
    }

    /// Emit Memory Access code based on index: the index expressions of buffer
    /// `index` of the edge's access map.
    pub fn emit_access(&self, index: usize) -> (r: ThrillerResult<Vec<String>>)
        ensures
            match r {
                Ok(access) => self.access() matches Some(map) && map.access_ok(index as int)
                    && views(access@) == map.access_text(index as int),
                Err(e) => match self.access() {
                    None => e == ThrillerError::MissingAccessMap,
                    Some(map) => !map.access_ok(index as int) && e
                        == ThrillerError::InvalidAccessPattern,
                },
            },
    {
        match &self.access {
            None => Err(ThrillerError::MissingAccessMap),
            Some(map) => map.emit_access(index),
        }
    }

    /// Whether the two edges are loop-equal.
    pub fn check_loop_equal(&self, other: &AttachedEdge) -> (equal: bool)
        ensures
            equal == self.loop_equal(other),
    {
        match (&self.access, &other.access) {
            (None, None) => true,
            (Some(a), Some(b)) => {
                if a.get_loop_depth() != b.get_loop_depth() {
                    assert(loop_key(self.access())->Some_0.0 != loop_key(other.access())->Some_0.0);
                    return false;
                }
                let xs = a.get_iter_vars();
                let ys = b.get_iter_vars();
                if xs.len() != ys.len() {
                    assert(var_ids(a.ivars()).len() != var_ids(b.ivars()).len());
                    assert(loop_key(self.access())->Some_0.1 != loop_key(other.access())->Some_0.1);
                    return false;
                }
                let mut i: usize = 0;
                while i < xs.len()
                    invariant
                        i <= xs@.len() == ys@.len(),
                        self.access() == Some(*a),
                        other.access() == Some(*b),
                        pointees(xs@) == a.ivars(),
                        pointees(ys@) == b.ivars(),
                        forall|k: int|
                            0 <= k < i ==> var_ids(a.ivars())[k] == var_ids(b.ivars())[k],
                    decreases xs.len() - i,
                {
                    if xs[i].get_id() != ys[i].get_id() {
                        assert(var_ids(a.ivars())[i as int] != var_ids(b.ivars())[i as int]);
                        assert(loop_key(self.access())->Some_0.1 != loop_key(other.access())->Some_0.1);
                        return false;
                    }
                    i = i + 1;
                }
                assert(var_ids(a.ivars()) =~= var_ids(b.ivars()));
                true
            },
            _ => false,
        }
    }
}

/// `ThrillerEdge` is a structural edge of the dataflow graph: the node `dst`
/// is scheduled after the node `src`. It names the two nodes by their identifiers.
#[derive(Clone, Copy, PartialEq, Eq, Structural, Debug)]
pub struct ThrillerEdge {
    /// Identifier of the node that comes first.
    pub src: usize,
    /// Identifier of the node that comes after it.
    pub dst: usize,
}

impl ThrillerEdge {
    /// Create a new `ThrillerEdge` from `src` to `dst`.
    pub fn new(src: &ThrillerNode, dst: &ThrillerNode) -> (edge: Self)
        ensures
            edge.src == src.id(),
            edge.dst == dst.id(),
    {
        ThrillerEdge { src: src.get_id(), dst: dst.get_id() }
    }

    /// Identifier of the node that comes first.
    pub fn get_src(&self) -> (id: usize)
        ensures
            id == self.src,
    {
        self.src
    }

    /// Identifier of the node that comes after it.
    pub fn get_dst(&self) -> (id: usize)
        ensures
            id == self.dst,
    {
        self.dst
    }
}

} // verus!
