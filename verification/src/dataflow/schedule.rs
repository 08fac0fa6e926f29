//! Schedule trees: loop nests with the tasks mounted in them.

use std::rc::Rc;
use vstd::prelude::*;
use vstd::string::*;

use crate::access::{loop_headers, pointees, push_loop_header};
use crate::error::{emitted, ThrillerError, ThrillerResult};
use crate::task::{Operator, Task};
use crate::var::IterationVar;

verus! {

/// What the first `k` of `ops` emit, one behind the other: their code, or the
/// first error among them.
pub open spec fn ops_text(ops: Seq<Operator>, k: nat) -> Result<Seq<char>, ThrillerError>
    decreases k,
{
    if k == 0 {
        Ok(Seq::empty())
    } else {
        match ops_text(ops, (k - 1) as nat) {
            Err(e) => Err(e),
            Ok(code) => match ops[k - 1].emit_text() {
                Err(e) => Err(e),
                Ok(text) => Ok(code + text),
            },
        }
    }
}

/// An error among the first `k` operations is the error of all.
pub proof fn lemma_ops_error_sticks(ops: Seq<Operator>, k: nat, m: nat)
    requires
        k <= m,
        ops_text(ops, k) is Err,
    ensures
        ops_text(ops, m) == ops_text(ops, k),
    decreases m,
{
    if m > k {
        lemma_ops_error_sticks(ops, k, (m - 1) as nat);
    }
}

/// Schedule node: a loop nest with the tasks mounted in it and the nodes below it.
pub struct ScheduleNode {
    loop_info: Vec<Rc<IterationVar>>,
    childrens: Vec<ScheduleNode>,
    op: Vec<Operator>,
}

impl ScheduleNode {
    /// The iteration variables of the node's loop nest, outermost first.
    pub closed spec fn loop_info(&self) -> Seq<IterationVar> {
        pointees(self.loop_info@)
    }

    /// The nodes below the node.
    pub closed spec fn childrens(&self) -> Seq<ScheduleNode> {
        self.childrens@
    }

    /// The tasks mounted in the node.
    pub closed spec fn ops(&self) -> Seq<Operator> {
        self.op@
    }

    /// Create a new [`ScheduleNode`] with the given iteration variables.
    pub fn new(ivar: Vec<Rc<IterationVar>>) -> (node: Self)
        ensures
            node.loop_info() == pointees(ivar@),
            node.childrens().len() == 0,
            node.ops().len() == 0,
    {
        ScheduleNode { loop_info: ivar, childrens: Vec::new(), op: Vec::new() }
    }

    /// Add a child to the node.
    pub fn add_child(&mut self, child: ScheduleNode)
        ensures
            final(self).childrens() == old(self).childrens().push(child),
            final(self).loop_info() == old(self).loop_info(),
            final(self).ops() == old(self).ops(),
    {
        self.childrens.push(child);
    }

    /// Mount a task to the node.
    pub fn mount_task(&mut self, task: Operator)
        ensures
            final(self).ops() == old(self).ops().push(task),
            final(self).loop_info() == old(self).loop_info(),
            final(self).childrens() == old(self).childrens(),
    {
        self.op.push(task);
    }

    /// The lines that open the node's loop nest.
    pub fn emit_loop(&self) -> (r: ThrillerResult<String>)
        ensures
            emitted(r, Ok(loop_headers(self.loop_info(), self.loop_info().len()))),
    {
        let ghost ivars = self.loop_info();
        let mut code = String::new();
        let mut i: usize = 0;
        assert(code@ =~= loop_headers(ivars, 0));
        while i < self.loop_info.len()
            invariant
                i <= self.loop_info@.len(),
                ivars == self.loop_info(),
                code@ == loop_headers(ivars, i as nat),
            decreases self.loop_info.len() - i,
        {
            push_loop_header(&mut code, &self.loop_info[i], i);
            i = i + 1;
        }
        Ok(code)
    }

    /// The code of the tasks mounted in the node, in their order.
    pub fn emit(&self) -> (r: ThrillerResult<String>)
        ensures
            emitted(r, ops_text(self.ops(), self.ops().len())),
    {
        let mut code = String::new();
        let mut i: usize = 0;
        while i < self.op.len()
            invariant
                i <= self.op@.len(),
                ops_text(self.op@, i as nat) == Ok::<Seq<char>, ThrillerError>(code@),
            decreases self.op.len() - i,
        {
            match self.op[i].emit() {
                Ok(text) => {
                    code.append(text.as_str());
                },
                Err(e) => {
                    proof {
                        assert(ops_text(self.op@, (i + 1) as nat) == Err::<Seq<char>, ThrillerError>(
                            e,
                        ));
                        lemma_ops_error_sticks(self.op@, (i + 1) as nat, self.op@.len());
                    }
                    return Err(e);
                },
            }
            i = i + 1;
        }
        Ok(code)
    }
}

/// Schedule tree.
pub struct ScheduleTree {
    root: ScheduleNode,
}

impl ScheduleTree {
    /// The root of the tree.
    pub closed spec fn root(&self) -> ScheduleNode {
        self.root
    }

    /// Create a new [`ScheduleTree`] with the given root node.
    pub fn new(root: ScheduleNode) -> (tree: Self)
        ensures
            tree.root() == root,
    {
        ScheduleTree { root }
    }

    /// The root of the tree.
    pub fn get_root(&self) -> (root: &ScheduleNode)
        ensures
            *root == self.root(),
    {
        &self.root
    }
}

} // verus!
