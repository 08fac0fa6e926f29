//! The pass that declares the buffers of a graph.

use std::rc::Rc;
use vstd::prelude::*;
use vstd::string::*;

use crate::buffer::{BufType, Buffer};
use crate::dataflow::graph::ThrillerGraph;
use crate::dataflow::node::buffer_values;
use crate::dataflow::pass::GraphPass;

verus! {

/// What the type of a buffer's declaration begins with.
pub open spec fn storage_prefix(typing: BufType) -> Seq<char> {
    match typing {
        BufType::GlobalTile => "Global"@,
        BufType::SharedTile => "Shared"@,
        BufType::RegTile => "Reg"@,
        BufType::RegVec => "Reg"@,
    }
}

/// The declaration of a buffer: its type, which is named after its storage and
/// after itself, and its name.
pub open spec fn var_decl_text(buffer: Buffer) -> Seq<char> {
    storage_prefix(buffer.typing()) + buffer.name() + " "@ + buffer.name() + ";\n"@
}

/// The declarations of the first `k` of `buffers`.
pub open spec fn var_decls_text(buffers: Seq<Buffer>, k: nat) -> Seq<char>
    decreases k,
{
    if k == 0 {
        Seq::empty()
    } else {
        var_decls_text(buffers, (k - 1) as nat) + var_decl_text(buffers[k - 1])
    }
}

/// The pass that declares a variable for every buffer of a graph.
pub struct AllocateVar {
    code: String,
}

impl AllocateVar {
    /// The declarations written so far.
    pub closed spec fn code_text(&self) -> Seq<char> {
        self.code@
    }

    /// A pass that has declared nothing yet.
    pub fn new() -> (pass: Self)
        ensures
            pass.code_text() == Seq::<char>::empty(),
    {
        Self { code: String::new() }
    }

    /// The declarations written so far.
    pub fn code(&self) -> (code: String)
        ensures
            code@ == self.code_text(),
    {
        self.code.clone()
    }
}

impl GraphPass for AllocateVar {
    /// Declares the buffers of the graph and of the blocks inside it, in the
    /// order of the nodes.
    fn run(&mut self, graph: &mut ThrillerGraph)
        ensures
            final(self).code_text() == old(self).code_text() + var_decls_text(
                old(graph).buffers(),
                old(graph).buffers().len(),
            ),
    {
        let mut buffers: Vec<Rc<Buffer>> = Vec::new();
        graph.collect_buffers(&mut buffers);
        let ghost all = buffer_values(buffers@);
        assert(all =~= graph.buffers());
        let mut i: usize = 0;
        assert(self.code@ =~= old(self).code@ + var_decls_text(all, 0));
        while i < buffers.len()
            invariant
                i <= buffers@.len(),
                all == buffer_values(buffers@),
                self.code@ == old(self).code@ + var_decls_text(all, i as nat),
            decreases buffers.len() - i,
        {
            let buffer = &buffers[i];
            let ghost held = self.code@;
            match buffer.get_typing() {
                BufType::GlobalTile => {
                    self.code.append("Global");
                },
                BufType::SharedTile => {
                    self.code.append("Shared");
                },
                _ => {
                    self.code.append("Reg");
                },
            }
            self.code.append(buffer.get_name().as_str());
            self.code.append(" ");
            self.code.append(buffer.get_name().as_str());
            self.code.append(";\n");
            assert(self.code@ =~= held + var_decl_text(all[i as int]));
            i = i + 1;
        }
    }
}

} // verus!
