//! The pass that declares the loaders and storers of a graph.

use std::rc::Rc;
use vstd::prelude::*;
use vstd::string::*;

use crate::buffer::BufType;
use crate::dataflow::transfer::edge_values;
use crate::dataflow::edge::AttachedEdge;
use crate::dataflow::graph::ThrillerGraph;
use crate::dataflow::pass::GraphPass;

verus! {

/// The type and the name of the object that moves data from a buffer of kind
/// `src` to one of kind `dst`, where such a move is declared.
pub open spec fn mover(src: BufType, dst: BufType) -> Option<(Seq<char>, Seq<char>)> {
    match (src, dst) {
        (BufType::GlobalTile, BufType::SharedTile) => Some(("G2SLoader"@, "g2s"@)),
        (BufType::SharedTile, BufType::RegTile) => Some(("S2RLoader"@, "s2r"@)),
        (BufType::RegTile, BufType::SharedTile) => Some(("R2SStorer"@, "r2s"@)),
        (BufType::SharedTile, BufType::GlobalTile) => Some(("S2GStorer"@, "s2g"@)),
        _ => None,
    }
}

/// The declaration of the object that moves the data of the edge: its type and
/// its name, both followed by the names of the two buffers; nothing for an edge
/// whose move is not declared.
pub open spec fn edge_decl_text(edge: AttachedEdge) -> Seq<char> {
    match mover(edge.src().typing(), edge.dst().typing()) {
        Some((class, object)) => class + edge.src().name() + "_"@ + edge.dst().name() + " "@
            + object + edge.src().name() + "_"@ + edge.dst().name() + ";\n"@,
        None => Seq::empty(),
    }
}

/// The declarations of the first `k` of `edges`.
pub open spec fn edge_decls_text(edges: Seq<AttachedEdge>, k: nat) -> Seq<char>
    decreases k,
{
    if k == 0 {
        Seq::empty()
    } else {
        edge_decls_text(edges, (k - 1) as nat) + edge_decl_text(edges[k - 1])
    }
}

/// The pass that declares a loader or a storer for every attached edge of a graph.
pub struct AllocateEdge {
    code: String,
}

impl AllocateEdge {
    /// The declarations written so far.
    pub closed spec fn code_text(&self) -> Seq<char> {
        self.code@
    }

    /// A pass that has declared nothing yet.
    pub fn new() -> (pass: Self)
        ensures
            pass.code_text() == Seq::<char>::empty(),
    {
        Self { code: String::new() }
    }

    /// The declarations written so far.
    pub fn code(&self) -> (code: String)
        ensures
            code@ == self.code_text(),
    {
        self.code.clone()
    }

    /// Declares the loader or the storer of the edge.
    pub fn allocate_edge(&mut self, edge: &AttachedEdge)
        ensures
            final(self).code_text() == old(self).code_text() + edge_decl_text(*edge),
    {
        let src = edge.get_src();
        let dst = edge.get_dst();
        let names = match (src.get_typing(), dst.get_typing()) {
            (BufType::GlobalTile, BufType::SharedTile) => Some(("G2SLoader", "g2s")),
            (BufType::SharedTile, BufType::RegTile) => Some(("S2RLoader", "s2r")),
            (BufType::RegTile, BufType::SharedTile) => Some(("R2SStorer", "r2s")),
            (BufType::SharedTile, BufType::GlobalTile) => Some(("S2GStorer", "s2g")),
            _ => None,
        };
        match names {
            Some((class, object)) => {
                self.code.append(class);
                self.code.append(src.get_name().as_str());
                self.code.append("_");
                self.code.append(dst.get_name().as_str());
                self.code.append(" ");
                self.code.append(object);
                self.code.append(src.get_name().as_str());
                self.code.append("_");
                self.code.append(dst.get_name().as_str());
                self.code.append(";\n");
                assert(self.code@ =~= old(self).code@ + edge_decl_text(*edge));
            },
            None => {
                assert(self.code@ =~= old(self).code@ + edge_decl_text(*edge));
            },
        }
    }
}

impl GraphPass for AllocateEdge {
    /// Declares the loaders and storers of the blocks of the graph and of the
    /// blocks inside them: for each block its inputs, then its outputs, then
    /// what is inside it.
    fn run(&mut self, graph: &mut ThrillerGraph)
        ensures
            final(self).code_text() == old(self).code_text() + edge_decls_text(
                old(graph).attached_edges(),
                old(graph).attached_edges().len(),
            ),
    {
        let mut edges: Vec<Rc<AttachedEdge>> = Vec::new();
        graph.collect_attached_edges(&mut edges);
        let ghost all = edge_values(edges@);
        assert(all =~= graph.attached_edges());
        let mut i: usize = 0;
        assert(self.code@ =~= old(self).code@ + edge_decls_text(all, 0));
        while i < edges.len()
            invariant
                i <= edges@.len(),
                all == edge_values(edges@),
                self.code@ == old(self).code@ + edge_decls_text(all, i as nat),
            decreases edges.len() - i,
        {
            self.allocate_edge(&edges[i]);
            i = i + 1;
        }
    }
}

} // verus!
