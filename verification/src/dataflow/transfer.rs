//! Loads and stores across the levels of the memory hierarchy: the primitives
//! that move a tile from one kind of buffer into another, and the text that
//! calls them.

use std::rc::Rc;
use vstd::prelude::*;
use vstd::string::*;

use crate::buffer::BufType;
use crate::MemoryLevel;
use crate::dataflow::edge::AttachedEdge;
use crate::error::{ThrillerError, ThrillerResult, emitted};
use crate::kernels::sync::Sync;
use crate::text::views;

verus! {

/// The edges that `edges` points to.
pub open spec fn edge_values(edges: Seq<Rc<AttachedEdge>>) -> Seq<AttachedEdge> {
    Seq::new(edges.len(), |i: int| *edges[i])
}

/// The primitive that loads a tile from a buffer of kind `src` into one of kind
/// `dst`, where there is one.
pub open spec fn load_primitive(src: BufType, dst: BufType) -> Option<Seq<char>> {
    match (src, dst) {
        (BufType::GlobalTile, BufType::RegTile) => Some("copy_2d_tile_g2r"@),
        (BufType::SharedTile, BufType::RegTile) => Some("copy_2d_tile_s2r"@),
        (BufType::GlobalTile, BufType::SharedTile) => Some("copy_2d_tile_g2s"@),
        _ => None,
    }
}

/// The primitive that stores a tile from a buffer of kind `src` into one of
/// kind `dst`, where there is one.
pub open spec fn store_primitive(src: BufType, dst: BufType) -> Option<Seq<char>> {
    match (src, dst) {
        (BufType::RegTile, BufType::GlobalTile) => Some("storer_tile_r2g"@),
        (BufType::RegTile, BufType::SharedTile) => Some("storer_tile_r2s"@),
        (BufType::SharedTile, BufType::GlobalTile) => Some("storer_tile_s2g"@),
        _ => None,
    }
}

/// Whether the edge can be loaded: there is a primitive for its two buffers.
pub open spec fn loadable(edge: AttachedEdge) -> bool {
    load_primitive(edge.src().typing(), edge.dst().typing()) is Some
}

/// Whether the edge can be stored: there is a primitive for its two buffers.
pub open spec fn storable(edge: AttachedEdge) -> bool {
    store_primitive(edge.src().typing(), edge.dst().typing()) is Some
}

/// Whether the edge is loaded from shared memory into registers, which is
/// done by an asynchronous copy.
pub open spec fn is_async_load(edge: AttachedEdge) -> bool {
    edge.src().typing() == BufType::SharedTile && edge.dst().typing() == BufType::RegTile
}

/// The statement that calls `primitive` on the operands `src` and `dst`.
pub open spec fn copy_call(primitive: Seq<char>, src: Seq<char>, dst: Seq<char>) -> Seq<char> {
    primitive + "("@ + src + ", "@ + dst + ");\n"@
}

/// The statement that loads the edge, by the names of its buffers.
pub open spec fn load_text(edge: AttachedEdge) -> Seq<char> {
    copy_call(
        load_primitive(edge.src().typing(), edge.dst().typing())->Some_0,
        edge.src().name(),
        edge.dst().name(),
    )
}

/// The statement that stores the edge, by the names of its buffers.
pub open spec fn store_text(edge: AttachedEdge) -> Seq<char> {
    copy_call(
        store_primitive(edge.src().typing(), edge.dst().typing())->Some_0,
        edge.src().name(),
        edge.dst().name(),
    )
}

/// The statements that load the first `k` of `edges`.
pub open spec fn loads_text(edges: Seq<AttachedEdge>, k: nat) -> Seq<char>
    decreases k,
{
    if k == 0 {
        Seq::empty()
    } else {
        loads_text(edges, (k - 1) as nat) + load_text(edges[k - 1])
    }
}

/// The statements that store the first `k` of `edges`.
pub open spec fn stores_text(edges: Seq<AttachedEdge>, k: nat) -> Seq<char>
    decreases k,
{
    if k == 0 {
        Seq::empty()
    } else {
        stores_text(edges, (k - 1) as nat) + store_text(edges[k - 1])
    }
}

/// Whether one of `edges` is loaded by an asynchronous copy.
pub open spec fn any_async_load(edges: Seq<AttachedEdge>) -> bool {
    exists|i: int| 0 <= i < edges.len() && is_async_load(#[trigger] edges[i])
}

/// The loads of `edges` with the synchronization that they need: the commit of
/// the asynchronous copies, where one of the loads is one, and then the barrier,
/// where anything is loaded.
pub open spec fn synced_loads_text(edges: Seq<AttachedEdge>) -> Seq<char> {
    loads_text(edges, edges.len()) + (if any_async_load(edges) {
        Sync::copy_async_text()
    } else {
        Seq::empty()
    }) + (if edges.len() > 0 {
        Sync::sync_text()
    } else {
        Seq::empty()
    })
}

/// What stands inside the loop nest of a block at the level `level`: the loads
/// of its inputs; the commit of the asynchronous copies, where one of the loads
/// is one; the barrier that guards what was loaded; the commit of the copies
/// that a block at the shared level has issued; and the code of the graph
/// inside the block.
pub open spec fn loop_body_text(
    loads: Seq<char>,
    inputs: Seq<AttachedEdge>,
    level: MemoryLevel,
    inside: Seq<char>,
) -> Seq<char> {
    loads + (if any_async_load(inputs) {
        Sync::copy_async_text()
    } else {
        Seq::empty()
    }) + Sync::sync_text() + (if level == MemoryLevel::Shared {
        Sync::copy_async_text()
    } else {
        Seq::empty()
    }) + inside
}

/// `name` followed by the first `k` of `indices`, each in brackets.
pub open spec fn indexed(name: Seq<char>, indices: Seq<Seq<char>>, k: nat) -> Seq<char>
    decreases k,
{
    if k == 0 {
        name
    } else {
        indexed(name, indices, (k - 1) as nat) + "["@ + indices[k - 1] + "]"@
    }
}

/// The statement that loads the edge at the indices of its access map: the
/// source at those of the map's first buffer, the destination at those of its
/// second. The edge has to carry an access map, of depth one, with the index
/// expressions of two buffers.
pub open spec fn access_load_text(edge: AttachedEdge) -> Result<Seq<char>, ThrillerError> {
    match edge.access() {
        None => Err(ThrillerError::MissingAccessMap),
        Some(map) => if map.depth() != 1 {
            Err(ThrillerError::InvalidLoadAccess)
        } else if !map.access_ok(0) || !map.access_ok(1) {
            Err(ThrillerError::InvalidAccessPattern)
        } else {
            Ok(
                copy_call(
                    load_primitive(edge.src().typing(), edge.dst().typing())->Some_0,
                    indexed(edge.src().name(), map.access_text(0), map.access_text(0).len()),
                    indexed(edge.dst().name(), map.access_text(1), map.access_text(1).len()),
                ),
            )
        },
    }
}

/// The statements that load the first `k` of `edges` at the indices of their
/// access maps, or the first error among them.
pub open spec fn access_loads_text(edges: Seq<AttachedEdge>, k: nat) -> Result<
    Seq<char>,
    ThrillerError,
>
    decreases k,
{
    if k == 0 {
        Ok(Seq::empty())
    } else {
        match access_loads_text(edges, (k - 1) as nat) {
            Err(e) => Err(e),
            Ok(code) => match access_load_text(edges[k - 1]) {
                Err(e) => Err(e),
                Ok(text) => Ok(code + text),
            },
        }
    }
}

/// An error among the first `k` loads is the error of all.
pub proof fn lemma_load_error_sticks(edges: Seq<AttachedEdge>, k: nat, m: nat)
    requires
        k <= m,
        access_loads_text(edges, k) is Err,
    ensures
        access_loads_text(edges, m) == access_loads_text(edges, k),
    decreases m,
{
    if m > k {
        lemma_load_error_sticks(edges, k, (m - 1) as nat);
    }
}

/// Whether every one of `edges` can be loaded.
pub open spec fn all_loadable(edges: Seq<AttachedEdge>) -> bool {
    forall|i: int| 0 <= i < edges.len() ==> loadable(#[trigger] edges[i])
}

/// Whether every one of `edges` can be stored.
pub open spec fn all_storable(edges: Seq<AttachedEdge>) -> bool {
    forall|i: int| 0 <= i < edges.len() ==> storable(#[trigger] edges[i])
}

/// The name of the primitive that loads a tile from a buffer of kind `src` into
/// one of kind `dst`, where there is one.
pub fn load_primitive_name(src: BufType, dst: BufType) -> (name: Option<&'static str>)
    ensures
        match name {
            Some(text) => load_primitive(src, dst) == Some(text@),
            None => load_primitive(src, dst) is None,
        },
{
    match (src, dst) {
        (BufType::GlobalTile, BufType::RegTile) => Some("copy_2d_tile_g2r"),
        (BufType::SharedTile, BufType::RegTile) => Some("copy_2d_tile_s2r"),
        (BufType::GlobalTile, BufType::SharedTile) => Some("copy_2d_tile_g2s"),
        _ => None,
    }
}

/// The name of the primitive that stores a tile from a buffer of kind `src`
/// into one of kind `dst`, where there is one.
pub fn store_primitive_name(src: BufType, dst: BufType) -> (name: Option<&'static str>)
    ensures
        match name {
            Some(text) => store_primitive(src, dst) == Some(text@),
            None => store_primitive(src, dst) is None,
        },
{
    match (src, dst) {
        (BufType::RegTile, BufType::GlobalTile) => Some("storer_tile_r2g"),
        (BufType::RegTile, BufType::SharedTile) => Some("storer_tile_r2s"),
        (BufType::SharedTile, BufType::GlobalTile) => Some("storer_tile_s2g"),
        _ => None,
    }
}

/// Appends to `out` the statement that calls `primitive` on `src` and `dst`.
pub(crate) fn push_copy_call(out: &mut String, primitive: &str, src: &str, dst: &str)
    ensures
        final(out)@ == old(out)@ + copy_call(primitive@, src@, dst@),
{
    out.append(primitive);
    out.append("(");
    out.append(src);
    out.append(", ");
    out.append(dst);
    out.append(");\n");
    assert(out@ =~= old(out)@ + copy_call(primitive@, src@, dst@));
}

/// Appends to `out` the statements that load `edges`.
pub(crate) fn push_loads(out: &mut String, edges: &Vec<Rc<AttachedEdge>>)
    requires
        all_loadable(edge_values(edges@)),
    ensures
        final(out)@ == old(out)@ + loads_text(edge_values(edges@), edges@.len()),
{
    let ghost all = edge_values(edges@);
    let mut i: usize = 0;
    assert(out@ =~= old(out)@ + loads_text(all, 0));
    while i < edges.len()
        invariant
            i <= edges@.len(),
            all == edge_values(edges@),
            all_loadable(all),
            out@ == old(out)@ + loads_text(all, i as nat),
        decreases edges.len() - i,
    {
        let edge = &edges[i];
        assert(loadable(all[i as int]));
        let src = edge.get_src();
        let dst = edge.get_dst();
        match load_primitive_name(*src.get_typing(), *dst.get_typing()) {
            Some(primitive) => {
                push_copy_call(out, primitive, src.get_name().as_str(), dst.get_name().as_str());
            },
            None => {},
        }
        i = i + 1;
        assert(out@ =~= old(out)@ + loads_text(all, i as nat));
    }
}

/// Appends to `out` the statements that store `edges`.
pub(crate) fn push_stores(out: &mut String, edges: &Vec<Rc<AttachedEdge>>)
    requires
        all_storable(edge_values(edges@)),
    ensures
        final(out)@ == old(out)@ + stores_text(edge_values(edges@), edges@.len()),
{
    let ghost all = edge_values(edges@);
    let mut i: usize = 0;
    assert(out@ =~= old(out)@ + stores_text(all, 0));
    while i < edges.len()
        invariant
            i <= edges@.len(),
            all == edge_values(edges@),
            all_storable(all),
            out@ == old(out)@ + stores_text(all, i as nat),
        decreases edges.len() - i,
    {
        let edge = &edges[i];
        assert(storable(all[i as int]));
        let src = edge.get_src();
        let dst = edge.get_dst();
        match store_primitive_name(*src.get_typing(), *dst.get_typing()) {
            Some(primitive) => {
                push_copy_call(out, primitive, src.get_name().as_str(), dst.get_name().as_str());
            },
            None => {},
        }
        i = i + 1;
        assert(out@ =~= old(out)@ + stores_text(all, i as nat));
    }
}

/// Whether every one of `edges` can be loaded.
pub fn all_can_load(edges: &Vec<Rc<AttachedEdge>>) -> (b: bool)
    ensures
        b == all_loadable(edge_values(edges@)),
{
    let mut i: usize = 0;
    while i < edges.len()
        invariant
            i <= edges@.len(),
            forall|k: int| 0 <= k < i ==> loadable(#[trigger] edge_values(edges@)[k]),
        decreases edges.len() - i,
    {
        let edge = &edges[i];
        if load_primitive_name(*edge.get_src().get_typing(), *edge.get_dst().get_typing()).is_none() {
            assert(!loadable(edge_values(edges@)[i as int]));
            return false;
        }
        i = i + 1;
    }
    true
}

/// Whether every one of `edges` can be stored.
pub fn all_can_store(edges: &Vec<Rc<AttachedEdge>>) -> (b: bool)
    ensures
        b == all_storable(edge_values(edges@)),
{
    let mut i: usize = 0;
    while i < edges.len()
        invariant
            i <= edges@.len(),
            forall|k: int| 0 <= k < i ==> storable(#[trigger] edge_values(edges@)[k]),
        decreases edges.len() - i,
    {
        let edge = &edges[i];
        if store_primitive_name(*edge.get_src().get_typing(), *edge.get_dst().get_typing()).is_none() {
            assert(!storable(edge_values(edges@)[i as int]));
            return false;
        }
        i = i + 1;
    }
    true
}

/// Appends `edges` to `out`.
pub(crate) fn push_edges(out: &mut Vec<Rc<AttachedEdge>>, edges: &Vec<Rc<AttachedEdge>>)
    ensures
        edge_values(final(out)@) == edge_values(old(out)@) + edge_values(edges@),
{
    let mut i: usize = 0;
    assert(edge_values(out@) =~= edge_values(old(out)@) + edge_values(edges@).take(0));
    while i < edges.len()
        invariant
            i <= edges@.len(),
            edge_values(out@) == edge_values(old(out)@) + edge_values(edges@).take(i as int),
        decreases edges.len() - i,
    {
        let ghost held = edge_values(out@);
        let edge = Rc::clone(&edges[i]);
        out.push(edge);
        proof {
            assert(edge_values(out@) =~= held.push(*edge));
            assert(edge_values(edges@).take(i + 1) =~= edge_values(edges@).take(i as int).push(
                *edge,
            ));
        }
        i = i + 1;
    }
    assert(edge_values(edges@).take(i as int) =~= edge_values(edges@));
}

/// Whether one of `edges` is loaded by an asynchronous copy.
pub(crate) fn has_async_load(edges: &Vec<Rc<AttachedEdge>>) -> (b: bool)
    ensures
        b == any_async_load(edge_values(edges@)),
{
    let mut i: usize = 0;
    while i < edges.len()
        invariant
            i <= edges@.len(),
            forall|k: int| 0 <= k < i ==> !is_async_load(#[trigger] edge_values(edges@)[k]),
        decreases edges.len() - i,
    {
        let edge = &edges[i];
        if *edge.get_src().get_typing() == BufType::SharedTile && *edge.get_dst().get_typing()
            == BufType::RegTile {
            assert(is_async_load(edge_values(edges@)[i as int]));
            return true;
        }
        i = i + 1;
    }
    false
}

/// `name` followed by each of `indices` in brackets.
pub(crate) fn indexed_name(name: &str, indices: &Vec<String>) -> (text: String)
    ensures
        text@ == indexed(name@, views(indices@), indices@.len()),
{
    let mut text = String::from_str(name);
    let mut i: usize = 0;
    while i < indices.len()
        invariant
            i <= indices@.len(),
            text@ == indexed(name@, views(indices@), i as nat),
        decreases indices.len() - i,
    {
        text.append("[");
        text.append(indices[i].as_str());
        text.append("]");
        i = i + 1;
        assert(text@ =~= indexed(name@, views(indices@), i as nat));
    }
    text
}

/// The statement that loads `edge` at the indices of its access map.
pub(crate) fn access_load(edge: &AttachedEdge) -> (r: ThrillerResult<String>)
    requires
        loadable(*edge),
    ensures
        emitted(r, access_load_text(*edge)),
{
    let map = match edge.get_access() {
        None => {
            return Err(ThrillerError::MissingAccessMap);
        },
        Some(map) => map,
    };
    if map.get_loop_depth() != 1 {
        return Err(ThrillerError::InvalidLoadAccess);
    }
    let src_access = match map.emit_access(0) {
        Ok(access) => access,
        Err(e) => {
            return Err(e);
        },
    };
    let dst_access = match map.emit_access(1) {
        Ok(access) => access,
        Err(e) => {
            return Err(e);
        },
    };
    let src = edge.get_src();
    let dst = edge.get_dst();
    let source = indexed_name(src.get_name().as_str(), &src_access);
    let target = indexed_name(dst.get_name().as_str(), &dst_access);
    let mut code = String::new();
    match load_primitive_name(*src.get_typing(), *dst.get_typing()) {
        Some(primitive) => {
            push_copy_call(&mut code, primitive, source.as_str(), target.as_str());
        },
        None => {},
    }
    assert(code@ =~= access_load_text(*edge)->Ok_0);
    Ok(code)
}

} // verus!
