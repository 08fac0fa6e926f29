//! Blocks: loop nests at one level of the memory hierarchy.

use std::rc::Rc;
use vstd::prelude::*;
use vstd::string::*;

use crate::MemoryLevel;
use crate::access::{AccessMap, loop_text};
use crate::buffer::Buffer;
use crate::dataflow::edge::AttachedEdge;
use crate::dataflow::graph::ThrillerGraph;
use crate::dataflow::loop_analysis::{
    all_identical, are_classes, find_group, group_edges, group_sizes, grouped, in_same_group,
    lemma_all_identical_pairwise, lemma_find_group_range, lemma_find_group_sticks,
    lemma_grouped_by_loop_equality,
    lemma_grouped_classes, lemma_grouped_covers, LoopGroup, maps_identical,
};
use crate::dataflow::node::buffer_values;
use crate::dataflow::transfer::{
    access_load, access_loads_text, all_can_load, all_can_store, all_loadable, all_storable,
    edge_values, has_async_load, lemma_load_error_sticks, loadable, loop_body_text, push_edges,
    push_loads, push_stores, stores_text, synced_loads_text,
};
use crate::error::{ThrillerError, ThrillerResult, emitted};
use crate::kernels::sync::Sync;
use crate::task::Task;
use crate::text::{decimal, push_decimal};

verus! {

/// A map relation from inputs into outputs.
#[derive(Clone, Copy, PartialEq, Eq, Structural, Debug)]
pub enum BlockType {
    /// Mapping: one to one
    Mapping,
    /// Reduce: many to one
    Reduce,
}

/// [`ThrillerBlock`] is a loop nest at one level of the memory hierarchy: it
/// loads its inputs across the boundary of that level, runs the graph inside
/// it and stores its outputs back.
pub struct ThrillerBlock {
    inputs: Vec<Rc<AttachedEdge>>,
    outputs: Vec<Rc<AttachedEdge>>,
    mem_level: MemoryLevel,
    subgraph: Rc<ThrillerGraph>,
    block_type: BlockType,
    unified_access_map: Option<Rc<AccessMap>>,
    loop_groups: Vec<LoopGroup>,
    id: usize,
}

impl ThrillerBlock {
    /// The block's identifier.
    pub closed spec fn id(&self) -> usize {
        self.id
    }

    /// The edges that are loaded, in order.
    pub closed spec fn inputs(&self) -> Seq<AttachedEdge> {
        edge_values(self.inputs@)
    }

    /// The edges that are stored, in order.
    pub closed spec fn outputs(&self) -> Seq<AttachedEdge> {
        edge_values(self.outputs@)
    }

    /// The level of the memory hierarchy that the block is bound to.
    pub closed spec fn mem_level(&self) -> MemoryLevel {
        self.mem_level
    }

    /// The graph inside the loop nest.
    pub closed spec fn subgraph(&self) -> ThrillerGraph {
        *self.subgraph
    }

    /// Whether the block maps or reduces.
    pub closed spec fn block_type(&self) -> BlockType {
        self.block_type
    }

    /// The access map that all inputs share, once `merge_access_map` has found it.
    pub closed spec fn unified_access_map(&self) -> Option<Rc<AccessMap>> {
        self.unified_access_map
    }

    /// The block's name.
    pub open spec fn block_name(&self) -> Seq<char> {
        "block_"@ + decimal(self.id() as nat)
    }

    /// The groups of loop-equal inputs, once `merge_loops` has found them.
    pub closed spec fn loop_groups(&self) -> Seq<LoopGroup> {
        self.loop_groups@
    }

    /// The statements that store the block's outputs: none in a reducing block.
    pub open spec fn own_stores_text(&self) -> Seq<char> {
        if self.block_type() == BlockType::Reduce {
            Seq::empty()
        } else {
            stores_text(self.outputs(), self.outputs().len())
        }
    }

    /// Whether the block can be emitted: there is a primitive for each edge that
    /// it loads or stores, and the graph inside it can be emitted.
    pub closed spec fn emittable(&self) -> bool
        decreases self,
    {
        &&& self.unified_access_map is Some ==> {
            &&& all_loadable(edge_values(self.inputs@))
            &&& all_storable(self.subgraph.reduce_outputs())
            &&& self.block_type != BlockType::Reduce ==> all_storable(edge_values(self.outputs@))
        }
        &&& self.subgraph.emittable()
    }

    /// What the block emits. With a unified access map: the loop nest of that
    /// map around the loads of the inputs, their synchronization and the code of
    /// the graph inside (see `loop_body_text`); behind the loop nest a barrier,
    /// the stores of the outputs of reducing blocks inside, and the block's own
    /// stores. Without one, a block that has
    /// neither inputs nor outputs emits the code of the graph inside, and a block
    /// that has some misses its access map.
    pub closed spec fn block_text(&self) -> Result<Seq<char>, ThrillerError>
        decreases self,
    {
        match self.unified_access_map {
            Some(map) => match access_loads_text(edge_values(self.inputs@), self.inputs@.len()) {
                Err(e) => Err(e),
                Ok(loads) => match self.subgraph.graph_text() {
                    Err(e) => Err(e),
                    Ok(inside) => if map.depth() != map.ivars().len() {
                        Err(ThrillerError::LoopMisMatch)
                    } else {
                        Ok(
                            loop_text(
                                map.ivars(),
                                loop_body_text(
                                    loads,
                                    edge_values(self.inputs@),
                                    self.mem_level,
                                    inside,
                                ),
                            ) + Sync::sync_text() + stores_text(
                                self.subgraph.reduce_outputs(),
                                self.subgraph.reduce_outputs().len(),
                            ) + self.own_stores_text(),
                        )
                    },
                },
            },
            None => if self.inputs@.len() == 0 && self.outputs@.len() == 0 {
                self.subgraph.graph_text()
            } else {
                Err(ThrillerError::MissingAccessMap)
            },
        }
    }

    /// `emittable` and `block_text`, by what the block holds.
    pub proof fn lemma_block_text(&self)
        ensures
            self.emittable() == ({
                &&& self.unified_access_map() is Some ==> {
                    &&& all_loadable(self.inputs())
                    &&& all_storable(self.subgraph().reduce_outputs())
                    &&& self.block_type() != BlockType::Reduce ==> all_storable(self.outputs())
                }
                &&& self.subgraph().emittable()
            }),
            self.block_text() == (match self.unified_access_map() {
                Some(map) => match access_loads_text(self.inputs(), self.inputs().len()) {
                    Err(e) => Err(e),
                    Ok(loads) => match self.subgraph().graph_text() {
                        Err(e) => Err(e),
                        Ok(inside) => if map.depth() != map.ivars().len() {
                            Err(ThrillerError::LoopMisMatch)
                        } else {
                            Ok(
                                loop_text(
                                    map.ivars(),
                                    loop_body_text(loads, self.inputs(), self.mem_level(), inside),
                                ) + Sync::sync_text() + stores_text(
                                    self.subgraph().reduce_outputs(),
                                    self.subgraph().reduce_outputs().len(),
                                ) + self.own_stores_text(),
                            )
                        },
                    },
                },
                None => if self.inputs().len() == 0 && self.outputs().len() == 0 {
                    self.subgraph().graph_text()
                } else {
                    Err(ThrillerError::MissingAccessMap)
                },
            }),
    {
    }

    /// Create a new ThrillerBlock with the given inputs, outputs, memory level,
    /// subgraph, and block type.
    pub fn new(
        inputs: Vec<Rc<AttachedEdge>>,
        outputs: Vec<Rc<AttachedEdge>>,
        mem_level: MemoryLevel,
        subgraph: Rc<ThrillerGraph>,
        block_type: BlockType,
        id: usize,
    ) -> (block: Self)
        ensures
            block.inputs() == edge_values(inputs@),
            block.outputs() == edge_values(outputs@),
            block.mem_level() == mem_level,
            block.subgraph() == *subgraph,
            block.block_type() == block_type,
            block.id() == id,
            block.unified_access_map() is None,
            block.loop_groups().len() == 0,
    {
        ThrillerBlock {
            inputs,
            outputs,
            mem_level,
            subgraph,
            block_type,
            unified_access_map: None,
            loop_groups: Vec::new(),
            id,
        }
    }

    /// The level of the memory hierarchy that the block is bound to.
    pub fn get_mem_level(&self) -> (level: MemoryLevel)
        ensures
            level == self.mem_level(),
    {
        self.mem_level
    }

    /// The access map that all inputs share, once `merge_access_map` has found it.
    pub fn get_unified_access_map(&self) -> (map: &Option<Rc<AccessMap>>)
        ensures
            *map == self.unified_access_map(),
    {
        &self.unified_access_map
    }

    /// The groups of loop-equal inputs, once `merge_loops` has found them.
    pub fn get_loop_groups(&self) -> (groups: &Vec<LoopGroup>)
        ensures
            groups@ == self.loop_groups(),
    {
        &self.loop_groups
    }

    /// The graph inside the loop nest.
    pub fn get_subgraph(&self) -> (graph: &Rc<ThrillerGraph>)
        ensures
            **graph == self.subgraph(),
    {
        &self.subgraph
    }

    /// Generate load code for the block inputs: each at the indices of its access map.
    pub fn gen_load(&self) -> (r: ThrillerResult<String>)
        requires
            all_loadable(self.inputs()),
        ensures
            emitted(r, access_loads_text(self.inputs(), self.inputs().len())),
    {
        let ghost all = self.inputs();
        let mut code = String::new();
        let mut i: usize = 0;
        while i < self.inputs.len()
            invariant
                i <= self.inputs@.len(),
                all == self.inputs(),
                all_loadable(all),
                access_loads_text(all, i as nat) == Ok::<Seq<char>, ThrillerError>(code@),
            decreases self.inputs.len() - i,
        {
            assert(loadable(all[i as int]));
            match access_load(&self.inputs[i]) {
                Ok(text) => {
                    code.append(text.as_str());
                },
                Err(e) => {
                    proof {
                        assert(access_loads_text(all, (i + 1) as nat) == Err::<
                            Seq<char>,
                            ThrillerError,
                        >(e));
                        lemma_load_error_sticks(all, (i + 1) as nat, all.len());
                    }
                    return Err(e);
                },
            }
            i = i + 1;
        }
        Ok(code)
    }

    /// Emits the loads of the block inputs, by the names of their buffers, with
    /// the synchronization that they need.
    pub fn emit_load(&self) -> (r: ThrillerResult<String>)
        requires
            all_loadable(self.inputs()),
        ensures
            emitted(r, Ok(synced_loads_text(self.inputs()))),
    {
        let mut code = String::new();
        push_loads(&mut code, &self.inputs);
        if has_async_load(&self.inputs) {
            code.append(Sync::emit_copy_async().as_str());
        }
        if self.inputs.len() > 0 {
            code.append(Sync::emit_sync().as_str());
        }
        assert(code@ =~= synced_loads_text(self.inputs()));
        Ok(code)
    }

    /// Generate store code for the block outputs: none in a reducing block.
    pub fn gen_store(&self) -> (r: ThrillerResult<String>)
        requires
            self.block_type() != BlockType::Reduce ==> all_storable(self.outputs()),
        ensures
            emitted(r, Ok(self.own_stores_text())),
    {
        let mut code = String::new();
        match self.block_type {
            BlockType::Reduce => {},
            _ => {
                push_stores(&mut code, &self.outputs);
            },
        }
        assert(code@ =~= self.own_stores_text());
        Ok(code)
    }

    /// Whether the block reduces.
    pub fn is_reduce(&self) -> (b: bool)
        ensures
            b == (self.block_type() == BlockType::Reduce),
    {
        self.block_type == BlockType::Reduce
    }

    /// The edges that are loaded, in order.
    pub fn get_inputs(&self) -> (inputs: &Vec<Rc<AttachedEdge>>)
        ensures
            edge_values(inputs@) == self.inputs(),
    {
        &self.inputs
    }

    /// The edges that are stored, in order.
    pub fn get_outputs(&self) -> (outputs: &Vec<Rc<AttachedEdge>>)
        ensures
            edge_values(outputs@) == self.outputs(),
    {
        &self.outputs
    }

    /// Get the name of the block.
    pub fn get_name(&self) -> (name: String)
        ensures
            name@ == self.block_name(),
    {
        let mut name = String::from_str("block_");
        push_decimal(&mut name, self.id);
        name
    }

    /// Whether the block differs from `other` at most in its unified access map
    /// and its loop groups.
    pub open spec fn same_structure(&self, other: &ThrillerBlock) -> bool {
        &&& self.id() == other.id()
        &&& self.inputs() == other.inputs()
        &&& self.outputs() == other.outputs()
        &&& self.mem_level() == other.mem_level()
        &&& self.subgraph() == other.subgraph()
        &&& self.block_type() == other.block_type()
    }

    /// Finds the access map that all inputs share: where every input has an
    /// access map identical to that of the input behind it, and so any two
    /// inputs have identical access maps, the unified access map becomes that of
    /// the first input. Where two do not, the block stays as it is.
    pub fn merge_access_map(&mut self) -> (r: ThrillerResult<()>)
        ensures
            final(self).same_structure(old(self)),
            final(self).loop_groups() == old(self).loop_groups(),
            r is Ok <==> (forall|i: int, j: int|
                0 <= i < old(self).inputs().len() && 0 <= j < old(self).inputs().len()
                    ==> maps_identical(
                    #[trigger] old(self).inputs()[i].access(),
                    #[trigger] old(self).inputs()[j].access(),
                )),
            match r {
                Ok(_) => all_identical(old(self).inputs()) && final(self).unified_access_map() == (
                if old(self).inputs().len() > 0 {
                    old(self).inputs()[0].access()
                } else {
                    old(self).unified_access_map()
                }),
                Err(e) => !all_identical(old(self).inputs()) && e
                    == ThrillerError::InvalidAccessPattern && final(self).unified_access_map()
                    == old(self).unified_access_map(),
            },
    {
        let n = self.inputs.len();
        proof {
            lemma_all_identical_pairwise(self.inputs());
        }
        if n == 0 {
            return Ok(());
        }
        let mut i: usize = 0;
        while i + 1 < n
            invariant
                i < n == self.inputs@.len(),
                forall|k: int|
                    0 <= k < i ==> maps_identical(
                        (#[trigger] self.inputs()[k]).access(),
                        self.inputs()[k + 1].access(),
                    ),
            decreases n - i,
        {
            let same = match (self.inputs[i].get_access(), self.inputs[i + 1].get_access()) {
                (None, None) => true,
                (Some(a), Some(b)) => a.same_as(b),
                _ => false,
            };
            if !same {
                assert(!maps_identical(
                    self.inputs()[i as int].access(),
                    self.inputs()[i + 1].access(),
                ));
                return Err(ThrillerError::InvalidAccessPattern);
            }
            i = i + 1;
        }
        let first = match self.inputs[0].get_access() {
            Some(map) => Some(Rc::clone(map)),
            None => None,
        };
        self.unified_access_map = first;
        Ok(())
    }

    /// The first of `loop_groups` whose first edge is loop-equal to `ref_edge`.
    pub fn check_loop_edge_equal(ref_edge: &AttachedEdge, loop_groups: &Vec<LoopGroup>) -> (r:
        Option<usize>)
        ensures
            match r {
                Some(i) => find_group(group_edges(loop_groups@), *ref_edge, loop_groups@.len())
                    == Some(i as int),
                None => find_group(group_edges(loop_groups@), *ref_edge, loop_groups@.len())
                    is None,
            },
    {
        let ghost groups = group_edges(loop_groups@);
        let mut k: usize = 0;
        while k < loop_groups.len()
            invariant
                k <= loop_groups@.len(),
                groups == group_edges(loop_groups@),
                find_group(groups, *ref_edge, k as nat) is None,
            decreases loop_groups.len() - k,
        {
            let edges = loop_groups[k].get_edges();
            assert(groups[k as int] == edge_values(edges@));
            if edges.len() > 0 && edges[0].check_loop_equal(ref_edge) {
                proof {
                    lemma_find_group_sticks(groups, *ref_edge, (k + 1) as nat, groups.len());
                }
                return Some(k);
            }
            k = k + 1;
        }
        None
    }

    /// Merge the same nest loop pattern into a loop group: the inputs in groups
    /// of loop-equal edges. Two inputs stand in the same group just where they
    /// are loop-equal; every input stands in a group, and none in two.
    pub fn merge_loops(&mut self)
        ensures
            final(self).same_structure(old(self)),
            final(self).unified_access_map() == old(self).unified_access_map(),
            group_edges(final(self).loop_groups()) == grouped(
                old(self).inputs(),
                old(self).inputs().len(),
            ),
            are_classes(group_edges(final(self).loop_groups())),
            group_sizes(
                group_edges(final(self).loop_groups()),
                final(self).loop_groups().len(),
            ) == old(self).inputs().len(),
            forall|i: int, j: int|
                0 <= i < old(self).inputs().len() && 0 <= j < old(self).inputs().len()
                    ==> (in_same_group(
                    group_edges(final(self).loop_groups()),
                    #[trigger] old(self).inputs()[i],
                    #[trigger] old(self).inputs()[j],
                ) <==> old(self).inputs()[i].loop_equal(&old(self).inputs()[j])),
            forall|k: int|
                0 <= k < final(self).loop_groups().len() ==> (#[trigger] final(self).loop_groups()[k]).index()
                    == k,
    {
        let ghost all = self.inputs();
        let mut groups: Vec<LoopGroup> = Vec::new();
        let mut i: usize = 0;
        assert(group_edges(groups@) =~= grouped(all, 0));
        while i < self.inputs.len()
            invariant
                i <= self.inputs@.len(),
                all == self.inputs(),
                *self == *old(self),
                group_edges(groups@) == grouped(all, i as nat),
                forall|k: int| 0 <= k < groups@.len() ==> (#[trigger] groups@[k]).index() == k,
            decreases self.inputs.len() - i,
        {
            let input = &self.inputs[i];
            let ghost before = group_edges(groups@);
            let ghost edge = all[i as int];
            assert(edge == **input);
            match Self::check_loop_edge_equal(input, &groups) {
                Some(g) => {
                    proof {
                        lemma_find_group_range(before, edge, before.len());
                    }
                    groups[g].add(Rc::clone(input));
                    assert(group_edges(groups@) =~= before.update(
                        g as int,
                        before[g as int].push(edge),
                    ));
                },
                None => {
                    let index = groups.len();
                    groups.push(LoopGroup::new(index, Rc::clone(input)));
                    assert(group_edges(groups@) =~= before.push(seq![edge]));
                },
            }
            i = i + 1;
        }
        proof {
            lemma_grouped_classes(all, all.len());
            lemma_grouped_covers(all, all.len());
            assert forall|i: int, j: int| 0 <= i < all.len() && 0 <= j < all.len() implies (
            in_same_group(grouped(all, all.len()), #[trigger] all[i], #[trigger] all[j])
                <==> all[i].loop_equal(&all[j])) by {
                lemma_grouped_by_loop_equality(all, i, j);
            }
        }
        self.loop_groups = groups;
    }

    /// The buffers of the block: those of the graph inside it.
    pub closed spec fn buffers(&self) -> Seq<Buffer>
        decreases self,
    {
        self.subgraph.buffers()
    }

    /// The attached edges of the block: its inputs, its outputs, and those of
    /// the blocks inside it.
    pub closed spec fn attached_edges(&self) -> Seq<AttachedEdge>
        decreases self,
    {
        edge_values(self.inputs@) + edge_values(self.outputs@) + self.subgraph.attached_edges()
    }

    /// `buffers` and `attached_edges`, by what the block holds.
    pub proof fn lemma_block_parts(&self)
        ensures
            self.buffers() == self.subgraph().buffers(),
            self.attached_edges() == self.inputs() + self.outputs()
                + self.subgraph().attached_edges(),
    {
    }

    /// Appends the buffers of the block to `out`.
    pub fn collect_buffers(&self, out: &mut Vec<Rc<Buffer>>)
        ensures
            buffer_values(final(out)@) == buffer_values(old(out)@) + self.buffers(),
        decreases self,
    {
        self.subgraph.collect_buffers(out);
    }

    /// Appends the attached edges of the block to `out`.
    pub fn collect_attached_edges(&self, out: &mut Vec<Rc<AttachedEdge>>)
        ensures
            edge_values(final(out)@) == edge_values(old(out)@) + self.attached_edges(),
        decreases self,
    {
        let ghost start = edge_values(out@);
        push_edges(out, &self.inputs);
        push_edges(out, &self.outputs);
        self.subgraph.collect_attached_edges(out);
        assert(edge_values(out@) =~= start + self.attached_edges());
    }

    /// Whether the block can be emitted.
    pub fn is_emittable(&self) -> (b: bool)
        ensures
            b == self.emittable(),
        decreases self,
    {
        if self.unified_access_map.is_some() {
            if !all_can_load(&self.inputs) {
                return false;
            }
            let reduced = self.subgraph.get_reduce_outputs();
            if !all_can_store(&reduced) {
                return false;
            }
            match self.block_type {
                BlockType::Reduce => {},
                _ => {
                    if !all_can_store(&self.outputs) {
                        return false;
                    }
                },
            }
        }
        self.subgraph.is_emittable()
    }

    /// Emit loop nest program based on [`ThrillerBlock`].
    pub fn emit_block(&self) -> (r: ThrillerResult<String>)
        requires
            self.emittable(),
        ensures
            emitted(r, self.block_text()),
        decreases self,
    {
        match &self.unified_access_map {
            Some(map) => {
                let mut inner = match self.gen_load() {
                    Ok(code) => code,
                    Err(e) => {
                        return Err(e);
                    },
                };
                let inside = match self.subgraph.emit_graph() {
                    Ok(code) => code,
                    Err(e) => {
                        return Err(e);
                    },
                };
                let ghost loads = inner@;
                if has_async_load(&self.inputs) {
                    inner.append(Sync::emit_copy_async().as_str());
                }
                inner.append(Sync::emit_sync().as_str());
                if self.mem_level == MemoryLevel::Shared {
                    inner.append(Sync::emit_copy_async().as_str());
                }
                inner.append(inside.as_str());
                assert(inner@ =~= loop_body_text(
                    loads,
                    self.inputs(),
                    self.mem_level(),
                    inside@,
                ));
                let mut code = match map.gen_loop_access(inner) {
                    Ok(code) => code,
                    Err(e) => {
                        return Err(e);
                    },
                };
                code.append(Sync::emit_sync().as_str());
                let reduced = self.subgraph.get_reduce_outputs();
                push_stores(&mut code, &reduced);
                match self.block_type {
                    BlockType::Reduce => {},
                    _ => {
                        push_stores(&mut code, &self.outputs);
                    },
                }
                assert(code@ =~= self.block_text()->Ok_0);
                Ok(code)
            },
            None => {
                if self.inputs.len() == 0 && self.outputs.len() == 0 {
                    self.subgraph.emit_graph()
                } else {
                    Err(ThrillerError::MissingAccessMap)
                }
            },
        }
    }
}

impl Task for ThrillerBlock {
    open spec fn ready(&self) -> bool {
        self.emittable()
    }

    open spec fn emit_text(&self) -> Result<Seq<char>, ThrillerError> {
        self.block_text()
    }

    open spec fn name_text(&self) -> Seq<char> {
        self.block_name()
    }

    fn emit(&self) -> (r: ThrillerResult<String>) {
        self.emit_block()
    }

    fn get_name(&self) -> (name: String) {
        ThrillerBlock::get_name(self)
    }
}

} // verus!
