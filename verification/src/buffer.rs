//! Buffers: named, typed and shaped tiles of memory.

use vstd::prelude::*;
use vstd::string::*;

use crate::shape::{Dim, Ix, Layout, Shape};

verus! {

/// Buffer type.
#[derive(Clone, Copy, PartialEq, Eq, Structural, Debug)]
pub enum BufType {
    /// Global Tile
    GlobalTile,
    /// Shared Tile
    SharedTile,
    /// Register Tile
    RegTile,
    /// Register Vector
    RegVec,
}

/// A Buffer data structure: a named, typed and shaped tile of memory.
pub struct Buffer {
    name: String,
    id: usize,
    typing: BufType,
    shape: Shape,
}

impl Buffer {
    /// The buffer's name, as text.
    pub closed spec fn name(&self) -> Seq<char> {
        self.name@
    }

    /// The buffer's identifier.
    pub closed spec fn id(&self) -> usize {
        self.id
    }

    /// The level of the memory hierarchy that holds the buffer.
    pub closed spec fn typing(&self) -> BufType {
        self.typing
    }

    /// The buffer's shape.
    pub closed spec fn shape(&self) -> Shape {
        self.shape
    }

    /// Create a new Buffer with the given name.
    pub fn new(name: &str, typing: BufType, dim: &[Ix], layout: Layout<Dim>, id: usize) -> (buf:
        Self)
        ensures
            buf.name() == name@,
            buf.id() == id,
            buf.typing() == typing,
            buf.shape().axes() == dim@,
            buf.shape().layout() == layout,
    {
        Buffer { name: String::from_str(name), id, typing, shape: Shape::new(dim, layout) }
    }

    /// Get Buffer name.
    pub fn get_name(&self) -> (name: &String)
        ensures
            name@ == self.name(),
    {
        &self.name
    }

    /// Get Buffer id.
    pub fn get_id(&self) -> (id: usize)
        ensures
            id == self.id(),
    {
        self.id
    }

    /// Get Buffer Layout.
    pub fn get_shape(&self) -> (shape: &Shape)
        ensures
            *shape == self.shape(),
    {
        &self.shape
    }

    /// Get Buffer Typing
    pub fn get_typing(&self) -> (typing: &BufType)
        ensures
            *typing == self.typing(),
    {
        &self.typing
    }
}

} // verus!
