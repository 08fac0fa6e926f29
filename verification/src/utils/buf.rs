//! Builders for buffers.

use vstd::prelude::*;

use crate::buffer::{BufType, Buffer};
use crate::shape::{Dim, Layout};

verus! {

/// Buffer builder.
pub struct BufBuilder();

impl BufBuilder {
    /// Whether `buffer` is the tile `name` of the given kind and axes.
    pub open spec fn is_tile(
        buffer: Buffer,
        name: Seq<char>,
        typing: BufType,
        dim: Seq<usize>,
        id: usize,
    ) -> bool {
        &&& buffer.name() == name
        &&& buffer.typing() == typing
        &&& buffer.shape().axes() == dim
        &&& buffer.id() == id
    }

    /// Create a new Row Major Global Tile buffer with the given name and dimension.
    pub fn row_major_global_tile(name: &str, dim: &[usize], id: usize) -> (buffer: Buffer)
        ensures
            Self::is_tile(buffer, name@, BufType::GlobalTile, dim@, id),
            buffer.shape().layout() is RowMajor,
    {
        Buffer::new(name, BufType::GlobalTile, dim, Layout::RowMajor, id)
    }

    /// Create a new Column Major Global Tile buffer with the given name and dimension.
    pub fn col_major_global_tile(name: &str, dim: &[usize], id: usize) -> (buffer: Buffer)
        ensures
            Self::is_tile(buffer, name@, BufType::GlobalTile, dim@, id),
            buffer.shape().layout() is ColumnMajor,
    {
        Buffer::new(name, BufType::GlobalTile, dim, Layout::ColumnMajor, id)
    }

    /// Create a new Row Major Shared Tile buffer with the given name and dimension.
    pub fn row_major_shared_tile(name: &str, dim: &[usize], id: usize) -> (buffer: Buffer)
        ensures
            Self::is_tile(buffer, name@, BufType::SharedTile, dim@, id),
            buffer.shape().layout() is RowMajor,
    {
        Buffer::new(name, BufType::SharedTile, dim, Layout::RowMajor, id)
    }

    /// Create a new Column Major Shared Tile buffer with the given name and dimension.
    pub fn col_major_shared_tile(name: &str, dim: &[usize], id: usize) -> (buffer: Buffer)
        ensures
            Self::is_tile(buffer, name@, BufType::SharedTile, dim@, id),
            buffer.shape().layout() is ColumnMajor,
    {
        Buffer::new(name, BufType::SharedTile, dim, Layout::ColumnMajor, id)
    }

    /// Create a new Row Major Register Tile buffer with the given name and dimension.
    pub fn row_major_reg_tile(name: &str, dim: &[usize], id: usize) -> (buffer: Buffer)
        ensures
            Self::is_tile(buffer, name@, BufType::RegTile, dim@, id),
            buffer.shape().layout() is RowMajor,
    {
        Buffer::new(name, BufType::RegTile, dim, Layout::RowMajor, id)
    }

    /// Create a new Column Major Register Tile buffer with the given name and dimension.
    pub fn col_major_reg_tile(name: &str, dim: &[usize], id: usize) -> (buffer: Buffer)
        ensures
            Self::is_tile(buffer, name@, BufType::RegTile, dim@, id),
            buffer.shape().layout() is ColumnMajor,
    {
        Buffer::new(name, BufType::RegTile, dim, Layout::ColumnMajor, id)
    }
}

} // verus!
