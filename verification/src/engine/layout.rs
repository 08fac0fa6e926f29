//! The layout of a block of threads.

use vstd::prelude::*;

use crate::text::{decimal, decimal_string};
use crate::var::{RegularVar, Var};

verus! {

/// Block Shape
pub enum BlockShape {
    /// Num
    Num(usize),
    /// Var
    Var(RegularVar),
}

impl BlockShape {
    /// The extent as it is written in generated code: the numeral of a number,
    /// the name of a variable.
    pub open spec fn text(&self) -> Seq<char> {
        match self {
            BlockShape::Num(n) => decimal(*n as nat),
            BlockShape::Var(v) => v.name(),
        }
    }

    /// The extent as it is written in generated code.
    pub fn to_string(&self) -> (s: String)
        ensures
            s@ == self.text(),
    {
        match self {
            BlockShape::Num(n) => decimal_string(*n),
            BlockShape::Var(v) => v.get_name().clone(),
        }
    }
}

/// Layout configuration of a block in 3D space.
pub struct BlockLayout {
    dim3: [BlockShape; 3],
}

impl BlockLayout {
    /// The extents along x, y and z.
    pub closed spec fn dim3(&self) -> Seq<BlockShape> {
        self.dim3@
    }

    /// Create a new block layout with the given dimensions.
    pub fn new(dim3: [BlockShape; 3]) -> (layout: Self)
        ensures
            layout.dim3() == dim3@,
    {
        BlockLayout { dim3 }
    }

    /// Get the dimenstions.
    pub fn get_dim3(&self) -> (dim3: &[BlockShape; 3])
        ensures
            dim3@ == self.dim3(),
    {
        &self.dim3
    }

    /// Get the x dimension
    pub fn get_dim_x(&self) -> (s: String)
        ensures
            s@ == self.dim3()[0].text(),
    {
        self.dim3[0].to_string()
    }

    /// Get the y dimension
    pub fn get_dim_y(&self) -> (s: String)
        ensures
            s@ == self.dim3()[1].text(),
    {
        self.dim3[1].to_string()
    }

    /// Get the z dimension
    pub fn get_dim_z(&self) -> (s: String)
        ensures
            s@ == self.dim3()[2].text(),
    {
        self.dim3[2].to_string()
    }
}

} // verus!
