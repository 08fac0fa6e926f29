//! Compute tasks.

use vstd::prelude::*;

pub mod gemm;
pub mod map;

pub use gemm::{gen_gemm, Gemm};
pub use map::Convert;

verus! {

/// Compute Type.
#[derive(Clone, Copy, PartialEq, Eq, Structural, Debug)]
pub enum Compute {
    /// Matrix multiplication.
    Gemm,
    /// Scaled vector addition.
    Axpby,
}

} // verus!
