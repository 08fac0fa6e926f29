//! Builders for buffers and for the blocks of a tiled GEMM.

pub mod buf;
pub mod gemm;

pub use buf::BufBuilder;
pub use gemm::ThrillerUtils;
