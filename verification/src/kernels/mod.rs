//! The primitives of the macro-kernel library that generated code calls.

pub mod copy;
pub mod memory;
pub mod sync;
