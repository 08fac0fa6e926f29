//! Tasks: what emits code and has a name.

use vstd::prelude::*;

use crate::error::{emitted, ThrillerError, ThrillerResult};

pub mod compute;
pub mod copy;

pub use compute::{gen_gemm, Compute, Convert, Gemm};
pub use copy::{CopyTask, CopyType};

verus! {

/// A trait to represent a task: something that emits code and has a name.
pub trait Task {
    /// Whether the task can be emitted.
    spec fn ready(&self) -> bool;

    /// What the task emits: its code, or the error that stops it.
    spec fn emit_text(&self) -> Result<Seq<char>, ThrillerError>;

    /// The task's name.
    spec fn name_text(&self) -> Seq<char>;

    /// Emit the task into SIMT code.
    fn emit(&self) -> (r: ThrillerResult<String>)
        requires
            self.ready(),
        ensures
            emitted(r, self.emit_text()),
    ;

    /// Get the name of the task.
    fn get_name(&self) -> (name: String)
        ensures
            name@ == self.name_text(),
    ;
}

/// The operations that a node of the dataflow graph can hold.
pub enum Operator {
    /// A matrix multiplication.
    Gemm(Gemm),
    /// A type cast.
    Convert(Convert),
    /// A copy between two memories.
    Copy(CopyTask),
}

impl Task for Operator {
    open spec fn ready(&self) -> bool {
        true
    }

    open spec fn emit_text(&self) -> Result<Seq<char>, ThrillerError> {
        match self {
            Operator::Gemm(t) => t.emit_text(),
            Operator::Convert(t) => t.emit_text(),
            Operator::Copy(t) => t.emit_text(),
        }
    }

    open spec fn name_text(&self) -> Seq<char> {
        match self {
            Operator::Gemm(t) => t.name_text(),
            Operator::Convert(t) => t.name_text(),
            Operator::Copy(t) => t.name_text(),
        }
    }

    fn emit(&self) -> (r: ThrillerResult<String>) {
        match self {
            Operator::Gemm(t) => t.emit(),
            Operator::Convert(t) => t.emit(),
            Operator::Copy(t) => t.emit(),
        }
    }

    fn get_name(&self) -> (name: String) {
        match self {
            Operator::Gemm(t) => t.get_name(),
            Operator::Convert(t) => t.get_name(),
            Operator::Copy(t) => t.get_name(),
        }
    }
}

} // verus!
