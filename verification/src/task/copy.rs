//! Copy tasks.

use vstd::prelude::*;
use vstd::string::*;

use crate::error::{ThrillerError, ThrillerResult};
use crate::task::Task;
use crate::text::{decimal, push_decimal};

verus! {

/// The memories that a copy task moves data between.
#[derive(Clone, Copy, PartialEq, Eq, Structural, Debug)]
pub enum CopyType {
    /// From global to shared memory.
    GlobalToShared,
    /// From shared to global memory.
    SharedToGlobal,
    /// From shared memory to the register file.
    SharedToRF,
    /// From the register file to shared memory.
    RFToShared,
}

impl CopyType {
    /// The copy primitive of this direction.
    pub open spec fn primitive(&self) -> Seq<char> {
        match self {
            CopyType::GlobalToShared => "copy_tensor_g2s"@,
            CopyType::SharedToGlobal => "copy_tensor_s2g"@,
            CopyType::SharedToRF => "copy_tensor_s2rf"@,
            CopyType::RFToShared => "copy_tensor_rf2s"@,
        }
    }
}

/// A task to copy data from one memory to another
pub struct CopyTask {
    copy_type: CopyType,
    id: usize,
}

impl CopyTask {
    /// The direction of the copy.
    pub closed spec fn copy_type(&self) -> CopyType {
        self.copy_type
    }

    /// The task's identifier.
    pub closed spec fn id(&self) -> usize {
        self.id
    }

    /// A copy task of the given direction.
    pub fn new(copy_type: CopyType, id: usize) -> (task: Self)
        ensures
            task.copy_type() == copy_type,
            task.id() == id,
    {
        CopyTask { copy_type, id }
    }
}

impl Task for CopyTask {
    open spec fn ready(&self) -> bool {
        true
    }

    open spec fn emit_text(&self) -> Result<Seq<char>, ThrillerError> {
        Ok(self.copy_type().primitive() + "(a, b, c)"@)
    }

    open spec fn name_text(&self) -> Seq<char> {
        "Copy_"@ + decimal(self.id() as nat)
    }

    fn emit(&self) -> (r: ThrillerResult<String>) {
        let mut code = match self.copy_type {
            CopyType::GlobalToShared => String::from_str("copy_tensor_g2s"),
            CopyType::SharedToGlobal => String::from_str("copy_tensor_s2g"),
            CopyType::SharedToRF => String::from_str("copy_tensor_s2rf"),
            CopyType::RFToShared => String::from_str("copy_tensor_rf2s"),
        };
        code.append("(a, b, c)");
        Ok(code)
    }

    fn get_name(&self) -> (name: String) {
        let mut name = String::from_str("Copy_");
        push_decimal(&mut name, self.id);
        name
    }
}

} // verus!
