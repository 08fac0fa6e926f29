//! Regular variables.

use vstd::prelude::*;

use crate::var::Var;

verus! {

/// A regular variable: a name for a symbolic bound or a kernel parameter.
#[derive(Debug)]
pub struct RegularVar {
    name: String,
    id: usize,
}

impl RegularVar {
    /// Create a new regular variable.
    pub fn new(name: String, id: usize) -> (v: Self)
        ensures
            v.name() == name@,
            v.id() == id,
    {
        RegularVar { name, id }
    }
}

impl Var for RegularVar {
    closed spec fn name(&self) -> Seq<char> {
        self.name@
    }

    closed spec fn id(&self) -> usize {
        self.id
    }

    fn get_name(&self) -> (name: &String) {
        &self.name
    }

    fn get_id(&self) -> (id: usize) {
        self.id
    }
}

} // verus!
