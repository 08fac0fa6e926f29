//! Variables: iteration variables of loops, and regular variables.

use vstd::prelude::*;

pub mod iteration;
pub mod regular;

pub use iteration::{IterationBound, IterationVar};
pub use regular::RegularVar;

verus! {

/// A named variable with an identity.
pub trait Var {
    /// The variable's name, as text.
    spec fn name(&self) -> Seq<char>;

    /// The variable's identifier.
    spec fn id(&self) -> usize;

    /// Get the name of the variable.
    fn get_name(&self) -> (name: &String)
        ensures
            name@ == self.name(),
    ;

    /// Get the id of the variable.
    fn get_id(&self) -> (id: usize)
        ensures
            id == self.id(),
    ;
}

} // verus!
