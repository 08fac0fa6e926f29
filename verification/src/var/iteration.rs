//! Iteration variables and their bounds.

use vstd::prelude::*;
use vstd::string::*;

use crate::text::{decimal, decimal_string};
use crate::var::regular::RegularVar;
use crate::var::Var;

verus! {

/// A bound of the iteration variable.
#[derive(Debug)]
pub enum IterationBound {
    /// A fixed bound.
    Fixed(usize),
    /// A variable bound.
    Var(RegularVar),
}

impl IterationBound {
    /// The bound as it is written in generated code: the numeral of a fixed bound,
    /// the name of a variable one.
    pub open spec fn text(&self) -> Seq<char> {
        match self {
            IterationBound::Fixed(n) => decimal(*n as nat),
            IterationBound::Var(v) => v.name(),
        }
    }

    /// The bound as it is written in generated code.
    pub fn to_string(&self) -> (s: String)
        ensures
            s@ == self.text(),
    {
        match self {
            IterationBound::Fixed(n) => decimal_string(*n),
            IterationBound::Var(v) => v.get_name().clone(),
        }
    }
}

/// A variable that represents a loop index. It runs from its lower bound up to,
/// and not including, its upper bound.
#[derive(Debug)]
pub struct IterationVar {
    name: String,
    id: usize,
    domain: (IterationBound, IterationBound),
}

impl IterationVar {
    /// The lower and the upper bound.
    pub closed spec fn domain(&self) -> (IterationBound, IterationBound) {
        self.domain
    }

    /// Create a new `IterationVar` with the given name.
    pub fn new(name: &str, domain: (IterationBound, IterationBound), id: usize) -> (v: Self)
        ensures
            v.name() == name@,
            v.id() == id,
            v.domain() == domain,
    {
        IterationVar { name: String::from_str(name), id, domain }
    }

    /// Get the domain of the iteration variable.
    pub fn get_domain(&self) -> (domain: &(IterationBound, IterationBound))
        ensures
            *domain == self.domain(),
    {
        &self.domain
    }
}

impl Var for IterationVar {
    closed spec fn name(&self) -> Seq<char> {
        self.name@
    }

    closed spec fn id(&self) -> usize {
        self.id
    }

    fn get_name(&self) -> (name: &String) {
        &self.name
    }

    fn get_id(&self) -> (id: usize) {
        self.id
    }
}

} // verus!
