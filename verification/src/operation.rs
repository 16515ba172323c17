use vstd::prelude::*;

verus! {

/// The operation for which two shapes are compared.
#[derive(Debug, Clone, Copy, PartialEq, Eq, Structural)]
pub enum Operation {
    Addition,
    Multiplication,
    Subtraction,
}

} // verus!
