use vstd::prelude::*;

use crate::data_holder::DataHolder;

verus! {

/// The computation on the right-hand side of an assignment.
#[derive(Debug, Clone, Copy, PartialEq, Eq, Structural)]
pub enum Operation {
    /// The operand itself, unchanged.
    Identity(DataHolder),
    Add(DataHolder, DataHolder),
    Sub(DataHolder, DataHolder),
    And(DataHolder, DataHolder),
    Or(DataHolder, DataHolder),
    Xor(DataHolder, DataHolder),
    LShiftRight(DataHolder),
    Not(DataHolder),
}

} // verus!
