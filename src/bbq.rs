use vstd::prelude::*;

use crate::opcodes::OpCode;
use crate::registers::RegisterCounts;

verus! {

/// A compiled function: the shape of its register bank and its instructions,
/// addressed from zero. A function is never changed once built.
pub struct Function {
    pub local_count: RegisterCounts,
    pub code: Vec<OpCode>,
}

} // verus!
