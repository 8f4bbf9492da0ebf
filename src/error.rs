use vstd::prelude::*;

use crate::{Address, Data};

verus! {

/// A malformed-program condition. Each one ends the run in progress.
#[derive(Clone, Copy, Debug, PartialEq, Eq, Structural)]
pub enum MachineError {
    /// The instruction word does not name a known opcode (the word is carried).
    UnknownOpcode(Data),
    /// The operands of the instruction at this address run past the loaded memory.
    TruncatedInstruction(Address),
    /// An immediate destination, an unknown mode digit, or a negative address or
    /// jump target.
    InvalidOperand,
    /// An arithmetic result or the relative base left the range of a word.
    ArithmeticOverflow,
}

} // verus!
