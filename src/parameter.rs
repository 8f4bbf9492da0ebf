//! Operands and their addressing modes.
use vstd::prelude::*;

use crate::Data;

verus! {

/// How an operand's value is interpreted.
#[derive(Clone, Copy, Debug, PartialEq, Eq, Structural)]
pub enum ParameterMode {
    /// The value is an address to read from or write to.
    Position,
    /// The value is used as it is.
    Immediate,
    /// The value is an offset from the relative base.
    Relative,
}

/// The mode named by a mode digit, or `None` for a digit outside `0..=2`.
pub open spec fn spec_mode(digit: int) -> Option<ParameterMode> {
    if digit == 0 {
        Some(ParameterMode::Position)
    } else if digit == 1 {
        Some(ParameterMode::Immediate)
    } else if digit == 2 {
        Some(ParameterMode::Relative)
    } else {
        None
    }
}

impl ParameterMode {
    /// The mode named by a mode digit.
    pub fn from_int(digit: Data) -> (r: ParameterMode)
        requires
            0 <= digit <= 2,
        ensures
            spec_mode(digit as int) == Some(r),
    {
        match digit {
            0 => ParameterMode::Position,
            1 => ParameterMode::Immediate,
            _ => ParameterMode::Relative,
        }
    }
}

/// A decoded operand: the word that followed the instruction, and its mode.
#[derive(Clone, Copy, Debug, PartialEq, Eq, Structural)]
pub struct Parameter {
    pub value: Data,
    pub mode: ParameterMode,
}

impl Parameter {
    /// Pairs an operand word with its mode.
    pub fn from(pair: (&Data, ParameterMode)) -> (r: Parameter)
        ensures
            r.value == *pair.0,
            r.mode == pair.1,
    {
        Parameter { value: *pair.0, mode: pair.1 }
    }
}

} // verus!
