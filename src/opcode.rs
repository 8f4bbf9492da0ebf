//! The opcode table.
use vstd::prelude::*;

use crate::Data;

verus! {

pub const ADD: Data = 1;
pub const MULT: Data = 2;
pub const INPUT: Data = 3;
pub const OUTPUT: Data = 4;
pub const JUMP_IF_TRUE: Data = 5;
pub const JUMP_IF_FALSE: Data = 6;
pub const LESS_THAN: Data = 7;
pub const EQUAL: Data = 8;
pub const ADJUST_RELATIVE_BASE: Data = 9;
pub const HALT: Data = 99;

/// Number of operands taken by `opcode`, or `None` when it is not in the table.
pub open spec fn spec_arity(opcode: int) -> Option<nat> {
    if opcode == 1 || opcode == 2 || opcode == 7 || opcode == 8 {
        Some(3)
    } else if opcode == 5 || opcode == 6 {
        Some(2)
    } else if opcode == 3 || opcode == 4 || opcode == 9 {
        Some(1)
    } else if opcode == 99 {
        Some(0)
    } else {
        None
    }
}

/// Looks up the operand count of `opcode`.
pub fn arity(opcode: Data) -> (r: Option<usize>)
    ensures
        match spec_arity(opcode as int) {
            Some(n) => r == Some(n as usize),
            None => r is None,
        },
{
    match opcode {
        ADD | MULT | LESS_THAN | EQUAL => Some(3),
        JUMP_IF_TRUE | JUMP_IF_FALSE => Some(2),
        INPUT | OUTPUT | ADJUST_RELATIVE_BASE => Some(1),
        HALT => Some(0),
        _ => None,
    }
}

} // verus!
