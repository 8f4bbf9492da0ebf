//! Decoded instructions.
use vstd::prelude::*;

use crate::opcode;
use crate::opcode::spec_arity;
use crate::parameter::Parameter;
use crate::Data;

verus! {

/// One decoded instruction, carrying its operands.
#[derive(Clone, Copy, Debug, PartialEq, Eq, Structural)]
pub enum Instruction {
    Add(Parameter, Parameter, Parameter),
    Multiply(Parameter, Parameter, Parameter),
    Input(Parameter),
    Output(Parameter),
    JumpIfTrue(Parameter, Parameter),
    JumpIfFalse(Parameter, Parameter),
    LessThan(Parameter, Parameter, Parameter),
    Equal(Parameter, Parameter, Parameter),
    AdjustRelativeBase(Parameter),
    Halt,
}

impl Instruction {
    /// The opcode of this instruction.
    pub open spec fn spec_opcode(&self) -> int {
        match *self {
            Instruction::Add(..) => 1,
            Instruction::Multiply(..) => 2,
            Instruction::Input(..) => 3,
            Instruction::Output(..) => 4,
            Instruction::JumpIfTrue(..) => 5,
            Instruction::JumpIfFalse(..) => 6,
            Instruction::LessThan(..) => 7,
            Instruction::Equal(..) => 8,
            Instruction::AdjustRelativeBase(..) => 9,
            Instruction::Halt => 99,
        }
    }

    /// The number of operands this instruction carries.
    pub open spec fn spec_arity(&self) -> nat {
        spec_arity(self.spec_opcode()).unwrap()
    }

    /// The opcode of this instruction, as the opcode table names it.
    pub fn opcode(&self) -> (r: Data)
        ensures
            r == self.spec_opcode(),
            spec_arity(r as int) is Some,
    {
        match *self {
            Instruction::Add(..) => opcode::ADD,
            Instruction::Multiply(..) => opcode::MULT,
            Instruction::Input(..) => opcode::INPUT,
            Instruction::Output(..) => opcode::OUTPUT,
            Instruction::JumpIfTrue(..) => opcode::JUMP_IF_TRUE,
            Instruction::JumpIfFalse(..) => opcode::JUMP_IF_FALSE,
            Instruction::LessThan(..) => opcode::LESS_THAN,
            Instruction::Equal(..) => opcode::EQUAL,
            Instruction::AdjustRelativeBase(..) => opcode::ADJUST_RELATIVE_BASE,
            Instruction::Halt => opcode::HALT,
        }
    }

    /// The number of operands this instruction carries, from the opcode table.
    pub fn arity(&self) -> (r: usize)
        ensures
            r == self.spec_arity(),
            r <= 3,
    {
        match opcode::arity(self.opcode()) {
            Some(n) => n,
            None => 0,
        }
    }
}

} // verus!
