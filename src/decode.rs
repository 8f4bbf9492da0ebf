//! Instruction decoding: the opcode and mode digits of an instruction word,
//! and the operands that follow it in memory.
use vstd::prelude::*;

use crate::error::MachineError;
use crate::instruction::Instruction;
use crate::memory::{read_word, Memory};
use crate::opcode;
use crate::opcode::{arity, spec_arity};
use crate::parameter::{spec_mode, Parameter, ParameterMode};
use crate::{Address, Data};

verus! {

/// `m` with its `k` lowest decimal digits removed.
pub open spec fn drop_digits(m: int, k: nat) -> int
    decreases k,
{
    if k == 0 {
        m
    } else {
        drop_digits(m, (k - 1) as nat) / 10
    }
}

/// The mode digit of operand `k` in the instruction word `raw`: the `k`-th
/// decimal digit of `raw / 100`, counting from the least significant.
pub open spec fn mode_digit(raw: int, k: nat) -> int {
    drop_digits(raw / 100, k) % 10
}

/// The opcode and operand modes that the instruction word `raw` names.
pub open spec fn spec_parse_modes(raw: int) -> Result<(int, Seq<ParameterMode>), MachineError> {
    if raw < 0 {
        Err(MachineError::UnknownOpcode(raw as Data))
    } else {
        match spec_arity(raw % 100) {
            None => Err(MachineError::UnknownOpcode(raw as Data)),
            Some(n) => if forall|k: nat| k < n ==> (#[trigger] spec_mode(mode_digit(raw, k))) is Some {
                Ok((raw % 100, Seq::new(n, |k: int| spec_mode(mode_digit(raw, k as nat)).unwrap())))
            } else {
                Err(MachineError::InvalidOperand)
            },
        }
    }
}

/// The instruction of opcode `op` over the operands `ps`.
pub open spec fn build_instruction(op: int, ps: Seq<Parameter>) -> Instruction {
    if op == 1 {
        Instruction::Add(ps[0], ps[1], ps[2])
    } else if op == 2 {
        Instruction::Multiply(ps[0], ps[1], ps[2])
    } else if op == 3 {
        Instruction::Input(ps[0])
    } else if op == 4 {
        Instruction::Output(ps[0])
    } else if op == 5 {
        Instruction::JumpIfTrue(ps[0], ps[1])
    } else if op == 6 {
        Instruction::JumpIfFalse(ps[0], ps[1])
    } else if op == 7 {
        Instruction::LessThan(ps[0], ps[1], ps[2])
    } else if op == 8 {
        Instruction::Equal(ps[0], ps[1], ps[2])
    } else if op == 9 {
        Instruction::AdjustRelativeBase(ps[0])
    } else {
        Instruction::Halt
    }
}

/// The instruction stored at `pc` in `mem`: its word gives the opcode and the
/// modes, and the words right after it the operand values, which must all lie
/// inside the buffer.
pub open spec fn spec_decode(mem: Seq<Data>, pc: nat) -> Result<Instruction, MachineError> {
    match spec_parse_modes(read_word(mem, pc as int) as int) {
        Err(e) => Err(e),
        Ok((op, modes)) => if pc + modes.len() >= mem.len() {
            Err(MachineError::TruncatedInstruction(pc as usize))
        } else {
            Ok(
                build_instruction(
                    op,
                    Seq::new(
                        modes.len(),
                        |k: int| Parameter { value: mem[pc + 1 + k], mode: modes[k] },
                    ),
                ),
            )
        },
    }
}

/// Splits an instruction word into its opcode and one mode per operand.
pub fn parse_parameter_modes(raw_opcode: Data) -> (r: Result<(Data, Vec<ParameterMode>), MachineError>)
    ensures
        match spec_parse_modes(raw_opcode as int) {
            Ok((op, modes)) => r matches Ok((o, v)) && o == op && v@ == modes,
            Err(e) => r matches Err(e2) && e2 == e,
        },
{
    if raw_opcode < 0 {
        return Err(MachineError::UnknownOpcode(raw_opcode));
    }
    let parsed_opcode = raw_opcode % 100;
    let n = match arity(parsed_opcode) {
        Some(n) => n,
        None => {
            return Err(MachineError::UnknownOpcode(raw_opcode));
        },
    };
    let mut parameter_modes: Vec<ParameterMode> = Vec::new();
    let mut mode_indicator: Data = raw_opcode / 100;
    let mut k: usize = 0;
    while k < n
        invariant
            0 <= k <= n <= 3,
            spec_arity(raw_opcode as int % 100) == Some(n as nat),
            raw_opcode >= 0,
            mode_indicator >= 0,
            mode_indicator == drop_digits(raw_opcode / 100, k as nat),
            parameter_modes@.len() == k,
            forall|j: nat|
                j < k ==> spec_mode(mode_digit(raw_opcode as int, j)) == Some(
                    #[trigger] parameter_modes@[j as int],
                ),
        decreases n - k,
    {
        let digit = mode_indicator % 10;
        if digit > 2 {
            assert(spec_mode(mode_digit(raw_opcode as int, k as nat)) is None);
            return Err(MachineError::InvalidOperand);
        }
        parameter_modes.push(ParameterMode::from_int(digit));
        mode_indicator = mode_indicator / 10;
        k = k + 1;
    }
    assert forall|j: nat| j < n implies (#[trigger] spec_mode(mode_digit(raw_opcode as int, j))) is Some by {
        assert(spec_mode(mode_digit(raw_opcode as int, j)) == Some(parameter_modes@[j as int]));
    }
    assert(parameter_modes@ =~= Seq::new(
        n as nat,
        |j: int| spec_mode(mode_digit(raw_opcode as int, j as nat)).unwrap(),
    )) by {
        assert forall|j: int| 0 <= j < n implies parameter_modes@[j] == spec_mode(
            mode_digit(raw_opcode as int, j as nat),
        ).unwrap() by {
            assert(spec_mode(mode_digit(raw_opcode as int, j as nat)) == Some(
                parameter_modes@[(j as nat) as int],
            ));
        }
    }
    Ok((parsed_opcode, parameter_modes))
}

/// Decodes the instruction at `pc`.
pub fn fetch_and_decode(memory: &Memory, pc: Address) -> (r: Result<Instruction, MachineError>)
    ensures
        r == spec_decode(memory@, pc as nat),
        r matches Ok(ins) ==> pc + ins.spec_arity() < memory@.len() <= usize::MAX,
{
    let raw_opcode = memory.get(pc);
    let (parsed_opcode, parameter_modes) = match parse_parameter_modes(raw_opcode) {
        Ok(parsed) => parsed,
        Err(e) => {
            return Err(e);
        },
    };
    let n = parameter_modes.len();
    let len = memory.len();
    if n >= len || pc >= len - n {
        return Err(MachineError::TruncatedInstruction(pc));
    }
    let ghost mem = memory@;
    let ghost modes = parameter_modes@;
    let mut parameters: Vec<Parameter> = Vec::new();
    let mut k: usize = 0;
    while k < n
        invariant
            0 <= k <= n,
            n == parameter_modes@.len(),
            pc + n < mem.len(),
            mem.len() == len,
            mem == memory@,
            modes == parameter_modes@,
            parameters@.len() == k,
            forall|j: int|
                0 <= j < k ==> #[trigger] parameters@[j] == (Parameter {
                    value: mem[pc + 1 + j],
                    mode: modes[j],
                }),
        decreases n - k,
    {
        let value = memory.get(pc + 1 + k);
        parameters.push(Parameter::from((&value, parameter_modes[k])));
        k = k + 1;
    }
    let ghost ps = Seq::new(n as nat, |j: int| Parameter { value: mem[pc + 1 + j], mode: modes[j] });
    assert(parameters@ =~= ps);
    let instruction = match parsed_opcode {
        opcode::ADD => Instruction::Add(parameters[0], parameters[1], parameters[2]),
        opcode::MULT => Instruction::Multiply(parameters[0], parameters[1], parameters[2]),
        opcode::INPUT => Instruction::Input(parameters[0]),
        opcode::OUTPUT => Instruction::Output(parameters[0]),
        opcode::JUMP_IF_TRUE => Instruction::JumpIfTrue(parameters[0], parameters[1]),
        opcode::JUMP_IF_FALSE => Instruction::JumpIfFalse(parameters[0], parameters[1]),
        opcode::LESS_THAN => Instruction::LessThan(parameters[0], parameters[1], parameters[2]),
        opcode::EQUAL => Instruction::Equal(parameters[0], parameters[1], parameters[2]),
        opcode::ADJUST_RELATIVE_BASE => Instruction::AdjustRelativeBase(parameters[0]),
        _ => Instruction::Halt,
    };
    Ok(instruction)
}

} // verus!
