//! The execution engine.
use std::collections::VecDeque;

use vstd::prelude::*;

use crate::decode::fetch_and_decode;
use crate::error::MachineError;
use crate::instruction::Instruction;
use crate::memory::{read_word, Memory};
use crate::parameter::{Parameter, ParameterMode};
use crate::semantics::{
    address_of, lemma_run_flags_exclusive, spec_execute, spec_run, spec_step, value_of, MachineState};
use crate::{Address, Data};

verus! {

broadcast use vstd::std_specs::vecdeque::group_vec_dequeue_axioms;

/// An Intcode machine: memory, program counter, relative base, the two state
/// flags, an input queue and an output log.
pub struct IntCodeMachine {
    memory: Memory,
    pc: Address,
    halted: bool,
    suspended: bool,
    relative_base: Data,
    input: VecDeque<Data>,
    output: Vec<Data>,
}

impl View for IntCodeMachine {
    type V = MachineState;

    closed spec fn view(&self) -> MachineState {
        MachineState {
            memory: self.memory@,
            pc: self.pc as nat,
            relative_base: self.relative_base as int,
            halted: self.halted,
            suspended: self.suspended,
            input: self.input@,
            output: self.output@,
        }
    }
}

impl IntCodeMachine {
    /// A machine with `initial_memory` loaded from address 0, ready to run.
    pub fn new(initial_memory: Vec<Data>) -> (r: IntCodeMachine)
        ensures
            r@ == MachineState::initial(initial_memory@),
    {
        IntCodeMachine {
            memory: Memory::new(initial_memory),
            pc: 0,
            relative_base: 0,
            halted: false,
            suspended: false,
            input: VecDeque::new(),
            output: Vec::new(),
        }
    }

    /// The word stored at `address`, or `None` past the end of the memory
    /// buffer.
    pub fn memory(&self, address: Address) -> (r: Option<&Data>)
        ensures
            match r {
                Some(v) => address < self@.memory.len() && *v == self@.memory[address as int],
                None => address >= self@.memory.len(),
            },
    {
        self.memory.peek(address)
    }

    /// The word at `address` as instructions read it: 0 where nothing was
    /// ever stored.
    pub fn read_memory(&self, address: Address) -> (r: Data)
        ensures
            r == read_word(self@.memory, address as int),
    {
        self.memory.get(address)
    }

    /// Whether the machine has executed a halt instruction; it then runs no more.
    pub fn halted(&self) -> (r: bool)
        ensures
            r == self@.halted,
    {
        self.halted
    }

    /// Whether the last run stopped at an input instruction for want of input.
    pub fn suspended(&self) -> (r: bool)
        ensures
            r == self@.suspended,
    {
        self.suspended
    }

    /// Every word output so far, oldest first.
    pub fn output(&self) -> (r: &Vec<Data>)
        ensures
            r@ == self@.output,
    {
        &self.output
    }

    /// Appends `item` to the input queue.
    pub fn feed_input(&mut self, item: Data)
        ensures
            final(self)@ == old(self)@.fed(seq![item]),
    {
        self.input.push_back(item);
        assert(self.input@ =~= old(self).input@ + seq![item]);
    }

    fn resolve_address(&self, parameter: Parameter) -> (r: Result<Address, MachineError>)
        ensures
            match address_of(self@, parameter) {
                Ok(a) => r == Ok::<Address, MachineError>(a as Address) && a < usize::MAX,
                Err(e) => r == Err::<Address, MachineError>(e),
            },
    {
        let target: i128 = match parameter.mode {
            ParameterMode::Immediate => {
                return Err(MachineError::InvalidOperand);
            },
            ParameterMode::Position => parameter.value as i128,
            ParameterMode::Relative => parameter.value as i128 + self.relative_base as i128,
        };
        if target < 0 || target >= usize::MAX as i128 {
            Err(MachineError::InvalidOperand)
        } else {
            Ok(target as Address)
        }
    }

    fn resolve_parameter(&self, parameter: Parameter) -> (r: Result<Data, MachineError>)
        ensures
            r == value_of(self@, parameter),
    {
        match parameter.mode {
            ParameterMode::Immediate => Ok(parameter.value),
            _ => match self.resolve_address(parameter) {
                Ok(address) => Ok(self.memory.get(address)),
                Err(e) => Err(e),
            },
        }
    }

    /// Resolves the three operands of an instruction that writes a result:
    /// the destination, then the two sources.
    fn resolve_three(&self, a: Parameter, b: Parameter, c: Parameter) -> (r: Result<
        (Address, Data, Data),
        MachineError,
    >)
        ensures
            match (address_of(self@, c), value_of(self@, a), value_of(self@, b)) {
                (Ok(dest), Ok(x), Ok(y)) => r == Ok::<(Address, Data, Data), MachineError>(
                    (dest as Address, x, y),
                ) && dest < usize::MAX,
                (Err(e), _, _) => r == Err::<(Address, Data, Data), MachineError>(e),
                (Ok(_), Err(e), _) => r == Err::<(Address, Data, Data), MachineError>(e),
                (Ok(_), Ok(_), Err(e)) => r == Err::<(Address, Data, Data), MachineError>(e),
            },
    {
        let dest = match self.resolve_address(c) {
            Ok(dest) => dest,
            Err(e) => {
                return Err(e);
            },
        };
        let x = match self.resolve_parameter(a) {
            Ok(x) => x,
            Err(e) => {
                return Err(e);
            },
        };
        let y = match self.resolve_parameter(b) {
            Ok(y) => y,
            Err(e) => {
                return Err(e);
            },
        };
        Ok((dest, x, y))
    }

    fn execute(&mut self, instruction: &Instruction) -> (r: Result<(), MachineError>)
        requires
            old(self)@.pc + instruction.spec_arity() < usize::MAX,
        ensures
            match spec_execute(old(self)@, *instruction) {
                Ok(t) => r is Ok && final(self)@ == t,
                Err(e) => r == Err::<(), MachineError>(e),
            },
    {
        let mut should_advance_pc = true;
        match *instruction {
            Instruction::Add(a, b, c) => {
                let (address, x, y) = match self.resolve_three(a, b, c) {
                    Ok(t) => t,
                    Err(e) => {
                        return Err(e);
                    },
                };
                let sum = match x.checked_add(y) {
                    Some(v) => v,
                    None => {
                        return Err(MachineError::ArithmeticOverflow);
                    },
                };
                self.memory.write(address, sum);
            },
            Instruction::Multiply(a, b, c) => {
                let (address, x, y) = match self.resolve_three(a, b, c) {
                    Ok(t) => t,
                    Err(e) => {
                        return Err(e);
                    },
                };
                let product = match x.checked_mul(y) {
                    Some(v) => v,
                    None => {
                        return Err(MachineError::ArithmeticOverflow);
                    },
                };
                self.memory.write(address, product);
            },
            Instruction::Input(a) => {
                if self.input.len() == 0 {
                    should_advance_pc = false;
                    self.suspended = true;
                } else {
                    let address = match self.resolve_address(a) {
                        Ok(address) => address,
                        Err(e) => {
                            return Err(e);
                        },
                    };
                    match self.input.pop_front() {
                        Some(item) => self.memory.write(address, item),
                        None => {},
                    }
                }
            },
            Instruction::Output(a) => {
                let x = match self.resolve_parameter(a) {
                    Ok(x) => x,
                    Err(e) => {
                        return Err(e);
                    },
                };
                self.output.push(x);
            },
            Instruction::JumpIfTrue(a, b) | Instruction::JumpIfFalse(a, b) => {
                let x = match self.resolve_parameter(a) {
                    Ok(x) => x,
                    Err(e) => {
                        return Err(e);
                    },
                };
                let taken = match *instruction {
                    Instruction::JumpIfTrue(..) => x != 0,
                    _ => x == 0,
                };
                if taken {
                    let y = match self.resolve_parameter(b) {
                        Ok(y) => y,
                        Err(e) => {
                            return Err(e);
                        },
                    };
                    if y < 0 || y as i128 >= usize::MAX as i128 {
                        return Err(MachineError::InvalidOperand);
                    }
                    self.pc = y as Address;
                    should_advance_pc = false;
                }
            },
            Instruction::LessThan(a, b, c) => {
                let (address, x, y) = match self.resolve_three(a, b, c) {
                    Ok(t) => t,
                    Err(e) => {
                        return Err(e);
                    },
                };
                self.memory.write(
                    address,
                    if x < y {
                        1
                    } else {
                        0
                    },
                );
            },
            Instruction::Equal(a, b, c) => {
                let (address, x, y) = match self.resolve_three(a, b, c) {
                    Ok(t) => t,
                    Err(e) => {
                        return Err(e);
                    },
                };
                self.memory.write(
                    address,
                    if x == y {
                        1
                    } else {
                        0
                    },
                );
            },
            Instruction::AdjustRelativeBase(a) => {
                let x = match self.resolve_parameter(a) {
                    Ok(x) => x,
                    Err(e) => {
                        return Err(e);
                    },
                };
                self.relative_base = match self.relative_base.checked_add(x) {
                    Some(v) => v,
                    None => {
                        return Err(MachineError::ArithmeticOverflow);
                    },
                };
            },
            Instruction::Halt => {
                self.halted = true;
                should_advance_pc = false;
            },
        }
        if should_advance_pc {
            self.pc = self.pc + instruction.arity() + 1;
        }
        Ok(())
    }

    /// Decodes and executes one instruction.
    fn step(&mut self) -> (r: Result<(), MachineError>)
        ensures
            match spec_step(old(self)@) {
                Ok(t) => r is Ok && final(self)@ == t,
                Err(e) => r == Err::<(), MachineError>(e),
            },
    {
        let instruction = match fetch_and_decode(&self.memory, self.pc) {
            Ok(instruction) => instruction,
            Err(e) => {
                return Err(e);
            },
        };
        self.execute(&instruction)
    }

    /// Clears the suspended flag and executes instructions until the machine
    /// halts or suspends, or `max_steps` instructions have run (then it is left
    /// neither halted nor suspended, ready to go on).
    pub fn run_with_limit(&mut self, max_steps: u64) -> (r: Result<(), MachineError>)
        ensures
            match spec_run(old(self)@.resumed(), max_steps as nat) {
                Ok(t) => r is Ok && final(self)@ == t,
                Err(e) => r == Err::<(), MachineError>(e),
            },
            r is Ok ==> !(final(self)@.halted && final(self)@.suspended),
    {
        proof {
            lemma_run_flags_exclusive(old(self)@.resumed(), max_steps as nat);
        }
        self.suspended = false;
        let mut fuel = max_steps;
        while fuel > 0 && !self.suspended && !self.halted
            invariant
                spec_run(old(self)@.resumed(), max_steps as nat) == spec_run(self@, fuel as nat),
            decreases fuel,
        {
            match self.step() {
                Ok(()) => {},
                Err(e) => {
                    return Err(e);
                },
            }
            fuel = fuel - 1;
        }
        Ok(())
    }

    /// Clears the suspended flag and executes instructions until the machine
    /// halts or suspends; a malformed program ends the run with its error, after
    /// which the machine must not be run again. The bound of `u64::MAX` steps
    /// only keeps a program that never stops from running forever.
    pub fn run(&mut self) -> (r: Result<(), MachineError>)
        ensures
            match spec_run(old(self)@.resumed(), u64::MAX as nat) {
                Ok(t) => r is Ok && final(self)@ == t,
                Err(e) => r == Err::<(), MachineError>(e),
            },
            r is Ok ==> !(final(self)@.halted && final(self)@.suspended),
    {
        self.run_with_limit(u64::MAX)
    }
}

} // verus!
