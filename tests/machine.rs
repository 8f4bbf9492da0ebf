use intcode::decode::{fetch_and_decode, parse_parameter_modes};
use intcode::error::MachineError;
use intcode::instruction::Instruction;
use intcode::machine::IntCodeMachine;
use intcode::memory::Memory;
use intcode::opcode::arity;
use intcode::parameter::{Parameter, ParameterMode};

#[test]
fn test_parse_parameter_modes() {
    let result = parse_parameter_modes(1002).unwrap();
    assert_eq!(result.0, 2);
    assert_eq!(
        result.1,
        vec![
            ParameterMode::Position,
            ParameterMode::Immediate,
            ParameterMode::Position
        ]
    )
}

#[test]
fn test_day2_simple_case1() {
    let mut machine = IntCodeMachine::new(vec![1, 9, 10, 3, 2, 3, 11, 0, 99, 30, 40, 50]);
    machine.run().unwrap();
    assert!(machine.halted());
    assert_eq!(machine.memory(0), Some(3500).as_ref());
}

#[test]
fn test_day5_simple_case1() {
    let mut machine = IntCodeMachine::new(vec![3, 0, 4, 0, 99]);
    machine.run().unwrap();
    machine.feed_input(17);
    machine.run().unwrap();
    assert!(machine.halted());
    assert_eq!(machine.output().get(0), Some(17).as_ref());
}

#[test]
fn test_day5_jump_case1() {
    let mut machine = IntCodeMachine::new(vec![
        3, 12, 6, 12, 15, 1, 13, 14, 13, 4, 13, 99, -1, 0, 1, 9,
    ]);
    machine.run().unwrap();
    machine.feed_input(15);
    machine.run().unwrap();
    assert!(machine.halted());
    assert_eq!(machine.output().get(0), Some(1).as_ref());
}

#[test]
fn test_day5_jump_case2() {
    let mut machine = IntCodeMachine::new(vec![
        3, 12, 6, 12, 15, 1, 13, 14, 13, 4, 13, 99, -1, 0, 1, 9,
    ]);
    machine.run().unwrap();
    machine.feed_input(0);
    machine.run().unwrap();
    assert!(machine.halted());
    assert_eq!(machine.output().get(0), Some(0).as_ref());
}

#[test]
fn test_day5_jump_case3() {
    let mut machine = IntCodeMachine::new(vec![3, 3, 1105, -1, 9, 1101, 0, 0, 12, 4, 12, 99, 1]);
    machine.run().unwrap();
    machine.feed_input(0);
    machine.run().unwrap();
    assert!(machine.halted());
    assert_eq!(machine.output().get(0), Some(0).as_ref());
}

#[test]
fn test_day5_jump_case4() {
    let mut machine = IntCodeMachine::new(vec![3, 3, 1105, -1, 9, 1101, 0, 0, 12, 4, 12, 99, 1]);
    machine.run().unwrap();
    machine.feed_input(9);
    machine.run().unwrap();
    assert!(machine.halted());
    assert_eq!(machine.output().get(0), Some(1).as_ref());
}

fn run_with_input(program: Vec<i64>, input: &[i64]) -> IntCodeMachine {
    let mut machine = IntCodeMachine::new(program);
    for &word in input {
        machine.feed_input(word);
    }
    machine.run().unwrap();
    machine
}

#[test]
fn position_branch_negative_input_outputs_one() {
    let program = vec![3, 12, 6, 12, 15, 1, 13, 14, 13, 4, 13, 99, -1, 0, 1, 9];
    let machine = run_with_input(program, &[-4]);
    assert!(machine.halted());
    assert_eq!(machine.output(), &vec![1]);
}

#[test]
fn immediate_branch_outputs_whole_log() {
    let program = vec![3, 3, 1105, -1, 9, 1101, 0, 0, 12, 4, 12, 99, 1];
    assert_eq!(run_with_input(program.clone(), &[0]).output(), &vec![0]);
    assert_eq!(run_with_input(program, &[-7]).output(), &vec![1]);
}

#[test]
fn echo_program_with_input_queued_first() {
    let machine = run_with_input(vec![3, 0, 4, 0, 99], &[17]);
    assert!(machine.halted());
    assert_eq!(machine.output(), &vec![17]);
    assert_eq!(machine.memory(0), Some(&17));
}

#[test]
fn self_replicating_program_outputs_itself() {
    let program = vec![
        109, 1, 204, -1, 1001, 100, 1, 100, 1008, 100, 16, 101, 1006, 101, 0, 99,
    ];
    let machine = run_with_input(program.clone(), &[]);
    assert!(machine.halted());
    assert_eq!(machine.output(), &program);
    assert_eq!(machine.memory(100), Some(&16));
    assert_eq!(machine.memory(101), Some(&1));
    assert_eq!(machine.memory(102), None);
}

#[test]
fn large_products_are_exact() {
    let machine = run_with_input(vec![1102, 34915192, 34915192, 7, 4, 7, 99, 0], &[]);
    assert_eq!(machine.output(), &vec![1219070632396864]);
}

#[test]
fn large_immediate_is_output_as_is() {
    let machine = run_with_input(vec![104, 1125899906842624, 99], &[]);
    assert_eq!(machine.output(), &vec![1125899906842624]);
}

#[test]
fn relative_mode_reads_from_base_offset() {
    let machine = run_with_input(vec![109, 5, 204, 0, 99, 77], &[]);
    assert_eq!(machine.output(), &vec![77]);
}

#[test]
fn relative_base_may_go_negative() {
    let machine = run_with_input(vec![109, -3, 22201, 3, 4, 8, 204, 8, 99], &[]);
    assert!(machine.halted());
    // Operands at base-relative 3 and 4 read addresses 0 and 1; the sum goes to 5.
    assert_eq!(machine.memory(5), Some(&106));
    assert_eq!(machine.output(), &vec![106]);
}

#[test]
fn suspend_leaves_state_unchanged_then_resumes() {
    let program = vec![1101, 2, 3, 9, 3, 10, 4, 10, 99, 0, 0];
    let mut split = IntCodeMachine::new(program.clone());
    split.run().unwrap();
    assert!(split.suspended());
    assert!(!split.halted());
    assert!(split.output().is_empty());
    assert_eq!(split.memory(9), Some(&5));
    assert_eq!(split.memory(10), Some(&0));
    // Running again without input suspends again on the same instruction.
    split.run().unwrap();
    assert!(split.suspended());
    assert_eq!(split.memory(10), Some(&0));
    split.feed_input(42);
    split.run().unwrap();
    assert!(split.halted());
    assert!(!split.suspended());

    let single = run_with_input(program, &[42]);
    assert!(single.halted());
    assert_eq!(split.output(), single.output());
    assert_eq!(split.output(), &vec![42]);
    for address in 0..12 {
        assert_eq!(split.memory(address), single.memory(address));
    }
}

#[test]
fn halted_machine_stays_halted() {
    let mut machine = run_with_input(vec![4, 0, 99], &[]);
    assert!(machine.halted());
    machine.run().unwrap();
    assert!(machine.halted());
    assert_eq!(machine.output(), &vec![4]);
}

#[test]
fn store_far_beyond_program_grows_memory() {
    let machine = run_with_input(vec![1101, 2, 3, 1000, 99], &[]);
    assert_eq!(machine.memory(1000), Some(&5));
    assert_eq!(machine.memory(999), Some(&0));
    assert_eq!(machine.memory(1001), None);
}

#[test]
fn step_limit_leaves_machine_running() {
    let mut machine = IntCodeMachine::new(vec![1105, 1, 0]);
    machine.run_with_limit(10).unwrap();
    assert!(!machine.halted());
    assert!(!machine.suspended());
}

fn run_error(program: Vec<i64>) -> MachineError {
    let mut machine = IntCodeMachine::new(program);
    machine.feed_input(1);
    machine.run().unwrap_err()
}

#[test]
fn unknown_opcode_is_reported() {
    assert_eq!(run_error(vec![42, 0, 0]), MachineError::UnknownOpcode(42));
    assert_eq!(run_error(vec![-1, 0]), MachineError::UnknownOpcode(-1));
    assert_eq!(run_error(vec![1105, 1, 50]), MachineError::UnknownOpcode(0));
}

#[test]
fn truncated_instruction_is_reported() {
    assert_eq!(run_error(vec![1, 0, 0]), MachineError::TruncatedInstruction(0));
    assert_eq!(run_error(vec![4, 0, 1001]), MachineError::TruncatedInstruction(2));
}

#[test]
fn invalid_operands_are_reported() {
    assert_eq!(run_error(vec![11101, 1, 1, 0, 99]), MachineError::InvalidOperand);
    assert_eq!(run_error(vec![1, -1, 0, 0, 99]), MachineError::InvalidOperand);
    assert_eq!(run_error(vec![301, 0, 0, 0, 99]), MachineError::InvalidOperand);
    assert_eq!(run_error(vec![103, 0, 99]), MachineError::InvalidOperand);
    assert_eq!(run_error(vec![1105, 1, -1]), MachineError::InvalidOperand);
    assert_eq!(run_error(vec![109, -5, 204, 2, 99]), MachineError::InvalidOperand);
}

#[test]
fn arithmetic_overflow_is_reported() {
    assert_eq!(
        run_error(vec![1101, i64::MAX, 1, 0, 99]),
        MachineError::ArithmeticOverflow
    );
    assert_eq!(
        run_error(vec![1102, i64::MAX, 2, 0, 99]),
        MachineError::ArithmeticOverflow
    );
    assert_eq!(
        run_error(vec![109, i64::MIN, 109, -1, 99]),
        MachineError::ArithmeticOverflow
    );
}

#[test]
fn comparisons_write_one_or_zero() {
    let machine = run_with_input(vec![1107, 1, 2, 9, 1108, 3, 4, 10, 99, 7, 7], &[]);
    assert_eq!(machine.memory(9), Some(&1));
    assert_eq!(machine.memory(10), Some(&0));
}

#[test]
fn opcode_table_arities() {
    assert_eq!(arity(1), Some(3));
    assert_eq!(arity(2), Some(3));
    assert_eq!(arity(3), Some(1));
    assert_eq!(arity(4), Some(1));
    assert_eq!(arity(5), Some(2));
    assert_eq!(arity(6), Some(2));
    assert_eq!(arity(7), Some(3));
    assert_eq!(arity(8), Some(3));
    assert_eq!(arity(9), Some(1));
    assert_eq!(arity(99), Some(0));
    assert_eq!(arity(0), None);
    assert_eq!(arity(10), None);
}

#[test]
fn parse_modes_defaults_missing_digits_to_position() {
    assert_eq!(
        parse_parameter_modes(21107).unwrap(),
        (7, vec![ParameterMode::Immediate, ParameterMode::Immediate, ParameterMode::Relative])
    );
    assert_eq!(
        parse_parameter_modes(4).unwrap(),
        (4, vec![ParameterMode::Position])
    );
    assert_eq!(parse_parameter_modes(11199).unwrap(), (99, vec![]));
    assert_eq!(parse_parameter_modes(0), Err(MachineError::UnknownOpcode(0)));
    assert_eq!(parse_parameter_modes(-2), Err(MachineError::UnknownOpcode(-2)));
    assert_eq!(parse_parameter_modes(305), Err(MachineError::InvalidOperand));
}

#[test]
fn decode_builds_tagged_instruction() {
    let memory = Memory::new(vec![99, 1001, 4, 3, 4]);
    let p = |value, mode| Parameter { value, mode };
    assert_eq!(
        fetch_and_decode(&memory, 1),
        Ok(Instruction::Add(
            p(4, ParameterMode::Position),
            p(3, ParameterMode::Immediate),
            p(4, ParameterMode::Position)
        ))
    );
    assert_eq!(fetch_and_decode(&memory, 0), Ok(Instruction::Halt));
    assert_eq!(fetch_and_decode(&memory, 2), Ok(Instruction::Output(p(3, ParameterMode::Position))));
    assert_eq!(fetch_and_decode(&memory, 3), Ok(Instruction::Input(p(4, ParameterMode::Position))));
    assert_eq!(fetch_and_decode(&memory, 4), Err(MachineError::TruncatedInstruction(4)));
    assert_eq!(fetch_and_decode(&memory, 50), Err(MachineError::UnknownOpcode(0)));
}

#[test]
fn instruction_arity_and_opcode() {
    let p = Parameter::from((&7, ParameterMode::Relative));
    assert_eq!(p.value, 7);
    assert_eq!(p.mode, ParameterMode::Relative);
    assert_eq!(Instruction::Add(p, p, p).arity(), 3);
    assert_eq!(Instruction::JumpIfFalse(p, p).arity(), 2);
    assert_eq!(Instruction::AdjustRelativeBase(p).opcode(), 9);
    assert_eq!(Instruction::AdjustRelativeBase(p).arity(), 1);
    assert_eq!(Instruction::Halt.arity(), 0);
    assert_eq!(Instruction::Halt.opcode(), 99);
    assert_eq!(ParameterMode::from_int(0), ParameterMode::Position);
    assert_eq!(ParameterMode::from_int(1), ParameterMode::Immediate);
    assert_eq!(ParameterMode::from_int(2), ParameterMode::Relative);
}

#[test]
fn read_memory_defaults_to_zero() {
    let machine = run_with_input(vec![1101, 2, 3, 1000, 99], &[]);
    assert_eq!(machine.read_memory(1000), 5);
    assert_eq!(machine.read_memory(999), 0);
    assert_eq!(machine.read_memory(1001), 0);
    assert_eq!(machine.read_memory(1 << 50), 0);
    assert_eq!(machine.read_memory(0), 1101);
}
