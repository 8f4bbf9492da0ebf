//! The machine's state as a mathematical value, and what one instruction,
//! one step and a bounded run do to it.
use vstd::prelude::*;

use crate::decode::spec_decode;
use crate::error::MachineError;
use crate::instruction::Instruction;
use crate::memory::{
    apply_writes, lemma_apply_writes_concat, lemma_last_write_wins, lemma_unwritten_reads_initial,
    read_word, write_word,
};
use crate::parameter::{Parameter, ParameterMode};
use crate::Data;

verus! {

/// The whole state of a machine.
pub struct MachineState {
    pub memory: Seq<Data>,
    pub pc: nat,
    pub relative_base: int,
    pub halted: bool,
    pub suspended: bool,
    /// Words not yet read, front first.
    pub input: Seq<Data>,
    /// Words written so far, oldest first.
    pub output: Seq<Data>,
}

impl MachineState {
    /// A machine freshly loaded with `program`.
    pub open spec fn initial(program: Seq<Data>) -> MachineState {
        MachineState {
            memory: program,
            pc: 0,
            relative_base: 0,
            halted: false,
            suspended: false,
            input: Seq::empty(),
            output: Seq::empty(),
        }
    }

    /// This state with `words` appended to the input queue.
    pub open spec fn fed(self, words: Seq<Data>) -> MachineState {
        MachineState { input: self.input + words, ..self }
    }

    /// This state as a new run starts from it.
    pub open spec fn resumed(self) -> MachineState {
        MachineState { suspended: false, ..self }
    }
}

/// Whether `x` fits in a word.
pub open spec fn is_word(x: int) -> bool {
    i64::MIN <= x <= i64::MAX
}

/// `a` as an address: non-negative and inside the machine's address space.
pub open spec fn addressable(a: int) -> Result<nat, MachineError> {
    if 0 <= a < usize::MAX {
        Ok(a as nat)
    } else {
        Err(MachineError::InvalidOperand)
    }
}

/// The address that the operand `p` designates as a destination.
pub open spec fn address_of(s: MachineState, p: Parameter) -> Result<nat, MachineError> {
    match p.mode {
        ParameterMode::Immediate => Err(MachineError::InvalidOperand),
        ParameterMode::Position => addressable(p.value as int),
        ParameterMode::Relative => addressable(p.value + s.relative_base),
    }
}

/// The value that the operand `p` stands for as a source.
pub open spec fn value_of(s: MachineState, p: Parameter) -> Result<Data, MachineError> {
    match p.mode {
        ParameterMode::Immediate => Ok(p.value),
        _ => match address_of(s, p) {
            Ok(a) => Ok(read_word(s.memory, a as int)),
            Err(e) => Err(e),
        },
    }
}

/// Writes `f(a, b)` to the destination `c` and moves past a three-operand
/// instruction.
pub open spec fn store_result(
    s: MachineState,
    a: Parameter,
    b: Parameter,
    c: Parameter,
    f: spec_fn(int, int) -> int,
) -> Result<MachineState, MachineError> {
    match address_of(s, c) {
        Err(e) => Err(e),
        Ok(dest) => match value_of(s, a) {
            Err(e) => Err(e),
            Ok(x) => match value_of(s, b) {
                Err(e) => Err(e),
                Ok(y) => if is_word(f(x as int, y as int)) {
                    Ok(
                        MachineState {
                            memory: write_word(s.memory, dest, f(x as int, y as int) as Data),
                            pc: s.pc + 4,
                            ..s
                        },
                    )
                } else {
                    Err(MachineError::ArithmeticOverflow)
                },
            },
        },
    }
}

/// A jump: to the value of `target` when `taken`, else past the instruction.
pub open spec fn jump(s: MachineState, taken: bool, target: Parameter) -> Result<
    MachineState,
    MachineError,
> {
    if taken {
        match value_of(s, target) {
            Err(e) => Err(e),
            Ok(y) => match addressable(y as int) {
                Err(e) => Err(e),
                Ok(t) => Ok(MachineState { pc: t, ..s }),
            },
        }
    } else {
        Ok(MachineState { pc: s.pc + 3, ..s })
    }
}

/// What executing `ins` does to the state `s`.
pub open spec fn spec_execute(s: MachineState, ins: Instruction) -> Result<MachineState, MachineError> {
    match ins {
        Instruction::Add(a, b, c) => store_result(s, a, b, c, |x: int, y: int| x + y),
        Instruction::Multiply(a, b, c) => store_result(s, a, b, c, |x: int, y: int| x * y),
        Instruction::LessThan(a, b, c) => store_result(
            s,
            a,
            b,
            c,
            |x: int, y: int|
                if x < y {
                    1
                } else {
                    0
                },
        ),
        Instruction::Equal(a, b, c) => store_result(
            s,
            a,
            b,
            c,
            |x: int, y: int|
                if x == y {
                    1
                } else {
                    0
                },
        ),
        Instruction::Input(a) => if s.input.len() == 0 {
            Ok(MachineState { suspended: true, ..s })
        } else {
            match address_of(s, a) {
                Err(e) => Err(e),
                Ok(dest) => Ok(
                    MachineState {
                        memory: write_word(s.memory, dest, s.input[0]),
                        input: s.input.drop_first(),
                        pc: s.pc + 2,
                        ..s
                    },
                ),
            }
        },
        Instruction::Output(a) => match value_of(s, a) {
            Err(e) => Err(e),
            Ok(x) => Ok(MachineState { output: s.output.push(x), pc: s.pc + 2, ..s }),
        },
        Instruction::JumpIfTrue(a, b) => match value_of(s, a) {
            Err(e) => Err(e),
            Ok(x) => jump(s, x != 0, b),
        },
        Instruction::JumpIfFalse(a, b) => match value_of(s, a) {
            Err(e) => Err(e),
            Ok(x) => jump(s, x == 0, b),
        },
        Instruction::AdjustRelativeBase(a) => match value_of(s, a) {
            Err(e) => Err(e),
            Ok(x) => if is_word(s.relative_base + x) {
                Ok(MachineState { relative_base: s.relative_base + x, pc: s.pc + 2, ..s })
            } else {
                Err(MachineError::ArithmeticOverflow)
            },
        },
        Instruction::Halt => Ok(MachineState { halted: true, ..s }),
    }
}

/// Decodes the instruction at the program counter and executes it.
pub open spec fn spec_step(s: MachineState) -> Result<MachineState, MachineError> {
    match spec_decode(s.memory, s.pc) {
        Ok(ins) => spec_execute(s, ins),
        Err(e) => Err(e),
    }
}

/// Steps from `s` until the machine halts or suspends, at most `fuel` times.
pub open spec fn spec_run(s: MachineState, fuel: nat) -> Result<MachineState, MachineError>
    decreases fuel,
{
    if s.halted || s.suspended || fuel == 0 {
        Ok(s)
    } else {
        match spec_step(s) {
            Ok(t) => spec_run(t, (fuel - 1) as nat),
            Err(e) => Err(e),
        }
    }
}

/// Whether a run ended for good: in an error, halted, or suspended.
pub open spec fn is_settled(r: Result<MachineState, MachineError>) -> bool {
    match r {
        Ok(t) => t.halted || t.suspended,
        Err(_) => true,
    }
}

/// A step that does not suspend does the same with more words queued, which
/// it leaves queued; a step that fails fails alike.
#[verifier::spinoff_prover]
pub proof fn lemma_step_with_more_input(s: MachineState, w: Seq<Data>)
    ensures
        spec_step(s) is Ok && !spec_step(s).unwrap().suspended ==> spec_step(s.fed(w)) == Ok::<
            MachineState,
            MachineError,
        >(spec_step(s).unwrap().fed(w)),
        spec_step(s) is Err ==> spec_step(s.fed(w)) == spec_step(s),
{
    if let Ok(Instruction::Input(_)) = spec_decode(s.memory, s.pc) {
        if s.input.len() > 0 {
            assert((s.input + w).drop_first() =~= s.input.drop_first() + w);
            assert((s.input + w)[0] == s.input[0]);
        }
    }
}

/// A step that suspends is an input instruction that found the queue empty,
/// and it changes nothing but the suspended flag: no memory, no program
/// counter, nothing partly done.
pub proof fn lemma_suspend_has_no_effect(s: MachineState)
    requires
        !s.suspended,
        spec_step(s) matches Ok(t) && t.suspended,
    ensures
        spec_step(s) == Ok::<MachineState, MachineError>(MachineState { suspended: true, ..s }),
        s.input.len() == 0,
        spec_decode(s.memory, s.pc) matches Ok(Instruction::Input(_)),
{
}

/// A step from a running state never leaves the machine both halted and
/// suspended.
pub proof fn lemma_step_flags_exclusive(s: MachineState)
    requires
        !s.halted,
        !s.suspended,
    ensures
        spec_step(s) matches Ok(t) ==> !(t.halted && t.suspended),
{
}

/// A run never leaves the machine both halted and suspended.
pub proof fn lemma_run_flags_exclusive(s: MachineState, fuel: nat)
    requires
        !(s.halted && s.suspended),
    ensures
        spec_run(s, fuel) matches Ok(t) ==> !(t.halted && t.suspended),
    decreases fuel,
{
    if !(s.halted || s.suspended || fuel == 0) {
        lemma_step_flags_exclusive(s);
        if let Ok(t) = spec_step(s) {
            lemma_run_flags_exclusive(t, (fuel - 1) as nat);
        }
    }
}

/// Whether `t` leaves the logs of `s` as a machine may: the output log only
/// grows at its end and the input queue only loses words at its front.
pub open spec fn keeps_logs(s: MachineState, t: MachineState) -> bool {
    &&& s.output.len() <= t.output.len()
    &&& t.output.subrange(0, s.output.len() as int) == s.output
    &&& t.input.len() <= s.input.len()
    &&& t.input == s.input.subrange(s.input.len() - t.input.len(), s.input.len() as int)
}

/// A step keeps the logs, leaves a halted machine halted, and moves the
/// relative base only when it executes an adjust-relative-base instruction.
pub proof fn lemma_step_preserves(s: MachineState)
    ensures
        spec_step(s) is Ok ==> keeps_logs(s, spec_step(s).unwrap()),
        spec_step(s) is Ok && s.halted ==> spec_step(s).unwrap().halted,
        spec_step(s) is Ok && spec_step(s).unwrap().relative_base != s.relative_base ==> spec_decode(
            s.memory,
            s.pc,
        ) matches Ok(Instruction::AdjustRelativeBase(_)),
{
    assert(s.output.subrange(0, s.output.len() as int) =~= s.output);
    assert(s.input.subrange(0, s.input.len() as int) =~= s.input);
    if let Ok(t) = spec_step(s) {
        if t.output.len() > s.output.len() {
            assert(t.output.subrange(0, s.output.len() as int) =~= s.output);
        }
        if t.input.len() < s.input.len() {
            assert(t.input =~= s.input.subrange(1, s.input.len() as int));
        }
    }
}

/// A run keeps the logs: output is never truncated and input is consumed in
/// order from the front.
pub proof fn lemma_run_keeps_logs(s: MachineState, fuel: nat)
    ensures
        spec_run(s, fuel) is Ok ==> keeps_logs(s, spec_run(s, fuel).unwrap()),
    decreases fuel,
{
    assert(s.output.subrange(0, s.output.len() as int) =~= s.output);
    assert(s.input.subrange(0, s.input.len() as int) =~= s.input);
    if !(s.halted || s.suspended || fuel == 0) {
        lemma_step_preserves(s);
        if let Ok(t) = spec_step(s) {
            lemma_run_keeps_logs(t, (fuel - 1) as nat);
            if let Ok(u) = spec_run(t, (fuel - 1) as nat) {
                assert(u.output.subrange(0, s.output.len() as int) =~= u.output.subrange(
                    0,
                    t.output.len() as int,
                ).subrange(0, s.output.len() as int));
                assert(u.input =~= s.input.subrange(
                    s.input.len() - t.input.len(),
                    s.input.len() as int,
                ).subrange(t.input.len() - u.input.len(), t.input.len() as int));
                assert(u.input =~= s.input.subrange(
                    s.input.len() - u.input.len(),
                    s.input.len() as int,
                ));
            }
        }
    }
}

/// A halted machine runs no further: a run leaves it as it is.
pub proof fn lemma_halted_is_terminal(s: MachineState, fuel: nat)
    requires
        s.halted,
    ensures
        spec_run(s.resumed(), fuel) == Ok::<MachineState, MachineError>(s.resumed()),
{
}

/// Once a run has halted, suspended or failed, more fuel changes nothing.
pub proof fn lemma_settled_run_is_stable(s: MachineState, n: nat, m: nat)
    requires
        n <= m,
        is_settled(spec_run(s, n)),
    ensures
        spec_run(s, m) == spec_run(s, n),
    decreases n,
{
    if !(s.halted || s.suspended) && n > 0 {
        if let Ok(t) = spec_step(s) {
            lemma_settled_run_is_stable(t, (n - 1) as nat, (m - 1) as nat);
        }
    }
}

/// Suspending and resuming is the same as having had the input from the
/// start: a run that suspends for want of input stops at an input instruction
/// with an empty queue; feeding it `w` and running again ends (once that run
/// has halted, suspended or failed) exactly where one run from the same start
/// with `w` queued from the outset ends.
pub proof fn lemma_suspend_resume_equivalence(s: MachineState, n1: nat, w: Seq<Data>, n2: nat)
    requires
        !s.suspended,
        spec_run(s, n1) matches Ok(t) && t.suspended,
        is_settled(spec_run(spec_run(s, n1).unwrap().fed(w).resumed(), n2)),
    ensures
        spec_run(s, n1).unwrap().input.len() == 0,
        spec_decode(spec_run(s, n1).unwrap().memory, spec_run(s, n1).unwrap().pc) matches Ok(
            Instruction::Input(_),
        ),
        spec_run(s.fed(w), n1 + n2) == spec_run(spec_run(s, n1).unwrap().fed(w).resumed(), n2),
    decreases n1,
{
    let t1 = spec_step(s).unwrap();
    lemma_step_with_more_input(s, w);
    if t1.suspended {
        lemma_suspend_has_no_effect(s);
        assert(spec_run(s, n1).unwrap() == t1);
        assert(t1.fed(w).resumed() == s.fed(w));
        lemma_settled_run_is_stable(s.fed(w), n2, n1 + n2);
    } else {
        lemma_suspend_resume_equivalence(t1, (n1 - 1) as nat, w, n2);
        assert(n1 + n2 - 1 == (n1 - 1) + n2);
    }
}

/// A run that suspends stops exactly where it tried to read: some state it
/// reached, running and not halted, steps to the suspended state by setting
/// the suspended flag alone, with the same memory, program counter, relative
/// base, output and (empty) input.
pub proof fn lemma_suspended_run_stops_before_input(s: MachineState, fuel: nat) -> (r: (
    nat,
    MachineState,
))
    requires
        !s.suspended,
        spec_run(s, fuel) matches Ok(t) && t.suspended,
    ensures
        r.0 < fuel,
        spec_run(s, r.0) == Ok::<MachineState, MachineError>(r.1),
        !r.1.halted,
        !r.1.suspended,
        r.1.input.len() == 0,
        spec_decode(r.1.memory, r.1.pc) matches Ok(Instruction::Input(_)),
        spec_step(r.1) == Ok::<MachineState, MachineError>(spec_run(s, fuel).unwrap()),
        spec_run(s, fuel).unwrap() == (MachineState { suspended: true, ..r.1 }),
    decreases fuel,
{
    let t1 = spec_step(s).unwrap();
    if t1.suspended {
        lemma_suspend_has_no_effect(s);
        (0, s)
    } else {
        let (k, p) = lemma_suspended_run_stops_before_input(t1, (fuel - 1) as nat);
        (k + 1, p)
    }
}

/// Suspending and resuming within one step bound per run: when a run from `s`
/// suspends, the run after feeding `w` settles, and a single run from `s` with
/// `w` queued from the outset settles too, both end in the same result.
pub proof fn lemma_run_suspend_resume(s: MachineState, fuel: nat, w: Seq<Data>)
    requires
        !s.suspended,
        spec_run(s, fuel) matches Ok(t) && t.suspended,
        is_settled(spec_run(spec_run(s, fuel).unwrap().fed(w).resumed(), fuel)),
        is_settled(spec_run(s.fed(w).resumed(), fuel)),
    ensures
        spec_run(s.fed(w).resumed(), fuel) == spec_run(
            spec_run(s, fuel).unwrap().fed(w).resumed(),
            fuel,
        ),
{
    assert(s.fed(w).resumed() == s.fed(w));
    lemma_suspend_resume_equivalence(s, fuel, w, fuel);
    lemma_settled_run_is_stable(s.fed(w), fuel, fuel + fuel);
}

/// A step stores at most one word: its memory afterwards is the memory before
/// after the stores returned (none or one).
#[verifier::spinoff_prover]
pub proof fn lemma_step_writes(s: MachineState) -> (ws: Seq<(nat, Data)>)
    ensures
        ws.len() <= 1,
        spec_step(s) is Ok ==> spec_step(s).unwrap().memory == apply_writes(s.memory, ws),
{
    let none = Seq::<(nat, Data)>::empty();
    if let Ok(t) = spec_step(s) {
        let dest = match spec_decode(s.memory, s.pc).unwrap() {
            Instruction::Add(_, _, c) => address_of(s, c),
            Instruction::Multiply(_, _, c) => address_of(s, c),
            Instruction::LessThan(_, _, c) => address_of(s, c),
            Instruction::Equal(_, _, c) => address_of(s, c),
            Instruction::Input(a) => if s.input.len() == 0 {
                Err(MachineError::InvalidOperand)
            } else {
                address_of(s, a)
            },
            _ => Err(MachineError::InvalidOperand),
        };
        match dest {
            Ok(d) => {
                let ws = seq![(d, t.memory[d as int])];
                assert(ws.drop_last() =~= none);
                assert(ws.last() == (d, t.memory[d as int]));
                assert(apply_writes(s.memory, none) == s.memory);
                assert(t.memory =~= write_word(s.memory, d, t.memory[d as int]));
                ws
            },
            Err(_) => {
                assert(apply_writes(s.memory, none) == s.memory);
                none
            },
        }
    } else {
        none
    }
}

/// A run's memory is the memory it started with after a sequence of stores,
/// one per instruction at most, in the order the instructions ran.
pub proof fn lemma_run_writes(s: MachineState, fuel: nat) -> (ws: Seq<(nat, Data)>)
    ensures
        spec_run(s, fuel) is Ok ==> spec_run(s, fuel).unwrap().memory == apply_writes(s.memory, ws),
    decreases fuel,
{
    if s.halted || s.suspended || fuel == 0 {
        Seq::empty()
    } else {
        match spec_step(s) {
            Ok(t) => {
                let first = lemma_step_writes(s);
                let rest = lemma_run_writes(t, (fuel - 1) as nat);
                lemma_apply_writes_concat(s.memory, first, rest);
                first + rest
            },
            Err(_) => Seq::empty(),
        }
    }
}

/// Sparse memory over a run: it returns the stores the run made, in order.
/// An address that none of them touched reads as it did before the run (so 0
/// past the loaded program, however far out); an address reads the value of
/// the last store to it.
pub proof fn lemma_run_sparse_memory(s: MachineState, fuel: nat) -> (ws: Seq<(nat, Data)>)
    requires
        spec_run(s, fuel) is Ok,
    ensures
        spec_run(s, fuel).unwrap().memory == apply_writes(s.memory, ws),
        forall|a: nat|
            (forall|j: int| 0 <= j < ws.len() ==> ws[j].0 != a) ==> #[trigger] read_word(
                spec_run(s, fuel).unwrap().memory,
                a as int,
            ) == read_word(s.memory, a as int),
        forall|i: int|
            0 <= i < ws.len() && (forall|j: int| i < j < ws.len() ==> ws[j].0 != ws[i].0)
                ==> read_word(spec_run(s, fuel).unwrap().memory, #[trigger] ws[i].0 as int)
                == ws[i].1,
{
    let ws = lemma_run_writes(s, fuel);
    assert forall|a: nat|
        (forall|j: int| 0 <= j < ws.len() ==> ws[j].0 != a) implies #[trigger] read_word(
            spec_run(s, fuel).unwrap().memory,
            a as int,
        ) == read_word(s.memory, a as int) by {
        lemma_unwritten_reads_initial(s.memory, ws, a);
    }
    assert forall|i: int|
        0 <= i < ws.len() && (forall|j: int| i < j < ws.len() ==> ws[j].0 != ws[i].0) implies read_word(
            spec_run(s, fuel).unwrap().memory,
            #[trigger] ws[i].0 as int,
        ) == ws[i].1 by {
        lemma_last_write_wins(s.memory, ws, i);
    }
    ws
}

} // verus!
