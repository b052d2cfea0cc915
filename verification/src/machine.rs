//! The integer stack machine.

use vstd::prelude::*;

use crate::program::Program;
#[allow(unused_imports)]
use crate::program::{arithmetic_error, law_valid_programs_run_soundly};
use crate::text::{signed_text, size_text};
#[allow(unused_imports)]
use crate::text::{decimal, signed_decimal};

verus! {

/// The instructions understood by the VM.
#[derive(Debug, Clone, Copy, PartialEq, Eq, Structural)]
pub enum Instruction {
    /// Push an integer onto the value stack.
    Push(i32),
    /// Pop two values and push their sum.
    Add,
    /// Pop two values and push the first value minus the second.
    Sub,
    /// Pop two values and push their product.
    Mul,
    /// Pop two values and push the first value divided by the second.
    Div,
    /// Duplicate the value at the top of the stack.
    Dup,
    /// Discard the value at the top of the stack.
    Pop,
    /// Swap the two values at the top of the stack.
    Swap,
    /// Copy the second value from the top onto the top of the stack.
    Over,
    /// Pop two values and push 1 if they are equal, else 0.
    Eq,
    /// Pop two values and push 1 if the first is less than the second, else 0.
    Lt,
    /// Pop one value and push its arithmetic negation.
    Neg,
    /// Pop one value and push 1 if it is zero, else 0.
    Not,
    /// Continue at the given instruction index.
    Jmp(usize),
    /// Pop one value and continue at the given instruction index if it is zero.
    Jz(usize),
    /// Stop; the value at the top of the stack is the result.
    Halt,
}

impl Instruction {
    /// The mnemonic of the instruction.
    pub open spec fn mnemonic(self) -> &'static str {
        match self {
            Instruction::Push(_) => "PUSH",
            Instruction::Add => "ADD",
            Instruction::Sub => "SUB",
            Instruction::Mul => "MUL",
            Instruction::Div => "DIV",
            Instruction::Dup => "DUP",
            Instruction::Pop => "POP",
            Instruction::Swap => "SWAP",
            Instruction::Over => "OVER",
            Instruction::Eq => "EQ",
            Instruction::Lt => "LT",
            Instruction::Neg => "NEG",
            Instruction::Not => "NOT",
            Instruction::Jmp(_) => "JMP",
            Instruction::Jz(_) => "JZ",
            Instruction::Halt => "HALT",
        }
    }

    /// The mnemonic of the instruction.
    pub fn name(self) -> (r: &'static str)
        ensures
            r == self.mnemonic(),
    {
        match self {
            Instruction::Push(_) => "PUSH",
            Instruction::Add => "ADD",
            Instruction::Sub => "SUB",
            Instruction::Mul => "MUL",
            Instruction::Div => "DIV",
            Instruction::Dup => "DUP",
            Instruction::Pop => "POP",
            Instruction::Swap => "SWAP",
            Instruction::Over => "OVER",
            Instruction::Eq => "EQ",
            Instruction::Lt => "LT",
            Instruction::Neg => "NEG",
            Instruction::Not => "NOT",
            Instruction::Jmp(_) => "JMP",
            Instruction::Jz(_) => "JZ",
            Instruction::Halt => "HALT",
        }
    }

    /// The instruction as one line of assembly: its mnemonic and its operand, if it has one.
    pub open spec fn assembly(self) -> Seq<char> {
        match self {
            Instruction::Push(value) => "PUSH "@ + signed_decimal(value as int),
            Instruction::Jmp(target) => "JMP "@ + decimal(target as nat),
            Instruction::Jz(target) => "JZ "@ + decimal(target as nat),
            _ => self.mnemonic()@,
        }
    }

    /// The instruction as one line of assembly.
    pub fn to_text(self) -> (r: String)
        ensures
            r@ == self.assembly(),
    {
        match self {
            Instruction::Push(value) => {
                let mut r = "PUSH ".to_owned();
                r.push_str(signed_text(value as i64).as_str());
                r
            },
            Instruction::Jmp(target) => {
                let mut r = "JMP ".to_owned();
                r.push_str(size_text(target).as_str());
                r
            },
            Instruction::Jz(target) => {
                let mut r = "JZ ".to_owned();
                r.push_str(size_text(target).as_str());
                r
            },
            _ => self.name().to_owned(),
        }
    }
}

/// The result of executing one instruction.
#[derive(Debug, Clone, Copy, PartialEq, Eq, Structural)]
pub enum StepResult {
    /// An instruction executed and the VM can continue.
    Executed { instruction: Instruction },
    /// `Halt` executed and produced a result.
    Halted { result: i32 },
}

/// A deterministic snapshot captured after one instruction executes.
#[derive(Debug, Clone, PartialEq, Eq)]
pub struct TraceEntry {
    pub instruction_pointer: usize,
    pub instruction: Instruction,
    pub stack: Vec<i32>,
    pub result: Option<i32>,
}

/// What a [`TraceEntry`] records.
#[verifier::ext_equal]
pub struct TraceModel {
    pub instruction_pointer: int,
    pub instruction: Instruction,
    pub stack: Seq<i32>,
    pub result: Option<i32>,
}

impl View for TraceEntry {
    type V = TraceModel;

    open spec fn view(&self) -> TraceModel {
        TraceModel {
            instruction_pointer: self.instruction_pointer as int,
            instruction: self.instruction,
            stack: self.stack@,
            result: self.result,
        }
    }
}

/// Errors that can occur while executing a program.
#[derive(Debug, Clone, PartialEq, Eq)]
pub enum VmError {
    /// An instruction needed more values than were available on the stack.
    StackUnderflow { operation: &'static str, needed: usize, available: usize },
    /// The program attempted to divide by zero.
    DivisionByZero,
    /// An arithmetic operation exceeded the range of an `i32`.
    IntegerOverflow { operation: &'static str },
    /// `Halt` was not found before the program ended.
    MissingHalt,
    /// `Halt` was reached without a result on the stack.
    EmptyStack,
    /// A jump targeted an instruction index outside the program.
    InvalidJump { target: usize },
    /// Execution exceeded the bounded step budget (loops must terminate).
    StepLimitExceeded { limit: usize },
    /// The VM was stepped after it had already halted.
    AlreadyHalted,
}

/// Upper bound on executed instructions for one `run` or `trace` call.
///
/// Jumps make non-termination expressible, so the direct-execution paths
/// fail closed instead of looping forever. Guest processes are bounded
/// separately by the scheduler tick limits.
pub const MAX_VM_STEPS: usize = 1_000_000;

/// A simple integer stack virtual machine.
#[derive(Debug)]
pub struct Vm {
    stack: Vec<i32>,
    instruction_pointer: usize,
    halted: bool,
}

/// The state of a [`Vm`].
#[verifier::ext_equal]
pub struct VmState {
    pub stack: Seq<i32>,
    pub instruction_pointer: int,
    pub halted: bool,
}

impl View for Vm {
    type V = VmState;

    closed spec fn view(&self) -> VmState {
        VmState {
            stack: self.stack@,
            instruction_pointer: self.instruction_pointer as int,
            halted: self.halted,
        }
    }
}

/// The state of a VM that has executed nothing.
pub open spec fn initial_state() -> VmState {
    VmState { stack: Seq::empty(), instruction_pointer: 0, halted: false }
}

/// An outcome of one step: the state it leaves and what it reports.
pub type StepOutcome = (VmState, Result<StepResult, VmError>);

pub open spec fn fits(i: int) -> bool {
    i32::MIN <= i <= i32::MAX
}

/// Division that truncates toward zero.
pub open spec fn truncated_quotient(lhs: int, rhs: int) -> int {
    if lhs >= 0 {
        lhs / rhs
    } else {
        -((-lhs) / rhs)
    }
}

pub open spec fn truth(b: bool) -> i32 {
    if b {
        1
    } else {
        0
    }
}

pub open spec fn underflow(operation: &'static str, needed: usize, available: nat) -> VmError {
    VmError::StackUnderflow { operation, needed, available: available as usize }
}

/// A step that pops two operands and pushes `value`, when that value fits; the operands are gone
/// either way.
pub open spec fn binary_step(
    s: VmState,
    instruction: Instruction,
    operation: &'static str,
    value: spec_fn(int, int) -> int,
) -> StepOutcome {
    let n = s.stack.len();
    if n < 2 {
        (s, Err(underflow(operation, 2, n)))
    } else {
        let rest = s.stack.take(n - 2);
        let v = value(s.stack[n - 2] as int, s.stack[n - 1] as int);
        if fits(v) {
            (
                VmState { stack: rest.push(v as i32), ..s },
                Ok(StepResult::Executed { instruction }),
            )
        } else {
            (VmState { stack: rest, ..s }, Err(VmError::IntegerOverflow { operation }))
        }
    }
}

/// What executing `instruction` does to a state whose instruction pointer has already moved past
/// it. `length` is the length of the program.
pub open spec fn execute(s: VmState, instruction: Instruction, length: nat) -> StepOutcome {
    let n = s.stack.len();
    let done = Ok::<StepResult, VmError>(StepResult::Executed { instruction });
    match instruction {
        Instruction::Push(value) => (VmState { stack: s.stack.push(value), ..s }, done),
        Instruction::Add => binary_step(s, instruction, "add", |l: int, r: int| l + r),
        Instruction::Sub => binary_step(s, instruction, "subtract", |l: int, r: int| l - r),
        Instruction::Mul => binary_step(s, instruction, "multiply", |l: int, r: int| l * r),
        Instruction::Div => if n >= 2 && s.stack[n - 1] == 0 {
            (VmState { stack: s.stack.take(n - 2), ..s }, Err(VmError::DivisionByZero))
        } else {
            binary_step(s, instruction, "divide", |l: int, r: int| truncated_quotient(l, r))
        },
        Instruction::Dup => if n < 1 {
            (s, Err(underflow("duplicate", 1, 0)))
        } else {
            (VmState { stack: s.stack.push(s.stack[n - 1]), ..s }, done)
        },
        Instruction::Pop => if n < 1 {
            (s, Err(underflow("pop", 1, 0)))
        } else {
            (VmState { stack: s.stack.take(n - 1), ..s }, done)
        },
        Instruction::Swap => if n < 2 {
            (s, Err(underflow("swap", 2, n)))
        } else {
            (
                VmState {
                    stack: s.stack.take(n - 2).push(s.stack[n - 1]).push(s.stack[n - 2]),
                    ..s
                },
                done,
            )
        },
        Instruction::Over => if n < 2 {
            (s, Err(underflow("over", 2, n)))
        } else {
            (VmState { stack: s.stack.push(s.stack[n - 2]), ..s }, done)
        },
        Instruction::Eq => binary_step(
            s,
            instruction,
            "equal",
            |l: int, r: int| truth(l == r) as int,
        ),
        Instruction::Lt => binary_step(
            s,
            instruction,
            "less-than",
            |l: int, r: int| truth(l < r) as int,
        ),
        Instruction::Neg => if n < 1 {
            (s, Err(underflow("negate", 1, 0)))
        } else if s.stack[n - 1] == i32::MIN {
            (
                VmState { stack: s.stack.take(n - 1), ..s },
                Err(VmError::IntegerOverflow { operation: "negate" }),
            )
        } else {
            (VmState { stack: s.stack.take(n - 1).push((-s.stack[n - 1]) as i32), ..s }, done)
        },
        Instruction::Not => if n < 1 {
            (s, Err(underflow("not", 1, 0)))
        } else {
            (VmState { stack: s.stack.take(n - 1).push(truth(s.stack[n - 1] == 0)), ..s }, done)
        },
        Instruction::Jmp(target) => if target >= length {
            (s, Err(VmError::InvalidJump { target }))
        } else {
            (VmState { instruction_pointer: target as int, ..s }, done)
        },
        Instruction::Jz(target) => if target >= length {
            (s, Err(VmError::InvalidJump { target }))
        } else if n < 1 {
            (s, Err(underflow("jump-if-zero", 1, 0)))
        } else if s.stack[n - 1] == 0 {
            (
                VmState {
                    stack: s.stack.take(n - 1),
                    instruction_pointer: target as int,
                    ..s
                },
                done,
            )
        } else {
            (VmState { stack: s.stack.take(n - 1), ..s }, done)
        },
        Instruction::Halt => if n < 1 {
            (s, Err(VmError::EmptyStack))
        } else {
            (VmState { halted: true, ..s }, Ok(StepResult::Halted { result: s.stack[n - 1] }))
        },
    }
}

/// One step of the machine on `program`.
pub open spec fn step_of(program: Seq<Instruction>, s: VmState) -> StepOutcome {
    if s.halted {
        (s, Err(VmError::AlreadyHalted))
    } else if !(0 <= s.instruction_pointer < program.len()) {
        (s, Err(VmError::MissingHalt))
    } else {
        execute(
            VmState { instruction_pointer: s.instruction_pointer + 1, ..s },
            program[s.instruction_pointer],
            program.len(),
        )
    }
}

/// At most `fuel` steps from `s`, up to the first that halts or fails: the state left and the
/// result, or the error.
pub open spec fn run_from(program: Seq<Instruction>, s: VmState, fuel: nat) -> (
    VmState,
    Result<i32, VmError>,
)
    decreases fuel,
{
    if fuel == 0 {
        (s, Err(VmError::StepLimitExceeded { limit: MAX_VM_STEPS }))
    } else {
        match step_of(program, s) {
            (next, Ok(StepResult::Executed { .. })) => run_from(program, next, (fuel - 1) as nat),
            (next, Ok(StepResult::Halted { result })) => (next, Ok(result)),
            (next, Err(error)) => (next, Err(error)),
        }
    }
}

/// The record of one successful step from `s` that left `next`.
pub open spec fn trace_entry(s: VmState, next: VmState, step: StepResult) -> TraceModel {
    TraceModel {
        instruction_pointer: s.instruction_pointer,
        instruction: match step {
            StepResult::Executed { instruction } => instruction,
            StepResult::Halted { .. } => Instruction::Halt,
        },
        stack: next.stack,
        result: match step {
            StepResult::Executed { .. } => None,
            StepResult::Halted { result } => Some(result),
        },
    }
}

/// The records of at most `fuel` steps from `s`, up to the one that halts, or the error.
pub open spec fn trace_from(program: Seq<Instruction>, s: VmState, fuel: nat) -> (
    VmState,
    Result<Seq<TraceModel>, VmError>,
)
    decreases fuel,
{
    if fuel == 0 {
        (s, Err(VmError::StepLimitExceeded { limit: MAX_VM_STEPS }))
    } else {
        match step_of(program, s) {
            (next, Ok(StepResult::Executed { instruction })) => match trace_from(
                program,
                next,
                (fuel - 1) as nat,
            ) {
                (last, Ok(rest)) => (
                    last,
                    Ok(
                        seq![trace_entry(s, next, StepResult::Executed { instruction })] + rest,
                    ),
                ),
                (last, Err(error)) => (last, Err(error)),
            },
            (next, Ok(StepResult::Halted { result })) => (
                next,
                Ok(seq![trace_entry(s, next, StepResult::Halted { result })]),
            ),
            (next, Err(error)) => (next, Err(error)),
        }
    }
}

/// The models of a sequence of trace entries.
pub open spec fn trace_models(entries: Seq<TraceEntry>) -> Seq<TraceModel> {
    Seq::new(entries.len(), |i: int| entries[i]@)
}

impl Default for Vm {
    fn default() -> (r: Self)
        ensures
            r@ == initial_state(),
    {
        Vm { stack: Vec::new(), instruction_pointer: 0, halted: false }
    }
}

impl Vm {
    /// Create an empty VM.
    pub fn new() -> (r: Self)
        ensures
            r@ == initial_state(),
    {
        Vm { stack: Vec::new(), instruction_pointer: 0, halted: false }
    }

    /// Reset the VM to its initial state.
    pub fn reset(&mut self)
        ensures
            final(self)@ == initial_state(),
    {
        self.stack.clear();
        self.instruction_pointer = 0;
        self.halted = false;
    }

    /// Execute a program and return the value at the top of the stack when it
    /// reaches [`Instruction::Halt`].
    ///
    /// Each call starts with a clean stack and instruction pointer, so a VM
    /// can safely be reused for multiple programs.
    pub fn run(&mut self, program: &[Instruction]) -> (r: Result<i32, VmError>)
        ensures
            (final(self)@, r) == run_from(program@, initial_state(), MAX_VM_STEPS as nat),
    {
        self.reset();
        let mut steps: usize = 0;
        while steps < MAX_VM_STEPS
            invariant
                steps <= MAX_VM_STEPS,
                run_from(program@, self@, (MAX_VM_STEPS - steps) as nat) == run_from(
                    program@,
                    initial_state(),
                    MAX_VM_STEPS as nat,
                ),
            decreases MAX_VM_STEPS - steps,
        {
            match self.step(program) {
                Ok(StepResult::Executed { .. }) => {},
                Ok(StepResult::Halted { result }) => {
                    return Ok(result);
                },
                Err(error) => {
                    return Err(error);
                },
            }
            steps += 1;
        }
        Err(VmError::StepLimitExceeded { limit: MAX_VM_STEPS })
    }

    /// Execute a program that was validated at its input boundary.
    pub fn run_program(&mut self, program: &Program) -> (r: Result<i32, VmError>)
        ensures
            (final(self)@, r) == run_from(program@, initial_state(), MAX_VM_STEPS as nat),
            r matches Err(error) ==> arithmetic_error(error) || error is StepLimitExceeded,
    {
        let instructions = program.instructions();
        proof {
            law_valid_programs_run_soundly(program@, MAX_VM_STEPS as nat);
        }
        self.run(instructions)
    }

    /// Execute a validated program and return a complete, inspectable trace.
    pub fn trace(&mut self, program: &Program) -> (r: Result<Vec<TraceEntry>, VmError>)
        ensures
            final(self)@ == trace_from(program@, initial_state(), MAX_VM_STEPS as nat).0,
            match r {
                Ok(entries) => trace_from(program@, initial_state(), MAX_VM_STEPS as nat).1 == Ok::<
                    Seq<TraceModel>,
                    VmError,
                >(trace_models(entries@)),
                Err(error) => trace_from(program@, initial_state(), MAX_VM_STEPS as nat).1 == Err::<
                    Seq<TraceModel>,
                    VmError,
                >(error),
            },
    {
        self.reset();
        let ghost whole = trace_from(program@, initial_state(), MAX_VM_STEPS as nat);
        let mut entries: Vec<TraceEntry> = Vec::new();
        let mut steps: usize = 0;
        proof {
            assert(trace_models(entries@) =~= Seq::<TraceModel>::empty());
            if whole.1 is Ok {
                assert(trace_models(entries@) + whole.1->Ok_0 =~= whole.1->Ok_0);
            }
        }
        while steps < MAX_VM_STEPS
            invariant
                steps <= MAX_VM_STEPS,
                whole == trace_from(program@, initial_state(), MAX_VM_STEPS as nat),
                ({
                    let rest = trace_from(program@, self@, (MAX_VM_STEPS - steps) as nat);
                    &&& rest.0 == whole.0
                    &&& match rest.1 {
                        Ok(tail) => whole.1 == Ok::<Seq<TraceModel>, VmError>(
                            trace_models(entries@) + tail,
                        ),
                        Err(error) => whole.1 == Err::<Seq<TraceModel>, VmError>(error),
                    }
                }),
            decreases MAX_VM_STEPS - steps,
        {
            let ghost s = self@;
            let ghost before = entries@;
            let instruction_pointer: usize = self.instruction_pointer;
            match self.step(program.instructions()) {
                Ok(step) => {
                    let instruction = match step {
                        StepResult::Executed { instruction } => instruction,
                        StepResult::Halted { .. } => Instruction::Halt,
                    };
                    let result: Option<i32> = match step {
                        StepResult::Executed { .. } => None,
                        StepResult::Halted { result } => Some(result),
                    };
                    let stack = self.stack.clone();
                    assert(stack@ =~= self.stack@);
                    entries.push(TraceEntry { instruction_pointer, instruction, stack, result });
                    let ghost entry = trace_entry(s, self@, step);
                    assert(entries@.last()@ =~= entry);
                    assert(trace_models(entries@) =~= trace_models(before).push(entry));
                    if result.is_some() {
                        assert(trace_models(entries@) =~= trace_models(before) + seq![entry]);
                        return Ok(entries);
                    }
                    proof {
                        let tail = trace_from(program@, self@, (MAX_VM_STEPS - steps - 1) as nat);
                        if tail.1 is Ok {
                            assert(trace_models(entries@) + tail.1->Ok_0 =~= trace_models(before)
                                + (seq![entry] + tail.1->Ok_0));
                        }
                    }
                },
                Err(error) => {
                    return Err(error);
                },
            }
            steps += 1;
        }
        Err(VmError::StepLimitExceeded { limit: MAX_VM_STEPS })
    }

    /// Execute exactly one instruction from the current instruction pointer.
    pub fn step(&mut self, program: &[Instruction]) -> (r: Result<StepResult, VmError>)
        ensures
            (final(self)@, r) == step_of(program@, old(self)@),
    {
        if self.halted {
            return Err(VmError::AlreadyHalted);
        }
        if self.instruction_pointer >= program.len() {
            return Err(VmError::MissingHalt);
        }
        let instruction = program[self.instruction_pointer];
        self.instruction_pointer = self.instruction_pointer + 1;
        let ghost s = self@;
        let length = program.len();
        match instruction {
            Instruction::Push(value) => self.stack.push(value),
            Instruction::Add => {
                let (lhs, rhs) = match self.pop_binary_operands("add") {
                    Ok(operands) => operands,
                    Err(error) => {
                        return Err(error);
                    },
                };
                match lhs.checked_add(rhs) {
                    Some(value) => self.stack.push(value),
                    None => {
                        return Err(VmError::IntegerOverflow { operation: "add" });
                    },
                }
            },
            Instruction::Sub => {
                let (lhs, rhs) = match self.pop_binary_operands("subtract") {
                    Ok(operands) => operands,
                    Err(error) => {
                        return Err(error);
                    },
                };
                match lhs.checked_sub(rhs) {
                    Some(value) => self.stack.push(value),
                    None => {
                        return Err(VmError::IntegerOverflow { operation: "subtract" });
                    },
                }
            },
            Instruction::Mul => {
                let (lhs, rhs) = match self.pop_binary_operands("multiply") {
                    Ok(operands) => operands,
                    Err(error) => {
                        return Err(error);
                    },
                };
                match lhs.checked_mul(rhs) {
                    Some(value) => self.stack.push(value),
                    None => {
                        return Err(VmError::IntegerOverflow { operation: "multiply" });
                    },
                }
            },
            Instruction::Div => {
                let (lhs, rhs) = match self.pop_binary_operands("divide") {
                    Ok(operands) => operands,
                    Err(error) => {
                        return Err(error);
                    },
                };
                if rhs == 0 {
                    return Err(VmError::DivisionByZero);
                }
                match checked_quotient(lhs, rhs) {
                    Some(value) => self.stack.push(value),
                    None => {
                        return Err(VmError::IntegerOverflow { operation: "divide" });
                    },
                }
            },
            Instruction::Dup => {
                let n: usize = self.stack.len();
                if n < 1 {
                    return Err(
                        VmError::StackUnderflow { operation: "duplicate", needed: 1, available: 0 },
                    );
                }
                let value: i32 = self.stack[n - 1];
                self.stack.push(value);
            },
            Instruction::Pop => {
                if self.stack.pop().is_none() {
                    return Err(
                        VmError::StackUnderflow { operation: "pop", needed: 1, available: 0 },
                    );
                }
                assert(self.stack@ =~= s.stack.take(s.stack.len() - 1));
            },
            Instruction::Swap => {
                let n: usize = self.stack.len();
                if n < 2 {
                    return Err(
                        VmError::StackUnderflow { operation: "swap", needed: 2, available: n },
                    );
                }
                let top: i32 = self.stack[n - 1];
                let second: i32 = self.stack[n - 2];
                self.stack.set(n - 1, second);
                self.stack.set(n - 2, top);
                assert(self.stack@ =~= s.stack.take(n - 2).push(top).push(second));
            },
            Instruction::Over => {
                let n: usize = self.stack.len();
                if n < 2 {
                    return Err(
                        VmError::StackUnderflow { operation: "over", needed: 2, available: n },
                    );
                }
                let value: i32 = self.stack[n - 2];
                self.stack.push(value);
            },
            Instruction::Eq => {
                let (lhs, rhs) = match self.pop_binary_operands("equal") {
                    Ok(operands) => operands,
                    Err(error) => {
                        return Err(error);
                    },
                };
                let value: i32 = if lhs == rhs {
                    1
                } else {
                    0
                };
                self.stack.push(value);
            },
            Instruction::Lt => {
                let (lhs, rhs) = match self.pop_binary_operands("less-than") {
                    Ok(operands) => operands,
                    Err(error) => {
                        return Err(error);
                    },
                };
                let value: i32 = if lhs < rhs {
                    1
                } else {
                    0
                };
                self.stack.push(value);
            },
            Instruction::Neg => {
                let value: i32 = match self.stack.pop() {
                    Some(value) => value,
                    None => {
                        return Err(
                            VmError::StackUnderflow {
                                operation: "negate",
                                needed: 1,
                                available: 0,
                            },
                        );
                    },
                };
                assert(self.stack@ =~= s.stack.take(s.stack.len() - 1));
                if value == i32::MIN {
                    return Err(VmError::IntegerOverflow { operation: "negate" });
                }
                self.stack.push(-value);
            },
            Instruction::Not => {
                let value: i32 = match self.stack.pop() {
                    Some(value) => value,
                    None => {
                        return Err(
                            VmError::StackUnderflow { operation: "not", needed: 1, available: 0 },
                        );
                    },
                };
                assert(self.stack@ =~= s.stack.take(s.stack.len() - 1));
                let negated: i32 = if value == 0 {
                    1
                } else {
                    0
                };
                self.stack.push(negated);
            },
            Instruction::Jmp(target) => {
                if target >= length {
                    return Err(VmError::InvalidJump { target });
                }
                self.instruction_pointer = target;
            },
            Instruction::Jz(target) => {
                if target >= length {
                    return Err(VmError::InvalidJump { target });
                }
                let condition: i32 = match self.stack.pop() {
                    Some(value) => value,
                    None => {
                        return Err(
                            VmError::StackUnderflow {
                                operation: "jump-if-zero",
                                needed: 1,
                                available: 0,
                            },
                        );
                    },
                };
                assert(self.stack@ =~= s.stack.take(s.stack.len() - 1));
                if condition == 0 {
                    self.instruction_pointer = target;
                }
            },
            Instruction::Halt => {
                let n: usize = self.stack.len();
                if n < 1 {
                    return Err(VmError::EmptyStack);
                }
                let result: i32 = self.stack[n - 1];
                self.halted = true;
                return Ok(StepResult::Halted { result });
            },
        }
        Ok(StepResult::Executed { instruction })
    }

    /// Inspect the current value stack.
    pub fn stack(&self) -> (r: &[i32])
        ensures
            r@ == self@.stack,
    {
        self.stack.as_slice()
    }

    /// Return the index of the next instruction to execute.
    pub fn instruction_pointer(&self) -> (r: usize)
        ensures
            r == self@.instruction_pointer,
    {
        self.instruction_pointer
    }

    /// Return whether the VM has executed `Halt`.
    pub fn is_halted(&self) -> (r: bool)
        ensures
            r == self@.halted,
    {
        self.halted
    }

    fn pop_binary_operands(&mut self, operation: &'static str) -> (r: Result<(i32, i32), VmError>)
        ensures
            final(self)@.instruction_pointer == old(self)@.instruction_pointer,
            final(self)@.halted == old(self)@.halted,
            ({
                let n = old(self)@.stack.len();
                match r {
                    Ok((lhs, rhs)) => {
                        &&& n >= 2
                        &&& final(self)@.stack == old(self)@.stack.take(n - 2)
                        &&& lhs == old(self)@.stack[n - 2]
                        &&& rhs == old(self)@.stack[n - 1]
                    },
                    Err(error) => {
                        &&& n < 2
                        &&& final(self)@ == old(self)@
                        &&& error == underflow(operation, 2, n)
                    },
                }
            }),
    {
        let n: usize = self.stack.len();
        if n < 2 {
            return Err(VmError::StackUnderflow { operation, needed: 2, available: n });
        }
        let rhs: i32 = self.stack[n - 1];
        let lhs: i32 = self.stack[n - 2];
        self.stack.truncate(n - 2);
        assert(self.stack@ =~= old(self)@.stack.take(n - 2));
        Ok((lhs, rhs))
    }
}

/// The quotient of `lhs` and `rhs`, truncated toward zero, when it fits.
fn checked_quotient(lhs: i32, rhs: i32) -> (r: Option<i32>)
    requires
        rhs != 0,
    ensures
        match r {
            Some(value) => value == truncated_quotient(lhs as int, rhs as int),
            None => !fits(truncated_quotient(lhs as int, rhs as int)),
        },
{
    let negative = (lhs < 0) != (rhs < 0);
    let l: u64 = if lhs < 0 {
        (-(lhs as i64)) as u64
    } else {
        lhs as u64
    };
    let r: u64 = if rhs < 0 {
        (-(rhs as i64)) as u64
    } else {
        rhs as u64
    };
    let magnitude: u64 = l / r;
    assert(magnitude <= l) by (nonlinear_arith)
        requires
            magnitude == l / r,
            r >= 1,
    ;
    proof {
        if rhs < 0 {
            assert((l as int) / (rhs as int) == -((l as int) / (r as int))) by (nonlinear_arith)
                requires
                    rhs < 0,
                    r == -rhs,
                    l >= 0,
            ;
        }
    }
    let value: i64 = if negative {
        -(magnitude as i64)
    } else {
        magnitude as i64
    };
    if i32::MIN as i64 <= value && value <= i32::MAX as i64 {
        Some(value as i32)
    } else {
        None
    }
}


/// A trace and a run of the same program agree: they leave the same state and fail alike, and the
/// last record of a trace holds the result of the run.
pub proof fn law_trace_agrees_with_run(program: Seq<Instruction>, s: VmState, fuel: nat)
    ensures
        trace_from(program, s, fuel).0 == run_from(program, s, fuel).0,
        match (trace_from(program, s, fuel).1, run_from(program, s, fuel).1) {
            (Ok(entries), Ok(result)) => entries.len() > 0 && entries.last().result == Some(result),
            (Err(a), Err(b)) => a == b,
            _ => false,
        },
    decreases fuel,
{
    if fuel > 0 {
        if let (next, Ok(StepResult::Executed { instruction })) = step_of(program, s) {
            law_trace_agrees_with_run(program, next, (fuel - 1) as nat);
            if let Ok(rest) = trace_from(program, next, (fuel - 1) as nat).1 {
                let entry = trace_entry(s, next, StepResult::Executed { instruction });
                assert((seq![entry] + rest).last() == rest.last());
            }
        }
    }
}

/// A machine that has halted refuses every further step and stays as it is.
pub proof fn law_halted_machines_stay_halted(program: Seq<Instruction>, s: VmState)
    requires
        s.halted,
    ensures
        step_of(program, s) == (s, Err::<StepResult, VmError>(VmError::AlreadyHalted)),
{
}

// ---------------------------------------------------------------------------
// What the instructions do
// ---------------------------------------------------------------------------

/// Whether the machine is about to execute `instruction`.
pub open spec fn about_to(program: Seq<Instruction>, s: VmState, instruction: Instruction) -> bool {
    &&& !s.halted
    &&& 0 <= s.instruction_pointer < program.len()
    &&& program[s.instruction_pointer] == instruction
}

/// Whether a step went on to the next instruction with this stack.
pub open spec fn went_on(
    s: VmState,
    outcome: StepOutcome,
    instruction: Instruction,
    stack: Seq<i32>,
) -> bool {
    &&& outcome.1 == Ok::<StepResult, VmError>(StepResult::Executed { instruction })
    &&& outcome.0.stack == stack
    &&& outcome.0.instruction_pointer == s.instruction_pointer + 1
    &&& !outcome.0.halted
}

/// `PUSH` puts its value on top of the stack, `POP` takes it away again, and `DUP` puts it there a
/// second time.
pub proof fn law_values_are_pushed_and_popped(
    program: Seq<Instruction>,
    s: VmState,
    rest: Seq<i32>,
    value: i32,
)
    ensures
        about_to(program, s, Instruction::Push(value)) ==> went_on(
            s,
            step_of(program, s),
            Instruction::Push(value),
            s.stack.push(value),
        ),
        about_to(program, s, Instruction::Pop) && s.stack == rest.push(value) ==> went_on(
            s,
            step_of(program, s),
            Instruction::Pop,
            rest,
        ),
        about_to(program, s, Instruction::Dup) && s.stack == rest.push(value) ==> went_on(
            s,
            step_of(program, s),
            Instruction::Dup,
            rest.push(value).push(value),
        ),
{
    assert(rest.push(value).take(rest.len() as int) =~= rest);
}

/// `SWAP` exchanges the two values on top of the stack, and `OVER` puts the lower one on top again.
pub proof fn law_values_change_places(
    program: Seq<Instruction>,
    s: VmState,
    rest: Seq<i32>,
    lower: i32,
    upper: i32,
)
    requires
        s.stack == rest.push(lower).push(upper),
    ensures
        about_to(program, s, Instruction::Swap) ==> went_on(
            s,
            step_of(program, s),
            Instruction::Swap,
            rest.push(upper).push(lower),
        ),
        about_to(program, s, Instruction::Over) ==> went_on(
            s,
            step_of(program, s),
            Instruction::Over,
            rest.push(lower).push(upper).push(lower),
        ),
{
    assert(s.stack.take(s.stack.len() - 2) =~= rest);
}

/// Whether a step put a value in the place of the two on top, or failed and only took them away.
pub open spec fn combined(
    s: VmState,
    outcome: StepOutcome,
    instruction: Instruction,
    rest: Seq<i32>,
    value: int,
    operation: &'static str,
) -> bool {
    if -0x8000_0000 <= value <= 0x7fff_ffff {
        went_on(s, outcome, instruction, rest.push(value as i32))
    } else {
        &&& outcome.1 == Err::<StepResult, VmError>(VmError::IntegerOverflow { operation })
        &&& outcome.0.stack == rest
        &&& !outcome.0.halted
    }
}

/// `ADD`, `SUB` and `MUL` put the sum, the difference and the product of the two values on top in
/// their place: the sum less one of them is the other, and the difference and the value above give
/// the value below. A result beyond the range of the values is an overflow.
pub proof fn law_sums_differences_and_products(
    program: Seq<Instruction>,
    s: VmState,
    rest: Seq<i32>,
    lhs: i32,
    rhs: i32,
    value: int,
)
    requires
        s.stack == rest.push(lhs).push(rhs),
    ensures
        about_to(program, s, Instruction::Add) && value - rhs == lhs ==> combined(
            s,
            step_of(program, s),
            Instruction::Add,
            rest,
            value,
            "add",
        ),
        about_to(program, s, Instruction::Sub) && value + rhs == lhs ==> combined(
            s,
            step_of(program, s),
            Instruction::Sub,
            rest,
            value,
            "subtract",
        ),
        about_to(program, s, Instruction::Mul) && value == lhs * rhs ==> combined(
            s,
            step_of(program, s),
            Instruction::Mul,
            rest,
            value,
            "multiply",
        ),
{
    assert(s.stack.take(s.stack.len() - 2) =~= rest);
}

/// Whether dividing `lhs` by `rhs` gives `quotient` and leaves `remainder`: the remainder is smaller
/// than the divisor and has the sign of the dividend.
pub open spec fn divides(lhs: int, rhs: int, quotient: int, remainder: int) -> bool {
    &&& quotient * rhs + remainder == lhs
    &&& -rhs < remainder < rhs || rhs < remainder < -rhs
    &&& lhs >= 0 ==> remainder >= 0
    &&& lhs <= 0 ==> remainder <= 0
}

proof fn lemma_quotient(lhs: int, rhs: int, quotient: int, remainder: int)
    requires
        rhs != 0,
        divides(lhs, rhs, quotient, remainder),
    ensures
        truncated_quotient(lhs, rhs) == quotient,
{
    let l = if lhs >= 0 {
        lhs
    } else {
        -lhs
    };
    let r = if lhs >= 0 {
        remainder
    } else {
        -remainder
    };
    let q = if lhs >= 0 {
        quotient
    } else {
        -quotient
    };
    assert(q * rhs + r == l) by (nonlinear_arith)
        requires
            quotient * rhs + remainder == lhs,
            q == quotient && r == remainder && l == lhs || q == -quotient && r == -remainder && l
                == -lhs,
    ;
    if rhs > 0 {
        vstd::arithmetic::div_mod::lemma_fundamental_div_mod_converse(l, rhs, q, r);
    } else {
        assert(l / rhs == q) by (nonlinear_arith)
            requires
                rhs < 0,
                0 <= r < -rhs,
                q * rhs + r == l,
        ;
    }
}

/// `DIV` puts the quotient of the two values on top in their place, rounded toward zero. Nothing is
/// divided by zero, and a quotient beyond the range of the values is an overflow.
pub proof fn law_quotients(
    program: Seq<Instruction>,
    s: VmState,
    rest: Seq<i32>,
    lhs: i32,
    rhs: i32,
    quotient: int,
    remainder: int,
)
    requires
        s.stack == rest.push(lhs).push(rhs),
        about_to(program, s, Instruction::Div),
    ensures
        rhs != 0 && divides(lhs as int, rhs as int, quotient, remainder) ==> combined(
            s,
            step_of(program, s),
            Instruction::Div,
            rest,
            quotient,
            "divide",
        ),
        rhs == 0 ==> step_of(program, s).1 == Err::<StepResult, VmError>(VmError::DivisionByZero)
            && step_of(program, s).0.stack == rest,
{
    assert(s.stack.take(s.stack.len() - 2) =~= rest);
    if rhs != 0 && divides(lhs as int, rhs as int, quotient, remainder) {
        lemma_quotient(lhs as int, rhs as int, quotient, remainder);
    }
}

/// `EQ` and `LT` put 1 in the place of the two values on top where the lower equals or is less than
/// the upper, and 0 otherwise.
pub proof fn law_comparisons(
    program: Seq<Instruction>,
    s: VmState,
    rest: Seq<i32>,
    lhs: i32,
    rhs: i32,
)
    requires
        s.stack == rest.push(lhs).push(rhs),
    ensures
        about_to(program, s, Instruction::Eq) ==> went_on(
            s,
            step_of(program, s),
            Instruction::Eq,
            rest.push(
                if lhs == rhs {
                    1
                } else {
                    0
                },
            ),
        ),
        about_to(program, s, Instruction::Lt) ==> went_on(
            s,
            step_of(program, s),
            Instruction::Lt,
            rest.push(
                if lhs < rhs {
                    1
                } else {
                    0
                },
            ),
        ),
{
    assert(s.stack.take(s.stack.len() - 2) =~= rest);
}

/// `NEG` puts the number that cancels the value on top in its place, and `NOT` puts 1 there for 0
/// and 0 for all else.
pub proof fn law_negations(
    program: Seq<Instruction>,
    s: VmState,
    rest: Seq<i32>,
    value: i32,
    negated: int,
)
    requires
        s.stack == rest.push(value),
    ensures
        about_to(program, s, Instruction::Neg) && value + negated == 0 ==> combined(
            s,
            step_of(program, s),
            Instruction::Neg,
            rest,
            negated,
            "negate",
        ),
        about_to(program, s, Instruction::Not) ==> went_on(
            s,
            step_of(program, s),
            Instruction::Not,
            rest.push(
                if value == 0 {
                    1
                } else {
                    0
                },
            ),
        ),
{
    assert(s.stack.take(s.stack.len() - 1) =~= rest);
}

/// `JMP` goes to its target and leaves the stack alone; `JZ` takes the value on top away, and goes
/// to its target where that is 0 and on to the next instruction otherwise.
pub proof fn law_jumps(
    program: Seq<Instruction>,
    s: VmState,
    rest: Seq<i32>,
    value: i32,
    target: usize,
)
    requires
        target < program.len(),
    ensures
        about_to(program, s, Instruction::Jmp(target)) ==> step_of(program, s) == (
            VmState { instruction_pointer: target as int, ..s },
            Ok::<StepResult, VmError>(
                StepResult::Executed { instruction: Instruction::Jmp(target) },
            ),
        ),
        about_to(program, s, Instruction::Jz(target)) && s.stack == rest.push(value) ==> step_of(
            program,
            s,
        ) == (
            VmState {
                stack: rest,
                instruction_pointer: if value == 0 {
                    target as int
                } else {
                    s.instruction_pointer + 1
                },
                halted: false,
            },
            Ok::<StepResult, VmError>(StepResult::Executed { instruction: Instruction::Jz(target) }),
        ),
{
    assert(rest.push(value).take(rest.len() as int) =~= rest);
}

/// A jump out of the program fails and changes nothing but the place in the program.
pub proof fn law_jumps_stay_in_the_program(program: Seq<Instruction>, s: VmState, target: usize)
    requires
        target >= program.len(),
        about_to(program, s, Instruction::Jmp(target)) || about_to(
            program,
            s,
            Instruction::Jz(target),
        ),
    ensures
        step_of(program, s).1 == Err::<StepResult, VmError>(VmError::InvalidJump { target }),
        step_of(program, s).0.stack == s.stack,
{
}

/// `HALT` stops the machine with the value on top as its result, which stays on the stack. Without
/// a value there is no result, and past the end of the program there is nothing to execute.
pub proof fn law_halting(program: Seq<Instruction>, s: VmState, rest: Seq<i32>, value: i32)
    ensures
        about_to(program, s, Instruction::Halt) && s.stack == rest.push(value) ==> {
            let (next, outcome) = step_of(program, s);
            &&& outcome == Ok::<StepResult, VmError>(StepResult::Halted { result: value })
            &&& next.halted
            &&& next.stack == s.stack
        },
        about_to(program, s, Instruction::Halt) && s.stack.len() == 0 ==> step_of(program, s).1
            == Err::<StepResult, VmError>(VmError::EmptyStack) && !step_of(program, s).0.halted,
        !s.halted && s.instruction_pointer == program.len() ==> step_of(program, s) == (
            s,
            Err::<StepResult, VmError>(VmError::MissingHalt),
        ),
{
}

/// How many values an instruction needs on the stack.
pub open spec fn needs(instruction: Instruction) -> nat {
    match instruction {
        Instruction::Push(_) | Instruction::Jmp(_) | Instruction::Halt => 0,
        Instruction::Dup
        | Instruction::Pop
        | Instruction::Neg
        | Instruction::Not
        | Instruction::Jz(_) => 1,
        _ => 2,
    }
}

/// An instruction that finds too few values on the stack says how many it needs and how many there
/// are, and leaves the stack alone.
pub proof fn law_missing_values(program: Seq<Instruction>, s: VmState, instruction: Instruction)
    requires
        about_to(program, s, instruction),
        s.stack.len() < needs(instruction),
        instruction matches Instruction::Jz(target) ==> target < program.len(),
    ensures
        step_of(program, s).0.stack == s.stack,
        step_of(program, s).1 matches Err(VmError::StackUnderflow { operation: _, needed, available })
            && needed == needs(instruction) && available == s.stack.len(),
{
}

/// A run ends with the value that stands on top of the stack when the machine halts, and it halts
/// at a `HALT`. A run that does not come to its end within its steps says how many it may have.
pub proof fn law_runs_end_at_a_halt(program: Seq<Instruction>, s: VmState, fuel: nat)
    requires
        !s.halted,
    ensures
        ({
            let (end, result) = run_from(program, s, fuel);
            match result {
                Ok(value) => {
                    &&& end.halted
                    &&& end.stack.len() > 0
                    &&& end.stack.last() == value
                    &&& 0 < end.instruction_pointer <= program.len()
                    &&& program[end.instruction_pointer - 1] is Halt
                },
                Err(VmError::StepLimitExceeded { limit }) => limit == 1_000_000 && !end.halted,
                Err(_) => !end.halted,
            }
        }),
    decreases fuel,
{
    if fuel > 0 {
        if let (next, Ok(StepResult::Executed { .. })) = step_of(program, s) {
            law_runs_end_at_a_halt(program, next, (fuel - 1) as nat);
        }
    }
}

/// A run goes on after each instruction from where that leaves the machine, and ends with the first
/// that halts or fails.
pub proof fn law_runs_go_step_by_step(program: Seq<Instruction>, s: VmState, fuel: nat)
    ensures
        match step_of(program, s) {
            (next, Ok(StepResult::Executed { .. })) => run_from(program, s, fuel + 1) == run_from(
                program,
                next,
                fuel,
            ),
            (next, Ok(StepResult::Halted { result })) => run_from(program, s, fuel + 1) == (
                next,
                Ok::<i32, VmError>(result),
            ),
            (next, Err(error)) => run_from(program, s, fuel + 1) == (next, Err::<i32, VmError>(error)),
        },
        run_from(program, s, 0).1 is Err,
        run_from(program, s, 0).0 == s,
{
}

/// The records of a trace are the steps of the machine, one after the other: each names the
/// instruction at its place, and holds the stack that the instruction made of the one before. Only
/// the last has a result.
pub proof fn law_traces_record_each_step(program: Seq<Instruction>, s: VmState, fuel: nat, i: int)
    requires
        trace_from(program, s, fuel).1 is Ok,
        !s.halted,
    ensures
        ({
            let entries = trace_from(program, s, fuel).1->Ok_0;
            &&& 0 < entries.len() <= fuel
            &&& entries[0].instruction_pointer == s.instruction_pointer
            &&& 0 <= i < entries.len() ==> {
                let before = VmState {
                    stack: if i == 0 {
                        s.stack
                    } else {
                        entries[i - 1].stack
                    },
                    instruction_pointer: entries[i].instruction_pointer,
                    halted: false,
                };
                let (after, outcome) = step_of(program, before);
                &&& 0 <= entries[i].instruction_pointer < program.len()
                &&& entries[i].instruction == program[entries[i].instruction_pointer]
                &&& entries[i].stack == after.stack
                &&& entries[i].result is Some <==> i == entries.len() - 1
                &&& match entries[i].result {
                    Some(result) => outcome == Ok::<StepResult, VmError>(
                        StepResult::Halted { result },
                    ),
                    None => outcome is Ok && entries[i + 1].instruction_pointer
                        == after.instruction_pointer,
                }
            }
        }),
    decreases fuel,
{
    if fuel > 0 {
        if let (next, Ok(StepResult::Executed { instruction })) = step_of(program, s) {
            law_traces_record_each_step(program, next, (fuel - 1) as nat, i - 1);
            let rest = trace_from(program, next, (fuel - 1) as nat).1->Ok_0;
            let entries = trace_from(program, s, fuel).1->Ok_0;
            if 0 < i < entries.len() {
                assert(entries[i] == rest[i - 1]);
                if i > 1 {
                    assert(entries[i - 1] == rest[i - 2]);
                }
                if i + 1 < entries.len() {
                    assert(entries[i + 1] == rest[i]);
                }
            }
            if i == 0 {
                assert(entries[1] == rest[0]);
            }
        }
    }
}

/// A machine can be used again: what a run or a trace gives does not depend on what was executed
/// before, and neither takes more than its steps. A step goes by the machine as it stands.
pub proof fn law_machines_can_be_used_again()
    ensures
        forall|vm: &mut Vm, program: &[Instruction], r: Result<i32, VmError>| #[trigger]
            call_ensures(Vm::run, (vm, program), r) ==> ((*final(vm))@, r) == run_from(
                program@,
                VmState { stack: Seq::empty(), instruction_pointer: 0, halted: false },
                1_000_000,
            ),
        forall|vm: &mut Vm, program: &Program, r: Result<i32, VmError>| #[trigger]
            call_ensures(Vm::run_program, (vm, program), r) ==> ((*final(vm))@, r) == run_from(
                program@,
                VmState { stack: Seq::empty(), instruction_pointer: 0, halted: false },
                1_000_000,
            ),
        forall|vm: &mut Vm, program: &Program, r: Result<Vec<TraceEntry>, VmError>| #[trigger]
            call_ensures(Vm::trace, (vm, program), r) ==> {
                let (end, traced) = trace_from(
                    program@,
                    VmState { stack: Seq::empty(), instruction_pointer: 0, halted: false },
                    1_000_000,
                );
                &&& (*final(vm))@ == end
                &&& match r {
                    Err(error) => traced == Err::<Seq<TraceModel>, VmError>(error),
                    Ok(entries) => traced matches Ok(models) && models.len() == entries@.len()
                        && forall|i: int|
                        #![trigger models[i]]
                        0 <= i < models.len() ==> {
                            &&& models[i].instruction_pointer == entries@[i].instruction_pointer
                            &&& models[i].instruction == entries@[i].instruction
                            &&& models[i].stack == entries@[i].stack@
                            &&& models[i].result == entries@[i].result
                        },
                }
            },
        forall|vm: &mut Vm, program: &[Instruction], r: Result<StepResult, VmError>| #[trigger]
            call_ensures(Vm::step, (vm, program), r) ==> ((*final(vm))@, r) == step_of(
                program@,
                (*vm)@,
            ),
{
}

} // verus!
