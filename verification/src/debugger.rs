//! The machine behind a boundary of plain integers: a debugger that a host drives by codes.

use vstd::prelude::*;

use crate::machine::{Instruction, StepResult, Vm, VmError};
#[allow(unused_imports)]
use crate::machine::{
    MAX_VM_STEPS, VmState, divides, initial_state, law_halting, law_quotients,
    law_runs_go_step_by_step, law_sums_differences_and_products, law_values_are_pushed_and_popped,
    run_from, step_of,
};
use crate::program::{MAX_PROGRAM_INSTRUCTIONS, Program};
#[allow(unused_imports)]
use crate::program::valid_program;

verus! {

/// The program of the demonstration.
pub open spec fn demo_program() -> Seq<Instruction> {
    seq![
        Instruction::Push(2),
        Instruction::Push(3),
        Instruction::Push(4),
        Instruction::Mul,
        Instruction::Add,
        Instruction::Halt,
    ]
}

/// Runs the program of the demonstration.
pub fn run_demo() -> (r: Result<i32, VmError>)
    ensures
        r == run_from(demo_program(), initial_state(), MAX_VM_STEPS as nat).1,
{
    let program = vec![
        Instruction::Push(2),
        Instruction::Push(3),
        Instruction::Push(4),
        Instruction::Mul,
        Instruction::Add,
        Instruction::Halt,
    ];
    assert(program@ =~= demo_program());
    let mut vm = Vm::new();
    vm.run(program.as_slice())
}

/// The instruction for a binary operation: add, subtract, multiply and divide, from zero on.
pub open spec fn operation_of(operation: i32) -> Option<Instruction> {
    if operation == 0 {
        Some(Instruction::Add)
    } else if operation == 1 {
        Some(Instruction::Sub)
    } else if operation == 2 {
        Some(Instruction::Mul)
    } else if operation == 3 {
        Some(Instruction::Div)
    } else {
        None
    }
}

fn decode_operation(operation: i32) -> (r: Option<Instruction>)
    ensures
        r == operation_of(operation),
{
    if operation == 0 {
        Some(Instruction::Add)
    } else if operation == 1 {
        Some(Instruction::Sub)
    } else if operation == 2 {
        Some(Instruction::Mul)
    } else if operation == 3 {
        Some(Instruction::Div)
    } else {
        None
    }
}

/// The program for a binary operation on two values.
pub open spec fn binary_program(lhs: i32, rhs: i32, instruction: Instruction) -> Seq<Instruction> {
    seq![Instruction::Push(lhs), Instruction::Push(rhs), instruction, Instruction::Halt]
}

fn assemble_binary(lhs: i32, rhs: i32, instruction: Instruction) -> (r: Vec<Instruction>)
    ensures
        r@ == binary_program(lhs, rhs, instruction),
{
    let r = vec![
        Instruction::Push(lhs),
        Instruction::Push(rhs),
        instruction,
        Instruction::Halt,
    ];
    assert(r@ =~= binary_program(lhs, rhs, instruction));
    r
}

/// Runs one binary operation; `None` where there is no such operation.
pub fn run_binary(lhs: i32, rhs: i32, operation: i32) -> (r: Option<Result<i32, VmError>>)
    ensures
        r == (match operation_of(operation) {
            None => None,
            Some(instruction) => Some(
                run_from(
                    binary_program(lhs, rhs, instruction),
                    initial_state(),
                    MAX_VM_STEPS as nat,
                ).1,
            ),
        }),
{
    match decode_operation(operation) {
        None => None,
        Some(instruction) => {
            let program = assemble_binary(lhs, rhs, instruction);
            let mut vm = Vm::new();
            Some(vm.run(program.as_slice()))
        },
    }
}

/// A program that is stepped through.
#[derive(Debug)]
struct DebugSession {
    program: Vec<Instruction>,
    vm: Vm,
}

/// What a session of the debugger holds.
#[verifier::ext_equal]
pub struct DebugState {
    pub program: Seq<Instruction>,
    pub vm: VmState,
}

/// A debugger: the session that is stepped through, and the program that is being put together.
#[derive(Debug)]
pub struct Debugger {
    session: Option<DebugSession>,
    builder: Vec<Instruction>,
}

/// What a [`Debugger`] holds.
#[verifier::ext_equal]
pub struct DebuggerModel {
    pub session: Option<DebugState>,
    pub builder: Seq<Instruction>,
}

impl View for Debugger {
    type V = DebuggerModel;

    closed spec fn view(&self) -> DebuggerModel {
        DebuggerModel {
            session: match self.session {
                Some(session) => Some(
                    DebugState { program: session.program@, vm: session.vm@ },
                ),
                None => None,
            },
            builder: self.builder@,
        }
    }
}

/// The code for an error of the machine.
pub open spec fn error_code(error: VmError) -> int {
    match error {
        VmError::MissingHalt => -2,
        VmError::StackUnderflow { .. } => -3,
        VmError::DivisionByZero => -4,
        VmError::IntegerOverflow { .. } => -5,
        VmError::EmptyStack => -6,
        VmError::AlreadyHalted => -7,
        VmError::InvalidJump { .. } => -10,
        VmError::StepLimitExceeded { .. } => -11,
    }
}

fn debug_error_code(error: VmError) -> (r: i32)
    ensures
        r == error_code(error),
{
    match error {
        VmError::MissingHalt => -2,
        VmError::StackUnderflow { .. } => -3,
        VmError::DivisionByZero => -4,
        VmError::IntegerOverflow { .. } => -5,
        VmError::EmptyStack => -6,
        VmError::AlreadyHalted => -7,
        VmError::InvalidJump { .. } => -10,
        VmError::StepLimitExceeded { .. } => -11,
    }
}

/// The instruction for a code, or the code of the error: `-8` where there is no such instruction,
/// `-10` where a jump has no target.
pub open spec fn instruction_coded(opcode: i32, operand: i32) -> Result<Instruction, int> {
    if opcode == 0 {
        Ok(Instruction::Push(operand))
    } else if opcode == 1 {
        Ok(Instruction::Add)
    } else if opcode == 2 {
        Ok(Instruction::Sub)
    } else if opcode == 3 {
        Ok(Instruction::Mul)
    } else if opcode == 4 {
        Ok(Instruction::Div)
    } else if opcode == 5 {
        Ok(Instruction::Halt)
    } else if opcode == 6 {
        Ok(Instruction::Dup)
    } else if opcode == 7 {
        Ok(Instruction::Pop)
    } else if opcode == 8 {
        Ok(Instruction::Eq)
    } else if opcode == 9 {
        Ok(Instruction::Lt)
    } else if opcode == 10 {
        if operand < 0 {
            Err(-10)
        } else {
            Ok(Instruction::Jmp(operand as usize))
        }
    } else if opcode == 11 {
        if operand < 0 {
            Err(-10)
        } else {
            Ok(Instruction::Jz(operand as usize))
        }
    } else if opcode == 12 {
        Ok(Instruction::Swap)
    } else if opcode == 13 {
        Ok(Instruction::Over)
    } else if opcode == 14 {
        Ok(Instruction::Neg)
    } else if opcode == 15 {
        Ok(Instruction::Not)
    } else {
        Err(-8)
    }
}

fn decode_instruction(opcode: i32, operand: i32) -> (r: Result<Instruction, i32>)
    ensures
        match r {
            Ok(instruction) => instruction_coded(opcode, operand) == Ok::<Instruction, int>(
                instruction,
            ),
            Err(code) => instruction_coded(opcode, operand) == Err::<Instruction, int>(
                code as int,
            ),
        },
{
    match opcode {
        0 => Ok(Instruction::Push(operand)),
        1 => Ok(Instruction::Add),
        2 => Ok(Instruction::Sub),
        3 => Ok(Instruction::Mul),
        4 => Ok(Instruction::Div),
        5 => Ok(Instruction::Halt),
        6 => Ok(Instruction::Dup),
        7 => Ok(Instruction::Pop),
        8 => Ok(Instruction::Eq),
        9 => Ok(Instruction::Lt),
        10 => if operand < 0 {
            Err(-10)
        } else {
            Ok(Instruction::Jmp(operand as usize))
        },
        11 => if operand < 0 {
            Err(-10)
        } else {
            Ok(Instruction::Jz(operand as usize))
        },
        12 => Ok(Instruction::Swap),
        13 => Ok(Instruction::Over),
        14 => Ok(Instruction::Neg),
        15 => Ok(Instruction::Not),
        _ => Err(-8),
    }
}

impl Debugger {
    pub fn new() -> (r: Self)
        ensures
            r@ == (DebuggerModel { session: None, builder: Seq::empty() }),
    {
        Debugger { session: None, builder: Vec::new() }
    }

    /// Load a binary program into the debugger session.
    pub fn debug_load_binary(&mut self, lhs: i32, rhs: i32, operation: i32) -> (r: i32)
        ensures
            match operation_of(operation) {
                None => r == -8 && final(self)@ == old(self)@,
                Some(instruction) => r == 0 && final(self)@ == (DebuggerModel {
                    session: Some(
                        DebugState {
                            program: binary_program(lhs, rhs, instruction),
                            vm: initial_state(),
                        },
                    ),
                    ..old(self)@
                }),
            },
    {
        match decode_operation(operation) {
            None => -8,
            Some(instruction) => {
                self.session = Some(
                    DebugSession {
                        program: assemble_binary(lhs, rhs, instruction),
                        vm: Vm::new(),
                    },
                );
                0
            },
        }
    }

    /// Begin loading an arbitrary program.
    pub fn debug_program_begin(&mut self)
        ensures
            final(self)@ == (DebuggerModel { builder: Seq::empty(), ..old(self)@ }),
    {
        self.builder = Vec::new();
    }

    /// Append an instruction. A program has only so many.
    pub fn debug_program_push(&mut self, opcode: i32, operand: i32) -> (r: i32)
        ensures
            match instruction_coded(opcode, operand) {
                Err(code) => r == code && final(self)@ == old(self)@,
                Ok(instruction) => if old(self)@.builder.len() >= MAX_PROGRAM_INSTRUCTIONS {
                    r == -9 && final(self)@ == old(self)@
                } else {
                    r == 0 && final(self)@ == (DebuggerModel {
                        builder: old(self)@.builder.push(instruction),
                        ..old(self)@
                    })
                },
            },
    {
        match decode_instruction(opcode, operand) {
            Err(code) => code,
            Ok(instruction) => {
                if self.builder.len() >= MAX_PROGRAM_INSTRUCTIONS {
                    return -9;
                }
                self.builder.push(instruction);
                0
            },
        }
    }

    /// Validate and install the program assembled with [`Debugger::debug_program_push`].
    pub fn debug_program_finish(&mut self) -> (r: i32)
        ensures
            if valid_program(old(self)@.builder) {
                r == 0 && final(self)@ == (DebuggerModel {
                    session: Some(
                        DebugState { program: old(self)@.builder, vm: initial_state() },
                    ),
                    ..old(self)@
                })
            } else {
                r == -9 && final(self)@ == old(self)@
            },
    {
        let instructions = self.builder.clone();
        assert(instructions@ =~= self.builder@);
        match Program::new(instructions) {
            Err(_) => -9,
            Ok(program) => {
                self.session = Some(
                    DebugSession { program: program.into_instructions(), vm: Vm::new() },
                );
                0
            },
        }
    }

    /// Execute one instruction in the debugger session.
    ///
    /// Returns `0` when execution can continue, `1` when the VM halted, and a
    /// negative value for an execution error.
    pub fn debug_step(&mut self) -> (r: i32)
        ensures
            match old(self)@.session {
                None => r == -1 && final(self)@ == old(self)@,
                Some(session) => {
                    let (vm, outcome) = step_of(session.program, session.vm);
                    &&& final(self)@ == (DebuggerModel {
                        session: Some(DebugState { vm, ..session }),
                        ..old(self)@
                    })
                    &&& r == (match outcome {
                        Ok(StepResult::Executed { .. }) => 0int,
                        Ok(StepResult::Halted { .. }) => 1int,
                        Err(error) => error_code(error),
                    })
                },
            },
    {
        match self.session.take() {
            None => -1,
            Some(session) => {
                let mut vm = session.vm;
                let outcome = vm.step(session.program.as_slice());
                self.session = Some(DebugSession { program: session.program, vm });
                match outcome {
                    Ok(StepResult::Executed { .. }) => 0,
                    Ok(StepResult::Halted { .. }) => 1,
                    Err(error) => debug_error_code(error),
                }
            },
        }
    }

    /// Reset the debugger session without unloading its program.
    pub fn debug_reset(&mut self) -> (r: i32)
        ensures
            match old(self)@.session {
                None => r == -1 && final(self)@ == old(self)@,
                Some(session) => r == 0 && final(self)@ == (DebuggerModel {
                    session: Some(DebugState { vm: initial_state(), ..session }),
                    ..old(self)@
                }),
            },
    {
        match self.session.take() {
            None => -1,
            Some(session) => {
                let mut vm = session.vm;
                vm.reset();
                self.session = Some(DebugSession { program: session.program, vm });
                0
            },
        }
    }

    /// The next instruction index in the debugger session, as a 32-bit number.
    pub fn debug_instruction_pointer(&self) -> (r: i32)
        ensures
            r == (match self@.session {
                None => -1,
                Some(session) => session.vm.instruction_pointer as usize as i32 as int,
            }),
    {
        match &self.session {
            None => -1,
            Some(session) => session.vm.instruction_pointer() as i32,
        }
    }

    /// The number of values on the debugger stack, as a 32-bit number.
    pub fn debug_stack_len(&self) -> (r: i32)
        ensures
            r == (match self@.session {
                None => -1,
                Some(session) => session.vm.stack.len() as usize as i32 as int,
            }),
    {
        match &self.session {
            None => -1,
            Some(session) => session.vm.stack().len() as i32,
        }
    }

    /// A value from the debugger stack by index; zero where there is none.
    pub fn debug_stack_at(&self, index: i32) -> (r: i32)
        ensures
            r == (match self@.session {
                Some(session) => if 0 <= index < session.vm.stack.len() {
                    session.vm.stack[index as int]
                } else {
                    0i32
                },
                None => 0i32,
            }),
    {
        if index < 0 {
            return 0;
        }
        match &self.session {
            None => 0,
            Some(session) => {
                let stack = session.vm.stack();
                let i: usize = index as usize;
                if i < stack.len() {
                    stack[i]
                } else {
                    0
                }
            },
        }
    }
}

impl Default for Debugger {
    fn default() -> (r: Self)
        ensures
            r@ == (DebuggerModel { session: None, builder: Seq::empty() }),
    {
        Debugger::new()
    }
}

// ---------------------------------------------------------------------------
// Laws
// ---------------------------------------------------------------------------

/// The operations 0 to 3 add, subtract, multiply and divide: the result less one operand of a sum is
/// the other, a difference and the second operand give the first, and a quotient and what is left
/// over give the first operand. There are no other operations.
pub proof fn law_binary_operations(
    lhs: i32,
    rhs: i32,
    operation: i32,
    value: int,
    remainder: int,
    r: Option<Result<i32, VmError>>,
)
    requires
        call_ensures(run_binary, (lhs, rhs, operation), r),
    ensures
        r is None <==> !(0 <= operation <= 3),
        -0x8000_0000 <= value <= 0x7fff_ffff && (operation == 0 && value - rhs == lhs || operation
            == 1 && value + rhs == lhs || operation == 2 && value == lhs * rhs || operation == 3
            && rhs != 0 && divides(lhs as int, rhs as int, value, remainder)) ==> r == Some(
            Ok::<i32, VmError>(value as i32),
        ),
        operation == 3 && rhs == 0 ==> r == Some(Err::<i32, VmError>(VmError::DivisionByZero)),
        !(-0x8000_0000 <= value <= 0x7fff_ffff) && (operation == 0 && value - rhs == lhs || operation
            == 1 && value + rhs == lhs || operation == 2 && value == lhs * rhs) ==> (
        r matches Some(Err(VmError::IntegerOverflow { .. }))),
{
    if 0 <= operation <= 3 {
        let instruction = operation_of(operation)->0;
        let p = binary_program(lhs, rhs, instruction);
        let none = Seq::<i32>::empty();
        let s0 = initial_state();
        law_values_are_pushed_and_popped(p, s0, none, lhs);
        let s1 = step_of(p, s0).0;
        law_values_are_pushed_and_popped(p, s1, none, rhs);
        let s2 = step_of(p, s1).0;
        assert(s2.stack =~= none.push(lhs).push(rhs));
        let fuel = (MAX_VM_STEPS - 4) as nat;
        law_runs_go_step_by_step(p, s0, fuel + 3);
        law_runs_go_step_by_step(p, s1, fuel + 2);
        law_runs_go_step_by_step(p, s2, fuel + 1);
        law_sums_differences_and_products(p, s2, none, lhs, rhs, value);
        if operation == 3 {
            law_quotients(p, s2, none, lhs, rhs, value, remainder);
        }
        let s3 = step_of(p, s2).0;
        if step_of(p, s2).1 is Ok && s3.stack == none.push(value as i32) {
            law_halting(p, s3, none, value as i32);
            law_runs_go_step_by_step(p, s3, fuel);
        }
    }
}

/// The opcodes of the debugger, each with its instruction; those of jumps and of `PUSH` take their
/// operand as it is.
pub proof fn law_opcodes(operand: i32)
    ensures
        instruction_coded(0, operand) == Ok::<Instruction, int>(Instruction::Push(operand)),
        instruction_coded(1, operand) == Ok::<Instruction, int>(Instruction::Add),
        instruction_coded(2, operand) == Ok::<Instruction, int>(Instruction::Sub),
        instruction_coded(3, operand) == Ok::<Instruction, int>(Instruction::Mul),
        instruction_coded(4, operand) == Ok::<Instruction, int>(Instruction::Div),
        instruction_coded(5, operand) == Ok::<Instruction, int>(Instruction::Halt),
        instruction_coded(6, operand) == Ok::<Instruction, int>(Instruction::Dup),
        instruction_coded(7, operand) == Ok::<Instruction, int>(Instruction::Pop),
        instruction_coded(8, operand) == Ok::<Instruction, int>(Instruction::Eq),
        instruction_coded(9, operand) == Ok::<Instruction, int>(Instruction::Lt),
        operand >= 0 ==> instruction_coded(10, operand) == Ok::<Instruction, int>(
            Instruction::Jmp(operand as usize),
        ),
        operand >= 0 ==> instruction_coded(11, operand) == Ok::<Instruction, int>(
            Instruction::Jz(operand as usize),
        ),
        operand < 0 ==> instruction_coded(10, operand) is Err && instruction_coded(11, operand) is Err,
        instruction_coded(12, operand) == Ok::<Instruction, int>(Instruction::Swap),
        instruction_coded(13, operand) == Ok::<Instruction, int>(Instruction::Over),
        instruction_coded(14, operand) == Ok::<Instruction, int>(Instruction::Neg),
        instruction_coded(15, operand) == Ok::<Instruction, int>(Instruction::Not),
        forall|opcode: i32| !(0 <= opcode <= 15) ==> #[trigger] instruction_coded(opcode, operand) is Err,
{
}

/// A step of the debugger is a step of its machine: 0 while it goes on, 1 when it has halted, and
/// below 0 when it fails. A reset goes back to the beginning of the same program, and looking at the
/// machine shows where it is and what is on its stack.
pub proof fn law_debuggers_step_their_program()
    ensures
        forall|d: &mut Debugger, r: i32| #[trigger] call_ensures(Debugger::debug_step, (d,), r) ==> (
        (*d)@.session matches Some(session) ==> {
            let (vm, outcome) = step_of(session.program, session.vm);
            &&& (*final(d))@.session matches Some(after) && after.program == session.program
                && after.vm == vm
            &&& r == 0 <==> (outcome matches Ok(StepResult::Executed { .. }))
            &&& r == 1 <==> (outcome matches Ok(StepResult::Halted { .. }))
            &&& r < 0 <==> outcome is Err
        }),
        forall|d: &mut Debugger, r: i32| #[trigger] call_ensures(Debugger::debug_reset, (d,), r) ==> (
        (*d)@.session matches Some(session) ==> r == 0 && (
        (*final(d))@.session matches Some(after) && after.program == session.program && after.vm
            == (VmState { stack: Seq::empty(), instruction_pointer: 0, halted: false }))),
        forall|d: &Debugger, index: i32, r: i32| #[trigger]
            call_ensures(Debugger::debug_stack_at, (d, index), r) ==> (
            d@.session matches Some(session) ==> (0 <= index < session.vm.stack.len() ==> r
                == session.vm.stack[index as int])),
        forall|d: &Debugger, r: i32| #[trigger]
            call_ensures(Debugger::debug_stack_len, (d,), r) ==> (d@.session matches Some(session)
                ==> (session.vm.stack.len() <= 0x7fff_ffff ==> r == session.vm.stack.len())),
        forall|d: &Debugger, r: i32| #[trigger]
            call_ensures(Debugger::debug_instruction_pointer, (d,), r) ==> (
            d@.session matches Some(session) ==> (0 <= session.vm.instruction_pointer
                <= 0x7fff_ffff ==> r == session.vm.instruction_pointer)),
{
}

/// A program is built instruction by instruction, in the order in which they are given, and is loaded
/// when it is valid.
pub proof fn law_programs_are_built_in_order()
    ensures
        forall|d: &mut Debugger, opcode: i32, operand: i32, r: i32| #[trigger]
            call_ensures(Debugger::debug_program_push, (d, opcode, operand), r) ==> {
                &&& r == 0 ==> (instruction_coded(opcode, operand) matches Ok(instruction)
                    && (*final(d))@.builder == (*d)@.builder.push(instruction))
                &&& r != 0 ==> (*final(d))@ == (*d)@
                &&& instruction_coded(opcode, operand) is Ok && (*d)@.builder.len() < 65_536 ==> r == 0
            },
        forall|d: &mut Debugger, r: i32| #[trigger]
            call_ensures(Debugger::debug_program_finish, (d,), r) ==> {
                &&& r == 0 <==> valid_program((*d)@.builder)
                &&& r == 0 ==> ((*final(d))@.session matches Some(session) && session.program
                    == (*d)@.builder && session.vm == initial_state())
                &&& r != 0 ==> (*final(d))@ == (*d)@
            },
        forall|d: &mut Debugger, lhs: i32, rhs: i32, operation: i32, r: i32| #[trigger]
            call_ensures(Debugger::debug_load_binary, (d, lhs, rhs, operation), r) ==> {
                &&& r == 0 <==> 0 <= operation <= 3
                &&& r == 0 ==> ((*final(d))@.session matches Some(session) && session.program.len()
                    == 4 && session.program[0] == Instruction::Push(lhs) && session.program[1]
                    == Instruction::Push(rhs) && session.program[3] == Instruction::Halt
                    && session.vm == initial_state())
            },
        forall|d: &mut Debugger| #[trigger] call_ensures(Debugger::debug_program_begin, (d,), ()) ==> (
        *final(d))@.builder.len() == 0 && (*final(d))@.session == (*d)@.session,
{
}

} // verus!
