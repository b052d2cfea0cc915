//! The stack machine.

use a_rust_vm::program::Program;
use a_rust_vm::{Instruction, MAX_VM_STEPS, StepResult, Vm, VmError};

#[test]
fn adds_two_values() {
    let mut vm = Vm::new();

    let result = vm.run(&[
        Instruction::Push(2),
        Instruction::Push(3),
        Instruction::Add,
        Instruction::Halt,
    ]);

    assert_eq!(result, Ok(5));
    assert_eq!(vm.stack(), &[5]);
}

#[test]
fn evaluates_a_compound_expression() {
    let mut vm = Vm::new();

    let result = vm.run(&[
        Instruction::Push(2),
        Instruction::Push(3),
        Instruction::Push(4),
        Instruction::Mul,
        Instruction::Add,
        Instruction::Halt,
    ]);

    assert_eq!(result, Ok(14));
}

#[test]
fn preserves_operand_order_for_subtraction_and_division() {
    let mut vm = Vm::new();

    assert_eq!(
        vm.run(&[
            Instruction::Push(10),
            Instruction::Push(3),
            Instruction::Sub,
            Instruction::Halt,
        ]),
        Ok(7)
    );

    assert_eq!(
        vm.run(&[
            Instruction::Push(20),
            Instruction::Push(4),
            Instruction::Div,
            Instruction::Halt,
        ]),
        Ok(5)
    );
}

#[test]
fn reports_stack_underflow() {
    let mut vm = Vm::new();

    assert_eq!(
        vm.run(&[Instruction::Push(1), Instruction::Add, Instruction::Halt]),
        Err(VmError::StackUnderflow {
            operation: "add",
            needed: 2,
            available: 1,
        })
    );
}

#[test]
fn reports_division_by_zero() {
    let mut vm = Vm::new();

    assert_eq!(
        vm.run(&[
            Instruction::Push(10),
            Instruction::Push(0),
            Instruction::Div,
            Instruction::Halt,
        ]),
        Err(VmError::DivisionByZero)
    );
}

#[test]
fn reports_missing_halt() {
    let mut vm = Vm::new();

    assert_eq!(vm.run(&[Instruction::Push(1)]), Err(VmError::MissingHalt));
}

#[test]
fn trace_captures_post_instruction_stack_and_halt_result() {
    let program = Program::from_source("PUSH 2\nPUSH 3\nADD\nHALT").unwrap();
    let entries = Vm::new().trace(&program).unwrap();
    assert_eq!(entries.len(), 4);
    assert_eq!(entries[2].stack, vec![5]);
    assert_eq!(entries[3].result, Some(5));
}

#[test]
fn reports_empty_result() {
    let mut vm = Vm::new();

    assert_eq!(vm.run(&[Instruction::Halt]), Err(VmError::EmptyStack));
}

#[test]
fn reports_integer_overflow() {
    let mut vm = Vm::new();

    assert_eq!(
        vm.run(&[
            Instruction::Push(i32::MAX),
            Instruction::Push(1),
            Instruction::Add,
            Instruction::Halt,
        ]),
        Err(VmError::IntegerOverflow { operation: "add" })
    );
}

#[test]
fn steps_through_a_program() {
    let program = [
        Instruction::Push(2),
        Instruction::Push(3),
        Instruction::Add,
        Instruction::Halt,
    ];
    let mut vm = Vm::new();

    assert_eq!(
        vm.step(&program),
        Ok(StepResult::Executed {
            instruction: Instruction::Push(2)
        })
    );
    assert_eq!(vm.instruction_pointer(), 1);
    assert_eq!(vm.stack(), &[2]);

    assert_eq!(
        vm.step(&program),
        Ok(StepResult::Executed {
            instruction: Instruction::Push(3)
        })
    );
    assert_eq!(
        vm.step(&program),
        Ok(StepResult::Executed {
            instruction: Instruction::Add
        })
    );
    assert_eq!(vm.stack(), &[5]);
    assert_eq!(vm.step(&program), Ok(StepResult::Halted { result: 5 }));
    assert!(vm.is_halted());
}

#[test]
fn reset_rewinds_a_debug_session() {
    let program = [Instruction::Push(7), Instruction::Halt];
    let mut vm = Vm::new();

    vm.step(&program).unwrap();
    assert_eq!(vm.stack(), &[7]);
    vm.reset();

    assert_eq!(vm.instruction_pointer(), 0);
    assert!(vm.stack().is_empty());
    assert!(!vm.is_halted());
}

#[test]
fn rejects_stepping_after_halt() {
    let program = [Instruction::Push(7), Instruction::Halt];
    let mut vm = Vm::new();

    vm.run(&program).unwrap();

    assert_eq!(vm.step(&program), Err(VmError::AlreadyHalted));
}

#[test]
fn duplicates_discards_and_compares_values() {
    let mut vm = Vm::new();

    assert_eq!(
        vm.run(&[
            Instruction::Push(9),
            Instruction::Dup,
            Instruction::Add,
            Instruction::Halt,
        ]),
        Ok(18)
    );
    assert_eq!(
        vm.run(&[
            Instruction::Push(9),
            Instruction::Push(1),
            Instruction::Pop,
            Instruction::Halt,
        ]),
        Ok(9)
    );
    assert_eq!(
        vm.run(&[
            Instruction::Push(3),
            Instruction::Push(3),
            Instruction::Eq,
            Instruction::Halt,
        ]),
        Ok(1)
    );
    assert_eq!(
        vm.run(&[
            Instruction::Push(3),
            Instruction::Push(4),
            Instruction::Eq,
            Instruction::Halt,
        ]),
        Ok(0)
    );
    assert_eq!(
        vm.run(&[
            Instruction::Push(2),
            Instruction::Push(5),
            Instruction::Lt,
            Instruction::Halt,
        ]),
        Ok(1)
    );
    assert_eq!(
        vm.run(&[
            Instruction::Push(5),
            Instruction::Push(2),
            Instruction::Lt,
            Instruction::Halt,
        ]),
        Ok(0)
    );
}

#[test]
fn executes_a_countdown_loop_to_zero() {
    // 0: PUSH 5 | 1: DUP | 2: JZ 6 | 3: PUSH 1 | 4: SUB | 5: JMP 1 | 6: HALT
    let program = [
        Instruction::Push(5),
        Instruction::Dup,
        Instruction::Jz(6),
        Instruction::Push(1),
        Instruction::Sub,
        Instruction::Jmp(1),
        Instruction::Halt,
    ];

    assert_eq!(Vm::new().run(&program), Ok(0));
}

#[test]
fn rejects_an_out_of_range_jump_at_runtime() {
    let program = [Instruction::Jmp(99)];

    assert_eq!(
        Vm::new().step(&program),
        Err(VmError::InvalidJump { target: 99 })
    );
}

#[test]
fn bounds_execution_of_non_terminating_loops() {
    let program = [Instruction::Jmp(0)];

    assert_eq!(
        Vm::new().run(&program),
        Err(VmError::StepLimitExceeded {
            limit: MAX_VM_STEPS
        })
    );
}

#[test]
fn swaps_and_copies_second_stack_values() {
    let mut vm = Vm::new();

    assert_eq!(
        vm.run(&[
            Instruction::Push(1),
            Instruction::Push(2),
            Instruction::Swap,
            Instruction::Halt,
        ]),
        Ok(1)
    );
    assert_eq!(
        vm.run(&[
            Instruction::Push(1),
            Instruction::Push(2),
            Instruction::Over,
            Instruction::Halt,
        ]),
        Ok(1)
    );
    assert_eq!(
        Vm::new().step(&[Instruction::Push(1), Instruction::Swap]),
        Ok(StepResult::Executed {
            instruction: Instruction::Push(1)
        })
    );
    assert_eq!(
        Vm::new().run(&[Instruction::Push(1), Instruction::Swap, Instruction::Halt]),
        Err(VmError::StackUnderflow {
            operation: "swap",
            needed: 2,
            available: 1,
        })
    );
    assert_eq!(
        Vm::new().run(&[Instruction::Push(1), Instruction::Over, Instruction::Halt]),
        Err(VmError::StackUnderflow {
            operation: "over",
            needed: 2,
            available: 1,
        })
    );
}

#[test]
fn accumulates_the_sum_of_one_to_five() {
    // acc=0, n=5; each pass adds n into acc and decrements n.
    // 00 PUSH 0 | 01 PUSH 5 | 02 DUP | 03 JZ 14 | 04 SWAP | 05 OVER
    // 06 ADD | 07 SWAP | 08 DUP | 09 PUSH 1 | 10 SUB | 11 SWAP
    // 12 POP | 13 JMP 2 | 14 POP | 15 HALT
    let program = [
        Instruction::Push(0),
        Instruction::Push(5),
        Instruction::Dup,
        Instruction::Jz(14),
        Instruction::Swap,
        Instruction::Over,
        Instruction::Add,
        Instruction::Swap,
        Instruction::Dup,
        Instruction::Push(1),
        Instruction::Sub,
        Instruction::Swap,
        Instruction::Pop,
        Instruction::Jmp(2),
        Instruction::Pop,
        Instruction::Halt,
    ];

    assert_eq!(Vm::new().run(&program), Ok(15));
}

#[test]
fn negates_and_logically_negates_values() {
    let mut vm = Vm::new();

    assert_eq!(
        vm.run(&[Instruction::Push(5), Instruction::Neg, Instruction::Halt]),
        Ok(-5)
    );
    assert_eq!(
        vm.run(&[
            Instruction::Push(i32::MIN),
            Instruction::Neg,
            Instruction::Halt,
        ]),
        Err(VmError::IntegerOverflow {
            operation: "negate"
        })
    );
    assert_eq!(
        vm.run(&[Instruction::Push(0), Instruction::Not, Instruction::Halt]),
        Ok(1)
    );
    assert_eq!(
        vm.run(&[Instruction::Push(42), Instruction::Not, Instruction::Halt]),
        Ok(0)
    );
    assert_eq!(
        vm.run(&[Instruction::Neg, Instruction::Halt]),
        Err(VmError::StackUnderflow {
            operation: "negate",
            needed: 1,
            available: 0,
        })
    );
    assert_eq!(
        vm.run(&[Instruction::Not, Instruction::Halt]),
        Err(VmError::StackUnderflow {
            operation: "not",
            needed: 1,
            available: 0,
        })
    );
}
