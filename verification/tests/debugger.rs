//! The debugger that is driven by codes.

use a_rust_vm::{Debugger, run_binary, run_demo};

#[test]
fn the_demonstration_and_binary_operations_run() {
    assert_eq!(run_demo(), Ok(14));
    assert_eq!(run_binary(10, 3, 1), Some(Ok(7)));
    assert!(matches!(run_binary(10, 0, 3), Some(Err(_))));
    assert_eq!(run_binary(1, 2, 4), None);
}

#[test]
fn a_binary_program_is_stepped_through() {
    let mut debugger = Debugger::default();
    assert_eq!(debugger.debug_step(), -1);
    assert_eq!(debugger.debug_instruction_pointer(), -1);
    assert_eq!(debugger.debug_load_binary(1, 2, 9), -8);
    assert_eq!(debugger.debug_load_binary(2, 3, 0), 0);
    assert_eq!(debugger.debug_step(), 0);
    assert_eq!(debugger.debug_step(), 0);
    assert_eq!(debugger.debug_stack_len(), 2);
    assert_eq!(debugger.debug_stack_at(1), 3);
    assert_eq!(debugger.debug_stack_at(2), 0);
    assert_eq!(debugger.debug_stack_at(-1), 0);
    assert_eq!(debugger.debug_step(), 0);
    assert_eq!(debugger.debug_step(), 1);
    assert_eq!(debugger.debug_step(), -7);
    assert_eq!(debugger.debug_stack_at(0), 5);
    assert_eq!(debugger.debug_reset(), 0);
    assert_eq!(debugger.debug_instruction_pointer(), 0);
}

#[test]
fn programs_are_put_together_and_validated() {
    let mut debugger = Debugger::new();
    debugger.debug_program_begin();
    assert_eq!(debugger.debug_program_push(0, 1), 0);
    assert_eq!(debugger.debug_program_finish(), -9);
    assert_eq!(debugger.debug_program_push(16, 0), -8);
    assert_eq!(debugger.debug_program_push(10, -1), -10);
    assert_eq!(debugger.debug_program_push(0, 0), 0);
    assert_eq!(debugger.debug_program_push(4, 0), 0);
    assert_eq!(debugger.debug_program_push(5, 0), 0);
    assert_eq!(debugger.debug_program_finish(), 0);
    assert_eq!(debugger.debug_step(), 0);
    assert_eq!(debugger.debug_step(), 0);
    assert_eq!(debugger.debug_step(), -4);
}
