//! Programs and their validation.

use a_rust_vm::{Instruction, Vm};
use a_rust_vm::program::Program;

#[test]
fn parses_comments_and_disassembles_with_offsets() {
    let program = "# multiply\nPUSH 6\nPUSH 7\nMUL\nHALT\n".parse::<Program>().unwrap();
    assert_eq!(program.max_stack_depth(), 2);
    assert_eq!(
        program.disassemble(),
        "0000  PUSH 6\n0001  PUSH 7\n0002  MUL\n0003  HALT"
    );
}

#[test]
fn rejects_structurally_invalid_programs_before_execution() {
    assert!(
        "PUSH 1\nADD\nHALT".parse::<Program>()
            .unwrap_err()
            .to_text()
            .contains("line 2")
    );
    assert!(
        "PUSH 1".parse::<Program>()
            .unwrap_err()
            .to_text()
            .contains("end with HALT")
    );
    assert!(
        "PUSH 1\nHALT\nPUSH 2".parse::<Program>()
            .unwrap_err()
            .to_text()
            .contains("after HALT")
    );
}

#[test]
fn parses_control_flow_and_disassembles_targets() {
    let program = "PUSH 5\nDUP\nJZ 6\nPUSH 1\nSUB\nJMP 1\nHALT".parse::<Program>().unwrap();
    assert_eq!(
        program.disassemble(),
        "0000  PUSH 5\n0001  DUP\n0002  JZ 6\n0003  PUSH 1\n0004  SUB\n0005  JMP 1\n0006  HALT"
    );
    assert_eq!(program.max_stack_depth(), 2);
}

#[test]
fn rejects_out_of_range_jump_targets() {
    assert!(
        "PUSH 1\nJMP 9\nHALT".parse::<Program>()
            .unwrap_err()
            .to_text()
            .contains("outside the program")
    );
    assert!(
        "JZ".parse::<Program>()
            .unwrap_err()
            .to_text()
            .contains("exactly one target index")
    );
}

#[test]
fn rejects_branches_that_disagree_on_stack_depth() {
    // The fallthrough path reaches HALT with depth 1 while the JZ path
    // arrives with depth 0: the join is ambiguous, so validation fails.
    assert!(
        "PUSH 1\nJZ 3\nPUSH 2\nHALT".parse::<Program>()
            .unwrap_err()
            .to_text()
            .contains("ambiguous stack depth")
    );
}

#[test]
fn programs_read_back_from_their_text() {
    let program = Program::new(vec![
        Instruction::Push(-5),
        Instruction::Dup,
        Instruction::Jz(6),
        Instruction::Push(1),
        Instruction::Add,
        Instruction::Jmp(1),
        Instruction::Halt,
    ])
    .unwrap();
    assert_eq!(program.to_text(), "PUSH -5\nDUP\nJZ 6\nPUSH 1\nADD\nJMP 1\nHALT");
    let again = Program::from_source(&program.to_text()).unwrap();
    assert_eq!(again.instructions(), program.instructions());
    let unwritable = Program::new(vec![
        Instruction::Push(1),
        Instruction::Neg,
        Instruction::Halt,
    ])
    .unwrap();
    assert!(Program::from_source(&unwritable.to_text()).is_err());
}

#[test]
fn sources_are_read_alike_however_they_are_written() {
    let plain = "PUSH 1\nJZ 0\nPUSH 7\nHALT".parse::<Program>().unwrap();
    let loose = Program::from_source(
        "# counts down\n\n  push   1   # one\n\tjz 0\n\n# then\nPush 7\r\n   halt  \n\n",
    )
    .unwrap();
    assert_eq!(loose.instructions(), plain.instructions());
    assert_eq!(
        loose.instructions().to_vec(),
        vec![
            Instruction::Push(1),
            Instruction::Jz(0),
            Instruction::Push(7),
            Instruction::Halt
        ]
    );
}

#[test]
fn printed_programs_parse_back() {
    let program: Program = "PUSH 5\nDUP\nJZ 6\nPUSH 1\nSUB\nJMP 1\nHALT".parse().unwrap();
    let printed = program.to_text();
    assert_eq!(printed.parse::<Program>().unwrap().to_text(), printed);
    let loose = "# countdown\n\n  push   5\ndup # twice\n jz 6\nPush 1\n\n sub\njmp\t1\nhalt\n";
    assert_eq!(loose.parse::<Program>().unwrap().to_text(), printed);
    assert_eq!("ADD".parse::<Program>().unwrap_err().to_text(), "program must end with HALT");
}

#[test]
fn deepest_stacks_are_reached() {
    let straight: Program = "PUSH 1\nPUSH 2\nDUP\nADD\nADD\nJMP 6\nHALT".parse().unwrap();
    let trace = Vm::new().trace(&straight).unwrap();
    assert_eq!(straight.max_stack_depth(), 3);
    assert_eq!(trace.iter().map(|entry| entry.stack.len()).max(), Some(3));
    let branching: Program =
        "PUSH 0\nJZ 6\nPUSH 1\nPUSH 2\nPOP\nJMP 7\nPUSH 3\nHALT".parse().unwrap();
    let trace = Vm::new().trace(&branching).unwrap();
    assert_eq!(branching.max_stack_depth(), 2);
    assert_eq!(trace.iter().map(|entry| entry.stack.len()).max(), Some(1));
}
