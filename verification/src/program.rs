//! Validated VM programs and the textual A/RVM assembly format.

use vstd::prelude::*;

use crate::machine::Instruction;
#[allow(unused_imports)]
use crate::machine::{
    StepResult, TraceModel, VmError, VmState, execute, initial_state, run_from, step_of, trace_from,
};
#[allow(unused_imports)]
use crate::text::{
    ascii_digit, decimal, find_char, joined, lacks, lemma_decimal_digits, lemma_find_char, lemma_find_char_is,
    lemma_one_word, lemma_trim_solid, lemma_two_words, law_decimal_reads_back, law_lines_undo_join,
    law_signed_decimal_reads_back, lines_of, padded, parse_integer, parse_natural, signed_decimal,
    texts, trim, upper_text, white, words_of,
};
use crate::text::{
    ascii_upper, decimal_text, join, lines, padded_text, parse_i32, parse_usize, same_text,
    size_text, split_once, trimmed, words,
};

verus! {

/// Default upper bound for a program accepted at an external boundary.
pub const MAX_PROGRAM_INSTRUCTIONS: usize = 65_536;

/// Why a program is not accepted, and the line at fault when there is one.
#[derive(Debug, Clone, PartialEq, Eq)]
pub struct ProgramError {
    pub line: Option<usize>,
    pub message: String,
}

/// What a [`ProgramError`] says.
#[verifier::ext_equal]
pub struct Fault {
    pub line: Option<int>,
    pub message: Seq<char>,
}

impl View for ProgramError {
    type V = Fault;

    open spec fn view(&self) -> Fault {
        Fault {
            line: match self.line {
                Some(line) => Some(line as int),
                None => None,
            },
            message: self.message@,
        }
    }
}

/// A fault as one line of text.
pub open spec fn fault_text(f: Fault) -> Seq<char> {
    match f.line {
        Some(line) => "line "@ + decimal(line as nat) + ": "@ + f.message,
        None => f.message,
    }
}

impl ProgramError {
    fn new(line: Option<usize>, message: &str) -> (r: Self)
        ensures
            r.line == line,
            r.message@ == message@,
    {
        ProgramError { line, message: message.to_owned() }
    }

    /// The error as one line of text.
    pub fn to_text(&self) -> (r: String)
        ensures
            r@ == fault_text(self@),
    {
        match self.line {
            Some(line) => {
                let mut r = "line ".to_owned();
                r.push_str(size_text(line).as_str());
                r.push_str(": ");
                r.push_str(self.message.as_str());
                r
            },
            None => self.message.clone(),
        }
    }
}

// ---------------------------------------------------------------------------
// Validation
// ---------------------------------------------------------------------------

pub open spec fn fault(message: Seq<char>) -> Fault {
    Fault { line: None, message }
}

pub open spec fn fault_at(line: int, message: Seq<char>) -> Fault {
    Fault { line: Some(line), message }
}

/// The target of a jump.
pub open spec fn jump_target(instruction: Instruction) -> Option<usize> {
    match instruction {
        Instruction::Jmp(target) => Some(target),
        Instruction::Jz(target) => Some(target),
        _ => None,
    }
}

/// The first instruction at or after `index` that stands after a `HALT` or jumps out of the
/// program.
pub open spec fn structural_fault(p: Seq<Instruction>, index: int) -> Option<Fault>
    decreases p.len() - index,
{
    if !(0 <= index < p.len()) {
        None
    } else if p[index] is Halt && index + 1 != p.len() {
        Some(fault_at(index + 2, "instructions after HALT are unreachable"@))
    } else {
        match jump_target(p[index]) {
            Some(target) if target >= p.len() => Some(
                fault_at(
                    index + 1,
                    p[index].mnemonic()@ + " target "@ + decimal(target as nat)
                        + " is outside the program"@,
                ),
            ),
            _ => structural_fault(p, index + 1),
        }
    }
}

/// The number of stack values an instruction needs.
pub open spec fn required(instruction: Instruction) -> nat {
    match instruction {
        Instruction::Push(_) | Instruction::Jmp(_) => 0,
        Instruction::Dup
        | Instruction::Pop
        | Instruction::Neg
        | Instruction::Not
        | Instruction::Jz(_)
        | Instruction::Halt => 1,
        Instruction::Add
        | Instruction::Sub
        | Instruction::Mul
        | Instruction::Div
        | Instruction::Swap
        | Instruction::Over
        | Instruction::Eq
        | Instruction::Lt => 2,
    }
}

/// How an instruction changes the number of values on the stack.
pub open spec fn growth(instruction: Instruction) -> int {
    match instruction {
        Instruction::Push(_) | Instruction::Dup | Instruction::Over => 1,
        Instruction::Jmp(_)
        | Instruction::Halt
        | Instruction::Swap
        | Instruction::Neg
        | Instruction::Not => 0,
        Instruction::Pop
        | Instruction::Jz(_)
        | Instruction::Add
        | Instruction::Sub
        | Instruction::Mul
        | Instruction::Div
        | Instruction::Eq
        | Instruction::Lt => -1,
    }
}

/// The instructions that can run after the one at `index`. The last is explored first.
pub open spec fn successors(instruction: Instruction, index: int) -> Seq<int> {
    match instruction {
        Instruction::Halt => Seq::empty(),
        Instruction::Jmp(target) => seq![target as int],
        Instruction::Jz(target) => seq![target as int, index + 1],
        _ => seq![index + 1],
    }
}

/// The number of instructions whose stack depth is not known yet.
pub open spec fn unknown(depth_at: Seq<Option<nat>>) -> nat
    decreases depth_at.len(),
{
    if depth_at.len() == 0 {
        0
    } else {
        unknown(depth_at.drop_last()) + if depth_at.last() is None {
            1nat
        } else {
            0nat
        }
    }
}

pub proof fn lemma_unknown_update(depth_at: Seq<Option<nat>>, index: int, depth: nat)
    requires
        0 <= index < depth_at.len(),
        depth_at[index] is None,
    ensures
        unknown(depth_at.update(index, Some(depth))) == unknown(depth_at) - 1,
    decreases depth_at.len(),
{
    let next = depth_at.update(index, Some(depth));
    if index == depth_at.len() - 1 {
        assert(next.drop_last() =~= depth_at.drop_last());
    } else {
        lemma_unknown_update(depth_at.drop_last(), index, depth);
        assert(next.drop_last() =~= depth_at.drop_last().update(index, Some(depth)));
    }
}

proof fn lemma_unknown_bound(depth_at: Seq<Option<nat>>)
    ensures
        unknown(depth_at) <= depth_at.len(),
        (forall|i: int| 0 <= i < depth_at.len() ==> depth_at[i] is None) ==> unknown(depth_at)
            == depth_at.len(),
    decreases depth_at.len(),
{
    if depth_at.len() > 0 {
        lemma_unknown_bound(depth_at.drop_last());
        if forall|i: int| 0 <= i < depth_at.len() ==> depth_at[i] is None {
            assert forall|i: int| 0 <= i < depth_at.drop_last().len()
                implies depth_at.drop_last()[i] is None by {
                assert(depth_at[i] is None);
            }
        }
    }
}

/// Each of `targets` at stack depth `depth`.
pub open spec fn at_depth(targets: Seq<int>, depth: nat) -> Seq<(int, nat)> {
    Seq::new(targets.len(), |i: int| (targets[i], depth))
}

pub open spec fn greater(a: nat, b: nat) -> nat {
    if a < b {
        b
    } else {
        a
    }
}

/// Walks the control flow of `p` from the pending places, depth first, and gives every reachable
/// instruction its stack depth: the depths and the deepest stack, or the first fault met.
///
/// `depth_at` holds the depths found so far and `deepest` the deepest stack so far.
pub open spec fn explore(
    p: Seq<Instruction>,
    depth_at: Seq<Option<nat>>,
    pending: Seq<(int, nat)>,
    deepest: nat,
) -> Result<(Seq<Option<nat>>, nat), Fault>
    decreases unknown(depth_at), pending.len(),
{
    if pending.len() == 0 {
        Ok((depth_at, deepest))
    } else {
        let (index, depth) = pending.last();
        let rest = pending.drop_last();
        if !(0 <= index < p.len() && index < depth_at.len()) {
            explore(p, depth_at, rest, deepest)
        } else {
            match depth_at[index] {
                Some(known) => if known != depth {
                    Err(
                        fault_at(
                            index + 1,
                            "ambiguous stack depth at instruction "@ + decimal((index + 1) as nat)
                                + ": joined paths disagree ("@ + decimal(known) + " vs "@ + decimal(
                                depth,
                            ) + ")"@,
                        ),
                    )
                } else {
                    explore(p, depth_at, rest, deepest)
                },
                None => {
                    let instruction = p[index];
                    if depth < required(instruction) {
                        Err(
                            fault_at(
                                index + 1,
                                instruction.mnemonic()@ + " requires "@ + decimal(
                                    required(instruction),
                                ) + " stack values"@,
                            ),
                        )
                    } else {
                        let next = (depth + growth(instruction)) as nat;
                        proof {
                            lemma_unknown_update(depth_at, index, depth);
                        }
                        explore(
                            p,
                            depth_at.update(index, Some(depth)),
                            rest + at_depth(successors(instruction, index), next),
                            greater(deepest, next),
                        )
                    }
                },
            }
        }
    }
}

/// No instruction has a known depth.
pub open spec fn no_depths(n: nat) -> Seq<Option<nat>> {
    Seq::new(n, |i: int| None::<nat>)
}

/// Whether `p` is a valid program: its stack depths and its deepest stack, or the fault that the
/// first failing check finds.
pub open spec fn examine(p: Seq<Instruction>) -> Result<(Seq<Option<nat>>, nat), Fault> {
    if p.len() == 0 {
        Err(fault("program is empty"@))
    } else if p.len() > MAX_PROGRAM_INSTRUCTIONS {
        Err(
            fault(
                "program has "@ + decimal(p.len()) + " instructions; limit is "@ + decimal(
                    MAX_PROGRAM_INSTRUCTIONS as nat,
                ),
            ),
        )
    } else {
        match structural_fault(p, 0) {
            Some(found) => Err(found),
            None => if !(p.last() is Halt) {
                Err(fault("program must end with HALT"@))
            } else {
                explore(p, no_depths(p.len()), seq![(0int, 0nat)], 0)
            },
        }
    }
}

proof fn lemma_structure(p: Seq<Instruction>, from: int)
    requires
        0 <= from,
        structural_fault(p, from) is None,
    ensures
        forall|i: int|
            from <= i < p.len() ==> {
                &&& (#[trigger] p[i] is Halt ==> i + 1 == p.len())
                &&& (jump_target(p[i]) matches Some(target) ==> target < p.len())
            },
    decreases p.len() - from,
{
    if from < p.len() {
        lemma_structure(p, from + 1);
    }
}

// ---------------------------------------------------------------------------
// Programs
// ---------------------------------------------------------------------------

/// Immutable bytecode that has passed structural and stack validation.
#[derive(Debug, PartialEq, Eq)]
pub struct Program {
    instructions: Vec<Instruction>,
    max_stack_depth: usize,
}

impl View for Program {
    type V = Seq<Instruction>;

    closed spec fn view(&self) -> Seq<Instruction> {
        self.instructions@
    }
}

/// Whether `p` passes validation.
pub open spec fn valid_program(p: Seq<Instruction>) -> bool {
    examine(p) is Ok
}

/// The deepest stack of a valid program.
pub open spec fn deepest_stack(p: Seq<Instruction>) -> nat {
    examine(p)->Ok_0.1
}

fn required_values(instruction: Instruction) -> (r: usize)
    ensures
        r == required(instruction),
{
    match instruction {
        Instruction::Push(_) | Instruction::Jmp(_) => 0,
        Instruction::Dup
        | Instruction::Pop
        | Instruction::Neg
        | Instruction::Not
        | Instruction::Jz(_)
        | Instruction::Halt => 1,
        Instruction::Add
        | Instruction::Sub
        | Instruction::Mul
        | Instruction::Div
        | Instruction::Swap
        | Instruction::Over
        | Instruction::Eq
        | Instruction::Lt => 2,
    }
}

fn depth_after(instruction: Instruction, depth: usize) -> (r: usize)
    requires
        required(instruction) <= depth < usize::MAX,
    ensures
        r == depth + growth(instruction),
{
    match instruction {
        Instruction::Push(_) | Instruction::Dup | Instruction::Over => depth + 1,
        Instruction::Jmp(_)
        | Instruction::Halt
        | Instruction::Swap
        | Instruction::Neg
        | Instruction::Not => depth,
        Instruction::Pop
        | Instruction::Jz(_)
        | Instruction::Add
        | Instruction::Sub
        | Instruction::Mul
        | Instruction::Div
        | Instruction::Eq
        | Instruction::Lt => depth - 1,
    }
}

/// The depths as natural numbers.
spec fn depth_models(depth_at: Seq<Option<usize>>) -> Seq<Option<nat>> {
    Seq::new(
        depth_at.len(),
        |i: int|
            match depth_at[i] {
                Some(depth) => Some(depth as nat),
                None => None,
            },
    )
}

spec fn pending_models(pending: Seq<(usize, usize)>) -> Seq<(int, nat)> {
    Seq::new(pending.len(), |i: int| (pending[i].0 as int, pending[i].1 as nat))
}

impl Program {
    #[verifier::type_invariant]
    closed spec fn inv(self) -> bool {
        &&& valid_program(self.instructions@)
        &&& self.max_stack_depth == deepest_stack(self.instructions@)
    }

    /// Validates `instructions`.
    pub fn new(instructions: Vec<Instruction>) -> (r: Result<Self, ProgramError>)
        ensures
            match r {
                Ok(program) => valid_program(instructions@) && program@ == instructions@,
                Err(error) => examine(instructions@) == Err::<(Seq<Option<nat>>, nat), Fault>(
                    error@,
                ),
            },
    {
        let n: usize = instructions.len();
        let ghost p = instructions@;
        if n == 0 {
            return Err(ProgramError::new(None, "program is empty"));
        }
        if n > MAX_PROGRAM_INSTRUCTIONS {
            let mut message = "program has ".to_owned();
            message.push_str(size_text(n).as_str());
            message.push_str(" instructions; limit is ");
            message.push_str(size_text(MAX_PROGRAM_INSTRUCTIONS).as_str());
            return Err(ProgramError { line: None, message });
        }
        let mut index: usize = 0;
        while index < n
            invariant
                index <= n,
                n == p.len(),
                n <= MAX_PROGRAM_INSTRUCTIONS,
                n > 0,
                p == instructions@,
                structural_fault(p, 0) == structural_fault(p, index as int),
            decreases n - index,
        {
            let instruction = instructions[index];
            if let Instruction::Halt = instruction {
                if index + 1 != n {
                    return Err(
                        ProgramError::new(
                            Some(index + 2),
                            "instructions after HALT are unreachable",
                        ),
                    );
                }
            }
            let target: Option<usize> = match instruction {
                Instruction::Jmp(target) => Some(target),
                Instruction::Jz(target) => Some(target),
                _ => None,
            };
            if let Some(target) = target {
                if target >= n {
                    let mut message = instruction.name().to_owned();
                    message.push_str(" target ");
                    message.push_str(size_text(target).as_str());
                    message.push_str(" is outside the program");
                    return Err(ProgramError { line: Some(index + 1), message });
                }
            }
            index += 1;
        }
        match instructions[n - 1] {
            Instruction::Halt => {},
            _ => {
                return Err(ProgramError::new(None, "program must end with HALT"));
            },
        }
        proof {
            lemma_structure(p, 0);
        }
        let mut depth_at: Vec<Option<usize>> = Vec::new();
        let mut filled: usize = 0;
        while filled < n
            invariant
                filled <= n,
                depth_at@.len() == filled,
                forall|i: int| 0 <= i < filled ==> depth_at@[i] is None,
            decreases n - filled,
        {
            depth_at.push(None);
            filled += 1;
        }
        let mut max_stack_depth: usize = 0;
        let mut worklist: Vec<(usize, usize)> = Vec::new();
        worklist.push((0, 0));
        proof {
            assert(depth_models(depth_at@) =~= no_depths(p.len()));
            assert(pending_models(worklist@) =~= seq![(0int, 0nat)]);
            lemma_unknown_bound(no_depths(p.len()));
        }
        while worklist.len() > 0
            invariant
                n == p.len(),
                n <= MAX_PROGRAM_INSTRUCTIONS,
                p == instructions@,
                depth_at@.len() == n,
                p.last() is Halt,
                n > 0,
                structural_fault(p, 0) is None,
                forall|i: int|
                    0 <= i < p.len() ==> {
                        &&& (#[trigger] p[i] is Halt ==> i + 1 == p.len())
                        &&& (jump_target(p[i]) matches Some(target) ==> target < p.len())
                    },
                unknown(depth_models(depth_at@)) <= n,
                forall|k: int|
                    0 <= k < worklist@.len() ==> {
                        &&& (#[trigger] worklist@[k]).0 < n
                        &&& worklist@[k].1 <= n - unknown(depth_models(depth_at@))
                    },
                explore(
                    p,
                    depth_models(depth_at@),
                    pending_models(worklist@),
                    max_stack_depth as nat,
                ) == examine(p),
            decreases unknown(depth_models(depth_at@)), worklist@.len(),
        {
            let ghost pending = worklist@;
            let ghost depths = depth_at@;
            let (index, depth) = worklist.pop().unwrap();
            proof {
                assert(pending.last() == (index, depth));
                assert(pending_models(worklist@) =~= pending_models(pending).drop_last());
                assert(pending_models(pending).last() == (index as int, depth as nat));
            }
            match depth_at[index] {
                Some(known) => {
                    if known != depth {
                        let mut message = "ambiguous stack depth at instruction ".to_owned();
                        message.push_str(size_text(index + 1).as_str());
                        message.push_str(": joined paths disagree (");
                        message.push_str(size_text(known).as_str());
                        message.push_str(" vs ");
                        message.push_str(size_text(depth).as_str());
                        message.push_str(")");
                        return Err(ProgramError { line: Some(index + 1), message });
                    }
                },
                None => {
                    let instruction = instructions[index];
                    let needed: usize = required_values(instruction);
                    if depth < needed {
                        let mut message = instruction.name().to_owned();
                        message.push_str(" requires ");
                        message.push_str(size_text(needed).as_str());
                        message.push_str(" stack values");
                        return Err(ProgramError { line: Some(index + 1), message });
                    }
                    depth_at.set(index, Some(depth));
                    let next_depth: usize = depth_after(instruction, depth);
                    let ghost rest = worklist@;
                    proof {
                        assert(depth_models(depth_at@) =~= depth_models(depths).update(
                            index as int,
                            Some(depth as nat),
                        ));
                        lemma_unknown_update(depth_models(depths), index as int, depth as nat);
                        assert(p[index as int] == instruction);
                    }
                    if max_stack_depth < next_depth {
                        max_stack_depth = next_depth;
                    }
                    match instruction {
                        Instruction::Halt => {},
                        Instruction::Jmp(target) => {
                            worklist.push((target, next_depth));
                        },
                        Instruction::Jz(target) => {
                            worklist.push((target, next_depth));
                            worklist.push((index + 1, next_depth));
                        },
                        _ => {
                            worklist.push((index + 1, next_depth));
                        },
                    }
                    proof {
                        let reached = successors(instruction, index as int);
                        assert(pending_models(worklist@) =~= pending_models(rest) + at_depth(
                            reached,
                            next_depth as nat,
                        ));
                    }
                },
            }
        }
        assert(pending_models(worklist@).len() == 0);
        Ok(Program { instructions, max_stack_depth })
    }

    pub fn instructions(&self) -> (r: &[Instruction])
        ensures
            r@ == self@,
            valid_program(self@),
    {
        proof {
            use_type_invariant(self);
        }
        self.instructions.as_slice()
    }

    /// The instructions of the program.
    pub fn into_instructions(self) -> (r: Vec<Instruction>)
        ensures
            r@ == self@,
    {
        self.instructions
    }

    pub fn max_stack_depth(&self) -> (r: usize)
        ensures
            valid_program(self@),
            r == deepest_stack(self@),
    {
        proof {
            use_type_invariant(self);
        }
        self.max_stack_depth
    }

    /// The listing: each instruction on a line of its own, after its index.
    pub fn disassemble(&self) -> (r: String)
        ensures
            r@ == listing(self@),
    {
        let mut parts: Vec<String> = Vec::new();
        let mut index: usize = 0;
        while index < self.instructions.len()
            invariant
                index <= self.instructions@.len(),
                texts(parts@) == listing_lines(self@).take(index as int),
            decreases self.instructions@.len() - index,
        {
            let mut line = padded_text(index as u64, 4);
            line.push_str("  ");
            line.push_str(self.instructions[index].to_text().as_str());
            let ghost before = parts@;
            parts.push(line);
            assert(texts(parts@) =~= texts(before).push(line@));
            assert(listing_lines(self@).take(index + 1) =~= listing_lines(self@).take(
                index as int,
            ).push(listing_lines(self@)[index as int]));
            index += 1;
        }
        assert(listing_lines(self@).take(self@.len() as int) =~= listing_lines(self@));
        join(&parts, "\n")
    }

    /// The program as assembly text, one instruction per line.
    pub fn to_text(&self) -> (r: String)
        ensures
            r@ == source_of(self@),
    {
        let mut parts: Vec<String> = Vec::new();
        let mut index: usize = 0;
        while index < self.instructions.len()
            invariant
                index <= self.instructions@.len(),
                texts(parts@) == source_lines(self@).take(index as int),
            decreases self.instructions@.len() - index,
        {
            let line = self.instructions[index].to_text();
            let ghost before = parts@;
            parts.push(line);
            assert(texts(parts@) =~= texts(before).push(line@));
            assert(source_lines(self@).take(index + 1) =~= source_lines(self@).take(
                index as int,
            ).push(source_lines(self@)[index as int]));
            index += 1;
        }
        assert(source_lines(self@).take(self@.len() as int) =~= source_lines(self@));
        join(&parts, "\n")
    }

    /// Reads assembly text and validates the program it denotes.
    pub fn from_source(source: &str) -> (r: Result<Self, ProgramError>)
        ensures
            match r {
                Ok(program) => parse_source(source@) == Ok::<Seq<Instruction>, Fault>(program@)
                    && valid_program(program@),
                Err(error) => match parse_source(source@) {
                    Ok(p) => examine(p) == Err::<(Seq<Option<nat>>, nat), Fault>(error@),
                    Err(found) => found == error@,
                },
            },
    {
        let all = lines(source);
        let ghost rows = texts(all@);
        let mut instructions: Vec<Instruction> = Vec::new();
        let mut index: usize = 0;
        proof {
            let rest = parse_rows(rows, 0);
            if rest is Ok {
                assert(Seq::<Instruction>::empty() + rest->Ok_0 =~= rest->Ok_0);
            }
        }
        while index < all.len()
            invariant
                index <= all@.len(),
                rows == texts(all@),
                rows == lines_of(source@),
                match parse_rows(rows, index as int) {
                    Ok(rest) => parse_source(source@) == Ok::<Seq<Instruction>, Fault>(
                        instructions@ + rest,
                    ),
                    Err(found) => parse_source(source@) == Err::<Seq<Instruction>, Fault>(found),
                },
            decreases all@.len() - index,
        {
            let ghost before = instructions@;
            match parse_line(all[index].as_str(), index + 1) {
                Ok(Some(instruction)) => {
                    instructions.push(instruction);
                    proof {
                        let rest = parse_rows(rows, index + 1);
                        if rest is Ok {
                            assert(instructions@ + rest->Ok_0 =~= before + (seq![instruction]
                                + rest->Ok_0));
                        }
                    }
                },
                Ok(None) => {},
                Err(error) => {
                    return Err(error);
                },
            }
            index += 1;
        }
        assert(instructions@ + Seq::<Instruction>::empty() =~= instructions@);
        Program::new(instructions)
    }
}

impl Clone for Program {
    fn clone(&self) -> (r: Self)
        ensures
            r@ == self@,
    {
        proof {
            use_type_invariant(self);
        }
        let instructions = self.instructions.clone();
        assert(instructions@ =~= self.instructions@);
        Program { instructions, max_stack_depth: self.max_stack_depth }
    }
}

impl std::str::FromStr for Program {
    type Err = ProgramError;

    fn from_str(source: &str) -> (r: Result<Self, ProgramError>)
        ensures
            match r {
                Ok(program) => parse_source(source@) == Ok::<Seq<Instruction>, Fault>(program@)
                    && valid_program(program@),
                Err(error) => match parse_source(source@) {
                    Ok(p) => examine(p) == Err::<(Seq<Option<nat>>, nat), Fault>(error@),
                    Err(found) => found == error@,
                },
            },
    {
        Program::from_source(source)
    }
}

/// The lines of a listing.
pub open spec fn listing_lines(p: Seq<Instruction>) -> Seq<Seq<char>> {
    Seq::new(p.len(), |i: int| padded(i as nat, 4) + "  "@ + p[i].assembly())
}

/// The listing of a program.
pub open spec fn listing(p: Seq<Instruction>) -> Seq<char> {
    joined(listing_lines(p), "\n"@)
}

pub open spec fn source_lines(p: Seq<Instruction>) -> Seq<Seq<char>> {
    Seq::new(p.len(), |i: int| p[i].assembly())
}

/// The assembly text of a program.
pub open spec fn source_of(p: Seq<Instruction>) -> Seq<char> {
    joined(source_lines(p), "\n"@)
}

// ---------------------------------------------------------------------------
// Assembly
// ---------------------------------------------------------------------------

/// The code on a line: what stands before a comment, without white space at either end.
pub open spec fn code_of(line: Seq<char>) -> Seq<char> {
    trim(line.take(find_char(line, '#')))
}

/// The instructions that take no operand and can be written in assembly.
pub open spec fn plain_instruction(opcode: Seq<char>) -> Option<Instruction> {
    if opcode == "ADD"@ {
        Some(Instruction::Add)
    } else if opcode == "SUB"@ {
        Some(Instruction::Sub)
    } else if opcode == "MUL"@ {
        Some(Instruction::Mul)
    } else if opcode == "DIV"@ {
        Some(Instruction::Div)
    } else if opcode == "DUP"@ {
        Some(Instruction::Dup)
    } else if opcode == "POP"@ {
        Some(Instruction::Pop)
    } else if opcode == "EQ"@ {
        Some(Instruction::Eq)
    } else if opcode == "LT"@ {
        Some(Instruction::Lt)
    } else if opcode == "HALT"@ {
        Some(Instruction::Halt)
    } else {
        None
    }
}

/// The instruction that the fields of line `number` denote.
pub open spec fn parse_fields(fields: Seq<Seq<char>>, number: int) -> Result<Instruction, Fault> {
    let opcode = upper_text(fields[0]);
    if opcode == "PUSH"@ {
        if fields.len() != 2 {
            Err(fault_at(number, "PUSH requires exactly one operand"@))
        } else {
            match parse_integer(fields[1]) {
                Some(value) => Ok(Instruction::Push(value as i32)),
                None => Err(fault_at(number, "PUSH operand must be an i32"@)),
            }
        }
    } else if opcode == "JMP"@ || opcode == "JZ"@ {
        if fields.len() != 2 {
            Err(fault_at(number, opcode + " requires exactly one target index"@))
        } else {
            match parse_natural(fields[1], usize::MAX as nat) {
                Some(target) => if opcode == "JMP"@ {
                    Ok(Instruction::Jmp(target as usize))
                } else {
                    Ok(Instruction::Jz(target as usize))
                },
                None => Err(fault_at(number, opcode + " target must be an instruction index"@)),
            }
        }
    } else {
        match plain_instruction(opcode) {
            Some(instruction) => if fields.len() != 1 {
                Err(fault_at(number, opcode + " does not accept operands"@))
            } else {
                Ok(instruction)
            },
            None => Err(fault_at(number, "unknown instruction '"@ + fields[0] + "'"@)),
        }
    }
}

/// The instruction on line `number`, if the line holds one.
pub open spec fn parse_row(line: Seq<char>, number: int) -> Result<Option<Instruction>, Fault> {
    let code = code_of(line);
    if code.len() == 0 {
        Ok(None)
    } else {
        match parse_fields(words_of(code), number) {
            Ok(instruction) => Ok(Some(instruction)),
            Err(found) => Err(found),
        }
    }
}

/// The instructions on the lines from `index` on, or the first fault among them.
pub open spec fn parse_rows(rows: Seq<Seq<char>>, index: int) -> Result<Seq<Instruction>, Fault>
    decreases rows.len() - index,
{
    if !(0 <= index < rows.len()) {
        Ok(Seq::empty())
    } else {
        match parse_row(rows[index], index + 1) {
            Ok(found) => match parse_rows(rows, index + 1) {
                Ok(rest) => Ok(
                    match found {
                        Some(instruction) => seq![instruction] + rest,
                        None => rest,
                    },
                ),
                Err(later) => Err(later),
            },
            Err(found) => Err(found),
        }
    }
}

/// The instructions that assembly text denotes.
pub open spec fn parse_source(source: Seq<char>) -> Result<Seq<Instruction>, Fault> {
    parse_rows(lines_of(source), 0)
}

fn plain_from(opcode: &str) -> (r: Option<Instruction>)
    ensures
        r == plain_instruction(opcode@),
{
    if same_text(opcode, "ADD") {
        Some(Instruction::Add)
    } else if same_text(opcode, "SUB") {
        Some(Instruction::Sub)
    } else if same_text(opcode, "MUL") {
        Some(Instruction::Mul)
    } else if same_text(opcode, "DIV") {
        Some(Instruction::Div)
    } else if same_text(opcode, "DUP") {
        Some(Instruction::Dup)
    } else if same_text(opcode, "POP") {
        Some(Instruction::Pop)
    } else if same_text(opcode, "EQ") {
        Some(Instruction::Eq)
    } else if same_text(opcode, "LT") {
        Some(Instruction::Lt)
    } else if same_text(opcode, "HALT") {
        Some(Instruction::Halt)
    } else {
        None
    }
}

proof fn lemma_some_word(s: Seq<char>)
    requires
        s.len() > 0,
        !crate::text::white(s.last()),
    ensures
        words_of(s).len() > 0,
    decreases s.len(),
{
    if crate::text::white(s[0]) {
        assert(s.skip(1).last() == s.last());
        lemma_some_word(s.skip(1));
    }
}

proof fn lemma_trim_end_last(s: Seq<char>)
    ensures
        crate::text::trim_end(s).len() > 0 ==> !crate::text::white(crate::text::trim_end(s).last()),
    decreases s.len(),
{
    if s.len() > 0 && crate::text::white(s.last()) {
        lemma_trim_end_last(s.drop_last());
    }
}

fn parse_line(line: &str, number: usize) -> (r: Result<Option<Instruction>, ProgramError>)
    ensures
        match r {
            Ok(found) => parse_row(line@, number as int) == Ok::<Option<Instruction>, Fault>(found),
            Err(error) => parse_row(line@, number as int) == Err::<Option<Instruction>, Fault>(
                error@,
            ),
        },
{
    let code = match split_once(line, '#') {
        Some((code, _)) => trimmed(code.as_str()),
        None => {
            assert(line@.take(line@.len() as int) =~= line@);
            trimmed(line)
        },
    };
    assert(code@ == code_of(line@));
    if code.as_str().is_empty() {
        return Ok(None);
    }
    let fields = words(code.as_str());
    proof {
        lemma_trim_end_last(crate::text::trim_start(line@.take(find_char(line@, '#'))));
        lemma_some_word(code@);
        assert(texts(fields@).len() == fields@.len());
        assert(texts(fields@)[0] == fields@[0]@);
        if fields@.len() > 1 {
            assert(texts(fields@)[1] == fields@[1]@);
        }
    }
    let opcode = ascii_upper(fields[0].as_str());
    if same_text(opcode.as_str(), "PUSH") {
        if fields.len() != 2 {
            return Err(ProgramError::new(Some(number), "PUSH requires exactly one operand"));
        }
        return match parse_i32(fields[1].as_str()) {
            Some(value) => Ok(Some(Instruction::Push(value))),
            None => Err(ProgramError::new(Some(number), "PUSH operand must be an i32")),
        };
    }
    let jump = same_text(opcode.as_str(), "JMP");
    if jump || same_text(opcode.as_str(), "JZ") {
        let mut message = opcode.clone();
        if fields.len() != 2 {
            message.push_str(" requires exactly one target index");
            return Err(ProgramError { line: Some(number), message });
        }
        return match parse_usize(fields[1].as_str()) {
            Some(target) => if jump {
                Ok(Some(Instruction::Jmp(target)))
            } else {
                Ok(Some(Instruction::Jz(target)))
            },
            None => {
                message.push_str(" target must be an instruction index");
                Err(ProgramError { line: Some(number), message })
            },
        };
    }
    match plain_from(opcode.as_str()) {
        Some(instruction) => if fields.len() != 1 {
            let mut message = opcode;
            message.push_str(" does not accept operands");
            Err(ProgramError { line: Some(number), message })
        } else {
            Ok(Some(instruction))
        },
        None => {
            let mut message = "unknown instruction '".to_owned();
            message.push_str(fields[0].as_str());
            message.push_str("'");
            Err(ProgramError { line: Some(number), message })
        },
    }
}

// ---------------------------------------------------------------------------
// What validation guarantees
// ---------------------------------------------------------------------------

/// A place is accounted for: its depth is known to be `depth`, or it is still pending at `depth`.
spec fn accounted(
    depth_at: Seq<Option<nat>>,
    pending: Seq<(int, nat)>,
    place: int,
    depth: nat,
) -> bool {
    (0 <= place < depth_at.len() && depth_at[place] == Some(depth)) || pending.contains(
        (place, depth),
    )
}

/// Every known depth suffices for its instruction, its outcome is at most `deepest`, and what can
/// run next is accounted for.
spec fn partly_consistent(
    p: Seq<Instruction>,
    depth_at: Seq<Option<nat>>,
    pending: Seq<(int, nat)>,
    deepest: nat,
) -> bool {
    &&& depth_at.len() == p.len()
    &&& forall|i: int|
        0 <= i < p.len() ==> (#[trigger] depth_at[i] matches Some(depth) ==> {
            &&& depth >= required(p[i])
            &&& depth + growth(p[i]) <= deepest
            &&& forall|k: int|
                0 <= k < successors(p[i], i).len() ==> accounted(
                    depth_at,
                    pending,
                    #[trigger] successors(p[i], i)[k],
                    (depth + growth(p[i])) as nat,
                )
        })
    &&& forall|k: int| 0 <= k < pending.len() ==> 0 <= (#[trigger] pending[k]).0 < p.len()
}

/// The depths of a valid program: the first instruction starts with an empty stack, every depth
/// suffices for its instruction, and what can run next has the depth that is left.
pub open spec fn consistent(p: Seq<Instruction>, depth_at: Seq<Option<nat>>, deepest: nat) -> bool {
    &&& depth_at.len() == p.len()
    &&& p.len() > 0
    &&& depth_at[0] == Some(0nat)
    &&& forall|i: int|
        0 <= i < p.len() ==> (#[trigger] depth_at[i] matches Some(depth) ==> {
            &&& depth >= required(p[i])
            &&& depth + growth(p[i]) <= deepest
            &&& forall|k: int|
                0 <= k < successors(p[i], i).len() ==> {
                    let next = #[trigger] successors(p[i], i)[k];
                    &&& 0 <= next < p.len()
                    &&& depth_at[next] == Some((depth + growth(p[i])) as nat)
                }
        })
}

proof fn lemma_explore(
    p: Seq<Instruction>,
    depth_at: Seq<Option<nat>>,
    pending: Seq<(int, nat)>,
    deepest: nat,
)
    requires
        partly_consistent(p, depth_at, pending, deepest),
        forall|i: int|
            0 <= i < p.len() ==> {
                &&& (#[trigger] p[i] is Halt ==> i + 1 == p.len())
                &&& (jump_target(p[i]) matches Some(target) ==> target < p.len())
            },
        p.len() > 0,
        p.last() is Halt,
    ensures
        explore(p, depth_at, pending, deepest) matches Ok((found, most)) ==> {
            &&& partly_consistent(p, found, Seq::empty(), most)
            &&& forall|place: int, depth: nat|
                accounted(depth_at, pending, place, depth) ==> #[trigger] accounted(
                    found,
                    Seq::empty(),
                    place,
                    depth,
                )
        },
    decreases unknown(depth_at), pending.len(),
{
    if pending.len() == 0 {
        assert(pending =~= Seq::<(int, nat)>::empty());
    } else {
        let (index, depth) = pending.last();
        let rest = pending.drop_last();
        assert(pending[pending.len() - 1] == (index, depth));
        assert(0 <= index < p.len());
        assert forall|place: int, d: nat| pending.contains((place, d)) implies rest.contains(
            (place, d),
        ) || (place == index && d == depth) by {
            let k = choose|k: int| 0 <= k < pending.len() && pending[k] == (place, d);
            if k < rest.len() {
                assert(rest[k] == (place, d));
            }
        }
        match depth_at[index] {
            Some(known) => {
                if known == depth {
                    assert(partly_consistent(p, depth_at, rest, deepest)) by {
                        assert forall|k: int| 0 <= k < rest.len()
                            implies 0 <= (#[trigger] rest[k]).0
                            < p.len() by {
                            assert(rest[k] == pending[k]);
                        }
                    }
                    lemma_explore(p, depth_at, rest, deepest);
                }
            },
            None => {
                let instruction = p[index];
                if depth >= required(instruction) {
                    let next = (depth + growth(instruction)) as nat;
                    let later = depth_at.update(index, Some(depth));
                    let reached = at_depth(successors(instruction, index), next);
                    let waiting = rest + reached;
                    let most = greater(deepest, next);
                    lemma_unknown_update(depth_at, index, depth);
                    assert forall|place: int, d: nat| rest.contains((place, d))
                        implies #[trigger] waiting.contains(
                        (place, d),
                    ) by {
                        let k = choose|k: int| 0 <= k < rest.len() && rest[k] == (place, d);
                        assert(waiting[k] == (place, d));
                    }
                    assert forall|place: int, d: nat|
                        accounted(depth_at, pending, place, d) implies #[trigger] accounted(
                        later,
                        waiting,
                        place,
                        d,
                    ) by {
                        if 0 <= place < depth_at.len() && depth_at[place] == Some(d) {
                            assert(place != index);
                            assert(later[place] == Some(d));
                        } else {
                            if place == index && d == depth {
                                assert(later[place] == Some(d));
                            } else {
                                assert(rest.contains((place, d)));
                            }
                        }
                    }
                    assert forall|i: int| 0 <= i < p.len()
                        implies (#[trigger] later[i] matches Some(
                        d,
                    ) ==> {
                        &&& d >= required(p[i])
                        &&& d + growth(p[i]) <= most
                        &&& forall|k: int|
                            0 <= k < successors(p[i], i).len() ==> accounted(
                                later,
                                waiting,
                                #[trigger] successors(p[i], i)[k],
                                (d + growth(p[i])) as nat,
                            )
                    }) by {
                        if i == index {
                            assert forall|k: int| 0 <= k < successors(p[i], i).len()
                                implies accounted(
                                later,
                                waiting,
                                #[trigger] successors(p[i], i)[k],
                                next,
                            ) by {
                                assert(waiting[rest.len() + k] == (successors(p[i], i)[k], next));
                            }
                        } else {
                            assert(later[i] == depth_at[i]);
                            if let Some(d) = depth_at[i] {
                                assert forall|k: int| 0 <= k < successors(p[i], i).len()
                                    implies accounted(
                                    later,
                                    waiting,
                                    #[trigger] successors(p[i], i)[k],
                                    (d + growth(p[i])) as nat,
                                ) by {
                                    assert(accounted(
                                        depth_at,
                                        pending,
                                        successors(p[i], i)[k],
                                        (d + growth(p[i])) as nat,
                                    ));
                                }
                            }
                        }
                    }
                    assert forall|k: int| 0 <= k < waiting.len() implies 0 <= (
                    #[trigger] waiting[k]).0 < p.len() by {
                        if k < rest.len() {
                            assert(rest[k] == pending[k]);
                        } else {
                            assert(p[index] == instruction);
                        }
                    }
                    lemma_explore(p, later, waiting, most);
                }
            },
        }
    }
}

/// The stack depths that validation finds are consistent with how the machine runs.
pub proof fn law_valid_programs_have_consistent_depths(p: Seq<Instruction>)
    requires
        valid_program(p),
    ensures
        consistent(p, examine(p)->Ok_0.0, deepest_stack(p)),
{
    lemma_structure(p, 0);
    let start = seq![(0int, 0nat)];
    lemma_explore(p, no_depths(p.len()), start, 0);
    let found = examine(p)->Ok_0.0;
    assert(start[0] == (0int, 0nat));
    assert(accounted(no_depths(p.len()), start, 0, 0));
    assert(accounted(found, Seq::empty(), 0, 0));
    assert forall|i: int| 0 <= i < p.len() implies (#[trigger] found[i] matches Some(depth) ==> {
        &&& depth >= required(p[i])
        &&& depth + growth(p[i]) <= deepest_stack(p)
        &&& forall|k: int|
            0 <= k < successors(p[i], i).len() ==> {
                let next = #[trigger] successors(p[i], i)[k];
                &&& 0 <= next < p.len()
                &&& found[next] == Some((depth + growth(p[i])) as nat)
            }
    }) by {
        if let Some(depth) = found[i] {
            assert forall|k: int| 0 <= k < successors(p[i], i).len() implies {
                let next = #[trigger] successors(p[i], i)[k];
                &&& 0 <= next < p.len()
                &&& found[next] == Some((depth + growth(p[i])) as nat)
            } by {
                assert(accounted(
                    found,
                    Seq::empty(),
                    successors(p[i], i)[k],
                    (depth + growth(p[i])) as nat,
                ));
            }
        }
    }
}

/// The errors that a running program can still meet once it has been validated.
pub open spec fn arithmetic_error(error: VmError) -> bool {
    error is DivisionByZero || error is IntegerOverflow
}

/// A state that a valid program can be in: it has not halted, and its stack has the depth that
/// validation found for the next instruction.
pub open spec fn sound_state(p: Seq<Instruction>, s: VmState) -> bool {
    &&& !s.halted
    &&& 0 <= s.instruction_pointer < p.len()
    &&& examine(p)->Ok_0.0[s.instruction_pointer] == Some(s.stack.len())
}

/// A step of a valid program from a sound state fails only in its arithmetic. Otherwise it halts
/// or leads to a sound state, and the stack holds at most the program's deepest stack.
pub proof fn law_valid_programs_step_soundly(p: Seq<Instruction>, s: VmState)
    requires
        valid_program(p),
        sound_state(p, s),
    ensures
        match step_of(p, s) {
            (next, Ok(StepResult::Executed { .. })) => sound_state(p, next) && next.stack.len()
                <= deepest_stack(p),
            (next, Ok(StepResult::Halted { .. })) => next.stack == s.stack && next.stack.len()
                <= deepest_stack(p),
            (_, Err(error)) => arithmetic_error(error),
        },
{
    law_valid_programs_have_consistent_depths(p);
    lemma_structure(p, 0);
    let depth_at = examine(p)->Ok_0.0;
    let i = s.instruction_pointer;
    assert(depth_at[i] == Some(s.stack.len()));
    let next = successors(p[i], i);
    if next.len() > 0 {
        assert(depth_at[next[0]] == Some((s.stack.len() + growth(p[i])) as nat));
    }
    if next.len() > 1 {
        assert(depth_at[next[1]] == Some((s.stack.len() + growth(p[i])) as nat));
    }
}

proof fn lemma_sound_run(p: Seq<Instruction>, s: VmState, fuel: nat)
    requires
        valid_program(p),
        sound_state(p, s),
    ensures
        run_from(p, s, fuel).1 matches Err(error) ==> arithmetic_error(error)
            || error is StepLimitExceeded,
        trace_from(p, s, fuel).1 matches Ok(entries) ==> forall|i: int|
            0 <= i < entries.len() ==> (#[trigger] entries[i]).stack.len() <= deepest_stack(p),
    decreases fuel,
{
    if fuel > 0 {
        law_valid_programs_step_soundly(p, s);
        if let (next, Ok(StepResult::Executed { .. })) = step_of(p, s) {
            lemma_sound_run(p, next, (fuel - 1) as nat);
        }
    }
}

/// A valid program never underflows its stack, runs past its end, jumps out of itself or halts
/// without a result: it fails only in its arithmetic or by exhausting its step budget. No stack of
/// its trace is deeper than validation says.
pub proof fn law_valid_programs_run_soundly(p: Seq<Instruction>, fuel: nat)
    requires
        valid_program(p),
    ensures
        run_from(p, initial_state(), fuel).1 matches Err(error) ==> arithmetic_error(error)
            || error is StepLimitExceeded,
        trace_from(p, initial_state(), fuel).1 matches Ok(entries) ==> forall|i: int|
            0 <= i < entries.len() ==> (#[trigger] entries[i]).stack.len() <= deepest_stack(p),
{
    law_valid_programs_have_consistent_depths(p);
    lemma_sound_run(p, initial_state(), fuel);
}

/// Without a conditional jump the walk through a program goes the way that the program runs: each
/// stack that it finds deeper than those before is one of the trace.
proof fn lemma_deepest_reached(
    p: Seq<Instruction>,
    depth_at: Seq<Option<nat>>,
    s: VmState,
    deepest: nat,
    fuel: nat,
)
    requires
        forall|i: int| 0 <= i < p.len() ==> !((#[trigger] p[i]) is Jz),
        depth_at.len() == p.len(),
        !s.halted,
        0 <= s.instruction_pointer < p.len(),
        explore(p, depth_at, seq![(s.instruction_pointer, s.stack.len())], deepest) is Ok,
        trace_from(p, s, fuel).1 is Ok,
    ensures
        ({
            let found = explore(
                p,
                depth_at,
                seq![(s.instruction_pointer, s.stack.len())],
                deepest,
            )->Ok_0.1;
            let entries = trace_from(p, s, fuel).1->Ok_0;
            &&& entries.len() > 0
            &&& found == deepest || exists|i: int|
                0 <= i < entries.len() && (#[trigger] entries[i]).stack.len() == found
        }),
    decreases fuel,
{
    let ip = s.instruction_pointer;
    let depth = s.stack.len();
    let pending = seq![(ip, depth)];
    let none = Seq::<(int, nat)>::empty();
    assert(pending.drop_last() =~= none);
    let entries = trace_from(p, s, fuel).1->Ok_0;
    let (next, outcome) = step_of(p, s);
    let instruction = p[ip];
    assert(!(instruction is Jz));
    let deeper = (depth + growth(instruction)) as nat;
    let onward = at_depth(successors(instruction, ip), deeper);
    let known = depth_at.update(ip, Some(depth));
    if depth_at[ip] is Some {
        assert(explore(p, depth_at, none, deepest)->Ok_0.1 == deepest);
    }
    if let Ok(StepResult::Executed { .. }) = outcome {
        assert(next.stack.len() == deeper);
        let rest = trace_from(p, next, (fuel - 1) as nat).1->Ok_0;
        assert(entries[0].stack.len() == deeper);
        if depth_at[ip] is None {
            assert(none + onward =~= seq![(next.instruction_pointer, next.stack.len())]);
            if next.instruction_pointer < p.len() {
                lemma_deepest_reached(p, known, next, greater(deepest, deeper), (fuel - 1) as nat);
                let found = explore(p, known, none + onward, greater(deepest, deeper))->Ok_0.1;
                if found != greater(deepest, deeper) {
                    let i = choose|i: int|
                        0 <= i < rest.len() && (#[trigger] rest[i]).stack.len() == found;
                    assert(entries[i + 1] == rest[i]);
                }
            }
        }
    } else {
        assert(entries[0].stack.len() == depth);
        if depth_at[ip] is None {
            assert(none + onward =~= none);
            assert(explore(p, known, none, greater(deepest, deeper))->Ok_0.1 == greater(
                deepest,
                deeper,
            ));
        }
    }
}

/// A valid program without a conditional jump reaches the deepest stack that validation finds.
pub proof fn law_deepest_stacks_are_reached(p: Seq<Instruction>, fuel: nat)
    requires
        valid_program(p),
        forall|i: int| 0 <= i < p.len() ==> !((#[trigger] p[i]) is Jz),
    ensures
        trace_from(p, initial_state(), fuel).1 matches Ok(entries) ==> exists|i: int|
            0 <= i < entries.len() && (#[trigger] entries[i]).stack.len() == deepest_stack(p),
{
    if let Ok(entries) = trace_from(p, initial_state(), fuel).1 {
        law_valid_programs_run_soundly(p, fuel);
        assert(seq![(0int, 0nat)] =~= seq![
            (initial_state().instruction_pointer, initial_state().stack.len()),
        ]);
        lemma_deepest_reached(p, no_depths(p.len()), initial_state(), 0, fuel);
        if deepest_stack(p) == 0 {
            assert(entries[0].stack.len() == 0);
        }
    }
}

// ---------------------------------------------------------------------------
// Reading back
// ---------------------------------------------------------------------------

/// Whether assembly has a line for an instruction.
pub open spec fn writable(instruction: Instruction) -> bool {
    !(instruction is Swap || instruction is Over || instruction is Neg || instruction is Not)
}

/// Whether `line` is one line of code: without line ends, comments or white space at its ends.
spec fn solid(line: Seq<char>) -> bool {
    &&& line.len() > 0
    &&& !white(line[0])
    &&& !white(line.last())
    &&& lacks(line, '\n')
    &&& lacks(line, '\r')
    &&& lacks(line, '#')
}

proof fn lemma_solid_row(line: Seq<char>, number: int)
    requires
        solid(line),
    ensures
        parse_row(line, number) == (match parse_fields(words_of(line), number) {
            Ok(instruction) => Ok(Some(instruction)),
            Err(found) => Err(found),
        }),
{
    lemma_find_char_is(line, '#', line.len() as int);
    assert(line.take(line.len() as int) =~= line);
    lemma_trim_solid(line);
}

proof fn lemma_mnemonic(instruction: Instruction)
    ensures
        ({
            let word = instruction.mnemonic()@;
            &&& solid(word)
            &&& upper_text(word) == word
            &&& words_of(word) == seq![word]
            &&& forall|i: int| 0 <= i < word.len() ==> !white(#[trigger] word[i])
        }),
{
    reveal_strlit("PUSH");
    reveal_strlit("ADD");
    reveal_strlit("SUB");
    reveal_strlit("MUL");
    reveal_strlit("DIV");
    reveal_strlit("DUP");
    reveal_strlit("POP");
    reveal_strlit("SWAP");
    reveal_strlit("OVER");
    reveal_strlit("EQ");
    reveal_strlit("LT");
    reveal_strlit("NEG");
    reveal_strlit("NOT");
    reveal_strlit("JMP");
    reveal_strlit("JZ");
    reveal_strlit("HALT");
    let word = instruction.mnemonic()@;
    assert forall|i: int| 0 <= i < word.len() implies 'A' <= #[trigger] word[i] <= 'Z' by {}
    assert(upper_text(word) =~= word);
    lemma_one_word(word);
}

proof fn lemma_with_operand(word: Seq<char>, operand: Seq<char>)
    requires
        solid(word),
        operand.len() > 0,
        forall|i: int| 0 <= i < word.len() ==> !white(#[trigger] word[i]),
        forall|i: int|
            0 <= i < operand.len() ==> ascii_digit(#[trigger] operand[i]) || operand[i] == '-',
    ensures
        solid(word + seq![' '] + operand),
        words_of(word + seq![' '] + operand) == seq![word, operand],
{
    let line = word + seq![' '] + operand;
    assert forall|i: int| 0 <= i < operand.len() implies !white(#[trigger] operand[i]) by {
        assert(ascii_digit(operand[i]) || operand[i] == '-');
    }
    lemma_two_words(word, operand);
    assert forall|i: int| 0 <= i < line.len() implies #[trigger] line[i] != '\n' && line[i] != '\r'
        && line[i] != '#' by {
        if i < word.len() {
            assert(line[i] == word[i]);
        } else if i > word.len() {
            assert(line[i] == operand[i - word.len() - 1]);
        }
    }
    assert(line[0] == word[0]);
    assert(line.last() == operand[operand.len() - 1]);
}

/// The line of an instruction is read as the instruction.
proof fn lemma_assembly_reads_back(instruction: Instruction, number: int)
    requires
        writable(instruction),
    ensures
        solid(instruction.assembly()),
        parse_row(instruction.assembly(), number) == Ok::<Option<Instruction>, Fault>(
            Some(instruction),
        ),
{
    lemma_mnemonic(instruction);
    let word = instruction.mnemonic()@;
    let line = instruction.assembly();
    reveal_strlit("PUSH");
    reveal_strlit("ADD");
    reveal_strlit("SUB");
    reveal_strlit("MUL");
    reveal_strlit("DIV");
    reveal_strlit("DUP");
    reveal_strlit("POP");
    reveal_strlit("EQ");
    reveal_strlit("LT");
    reveal_strlit("JMP");
    reveal_strlit("JZ");
    reveal_strlit("HALT");
    match instruction {
        Instruction::Push(value) => {
            reveal_strlit("PUSH ");
            let operand = signed_decimal(value as int);
            assert("PUSH "@ =~= word + seq![' ']);
            if value < 0 {
                lemma_decimal_digits((-value) as nat);
            } else {
                lemma_decimal_digits(value as nat);
            }
            lemma_with_operand(word, operand);
            law_signed_decimal_reads_back(value as int);
            lemma_solid_row(line, number);
        },
        Instruction::Jmp(target) => {
            reveal_strlit("JMP ");
            assert("JMP "@ =~= word + seq![' ']);
            lemma_decimal_digits(target as nat);
            lemma_with_operand(word, decimal(target as nat));
            law_decimal_reads_back(target as nat, usize::MAX as nat);
            assert("JMP"@ != "PUSH"@) by {
                assert("JMP"@.len() != "PUSH"@.len());
            }
            lemma_solid_row(line, number);
        },
        Instruction::Jz(target) => {
            reveal_strlit("JZ ");
            assert("JZ "@ =~= word + seq![' ']);
            lemma_decimal_digits(target as nat);
            lemma_with_operand(word, decimal(target as nat));
            law_decimal_reads_back(target as nat, usize::MAX as nat);
            assert("JZ"@.len() == 2 && "JMP"@.len() == 3 && "PUSH"@.len() == 4);
            lemma_solid_row(line, number);
        },
        _ => {
            lemma_plain(instruction);
            lemma_solid_row(line, number);
        },
    }
}

proof fn lemma_plain(instruction: Instruction)
    requires
        writable(instruction),
        !(instruction is Push || instruction is Jmp || instruction is Jz),
    ensures
        plain_instruction(instruction.mnemonic()@) == Some(instruction),
        instruction.mnemonic()@ != "PUSH"@,
        instruction.mnemonic()@ != "JMP"@,
        instruction.mnemonic()@ != "JZ"@,
{
    reveal_strlit("PUSH");
    reveal_strlit("JMP");
    reveal_strlit("JZ");
    reveal_strlit("ADD");
    reveal_strlit("SUB");
    reveal_strlit("MUL");
    reveal_strlit("DIV");
    reveal_strlit("DUP");
    reveal_strlit("POP");
    reveal_strlit("EQ");
    reveal_strlit("LT");
    reveal_strlit("HALT");
    let word = instruction.mnemonic()@;
    assert(word[0] != 'J');
    assert("JMP"@[0] == 'J' && "JZ"@[0] == 'J');
    assert("PUSH"@[1] == 'U' && "PUSH"@.len() == 4);
    assert("ADD"@[0] == 'A' && "SUB"@[0] == 'S' && "MUL"@[0] == 'M' && "DIV"@[1] == 'I'
        && "DUP"@[1] == 'U' && "DUP"@[0] == 'D' && "DIV"@[0] == 'D' && "POP"@[0] == 'P'
        && "EQ"@[0] == 'E' && "LT"@[0] == 'L' && "HALT"@[0] == 'H');
}

proof fn lemma_rows_read_back(p: Seq<Instruction>, index: int)
    requires
        0 <= index <= p.len(),
        forall|i: int| 0 <= i < p.len() ==> writable(#[trigger] p[i]),
    ensures
        parse_rows(source_lines(p), index) == Ok::<Seq<Instruction>, Fault>(p.skip(index)),
    decreases p.len() - index,
{
    if index < p.len() {
        lemma_rows_read_back(p, index + 1);
        assert(writable(p[index]));
        lemma_assembly_reads_back(p[index], index + 1);
        assert(source_lines(p)[index] == p[index].assembly());
        assert(seq![p[index]] + p.skip(index + 1) =~= p.skip(index));
    } else {
        assert(p.skip(index) =~= Seq::<Instruction>::empty());
    }
}

/// The text of a program is read as the program, unless it holds an instruction that assembly
/// has no line for.
pub proof fn law_sources_read_back(p: Seq<Instruction>)
    requires
        forall|i: int| 0 <= i < p.len() ==> writable(#[trigger] p[i]),
    ensures
        parse_source(source_of(p)) == Ok::<Seq<Instruction>, Fault>(p),
{
    reveal_strlit("\n");
    assert("\n"@ =~= seq!['\n']);
    let parts = source_lines(p);
    if p.len() > 0 {
        assert forall|i: int| 0 <= i < parts.len() implies (#[trigger] parts[i]).len() > 0 && lacks(
            parts[i],
            '\n',
        ) && lacks(parts[i], '\r') by {
            assert(writable(p[i]));
            lemma_assembly_reads_back(p[i], 0);
        }
        law_lines_undo_join(parts);
    } else {
        assert(parts =~= Seq::<Seq<char>>::empty());
        assert(lines_of(Seq::<char>::empty()) =~= parts);
    }
    lemma_rows_read_back(p, 0);
    assert(p.skip(0) =~= p);
}

/// The words of the code on the lines from `index` on; lines without code are left out.
pub open spec fn code_words(rows: Seq<Seq<char>>, index: int) -> Seq<Seq<Seq<char>>>
    decreases rows.len() - index,
{
    if !(0 <= index < rows.len()) {
        Seq::empty()
    } else if code_of(rows[index]).len() == 0 {
        code_words(rows, index + 1)
    } else {
        seq![words_of(code_of(rows[index]))] + code_words(rows, index + 1)
    }
}

/// Whether two lines of code have the same words, but for the letter case of the first.
pub open spec fn alike(a: Seq<Seq<char>>, b: Seq<Seq<char>>) -> bool {
    &&& a.len() == b.len()
    &&& upper_text(a[0]) == upper_text(b[0])
    &&& forall|i: int| 0 < i < a.len() ==> #[trigger] a[i] == b[i]
}

/// Whether two texts have the same code: the same words on the lines that hold any, but for the
/// letter case of the opcodes.
pub open spec fn same_code(a: Seq<char>, b: Seq<char>) -> bool {
    let x = code_words(lines_of(a), 0);
    let y = code_words(lines_of(b), 0);
    &&& x.len() == y.len()
    &&& forall|i: int| 0 <= i < x.len() ==> alike(#[trigger] x[i], #[trigger] y[i])
}

proof fn lemma_alike_fields(a: Seq<Seq<char>>, b: Seq<Seq<char>>, m: int, n: int)
    requires
        alike(a, b),
        parse_fields(a, m) is Ok,
    ensures
        parse_fields(b, n) == parse_fields(a, m),
{
    if a.len() == 2 {
        assert(a[1] == b[1]);
    }
}

proof fn lemma_rows_by_words(rows: Seq<Seq<char>>, index: int, p: Seq<Instruction>)
    requires
        0 <= index <= rows.len(),
    ensures
        parse_rows(rows, index) == Ok::<Seq<Instruction>, Fault>(p) <==> p.len() == code_words(
            rows,
            index,
        ).len() && forall|k: int|
            0 <= k < p.len() ==> parse_fields(#[trigger] code_words(rows, index)[k], 0) == Ok::<
                Instruction,
                Fault,
            >(p[k]),
    decreases rows.len() - index,
{
    let words = code_words(rows, index);
    if index == rows.len() {
        if p.len() == 0 {
            assert(p =~= Seq::<Instruction>::empty());
        }
    } else if code_of(rows[index]).len() == 0 {
        lemma_rows_by_words(rows, index + 1, p);
    } else {
        let fields = words_of(code_of(rows[index]));
        let rest = code_words(rows, index + 1);
        assert(alike(fields, fields));
        if parse_fields(fields, 0) is Ok {
            lemma_alike_fields(fields, fields, 0, index + 1);
        }
        if parse_fields(fields, index + 1) is Ok {
            lemma_alike_fields(fields, fields, index + 1, 0);
        }
        assert(words[0] == fields);
        assert(words.skip(1) =~= rest);
        if parse_rows(rows, index) == Ok::<Seq<Instruction>, Fault>(p) {
            let tail = parse_rows(rows, index + 1)->Ok_0;
            lemma_rows_by_words(rows, index + 1, tail);
            assert forall|k: int| 0 <= k < p.len() implies parse_fields(#[trigger] words[k], 0)
                == Ok::<Instruction, Fault>(p[k]) by {
                if k > 0 {
                    assert(words[k] == rest[k - 1]);
                    assert(p[k] == tail[k - 1]);
                }
            }
        }
        if p.len() == words.len() && forall|k: int|
            0 <= k < p.len() ==> parse_fields(#[trigger] words[k], 0) == Ok::<Instruction, Fault>(
                p[k],
            ) {
            let tail = p.skip(1);
            assert forall|k: int| 0 <= k < tail.len() implies parse_fields(#[trigger] rest[k], 0)
                == Ok::<Instruction, Fault>(tail[k]) by {
                assert(words[k + 1] == rest[k]);
            }
            lemma_rows_by_words(rows, index + 1, tail);
            assert(parse_fields(words[0], 0) == Ok::<Instruction, Fault>(p[0]));
            assert(seq![p[0]] + tail =~= p);
        }
    }
}

/// Texts with the same code denote the same program: blank lines, comments, spacing and the letter
/// case of the opcodes make no difference, so that a jump counts instructions and not lines.
pub proof fn law_sources_are_read_alike(a: Seq<char>, b: Seq<char>)
    requires
        same_code(a, b),
    ensures
        parse_source(a) is Ok <==> parse_source(b) is Ok,
        parse_source(a) is Ok ==> parse_source(b) == parse_source(a),
{
    let x = code_words(lines_of(a), 0);
    let y = code_words(lines_of(b), 0);
    if let Ok(p) = parse_source(a) {
        lemma_rows_by_words(lines_of(a), 0, p);
        assert forall|k: int| 0 <= k < p.len() implies parse_fields(#[trigger] y[k], 0) == Ok::<
            Instruction,
            Fault,
        >(p[k]) by {
            assert(alike(x[k], y[k]));
            lemma_alike_fields(x[k], y[k], 0, 0);
        }
        lemma_rows_by_words(lines_of(b), 0, p);
    }
    if let Ok(p) = parse_source(b) {
        lemma_rows_by_words(lines_of(b), 0, p);
        assert forall|k: int| 0 <= k < p.len() implies parse_fields(#[trigger] x[k], 0) == Ok::<
            Instruction,
            Fault,
        >(p[k]) by {
            assert(alike(x[k], y[k]));
            assert(alike(y[k], x[k]));
            lemma_alike_fields(y[k], x[k], 0, 0);
        }
        lemma_rows_by_words(lines_of(a), 0, p);
    }
}

/// A text with the code of a program denotes it, however it is spaced, commented and cased.
pub proof fn law_loose_sources_read_back(p: Seq<Instruction>, source: Seq<char>)
    requires
        forall|i: int| 0 <= i < p.len() ==> writable(#[trigger] p[i]),
        same_code(source_of(p), source),
    ensures
        parse_source(source) == Ok::<Seq<Instruction>, Fault>(p),
{
    law_sources_read_back(p);
    law_sources_are_read_alike(source_of(p), source);
}

/// A comment adds no code to its line.
pub proof fn law_comments_are_left_out(line: Seq<char>, comment: Seq<char>)
    ensures
        code_of(line + seq!['#'] + comment) == code_of(line),
{
    let whole = line + seq!['#'] + comment;
    let at = find_char(line, '#');
    lemma_find_char(line, '#');
    assert(whole[line.len() as int] == '#');
    assert forall|i: int| 0 <= i < at implies #[trigger] whole[i] != '#' by {
        assert(whole[i] == line[i]);
    }
    if at < line.len() {
        assert(whole[at] == line[at]);
    }
    lemma_find_char_is(whole, '#', at);
    assert(whole.take(at) =~= line.take(at));
}

/// The words of assembly, each for its instruction. `PUSH`, `JMP` and `JZ` have a number behind them.
pub proof fn law_mnemonics(value: i32, target: usize)
    ensures
        Instruction::Add.assembly() == "ADD"@,
        Instruction::Sub.assembly() == "SUB"@,
        Instruction::Mul.assembly() == "MUL"@,
        Instruction::Div.assembly() == "DIV"@,
        Instruction::Dup.assembly() == "DUP"@,
        Instruction::Pop.assembly() == "POP"@,
        Instruction::Swap.assembly() == "SWAP"@,
        Instruction::Over.assembly() == "OVER"@,
        Instruction::Eq.assembly() == "EQ"@,
        Instruction::Lt.assembly() == "LT"@,
        Instruction::Neg.assembly() == "NEG"@,
        Instruction::Not.assembly() == "NOT"@,
        Instruction::Halt.assembly() == "HALT"@,
        Instruction::Push(value).assembly() == "PUSH "@ + signed_decimal(value as int),
        Instruction::Jmp(target).assembly() == "JMP "@ + decimal(target as nat),
        Instruction::Jz(target).assembly() == "JZ "@ + decimal(target as nat),
{
}

/// A line that is the text of an instruction is read as that instruction.
pub proof fn law_lines_are_their_instructions(instruction: Instruction, number: int)
    requires
        writable(instruction),
    ensures
        parse_row(instruction.assembly(), number) == Ok::<Option<Instruction>, Fault>(
            Some(instruction),
        ),
{
    lemma_assembly_reads_back(instruction, number);
}

/// A program that is valid is neither empty nor longer than 65536 instructions. It ends with its only
/// `HALT`, and every jump in it leads to one of its instructions.
pub proof fn law_valid_programs_are_well_formed(p: Seq<Instruction>, i: int)
    requires
        valid_program(p),
    ensures
        1 <= p.len() <= 65_536,
        p.last() is Halt,
        0 <= i < p.len() - 1 ==> !(p[i] is Halt),
        0 <= i < p.len() ==> (p[i] matches Instruction::Jmp(target) ==> target < p.len()),
        0 <= i < p.len() ==> (p[i] matches Instruction::Jz(target) ==> target < p.len()),
{
    lemma_structure(p, 0);
    if 0 <= i < p.len() {
        assert(p[i] is Halt ==> i + 1 == p.len());
    }
}

/// A listing has a line for each instruction: its number in four digits, and the instruction.
pub proof fn law_listings_number_their_instructions(p: Seq<Instruction>, i: int)
    requires
        0 <= i < p.len(),
    ensures
        listing_lines(p).len() == p.len(),
        listing_lines(p)[i] == padded(i as nat, 4) + "  "@ + p[i].assembly(),
        listing(p) == joined(listing_lines(p), "\n"@),
{
}

/// A program of up to 65,536 instructions is judged by its instructions: only an empty one, a longer
/// one, one with a fault in an instruction and one that does not end with a halt are refused before
/// its paths are followed.
pub proof fn law_programs_are_bounded(p: Seq<Instruction>)
    ensures
        p.len() == 0 || p.len() > 65_536 ==> examine(p) is Err,
        1 <= p.len() <= 65_536 && structural_fault(p, 0) is None && p.last() is Halt ==> examine(p)
            == explore(p, no_depths(p.len()), seq![(0int, 0nat)], 0),
        p.len() > 0 && !(p.last() is Halt) ==> examine(p) is Err,
        p.len() > 0 && structural_fault(p, 0) is Some ==> examine(p) is Err,
{
}

} // verus!
