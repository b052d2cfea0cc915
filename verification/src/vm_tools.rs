//! The tools that expose the arithmetic VM to an agent.

use vstd::prelude::*;

use crate::agent_messages::{ToolArguments, ToolError, ToolSpec};
#[allow(unused_imports)]
use crate::agent_messages::{SpecModel, spec_models};
use crate::machine::{Instruction, StepResult, TraceEntry, Vm};
#[allow(unused_imports)]
use crate::machine::{
    MAX_VM_STEPS, TraceModel, VmError, VmState, initial_state, run_from, step_of, trace_from,
    trace_models,
};
use crate::program::Program;
#[allow(unused_imports)]
use crate::program::{Fault, examine, fault_text, parse_source, valid_program};
use crate::runtime_error::labelled;
#[allow(unused_imports)]
use crate::runtime_error::vm_error_text;
#[allow(unused_imports)]
use crate::text::{
    all_white, begins, decimal, joined, law_texts_hold_their_parts, padded, signed_decimal, texts,
};
use crate::text::{join, padded_text, same_text, signed_text, size_text};
use crate::tool_arguments::{ensure_arguments, required_text};
#[allow(unused_imports)]
use crate::tool_arguments::{
    law_arguments_are_found_by_name, law_arguments_have_their_kind,
    law_unexpected_arguments_are_refused, names_in, names_trouble, text_argument,
};
#[allow(unused_imports)]
use crate::tool_values::{Arguments, ToolModel, arguments_model};
#[allow(unused_imports)]
use crate::toolbox::{
    kept_at, law_new_names_are_registered, lemma_kept_at, one_more, tool_outcome, with_tools,
};
use crate::toolbox::{ToolRegistry, Toolbox};

verus! {

// ---------------------------------------------------------------------------
// Text
// ---------------------------------------------------------------------------

/// The texts of the values on a stack.
pub open spec fn stack_parts(stack: Seq<i32>) -> Seq<Seq<char>> {
    Seq::new(stack.len(), |i: int| signed_decimal(stack[i] as int))
}

/// A stack in brackets.
pub open spec fn stack_text(stack: Seq<i32>) -> Seq<char> {
    "["@ + joined(stack_parts(stack), ", "@) + "]"@
}

/// A stack in brackets.
pub fn format_stack(stack: &[i32]) -> (r: String)
    ensures
        r@ == stack_text(stack@),
{
    let ghost all = stack_parts(stack@);
    let mut parts: Vec<String> = Vec::new();
    let mut i: usize = 0;
    while i < stack.len()
        invariant
            i <= stack@.len(),
            all == stack_parts(stack@),
            texts(parts@) == all.take(i as int),
        decreases stack@.len() - i,
    {
        let part = signed_text(stack[i] as i64);
        let ghost before = parts@;
        parts.push(part);
        assert(texts(parts@) =~= texts(before).push(part@));
        assert(all.take(i + 1) =~= all.take(i as int).push(all[i as int]));
        i += 1;
    }
    assert(all.take(all.len() as int) =~= all);
    let mut r = "[".to_owned();
    r.push_str(join(&parts, ", ").as_str());
    r.push_str("]");
    r
}

/// The lines of a program with two-digit offsets.
pub open spec fn offset_lines(p: Seq<Instruction>) -> Seq<Seq<char>> {
    Seq::new(p.len(), |i: int| padded(i as nat, 2) + " "@ + p[i].assembly())
}

/// A program with two-digit offsets.
pub open spec fn offset_text(p: Seq<Instruction>) -> Seq<char> {
    joined(offset_lines(p), "\n"@)
}

/// A program with its length before it.
pub open spec fn program_text(p: Seq<Instruction>) -> Seq<char> {
    "instructions="@ + decimal(p.len()) + "\n"@ + offset_text(p)
}

fn format_offsets(program: &[Instruction]) -> (r: String)
    ensures
        r@ == offset_text(program@),
{
    let ghost all = offset_lines(program@);
    let mut parts: Vec<String> = Vec::new();
    let mut i: usize = 0;
    while i < program.len()
        invariant
            i <= program@.len(),
            all == offset_lines(program@),
            texts(parts@) == all.take(i as int),
        decreases program@.len() - i,
    {
        let mut part = padded_text(i as u64, 2);
        part.push_str(" ");
        part.push_str(program[i].to_text().as_str());
        let ghost before = parts@;
        let ghost added = part@;
        parts.push(part);
        assert(added == all[i as int]);
        assert(texts(parts@) =~= texts(before).push(added));
        assert(all.take(i + 1) =~= all.take(i as int).push(all[i as int]));
        i += 1;
    }
    assert(all.take(all.len() as int) =~= all);
    join(&parts, "\n")
}

fn format_program(program: &[Instruction]) -> (r: String)
    ensures
        r@ == program_text(program@),
{
    let mut r = "instructions=".to_owned();
    r.push_str(size_text(program.len()).as_str());
    r.push_str("\n");
    r.push_str(format_offsets(program).as_str());
    r
}

/// One line of a trace.
pub open spec fn trace_line(entry: TraceModel) -> Seq<char> {
    "ip="@ + decimal(entry.instruction_pointer as nat) + " instruction="@ + (match entry.result {
        Some(result) => "HALT result="@ + signed_decimal(result as int),
        None => entry.instruction.assembly(),
    }) + " stack="@ + stack_text(entry.stack)
}

/// The lines of a trace.
pub open spec fn trace_lines(entries: Seq<TraceModel>) -> Seq<Seq<char>> {
    Seq::new(entries.len(), |i: int| trace_line(entries[i]))
}

pub(crate) fn format_trace_entry(entry: &TraceEntry) -> (r: String)
    ensures
        r@ == trace_line(entry@),
{
    let mut r = "ip=".to_owned();
    r.push_str(size_text(entry.instruction_pointer).as_str());
    r.push_str(" instruction=");
    let middle = match entry.result {
        Some(result) => labelled("HALT result=", signed_text(result as i64).as_str()),
        None => entry.instruction.to_text(),
    };
    r.push_str(middle.as_str());
    r.push_str(" stack=");
    r.push_str(format_stack(entry.stack.as_slice()).as_str());
    r
}

fn format_trace(entries: &Vec<TraceEntry>) -> (r: String)
    ensures
        r@ == joined(trace_lines(trace_models(entries@)), "\n"@),
{
    let ghost all = trace_lines(trace_models(entries@));
    let mut parts: Vec<String> = Vec::new();
    let mut i: usize = 0;
    while i < entries.len()
        invariant
            i <= entries@.len(),
            all == trace_lines(trace_models(entries@)),
            texts(parts@) == all.take(i as int),
        decreases entries@.len() - i,
    {
        let part = format_trace_entry(&entries[i]);
        assert(trace_models(entries@)[i as int] == entries@[i as int]@);
        let ghost before = parts@;
        parts.push(part);
        assert(texts(parts@) =~= texts(before).push(part@));
        assert(all.take(i + 1) =~= all.take(i as int).push(all[i as int]));
        i += 1;
    }
    assert(all.take(all.len() as int) =~= all);
    join(&parts, "\n")
}

// ---------------------------------------------------------------------------
// What the tools do
// ---------------------------------------------------------------------------

/// The program in a source text, or what is wrong with it.
pub open spec fn program_in(source: Seq<char>) -> Result<Seq<Instruction>, Seq<char>> {
    match parse_source(source) {
        Err(fault) => Err(fault_text(fault)),
        Ok(program) => match examine(program) {
            Err(fault) => Err(fault_text(fault)),
            Ok(_) => Ok(program),
        },
    }
}

/// What the VM tools work on.
#[verifier::ext_equal]
pub struct VmToolsModel {
    pub program: Seq<Instruction>,
    pub vm: VmState,
}

/// The VM tools before a program is loaded.
pub open spec fn idle_tools() -> VmToolsModel {
    VmToolsModel { program: Seq::empty(), vm: initial_state() }
}

/// The program that a call brings along.
pub open spec fn program_argument(a: Arguments) -> Result<Seq<Instruction>, Seq<char>> {
    match names_trouble(a, seq!["program"@]) {
        Some(trouble) => Err(trouble),
        None => match text_argument(a, "program"@) {
            Err(message) => Err(message),
            Ok(source) => program_in(source),
        },
    }
}

/// `ip=` and the stack of a VM.
pub open spec fn vm_text(vm: VmState) -> Seq<char> {
    " ip="@ + decimal(vm.instruction_pointer as nat) + " stack="@ + stack_text(vm.stack)
}

/// What is said of an error of the VM.
pub open spec fn vm_failure(error: VmError) -> Seq<char> {
    "vm error: "@ + vm_error_text(error)
}

/// Validates a program and shows it.
pub open spec fn compile_tool(a: Arguments) -> Result<Seq<char>, Seq<char>> {
    match program_argument(a) {
        Err(message) => Err(message),
        Ok(program) => Ok(program_text(program)),
    }
}

/// Runs a program on a VM of its own and shows every instruction.
pub open spec fn trace_tool(a: Arguments) -> Result<Seq<char>, Seq<char>> {
    match program_argument(a) {
        Err(message) => Err(message),
        Ok(program) => match trace_from(program, initial_state(), MAX_VM_STEPS as nat).1 {
            Err(error) => Err(vm_failure(error)),
            Ok(entries) => Ok(joined(trace_lines(entries), "\n"@)),
        },
    }
}

/// Loads a program and runs it.
pub open spec fn run_tool(s: VmToolsModel, a: Arguments) -> (
    VmToolsModel,
    Result<Seq<char>, Seq<char>>,
) {
    match program_argument(a) {
        Err(message) => (s, Err(message)),
        Ok(program) => {
            let (vm, outcome) = run_from(program, initial_state(), MAX_VM_STEPS as nat);
            (
                VmToolsModel { program, vm },
                match outcome {
                    Err(error) => Err(vm_failure(error)),
                    Ok(result) => Ok("result="@ + signed_decimal(result as int) + vm_text(vm)),
                },
            )
        },
    }
}

/// Executes one instruction of the loaded program.
pub open spec fn step_tool(s: VmToolsModel, a: Arguments) -> (
    VmToolsModel,
    Result<Seq<char>, Seq<char>>,
) {
    match names_trouble(a, Seq::empty()) {
        Some(trouble) => (s, Err(trouble)),
        None => {
            let (vm, outcome) = step_of(s.program, s.vm);
            (
                VmToolsModel { vm, ..s },
                match outcome {
                    Err(error) => Err(vm_failure(error)),
                    Ok(StepResult::Executed { instruction }) => Ok(
                        "executed="@ + instruction.assembly() + vm_text(vm),
                    ),
                    Ok(StepResult::Halted { result }) => Ok(
                        "halted result="@ + signed_decimal(result as int) + vm_text(vm),
                    ),
                },
            )
        },
    }
}

pub open spec fn flag_text(flag: bool) -> Seq<char> {
    if flag {
        "true"@
    } else {
        "false"@
    }
}

/// Shows the VM.
pub open spec fn inspect_tool(s: VmToolsModel, a: Arguments) -> Result<Seq<char>, Seq<char>> {
    match names_trouble(a, Seq::empty()) {
        Some(trouble) => Err(trouble),
        None => Ok(
            "loaded="@ + flag_text(s.program.len() > 0) + " ip="@ + decimal(
                s.vm.instruction_pointer as nat,
            ) + " halted="@ + flag_text(s.vm.halted) + " stack="@ + stack_text(s.vm.stack),
        ),
    }
}

/// Shows the loaded program.
pub open spec fn disassemble_tool(s: VmToolsModel, a: Arguments) -> Result<Seq<char>, Seq<char>> {
    match names_trouble(a, Seq::empty()) {
        Some(trouble) => Err(trouble),
        None => if s.program.len() == 0 {
            Err("no program is loaded"@)
        } else {
            Ok(offset_text(s.program))
        },
    }
}

/// Resets the VM.
pub open spec fn reset_tool(s: VmToolsModel, a: Arguments) -> (
    VmToolsModel,
    Result<Seq<char>, Seq<char>>,
) {
    match names_trouble(a, Seq::empty()) {
        Some(trouble) => (s, Err(trouble)),
        None => (VmToolsModel { vm: initial_state(), ..s }, Ok("vm reset"@)),
    }
}

/// What a call of one of the VM tools does.
pub open spec fn vm_tool(s: VmToolsModel, name: Seq<char>, a: Arguments) -> (
    VmToolsModel,
    Result<Seq<char>, Seq<char>>,
) {
    if name == "compile_program"@ {
        (s, compile_tool(a))
    } else if name == "trace_program"@ {
        (s, trace_tool(a))
    } else if name == "run_program"@ {
        run_tool(s, a)
    } else if name == "step_vm"@ {
        step_tool(s, a)
    } else if name == "inspect_vm"@ {
        (s, inspect_tool(s, a))
    } else if name == "disassemble_program"@ {
        (s, disassemble_tool(s, a))
    } else if name == "reset_vm"@ {
        reset_tool(s, a)
    } else {
        (s, Err("unknown tool: "@ + name))
    }
}

/// The program in a source text.
pub fn parse_program(source: &str) -> (r: Result<Vec<Instruction>, ToolError>)
    ensures
        match r {
            Ok(program) => program_in(source@) == Ok::<Seq<Instruction>, Seq<char>>(program@)
                && valid_program(program@),
            Err(error) => program_in(source@) == Err::<Seq<Instruction>, Seq<char>>(error@),
        },
{
    match Program::from_source(source) {
        Ok(program) => Ok(program.into_instructions()),
        Err(error) => Err(ToolError { message: error.to_text() }),
    }
}

fn given_program(arguments: &ToolArguments) -> (r: Result<Vec<Instruction>, ToolError>)
    ensures
        match r {
            Ok(program) => program_argument(arguments_model(arguments@)) == Ok::<
                Seq<Instruction>,
                Seq<char>,
            >(program@) && valid_program(program@),
            Err(error) => program_argument(arguments_model(arguments@)) == Err::<
                Seq<Instruction>,
                Seq<char>,
            >(error@),
        },
{
    let allowed = vec!["program"];
    assert(names_in(allowed@) =~= seq!["program"@]);
    match ensure_arguments(arguments, allowed) {
        Err(error) => return Err(error),
        Ok(_) => {},
    }
    match required_text(arguments, "program") {
        Err(error) => Err(error),
        Ok(source) => parse_program(source.as_str()),
    }
}

fn no_arguments(arguments: &ToolArguments) -> (r: Result<(), ToolError>)
    ensures
        match r {
            Ok(_) => names_trouble(arguments_model(arguments@), Seq::empty()) is None,
            Err(error) => names_trouble(arguments_model(arguments@), Seq::empty()) == Some(
                error@,
            ),
        },
{
    let allowed: Vec<&'static str> = Vec::new();
    assert(names_in(allowed@) =~= Seq::<Seq<char>>::empty());
    ensure_arguments(arguments, allowed)
}

/// The VM tools and the state that they share.
#[derive(Debug)]
pub struct VmTools {
    program: Vec<Instruction>,
    vm: Vm,
}

impl View for VmTools {
    type V = VmToolsModel;

    closed spec fn view(&self) -> VmToolsModel {
        VmToolsModel { program: self.program@, vm: self.vm@ }
    }
}

fn tool_error(error: crate::machine::VmError) -> (r: ToolError)
    ensures
        r@ == vm_failure(error),
{
    ToolError { message: labelled("vm error: ", error.to_text().as_str()) }
}

fn flag_word(flag: bool) -> (r: &'static str)
    ensures
        r@ == flag_text(flag),
{
    if flag {
        "true"
    } else {
        "false"
    }
}

impl VmTools {
    pub fn new() -> (r: Self)
        ensures
            r@ == idle_tools(),
    {
        VmTools { program: Vec::new(), vm: Vm::new() }
    }

    fn vm_suffix(&self, prefix: String) -> (r: String)
        ensures
            r@ == prefix@ + vm_text(self@.vm),
    {
        let ghost start = prefix@;
        let mut r = prefix;
        r.push_str(" ip=");
        r.push_str(size_text(self.vm.instruction_pointer()).as_str());
        r.push_str(" stack=");
        r.push_str(format_stack(self.vm.stack()).as_str());
        assert(r@ =~= start + vm_text(self@.vm));
        r
    }

    fn run_program(&mut self, arguments: &ToolArguments) -> (r: Result<String, ToolError>)
        ensures
            (final(self)@, tool_outcome(r)) == run_tool(
                old(self)@,
                arguments_model(arguments@),
            ),
    {
        match given_program(arguments) {
            Err(error) => Err(error),
            Ok(program) => {
                let outcome = self.vm.run(program.as_slice());
                self.program = program;
                match outcome {
                    Err(error) => Err(tool_error(error)),
                    Ok(result) => Ok(
                        self.vm_suffix(labelled("result=", signed_text(result as i64).as_str())),
                    ),
                }
            },
        }
    }

    fn step_vm(&mut self, arguments: &ToolArguments) -> (r: Result<String, ToolError>)
        ensures
            (final(self)@, tool_outcome(r)) == step_tool(
                old(self)@,
                arguments_model(arguments@),
            ),
    {
        match no_arguments(arguments) {
            Err(error) => return Err(error),
            Ok(_) => {},
        }
        match self.vm.step(self.program.as_slice()) {
            Err(error) => Err(tool_error(error)),
            Ok(StepResult::Executed { instruction }) => Ok(
                self.vm_suffix(labelled("executed=", instruction.to_text().as_str())),
            ),
            Ok(StepResult::Halted { result }) => Ok(
                self.vm_suffix(labelled("halted result=", signed_text(result as i64).as_str())),
            ),
        }
    }

    fn inspect_vm(&self, arguments: &ToolArguments) -> (r: Result<String, ToolError>)
        ensures
            tool_outcome(r) == inspect_tool(self@, arguments_model(arguments@)),
    {
        match no_arguments(arguments) {
            Err(error) => return Err(error),
            Ok(_) => {},
        }
        let mut r = "loaded=".to_owned();
        r.push_str(flag_word(self.program.len() > 0));
        r.push_str(" ip=");
        r.push_str(size_text(self.vm.instruction_pointer()).as_str());
        r.push_str(" halted=");
        r.push_str(flag_word(self.vm.is_halted()));
        r.push_str(" stack=");
        r.push_str(format_stack(self.vm.stack()).as_str());
        Ok(r)
    }

    fn disassemble_program(&self, arguments: &ToolArguments) -> (r: Result<String, ToolError>)
        ensures
            tool_outcome(r) == disassemble_tool(self@, arguments_model(arguments@)),
    {
        match no_arguments(arguments) {
            Err(error) => return Err(error),
            Ok(_) => {},
        }
        if self.program.len() == 0 {
            return Err(ToolError::new("no program is loaded"));
        }
        Ok(format_offsets(self.program.as_slice()))
    }

    fn reset_vm(&mut self, arguments: &ToolArguments) -> (r: Result<String, ToolError>)
        ensures
            (final(self)@, tool_outcome(r)) == reset_tool(
                old(self)@,
                arguments_model(arguments@),
            ),
    {
        match no_arguments(arguments) {
            Err(error) => return Err(error),
            Ok(_) => {},
        }
        self.vm.reset();
        Ok("vm reset".to_owned())
    }
}

fn compile_program(arguments: &ToolArguments) -> (r: Result<String, ToolError>)
    ensures
        tool_outcome(r) == compile_tool(arguments_model(arguments@)),
{
    match given_program(arguments) {
        Err(error) => Err(error),
        Ok(program) => Ok(format_program(program.as_slice())),
    }
}

fn trace_program(arguments: &ToolArguments) -> (r: Result<String, ToolError>)
    ensures
        tool_outcome(r) == trace_tool(arguments_model(arguments@)),
{
    match given_program(arguments) {
        Err(error) => Err(error),
        Ok(program) => match Program::new(program) {
            Err(error) => Err(ToolError { message: error.to_text() }),
            Ok(program) => {
                let mut vm = Vm::new();
                match vm.trace(&program) {
                    Err(error) => Err(tool_error(error)),
                    Ok(entries) => Ok(format_trace(&entries)),
                }
            },
        },
    }
}

impl Toolbox for VmTools {
    fn execute(&mut self, name: &str, arguments: &ToolArguments) -> (r: Result<String, ToolError>)
        ensures
            (final(self)@, tool_outcome(r)) == vm_tool(
                old(self)@,
                name@,
                arguments_model(arguments@),
            ),
    {
        if same_text(name, "compile_program") {
            compile_program(arguments)
        } else if same_text(name, "trace_program") {
            trace_program(arguments)
        } else if same_text(name, "run_program") {
            self.run_program(arguments)
        } else if same_text(name, "step_vm") {
            self.step_vm(arguments)
        } else if same_text(name, "inspect_vm") {
            self.inspect_vm(arguments)
        } else if same_text(name, "disassemble_program") {
            self.disassemble_program(arguments)
        } else if same_text(name, "reset_vm") {
            self.reset_vm(arguments)
        } else {
            Err(ToolError { message: labelled("unknown tool: ", name) })
        }
    }
}

/// The descriptions of the VM tools.
pub open spec fn vm_tool_models() -> Seq<SpecModel> {
    let with_program =
        "{\"type\":\"object\",\"properties\":{\"program\":{\"type\":\"string\"}},\"required\":[\"program\"]}"@;
    let bare = "{\"type\":\"object\",\"properties\":{}}"@;
    seq![
        SpecModel {
            name: "compile_program"@,
            description: "Validate a newline-delimited A/RVM program and show its instructions."@,
            input_schema: with_program,
        },
        SpecModel {
            name: "trace_program"@,
            description:
                "Execute a newline-delimited A/RVM program and return every instruction with its stack."@,
            input_schema: with_program,
        },
        SpecModel {
            name: "run_program"@,
            description: "Load and execute a newline-delimited A/RVM program."@,
            input_schema: with_program,
        },
        SpecModel {
            name: "step_vm"@,
            description: "Execute one instruction from the loaded program."@,
            input_schema: bare,
        },
        SpecModel {
            name: "inspect_vm"@,
            description: "Inspect the loaded program's instruction pointer and value stack."@,
            input_schema: bare,
        },
        SpecModel {
            name: "disassemble_program"@,
            description: "Show the loaded program with instruction offsets."@,
            input_schema: bare,
        },
        SpecModel {
            name: "reset_vm"@,
            description: "Reset the loaded VM to its initial state."@,
            input_schema: bare,
        },
    ]
}

/// The descriptions of the VM tools.
pub fn vm_tool_specs() -> (r: Vec<ToolSpec>)
    ensures
        spec_models(r@) == vm_tool_models(),
{
    let with_program =
        "{\"type\":\"object\",\"properties\":{\"program\":{\"type\":\"string\"}},\"required\":[\"program\"]}";
    let bare = "{\"type\":\"object\",\"properties\":{}}";
    let r = vec![
        ToolSpec::new(
            "compile_program",
            "Validate a newline-delimited A/RVM program and show its instructions.",
            with_program,
        ),
        ToolSpec::new(
            "trace_program",
            "Execute a newline-delimited A/RVM program and return every instruction with its stack.",
            with_program,
        ),
        ToolSpec::new(
            "run_program",
            "Load and execute a newline-delimited A/RVM program.",
            with_program,
        ),
        ToolSpec::new("step_vm", "Execute one instruction from the loaded program.", bare),
        ToolSpec::new(
            "inspect_vm",
            "Inspect the loaded program's instruction pointer and value stack.",
            bare,
        ),
        ToolSpec::new(
            "disassemble_program",
            "Show the loaded program with instruction offsets.",
            bare,
        ),
        ToolSpec::new("reset_vm", "Reset the loaded VM to its initial state.", bare),
    ];
    assert(spec_models(r@) =~= vm_tool_models());
    r
}

proof fn lemma_vm_tool_names()
    ensures
        forall|i: int, j: int|
            0 <= i < j < vm_tool_models().len() ==> (#[trigger] vm_tool_models()[i]).name != (
            #[trigger] vm_tool_models()[j]).name,
{
    reveal_strlit("compile_program");
    reveal_strlit("trace_program");
    reveal_strlit("run_program");
    reveal_strlit("step_vm");
    reveal_strlit("inspect_vm");
    reveal_strlit("disassemble_program");
    reveal_strlit("reset_vm");
    let names = vm_tool_models();
    assert(names[0].name.len() == 15);
    assert(names[1].name.len() == 13);
    assert(names[2].name.len() == 11);
    assert(names[3].name.len() == 7);
    assert(names[4].name.len() == 10);
    assert(names[5].name.len() == 19);
    assert(names[6].name.len() == 8);
}

/// Create the first set of tools that expose the VM to an agent.
pub fn vm_tool_registry() -> (r: Result<ToolRegistry, ToolError>)
    ensures
        r matches Ok(registry) && {
            &&& registry@ == with_tools(Seq::empty(), vm_tool_models(), 7)
            &&& kept_at(registry, vm_tool_models(), 0)
            &&& exists|tools: VmTools|
                one_more(Seq::empty(), registry.held(), Box::new(tools)) && #[trigger] tools@
                    == idle_tools()
        },
{
    proof {
        lemma_vm_tool_names();
        law_new_names_are_registered(Seq::empty(), vm_tool_models(), 0);
    }
    let mut registry = ToolRegistry::new();
    let specs = vm_tool_specs();
    let ghost described = specs@;
    let tools = VmTools::new();
    let ghost held = tools;
    match registry.register_all(specs, tools) {
        Err(error) => Err(error),
        Ok(_) => {
            proof {
                lemma_kept_at(registry, described, 0);
                assert(held@ == idle_tools());
            }
            Ok(registry)
        },
    }
}

/// The tools of the VM on a program that is valid: compiling shows it, running leaves it loaded and
/// tells its result, and a step of what is loaded is a step of its machine. A reset goes back to the
/// beginning, and looking changes nothing.
pub proof fn law_vm_tools_work_on_their_program(
    s: VmToolsModel,
    source: Seq<char>,
    program: Seq<Instruction>,
)
    requires
        parse_source(source) == Ok::<Seq<Instruction>, Fault>(program),
        valid_program(program),
        !all_white(source),
    ensures
        ({
            let given: Arguments = seq![("program"@, ToolModel::Text(source))];
            let none: Arguments = Seq::empty();
            let (end, outcome) = run_from(
                program,
                VmState { stack: Seq::empty(), instruction_pointer: 0, halted: false },
                1_000_000,
            );
            let (ran, told) = vm_tool(s, "run_program"@, given);
            let (stepped, said) = vm_tool(s, "step_vm"@, none);
            let (vm, step) = step_of(s.program, s.vm);
            &&& vm_tool(s, "compile_program"@, given) == (
                s,
                Ok::<Seq<char>, Seq<char>>(program_text(program)),
            )
            &&& ran == (VmToolsModel { program, vm: end })
            &&& outcome matches Ok(value) ==> (told matches Ok(text) && begins(
                text,
                "result="@ + signed_decimal(value as int),
            ))
            &&& outcome is Err ==> told is Err
            &&& stepped == (VmToolsModel { program: s.program, vm })
            &&& said is Ok <==> step is Ok
            &&& vm_tool(s, "reset_vm"@, none).0 == (VmToolsModel {
                program: s.program,
                vm: VmState { stack: Seq::empty(), instruction_pointer: 0, halted: false },
            })
            &&& vm_tool(s, "inspect_vm"@, none).0 == s
            &&& vm_tool(s, "disassemble_program"@, none).0 == s
            &&& vm_tool(s, "disassemble_program"@, none).1 is Ok <==> s.program.len() > 0
        }),
{
    reveal_strlit("compile_program");
    reveal_strlit("trace_program");
    reveal_strlit("run_program");
    reveal_strlit("step_vm");
    reveal_strlit("inspect_vm");
    reveal_strlit("disassemble_program");
    reveal_strlit("reset_vm");
    assert("compile_program"@.len() == 15);
    assert("trace_program"@.len() == 13);
    assert("run_program"@.len() == 11);
    assert("step_vm"@.len() == 7);
    assert("inspect_vm"@.len() == 10);
    assert("disassemble_program"@.len() == 19);
    assert("reset_vm"@.len() == 8);
    let given: Arguments = seq![("program"@, ToolModel::Text(source))];
    let none: Arguments = Seq::empty();
    assert(seq!["program"@][0] == "program"@);
    law_unexpected_arguments_are_refused(given, seq!["program"@], 1);
    law_unexpected_arguments_are_refused(none, Seq::empty(), 0);
    law_arguments_are_found_by_name(given, "program"@, 0);
    law_arguments_have_their_kind(given, "program"@, source, 0);
    let (end, outcome) = run_from(program, initial_state(), MAX_VM_STEPS as nat);
    if let Ok(value) = outcome {
        let front = "result="@ + signed_decimal(value as int);
        assert(front + vm_text(end) == "result="@ + signed_decimal(value as int) + vm_text(end));
        law_texts_hold_their_parts(front + vm_text(end), front);
    }
}

} // verus!
