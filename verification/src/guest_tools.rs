//! Agent tools backed exclusively by a [`VmInstance`].
//!
//! These tools are the migration boundary away from host workspace access:
//! every path and process operation is resolved by the guest runtime. They do
//! not invoke a host shell or read the host filesystem.

use vstd::prelude::*;
#[allow(unused_imports)]
use vstd::utf8::encode_utf8;

use crate::agent_messages::{ToolArguments, ToolError, ToolSpec};
#[allow(unused_imports)]
use crate::agent_messages::{SpecModel, spec_models};
#[allow(unused_imports)]
use crate::filesystem::{
    Listed, law_write_then_read, list_at, listed_entries, mkdir_at, sound_fs, text_at, write_at,
};
use crate::machine::Instruction;
use crate::runtime::{
    DirectoryEntry, EntryKind, ProcessEvent, ProcessInfo, ProcessState, VmInstance, WaitStatus,
};
#[allow(unused_imports)]
use crate::runtime::{
    EventModel, InfoModel, InstanceState, StateModel, WaitModel, event_models, idle_from, info,
    spawn_in, tick_of, wait_in, with_fs,
};
use crate::runtime_error::labelled;
#[allow(unused_imports)]
use crate::runtime_error::{Pid, Trouble, trouble_text};
#[allow(unused_imports)]
use crate::tabulation::{inspect_pdf, pdf_json, table_json, tabulate};
use crate::tabulation::{inspect_uploaded_pdf, tabulate_uploaded_file, write_pdf, write_table};
#[allow(unused_imports)]
use crate::text::{all_white, byte_len, decimal, joined, signed_decimal, texts};
use crate::text::{byte_count, decimal_text, join, same_text, signed_text, size_text};
use crate::tool_arguments::{
    ensure_arguments, optional_bool, optional_integer, optional_string_list, optional_text,
    required_pid, required_text, required_text_allow_empty,
};
#[allow(unused_imports)]
use crate::tool_arguments::{
    any_text_argument, law_arguments_are_found_by_name, law_arguments_have_their_kind,
    law_unexpected_arguments_are_refused, maybe_bool, maybe_integer, maybe_text, must_be, names_in,
    names_trouble, positive_argument, text_argument, texts_argument,
};
#[allow(unused_imports)]
use crate::tool_values::{Arguments, ToolModel, arguments_model};
#[allow(unused_imports)]
use crate::toolbox::{
    first_shared, just_two, kept_at, law_new_names_are_registered,
    law_tools_with_other_names_can_be_merged, lemma_kept_at, lemma_kept_in_merges, lemma_with_tools,
    merged, one_more, registered, tool_outcome, with_tools,
};
use crate::toolbox::{ToolRegistry, Toolbox};
#[allow(unused_imports)]
use crate::vm_tools::{VmTools, idle_tools, program_in, stack_text, vm_tool_models};
use crate::vm_tools::{format_stack, parse_program, vm_tool_registry};

verus! {

// ---------------------------------------------------------------------------
// Text
// ---------------------------------------------------------------------------

/// The `Debug` form of a text: in quotes, with what cannot be shown escaped.
pub uninterp spec fn debug_form(text: Seq<char>) -> Seq<char>;

/// The `Debug` form of a `str`, by `format!`. It depends on the text alone and is called
/// [`debug_form`]; nothing more is said of it.
#[verifier::external_body]
fn debug_text(text: &str) -> (r: String)
    ensures
        r@ == debug_form(text@),
{
    format!("{text:?}")
}

/// The `Debug` forms of texts.
pub open spec fn debug_parts(list: Seq<Seq<char>>) -> Seq<Seq<char>> {
    Seq::new(list.len(), |i: int| debug_form(list[i]))
}

/// A list of texts in brackets.
pub open spec fn list_text(list: Seq<Seq<char>>) -> Seq<char> {
    "["@ + joined(debug_parts(list), ", "@) + "]"@
}

fn format_list(list: &Vec<String>) -> (r: String)
    ensures
        r@ == list_text(texts(list@)),
{
    let ghost all = debug_parts(texts(list@));
    let mut parts: Vec<String> = Vec::new();
    let mut i: usize = 0;
    while i < list.len()
        invariant
            i <= list@.len(),
            all == debug_parts(texts(list@)),
            texts(parts@) == all.take(i as int),
        decreases list@.len() - i,
    {
        let part = debug_text(list[i].as_str());
        assert(texts(list@)[i as int] == list@[i as int]@);
        let ghost before = parts@;
        parts.push(part);
        assert(texts(parts@) =~= texts(before).push(part@));
        assert(all.take(i + 1) =~= all.take(i as int).push(all[i as int]));
        i += 1;
    }
    assert(all.take(all.len() as int) =~= all);
    let mut r = "[".to_owned();
    r.push_str(join(&parts, ", ").as_str());
    r.push_str("]");
    r
}

/// The name of an instruction, with its operand in brackets.
pub open spec fn instruction_text(instruction: Instruction) -> Seq<char> {
    match instruction {
        Instruction::Push(value) => "Push("@ + signed_decimal(value as int) + ")"@,
        Instruction::Add => "Add"@,
        Instruction::Sub => "Sub"@,
        Instruction::Mul => "Mul"@,
        Instruction::Div => "Div"@,
        Instruction::Dup => "Dup"@,
        Instruction::Pop => "Pop"@,
        Instruction::Swap => "Swap"@,
        Instruction::Over => "Over"@,
        Instruction::Eq => "Eq"@,
        Instruction::Lt => "Lt"@,
        Instruction::Neg => "Neg"@,
        Instruction::Not => "Not"@,
        Instruction::Jmp(target) => "Jmp("@ + decimal(target as nat) + ")"@,
        Instruction::Jz(target) => "Jz("@ + decimal(target as nat) + ")"@,
        Instruction::Halt => "Halt"@,
    }
}

fn format_instruction(instruction: Instruction) -> (r: String)
    ensures
        r@ == instruction_text(instruction),
{
    match instruction {
        Instruction::Push(value) => in_brackets("Push(", signed_text(value as i64).as_str()),
        Instruction::Add => "Add".to_owned(),
        Instruction::Sub => "Sub".to_owned(),
        Instruction::Mul => "Mul".to_owned(),
        Instruction::Div => "Div".to_owned(),
        Instruction::Dup => "Dup".to_owned(),
        Instruction::Pop => "Pop".to_owned(),
        Instruction::Swap => "Swap".to_owned(),
        Instruction::Over => "Over".to_owned(),
        Instruction::Eq => "Eq".to_owned(),
        Instruction::Lt => "Lt".to_owned(),
        Instruction::Neg => "Neg".to_owned(),
        Instruction::Not => "Not".to_owned(),
        Instruction::Jmp(target) => in_brackets("Jmp(", size_text(target).as_str()),
        Instruction::Jz(target) => in_brackets("Jz(", size_text(target).as_str()),
        Instruction::Halt => "Halt".to_owned(),
    }
}

fn in_brackets(open: &str, inner: &str) -> (r: String)
    ensures
        r@ == open@ + inner@ + ")"@,
{
    let mut r = open.to_owned();
    r.push_str(inner);
    r.push_str(")");
    r
}

/// One line of a directory listing.
pub open spec fn entry_text(entry: Listed) -> Seq<char> {
    (match entry.kind {
        EntryKind::Directory => "dir"@,
        EntryKind::File => "file"@,
    }) + " "@ + entry.name + " size="@ + decimal(entry.size)
}

/// A directory listing.
pub open spec fn entries_text(entries: Seq<Listed>) -> Seq<char> {
    if entries.len() == 0 {
        "(empty)"@
    } else {
        joined(Seq::new(entries.len(), |i: int| entry_text(entries[i])), "\n"@)
    }
}

fn format_entries(entries: &Vec<DirectoryEntry>) -> (r: String)
    ensures
        r@ == entries_text(listed_entries(entries@)),
{
    let ghost models = listed_entries(entries@);
    assert(models.len() == entries@.len());
    if entries.len() == 0 {
        return "(empty)".to_owned();
    }
    let ghost all = Seq::new(models.len(), |i: int| entry_text(models[i]));
    let mut parts: Vec<String> = Vec::new();
    let mut i: usize = 0;
    while i < entries.len()
        invariant
            i <= entries@.len(),
            models == listed_entries(entries@),
            models.len() == entries@.len(),
            all == Seq::new(models.len(), |i: int| entry_text(models[i])),
            texts(parts@) == all.take(i as int),
        decreases entries@.len() - i,
    {
        let mut part = match entries[i].kind {
            EntryKind::Directory => "dir".to_owned(),
            EntryKind::File => "file".to_owned(),
        };
        part.push_str(" ");
        part.push_str(entries[i].name.as_str());
        part.push_str(" size=");
        part.push_str(size_text(entries[i].size).as_str());
        assert(models[i as int] == entries@[i as int]@);
        let ghost before = parts@;
        let ghost added = part@;
        parts.push(part);
        assert(added == all[i as int]);
        assert(texts(parts@) =~= texts(before).push(added));
        assert(all.take(i + 1) =~= all.take(i as int).push(all[i as int]));
        i += 1;
    }
    assert(all.take(all.len() as int) =~= all);
    join(&parts, "\n")
}

/// One line for a scheduler event.
pub open spec fn event_text(event: EventModel) -> Seq<char> {
    match event {
        EventModel::InstructionExecuted { pid, instruction_pointer, instruction, stack } => "pid="@
            + decimal(pid as nat) + " ip="@ + decimal(instruction_pointer as nat)
            + " instruction="@ + instruction_text(instruction) + " stack="@ + stack_text(stack),
        EventModel::ProcessExited { pid, code } => "pid="@ + decimal(pid as nat)
            + " exited code="@ + signed_decimal(code as int),
        EventModel::ProcessFailed { pid, error } => "pid="@ + decimal(pid as nat)
            + " failed error="@ + error,
    }
}

/// The lines for scheduler events.
pub open spec fn events_text(events: Seq<EventModel>) -> Seq<char> {
    if events.len() == 0 {
        "guest scheduler idle"@
    } else {
        joined(Seq::new(events.len(), |i: int| event_text(events[i])), "\n"@)
    }
}

fn format_event(event: &ProcessEvent) -> (r: String)
    ensures
        r@ == event_text(event@),
{
    let mut r = "pid=".to_owned();
    match event {
        ProcessEvent::InstructionExecuted { pid, instruction_pointer, instruction, stack } => {
            r.push_str(decimal_text(*pid as u64).as_str());
            r.push_str(" ip=");
            r.push_str(size_text(*instruction_pointer).as_str());
            r.push_str(" instruction=");
            r.push_str(format_instruction(*instruction).as_str());
            r.push_str(" stack=");
            r.push_str(format_stack(stack.as_slice()).as_str());
        },
        ProcessEvent::ProcessExited { pid, code } => {
            r.push_str(decimal_text(*pid as u64).as_str());
            r.push_str(" exited code=");
            r.push_str(signed_text(*code as i64).as_str());
        },
        ProcessEvent::ProcessFailed { pid, error } => {
            r.push_str(decimal_text(*pid as u64).as_str());
            r.push_str(" failed error=");
            r.push_str(error.as_str());
        },
    }
    r
}

fn format_events(events: &Vec<ProcessEvent>) -> (r: String)
    ensures
        r@ == events_text(event_models(events@)),
{
    let ghost models = event_models(events@);
    assert(models.len() == events@.len());
    if events.len() == 0 {
        return "guest scheduler idle".to_owned();
    }
    let ghost all = Seq::new(models.len(), |i: int| event_text(models[i]));
    let mut parts: Vec<String> = Vec::new();
    let mut i: usize = 0;
    while i < events.len()
        invariant
            i <= events@.len(),
            models == event_models(events@),
            models.len() == events@.len(),
            all == Seq::new(models.len(), |i: int| event_text(models[i])),
            texts(parts@) == all.take(i as int),
        decreases events@.len() - i,
    {
        let part = format_event(&events[i]);
        assert(models[i as int] == events@[i as int]@);
        let ghost before = parts@;
        parts.push(part);
        assert(texts(parts@) =~= texts(before).push(part@));
        assert(all.take(i + 1) =~= all.take(i as int).push(all[i as int]));
        i += 1;
    }
    assert(all.take(all.len() as int) =~= all);
    join(&parts, "\n")
}

pub open spec fn state_text(state: StateModel) -> Seq<char> {
    match state {
        StateModel::Ready => "ready"@,
        StateModel::Running => "running"@,
        StateModel::Exited { code } => "exited("@ + signed_decimal(code as int) + ")"@,
        StateModel::Failed { error } => "failed("@ + error + ")"@,
    }
}

/// One line for a process.
pub open spec fn process_text(p: InfoModel) -> Seq<char> {
    "pid="@ + decimal(p.pid as nat) + " state="@ + state_text(p.state) + " cwd="@ + p.cwd
        + " argv="@ + list_text(p.argv) + " ip="@ + decimal(p.instruction_pointer as nat)
        + " stack="@ + stack_text(p.stack)
}

/// How many processes a listing shows.
pub open spec fn listed_count(s: InstanceState) -> nat {
    if s.processes.len() <= u32::MAX {
        s.processes.len()
    } else {
        u32::MAX as nat
    }
}

/// The lines for the processes.
pub open spec fn processes_text(s: InstanceState) -> Seq<char> {
    if listed_count(s) == 0 {
        "(no guest processes)"@
    } else {
        joined(
            Seq::new(listed_count(s), |i: int| process_text(info(s, (i + 1) as Pid))),
            "\n"@,
        )
    }
}

fn format_process(process: &ProcessInfo) -> (r: String)
    ensures
        r@ == process_text(process@),
{
    let mut r = "pid=".to_owned();
    r.push_str(decimal_text(process.pid as u64).as_str());
    r.push_str(" state=");
    let state = match &process.state {
        ProcessState::Ready => "ready".to_owned(),
        ProcessState::Running => "running".to_owned(),
        ProcessState::Exited { code } => in_brackets("exited(", signed_text(*code as i64).as_str()),
        ProcessState::Failed { error } => in_brackets("failed(", error.as_str()),
    };
    r.push_str(state.as_str());
    r.push_str(" cwd=");
    r.push_str(process.cwd.as_str());
    r.push_str(" argv=");
    r.push_str(format_list(&process.argv).as_str());
    r.push_str(" ip=");
    r.push_str(size_text(process.instruction_pointer).as_str());
    r.push_str(" stack=");
    r.push_str(format_stack(process.stack.as_slice()).as_str());
    r
}

fn format_processes(vm: &VmInstance) -> (r: String)
    ensures
        r@ == processes_text(vm@),
{
    let processes = vm.processes();
    if processes.len() == 0 {
        return "(no guest processes)".to_owned();
    }
    let ghost s = vm@;
    let ghost all = Seq::new(listed_count(s), |i: int| process_text(info(s, (i + 1) as Pid)));
    let mut parts: Vec<String> = Vec::new();
    let mut i: usize = 0;
    while i < processes.len()
        invariant
            i <= processes@.len(),
            processes@.len() == listed_count(s),
            forall|i: int|
                0 <= i < processes@.len() ==> (#[trigger] processes@[i])@ == info(
                    s,
                    (i + 1) as Pid,
                ),
            all == Seq::new(listed_count(s), |i: int| process_text(info(s, (i + 1) as Pid))),
            texts(parts@) == all.take(i as int),
        decreases processes@.len() - i,
    {
        let part = format_process(&processes[i]);
        let ghost before = parts@;
        parts.push(part);
        assert(texts(parts@) =~= texts(before).push(part@));
        assert(all.take(i + 1) =~= all.take(i as int).push(all[i as int]));
        i += 1;
    }
    assert(all.take(all.len() as int) =~= all);
    join(&parts, "\n")
}

pub open spec fn wait_text(status: WaitModel) -> Seq<char> {
    match status {
        WaitModel::Running => "running"@,
        WaitModel::Exited { code } => "exited code="@ + signed_decimal(code as int),
        WaitModel::Failed { error } => "failed error="@ + error,
    }
}

fn format_wait_status(status: &WaitStatus) -> (r: String)
    ensures
        r@ == wait_text(status@),
{
    match status {
        WaitStatus::Running => "running".to_owned(),
        WaitStatus::Exited { code } => labelled("exited code=", signed_text(*code as i64).as_str()),
        WaitStatus::Failed { error } => labelled("failed error=", error.as_str()),
    }
}

// ---------------------------------------------------------------------------
// What the tools do
// ---------------------------------------------------------------------------

/// The outcome of a call, and the guest after it.
pub type Outcome = (InstanceState, Result<Seq<char>, Seq<char>>);

pub open spec fn list_tool(s: InstanceState, a: Arguments) -> Outcome {
    match names_trouble(a, seq!["path"@]) {
        Some(trouble) => (s, Err(trouble)),
        None => {
            let path = match maybe_text(a, "path"@) {
                Some(path) => path,
                None => "/"@,
            };
            match list_at(s.fs, path) {
                Err(trouble) => (s, Err(trouble_text(trouble))),
                Ok(entries) => (s, Ok(entries_text(entries))),
            }
        },
    }
}

pub open spec fn read_tool(s: InstanceState, a: Arguments) -> Outcome {
    match names_trouble(a, seq!["path"@]) {
        Some(trouble) => (s, Err(trouble)),
        None => match text_argument(a, "path"@) {
            Err(message) => (s, Err(message)),
            Ok(path) => match text_at(s.fs, path) {
                Err(trouble) => (s, Err(trouble_text(trouble))),
                Ok(text) => (s, Ok(text)),
            },
        },
    }
}

pub open spec fn write_tool(s: InstanceState, a: Arguments) -> Outcome {
    match names_trouble(a, seq!["path"@, "content"@]) {
        Some(trouble) => (s, Err(trouble)),
        None => match (text_argument(a, "path"@), any_text_argument(a, "content"@)) {
            (Err(message), _) => (s, Err(message)),
            (_, Err(message)) => (s, Err(message)),
            (Ok(path), Ok(content)) => {
                let (fs, outcome) = write_at(s.fs, path, encode_utf8(content));
                (
                    with_fs(s, fs),
                    match outcome {
                        Err(trouble) => Err(trouble_text(trouble)),
                        Ok(_) => Ok(
                            "wrote "@ + decimal(byte_len(content)) + " bytes to guest:"@ + path,
                        ),
                    },
                )
            },
        },
    }
}

pub open spec fn mkdir_tool(s: InstanceState, a: Arguments) -> Outcome {
    match names_trouble(a, seq!["path"@, "recursive"@]) {
        Some(trouble) => (s, Err(trouble)),
        None => match text_argument(a, "path"@) {
            Err(message) => (s, Err(message)),
            Ok(path) => {
                let recursive = maybe_bool(a, "recursive"@) == Some(true);
                let (fs, outcome) = mkdir_at(s.fs, path, recursive);
                (
                    with_fs(s, fs),
                    match outcome {
                        Err(trouble) => Err(trouble_text(trouble)),
                        Ok(_) => Ok("created guest directory "@ + path),
                    },
                )
            },
        },
    }
}

pub open spec fn tabulate_tool(s: InstanceState, a: Arguments) -> Outcome {
    match names_trouble(a, seq!["path"@]) {
        Some(trouble) => (s, Err(trouble)),
        None => match text_argument(a, "path"@) {
            Err(message) => (s, Err(message)),
            Ok(path) => {
                let (fs, outcome) = tabulate(s.fs, path);
                (
                    with_fs(s, fs),
                    match outcome {
                        Err(message) => Err(message),
                        Ok(summary) => Ok(table_json(summary)),
                    },
                )
            },
        },
    }
}

pub open spec fn pdf_tool(s: InstanceState, a: Arguments) -> Outcome {
    match names_trouble(a, seq!["path"@]) {
        Some(trouble) => (s, Err(trouble)),
        None => match text_argument(a, "path"@) {
            Err(message) => (s, Err(message)),
            Ok(path) => {
                let (fs, outcome) = inspect_pdf(s.fs, path);
                (
                    with_fs(s, fs),
                    match outcome {
                        Err(message) => Err(message),
                        Ok(summary) => Ok(pdf_json(summary)),
                    },
                )
            },
        },
    }
}

pub open spec fn spawn_tool(s: InstanceState, a: Arguments) -> Outcome {
    match names_trouble(a, seq!["program"@, "argv"@]) {
        Some(trouble) => (s, Err(trouble)),
        None => match text_argument(a, "program"@) {
            Err(message) => (s, Err(message)),
            Ok(source) => match (program_in(source), texts_argument(a, "argv"@)) {
                (Err(message), _) => (s, Err(message)),
                (_, Err(message)) => (s, Err(message)),
                (Ok(program), Ok(argv)) => {
                    let (after, outcome) = spawn_in(s, None, program, argv);
                    (
                        after,
                        match outcome {
                            Err(trouble) => Err(trouble_text(trouble)),
                            Ok(pid) => Ok("spawned guest process pid="@ + decimal(pid as nat)),
                        },
                    )
                },
            },
        },
    }
}

pub open spec fn tick_tool(s: InstanceState, a: Arguments) -> Outcome {
    match names_trouble(a, Seq::empty()) {
        Some(trouble) => (s, Err(trouble)),
        None => {
            let (after, event) = tick_of(s);
            (
                after,
                Ok(
                    match event {
                        Some(event) => event_text(event),
                        None => "guest scheduler idle"@,
                    },
                ),
            )
        },
    }
}

/// The number of ticks that a call asks for.
pub open spec fn ticks_argument(a: Arguments) -> Result<usize, Seq<char>> {
    let ticks = match maybe_integer(a, "max_ticks"@) {
        Some(ticks) => ticks as int,
        None => 1_000,
    };
    if ticks > 0 {
        Ok(ticks as usize)
    } else {
        Err("argument 'max_ticks' must be a positive integer"@)
    }
}

pub open spec fn run_tool(s: InstanceState, a: Arguments) -> Outcome {
    match names_trouble(a, seq!["max_ticks"@]) {
        Some(trouble) => (s, Err(trouble)),
        None => match ticks_argument(a) {
            Err(message) => (s, Err(message)),
            Ok(ticks) => {
                let (after, outcome) = idle_from(s, ticks as nat, ticks);
                (
                    after,
                    match outcome {
                        Err(trouble) => Err(trouble_text(trouble)),
                        Ok(events) => Ok(events_text(events)),
                    },
                )
            },
        },
    }
}

pub open spec fn processes_tool(s: InstanceState, a: Arguments) -> Outcome {
    match names_trouble(a, Seq::empty()) {
        Some(trouble) => (s, Err(trouble)),
        None => (s, Ok(processes_text(s))),
    }
}

pub open spec fn wait_tool(s: InstanceState, a: Arguments) -> Outcome {
    match names_trouble(a, seq!["pid"@]) {
        Some(trouble) => (s, Err(trouble)),
        None => match positive_argument(a, "pid"@) {
            Err(message) => (s, Err(message)),
            Ok(pid) => match wait_in(s, pid) {
                Err(trouble) => (s, Err(trouble_text(trouble))),
                Ok(status) => (s, Ok(wait_text(status))),
            },
        },
    }
}

/// What a call of one of the guest tools does.
pub open spec fn guest_tool(s: InstanceState, name: Seq<char>, a: Arguments) -> Outcome {
    if name == "guest_list_files"@ {
        list_tool(s, a)
    } else if name == "guest_read_file"@ {
        read_tool(s, a)
    } else if name == "guest_write_file"@ {
        write_tool(s, a)
    } else if name == "guest_make_directory"@ {
        mkdir_tool(s, a)
    } else if name == "guest_tabulate_file"@ {
        tabulate_tool(s, a)
    } else if name == "guest_inspect_pdf"@ {
        pdf_tool(s, a)
    } else if name == "guest_spawn"@ {
        spawn_tool(s, a)
    } else if name == "guest_tick"@ {
        tick_tool(s, a)
    } else if name == "guest_run"@ {
        run_tool(s, a)
    } else if name == "guest_processes"@ {
        processes_tool(s, a)
    } else if name == "guest_wait"@ {
        wait_tool(s, a)
    } else {
        (s, Err("unknown tool: "@ + name))
    }
}

fn expect(arguments: &ToolArguments, names: Vec<&'static str>) -> (r: Result<(), ToolError>)
    ensures
        match r {
            Ok(_) => names_trouble(arguments_model(arguments@), names_in(names@)) is None,
            Err(error) => names_trouble(arguments_model(arguments@), names_in(names@)) == Some(
                error@,
            ),
        },
{
    ensure_arguments(arguments, names)
}

fn failed(error: crate::runtime::RuntimeError) -> (r: ToolError)
    ensures
        r@ == trouble_text(error@),
{
    ToolError { message: error.to_text() }
}

fn list_files(vm: &VmInstance, arguments: &ToolArguments) -> (r: Result<String, ToolError>)
    ensures
        (vm@, tool_outcome(r)) == list_tool(vm@, arguments_model(arguments@)),
{
    let names = vec!["path"];
    assert(names_in(names@) =~= seq!["path"@]);
    match expect(arguments, names) {
        Err(error) => return Err(error),
        Ok(_) => {},
    }
    let path = match optional_text(arguments, "path") {
        Some(path) => path,
        None => "/".to_owned(),
    };
    match vm.list_dir(path.as_str()) {
        Err(error) => Err(failed(error)),
        Ok(entries) => Ok(format_entries(&entries)),
    }
}

fn read_file(vm: &VmInstance, arguments: &ToolArguments) -> (r: Result<String, ToolError>)
    ensures
        (vm@, tool_outcome(r)) == read_tool(vm@, arguments_model(arguments@)),
{
    let names = vec!["path"];
    assert(names_in(names@) =~= seq!["path"@]);
    match expect(arguments, names) {
        Err(error) => return Err(error),
        Ok(_) => {},
    }
    match required_text(arguments, "path") {
        Err(error) => Err(error),
        Ok(path) => match vm.read_text(path.as_str()) {
            Err(error) => Err(failed(error)),
            Ok(text) => Ok(text),
        },
    }
}

fn write_file(vm: &mut VmInstance, arguments: &ToolArguments) -> (r: Result<String, ToolError>)
    ensures
        (final(vm)@, tool_outcome(r)) == write_tool(old(vm)@, arguments_model(arguments@)),
{
    let names = vec!["path", "content"];
    assert(names_in(names@) =~= seq!["path"@, "content"@]);
    match expect(arguments, names) {
        Err(error) => return Err(error),
        Ok(_) => {},
    }
    let path = match required_text(arguments, "path") {
        Err(error) => return Err(error),
        Ok(path) => path,
    };
    let content = match required_text_allow_empty(arguments, "content") {
        Err(error) => return Err(error),
        Ok(content) => content,
    };
    match vm.write_file(path.as_str(), content.as_str().as_bytes()) {
        Err(error) => Err(failed(error)),
        Ok(_) => {
            let mut r = "wrote ".to_owned();
            r.push_str(size_text(byte_count(content.as_str())).as_str());
            r.push_str(" bytes to guest:");
            r.push_str(path.as_str());
            Ok(r)
        },
    }
}

fn make_directory(vm: &mut VmInstance, arguments: &ToolArguments) -> (r: Result<
    String,
    ToolError,
>)
    ensures
        (final(vm)@, tool_outcome(r)) == mkdir_tool(old(vm)@, arguments_model(arguments@)),
{
    let names = vec!["path", "recursive"];
    assert(names_in(names@) =~= seq!["path"@, "recursive"@]);
    match expect(arguments, names) {
        Err(error) => return Err(error),
        Ok(_) => {},
    }
    let path = match required_text(arguments, "path") {
        Err(error) => return Err(error),
        Ok(path) => path,
    };
    let recursive = match optional_bool(arguments, "recursive") {
        Some(flag) => flag,
        None => false,
    };
    match vm.mkdir(path.as_str(), recursive) {
        Err(error) => Err(failed(error)),
        Ok(_) => Ok(labelled("created guest directory ", path.as_str())),
    }
}

fn tabulate_file(vm: &mut VmInstance, arguments: &ToolArguments) -> (r: Result<String, ToolError>)
    ensures
        (final(vm)@, tool_outcome(r)) == tabulate_tool(old(vm)@, arguments_model(arguments@)),
{
    let names = vec!["path"];
    assert(names_in(names@) =~= seq!["path"@]);
    match expect(arguments, names) {
        Err(error) => return Err(error),
        Ok(_) => {},
    }
    match required_text(arguments, "path") {
        Err(error) => Err(error),
        Ok(path) => match tabulate_uploaded_file(vm, path.as_str()) {
            Err(message) => Err(ToolError { message }),
            Ok(summary) => Ok(write_table(&summary)),
        },
    }
}

fn inspect_file(vm: &mut VmInstance, arguments: &ToolArguments) -> (r: Result<String, ToolError>)
    ensures
        (final(vm)@, tool_outcome(r)) == pdf_tool(old(vm)@, arguments_model(arguments@)),
{
    let names = vec!["path"];
    assert(names_in(names@) =~= seq!["path"@]);
    match expect(arguments, names) {
        Err(error) => return Err(error),
        Ok(_) => {},
    }
    match required_text(arguments, "path") {
        Err(error) => Err(error),
        Ok(path) => match inspect_uploaded_pdf(vm, path.as_str()) {
            Err(message) => Err(ToolError { message }),
            Ok(summary) => Ok(write_pdf(&summary)),
        },
    }
}

fn spawn(vm: &mut VmInstance, arguments: &ToolArguments) -> (r: Result<String, ToolError>)
    ensures
        (final(vm)@, tool_outcome(r)) == spawn_tool(old(vm)@, arguments_model(arguments@)),
{
    let names = vec!["program", "argv"];
    assert(names_in(names@) =~= seq!["program"@, "argv"@]);
    match expect(arguments, names) {
        Err(error) => return Err(error),
        Ok(_) => {},
    }
    let source = match required_text(arguments, "program") {
        Err(error) => return Err(error),
        Ok(source) => source,
    };
    let program = match parse_program(source.as_str()) {
        Err(error) => return Err(error),
        Ok(program) => program,
    };
    let argv = match optional_string_list(arguments, "argv") {
        Err(error) => return Err(error),
        Ok(argv) => argv,
    };
    match vm.spawn(None, program, argv) {
        Err(error) => Err(failed(error)),
        Ok(pid) => Ok(labelled("spawned guest process pid=", decimal_text(pid as u64).as_str())),
    }
}

fn tick(vm: &mut VmInstance, arguments: &ToolArguments) -> (r: Result<String, ToolError>)
    ensures
        (final(vm)@, tool_outcome(r)) == tick_tool(old(vm)@, arguments_model(arguments@)),
{
    let names: Vec<&'static str> = Vec::new();
    assert(names_in(names@) =~= Seq::<Seq<char>>::empty());
    match expect(arguments, names) {
        Err(error) => return Err(error),
        Ok(_) => {},
    }
    match vm.tick() {
        Some(event) => Ok(format_event(&event)),
        None => Ok("guest scheduler idle".to_owned()),
    }
}

fn run(vm: &mut VmInstance, arguments: &ToolArguments) -> (r: Result<String, ToolError>)
    ensures
        (final(vm)@, tool_outcome(r)) == run_tool(old(vm)@, arguments_model(arguments@)),
{
    let names = vec!["max_ticks"];
    assert(names_in(names@) =~= seq!["max_ticks"@]);
    match expect(arguments, names) {
        Err(error) => return Err(error),
        Ok(_) => {},
    }
    let ticks: i32 = match optional_integer(arguments, "max_ticks") {
        Some(ticks) => ticks,
        None => 1_000,
    };
    if ticks <= 0 {
        return Err(ToolError::new("argument 'max_ticks' must be a positive integer"));
    }
    match vm.run_until_idle(ticks as usize) {
        Err(error) => Err(failed(error)),
        Ok(events) => Ok(format_events(&events)),
    }
}

fn list_processes(vm: &VmInstance, arguments: &ToolArguments) -> (r: Result<String, ToolError>)
    ensures
        (vm@, tool_outcome(r)) == processes_tool(vm@, arguments_model(arguments@)),
{
    let names: Vec<&'static str> = Vec::new();
    assert(names_in(names@) =~= Seq::<Seq<char>>::empty());
    match expect(arguments, names) {
        Err(error) => return Err(error),
        Ok(_) => {},
    }
    Ok(format_processes(vm))
}

fn wait(vm: &VmInstance, arguments: &ToolArguments) -> (r: Result<String, ToolError>)
    ensures
        (vm@, tool_outcome(r)) == wait_tool(vm@, arguments_model(arguments@)),
{
    let names = vec!["pid"];
    assert(names_in(names@) =~= seq!["pid"@]);
    match expect(arguments, names) {
        Err(error) => return Err(error),
        Ok(_) => {},
    }
    match required_pid(arguments, "pid") {
        Err(error) => Err(error),
        Ok(pid) => match vm.wait(pid) {
            Err(error) => Err(failed(error)),
            Ok(status) => Ok(format_wait_status(&status)),
        },
    }
}

/// Carries out a call of one of the guest tools.
pub fn execute_guest_tool(vm: &mut VmInstance, name: &str, arguments: &ToolArguments) -> (r: Result<
    String,
    ToolError,
>)
    ensures
        (final(vm)@, tool_outcome(r)) == guest_tool(
            old(vm)@,
            name@,
            arguments_model(arguments@),
        ),
{
    if same_text(name, "guest_list_files") {
        list_files(vm, arguments)
    } else if same_text(name, "guest_read_file") {
        read_file(vm, arguments)
    } else if same_text(name, "guest_write_file") {
        write_file(vm, arguments)
    } else if same_text(name, "guest_make_directory") {
        make_directory(vm, arguments)
    } else if same_text(name, "guest_tabulate_file") {
        tabulate_file(vm, arguments)
    } else if same_text(name, "guest_inspect_pdf") {
        inspect_file(vm, arguments)
    } else if same_text(name, "guest_spawn") {
        spawn(vm, arguments)
    } else if same_text(name, "guest_tick") {
        tick(vm, arguments)
    } else if same_text(name, "guest_run") {
        run(vm, arguments)
    } else if same_text(name, "guest_processes") {
        list_processes(vm, arguments)
    } else if same_text(name, "guest_wait") {
        wait(vm, arguments)
    } else {
        Err(ToolError { message: labelled("unknown tool: ", name) })
    }
}

// ---------------------------------------------------------------------------
// Registries
// ---------------------------------------------------------------------------

/// The guest tools and the guest that they work on.
#[derive(Debug)]
pub struct GuestTools {
    vm: VmInstance,
}

impl View for GuestTools {
    type V = InstanceState;

    closed spec fn view(&self) -> InstanceState {
        self.vm@
    }
}

impl GuestTools {
    /// The guest that the tools work on.
    pub closed spec fn guest(&self) -> VmInstance {
        self.vm
    }

    pub fn new(vm: VmInstance) -> (r: Self)
        ensures
            r@ == vm@,
            r.guest() == vm,
    {
        GuestTools { vm }
    }
}

impl Toolbox for GuestTools {
    fn execute(&mut self, name: &str, arguments: &ToolArguments) -> (r: Result<String, ToolError>)
        ensures
            (final(self)@, tool_outcome(r)) == guest_tool(
                old(self)@,
                name@,
                arguments_model(arguments@),
            ),
    {
        execute_guest_tool(&mut self.vm, name, arguments)
    }
}

/// The descriptions of the guest tools.
pub open spec fn guest_tool_models() -> Seq<SpecModel> {
    let path_schema =
        "{\"type\":\"object\",\"properties\":{\"path\":{\"type\":\"string\"}},\"required\":[\"path\"]}"@;
    let bare = "{\"type\":\"object\",\"properties\":{}}"@;
    seq![
        SpecModel {
            name: "guest_list_files"@,
            description: "List entries in a directory inside the guest filesystem."@,
            input_schema: "{\"type\":\"object\",\"properties\":{\"path\":{\"type\":\"string\"}}}"@,
        },
        SpecModel {
            name: "guest_read_file"@,
            description: "Read a UTF-8 file from the guest filesystem."@,
            input_schema: path_schema,
        },
        SpecModel {
            name: "guest_write_file"@,
            description: "Create or replace a UTF-8 file inside the guest filesystem."@,
            input_schema: "{\"type\":\"object\",\"properties\":{\"path\":{\"type\":\"string\"},\"content\":{\"type\":\"string\"}},\"required\":[\"path\",\"content\"]}"@,
        },
        SpecModel {
            name: "guest_make_directory"@,
            description: "Create a directory inside the guest filesystem."@,
            input_schema: "{\"type\":\"object\",\"properties\":{\"path\":{\"type\":\"string\"},\"recursive\":{\"type\":\"boolean\"}},\"required\":[\"path\"]}"@,
        },
        SpecModel {
            name: "guest_tabulate_file"@,
            description: "Tabulate an uploaded CSV or TSV guest file and write a JSON summary to /workspace/output."@,
            input_schema: path_schema,
        },
        SpecModel {
            name: "guest_inspect_pdf"@,
            description: "Validate an uploaded PDF and write safe document metadata to /workspace/output. This does not extract document text."@,
            input_schema: path_schema,
        },
        SpecModel {
            name: "guest_spawn"@,
            description: "Spawn a validated A/RVM bytecode program as a guest process."@,
            input_schema: "{\"type\":\"object\",\"properties\":{\"program\":{\"type\":\"string\"},\"argv\":{\"type\":\"array\",\"items\":{\"type\":\"string\"}}},\"required\":[\"program\"]}"@,
        },
        SpecModel {
            name: "guest_tick"@,
            description: "Execute one instruction from the next ready guest process."@,
            input_schema: bare,
        },
        SpecModel {
            name: "guest_run"@,
            description: "Run ready guest processes for a bounded number of scheduler ticks."@,
            input_schema: "{\"type\":\"object\",\"properties\":{\"max_ticks\":{\"type\":\"integer\",\"minimum\":1}}}"@,
        },
        SpecModel {
            name: "guest_processes"@,
            description: "List guest process IDs, states, working directories, and stacks."@,
            input_schema: bare,
        },
        SpecModel {
            name: "guest_wait"@,
            description: "Poll the exit status of a guest process."@,
            input_schema: "{\"type\":\"object\",\"properties\":{\"pid\":{\"type\":\"integer\",\"minimum\":1}},\"required\":[\"pid\"]}"@,
        },
    ]
}

/// The descriptions of the guest tools.
pub fn guest_tool_specs() -> (r: Vec<ToolSpec>)
    ensures
        spec_models(r@) == guest_tool_models(),
{
    let path_schema =
        "{\"type\":\"object\",\"properties\":{\"path\":{\"type\":\"string\"}},\"required\":[\"path\"]}";
    let bare = "{\"type\":\"object\",\"properties\":{}}";
    let r = vec![
        ToolSpec::new(
            "guest_list_files",
            "List entries in a directory inside the guest filesystem.",
            "{\"type\":\"object\",\"properties\":{\"path\":{\"type\":\"string\"}}}",
        ),
        ToolSpec::new(
            "guest_read_file",
            "Read a UTF-8 file from the guest filesystem.",
            path_schema,
        ),
        ToolSpec::new(
            "guest_write_file",
            "Create or replace a UTF-8 file inside the guest filesystem.",
            "{\"type\":\"object\",\"properties\":{\"path\":{\"type\":\"string\"},\"content\":{\"type\":\"string\"}},\"required\":[\"path\",\"content\"]}",
        ),
        ToolSpec::new(
            "guest_make_directory",
            "Create a directory inside the guest filesystem.",
            "{\"type\":\"object\",\"properties\":{\"path\":{\"type\":\"string\"},\"recursive\":{\"type\":\"boolean\"}},\"required\":[\"path\"]}",
        ),
        ToolSpec::new(
            "guest_tabulate_file",
            "Tabulate an uploaded CSV or TSV guest file and write a JSON summary to /workspace/output.",
            path_schema,
        ),
        ToolSpec::new(
            "guest_inspect_pdf",
            "Validate an uploaded PDF and write safe document metadata to /workspace/output. This does not extract document text.",
            path_schema,
        ),
        ToolSpec::new(
            "guest_spawn",
            "Spawn a validated A/RVM bytecode program as a guest process.",
            "{\"type\":\"object\",\"properties\":{\"program\":{\"type\":\"string\"},\"argv\":{\"type\":\"array\",\"items\":{\"type\":\"string\"}}},\"required\":[\"program\"]}",
        ),
        ToolSpec::new(
            "guest_tick",
            "Execute one instruction from the next ready guest process.",
            bare,
        ),
        ToolSpec::new(
            "guest_run",
            "Run ready guest processes for a bounded number of scheduler ticks.",
            "{\"type\":\"object\",\"properties\":{\"max_ticks\":{\"type\":\"integer\",\"minimum\":1}}}",
        ),
        ToolSpec::new(
            "guest_processes",
            "List guest process IDs, states, working directories, and stacks.",
            bare,
        ),
        ToolSpec::new(
            "guest_wait",
            "Poll the exit status of a guest process.",
            "{\"type\":\"object\",\"properties\":{\"pid\":{\"type\":\"integer\",\"minimum\":1}},\"required\":[\"pid\"]}",
        ),
    ];
    assert(spec_models(r@) =~= guest_tool_models());
    r
}

/// The letter that the name of a guest tool begins with.
proof fn lemma_guest_tool_names()
    ensures
        forall|i: int|
            0 <= i < guest_tool_models().len() ==> (#[trigger] guest_tool_models()[i]).name.len() > 6
                && guest_tool_models()[i].name[0] == 'g',
        forall|i: int, j: int|
            0 <= i < j < guest_tool_models().len() ==> (#[trigger] guest_tool_models()[i]).name != (
            #[trigger] guest_tool_models()[j]).name,
{
    reveal_strlit("guest_list_files");
    reveal_strlit("guest_read_file");
    reveal_strlit("guest_write_file");
    reveal_strlit("guest_make_directory");
    reveal_strlit("guest_tabulate_file");
    reveal_strlit("guest_inspect_pdf");
    reveal_strlit("guest_spawn");
    reveal_strlit("guest_tick");
    reveal_strlit("guest_run");
    reveal_strlit("guest_processes");
    reveal_strlit("guest_wait");
    let tools = guest_tool_models();
    assert(tools[0].name.len() == 16);
    assert(tools[1].name.len() == 15);
    assert(tools[2].name.len() == 16);
    assert(tools[3].name.len() == 20);
    assert(tools[4].name.len() == 19);
    assert(tools[5].name.len() == 17);
    assert(tools[6].name.len() == 11);
    assert(tools[7].name.len() == 10);
    assert(tools[8].name.len() == 9);
    assert(tools[9].name.len() == 15);
    assert(tools[10].name.len() == 10);
    assert(tools[0].name[6] == 'l');
    assert(tools[2].name[6] == 'w');
    assert(tools[1].name[6] == 'r');
    assert(tools[9].name[6] == 'p');
    assert(tools[7].name[6] == 't');
    assert(tools[10].name[6] == 'w');
}

/// Register tools that operate only inside the supplied guest VM.
pub fn guest_tool_registry(vm: VmInstance) -> (r: Result<ToolRegistry, ToolError>)
    ensures
        r matches Ok(registry) && {
            &&& registry@ == with_tools(Seq::empty(), guest_tool_models(), 11)
            &&& kept_at(registry, guest_tool_models(), 0)
            &&& exists|tools: GuestTools|
                one_more(Seq::empty(), registry.held(), Box::new(tools)) && #[trigger] tools.guest()
                    == vm && tools@ == vm@
        },
{
    let tools = GuestTools::new(vm);
    assert(tools.guest() == vm);
    guest_tool_registry_shared(tools)
}

/// Register the guest tools, carried out by `guest`: a toolbox that shares its guest VM with
/// others.
pub fn guest_tool_registry_shared<T: Toolbox + 'static>(guest: T) -> (r: Result<
    ToolRegistry,
    ToolError,
>)
    ensures
        r matches Ok(registry) && {
            &&& registry@ == with_tools(Seq::empty(), guest_tool_models(), 11)
            &&& kept_at(registry, guest_tool_models(), 0)
            &&& one_more(Seq::empty(), registry.held(), Box::new(guest))
        },
{
    proof {
        lemma_guest_tool_names();
        law_new_names_are_registered(Seq::empty(), guest_tool_models(), 0);
    }
    let mut registry = ToolRegistry::new();
    let specs = guest_tool_specs();
    let ghost described = specs@;
    match registry.register_all(specs, guest) {
        Err(error) => Err(error),
        Ok(_) => {
            proof {
                lemma_kept_at(registry, described, 0);
            }
            Ok(registry)
        },
    }
}

/// Compose the arithmetic VM tools with the isolated guest tools.
pub fn guest_coding_tool_registry(vm: VmInstance) -> (r: Result<ToolRegistry, ToolError>)
    ensures
        ({
            let ours = with_tools(Seq::empty(), vm_tool_models(), 7);
            let guests = with_tools(Seq::empty(), guest_tool_models(), 11);
            r matches Ok(registry) && {
                &&& registry@ == merged(ours, guests, guests.len() as int)
                &&& kept_at(registry, vm_tool_models(), 0)
                &&& kept_at(registry, guest_tool_models(), 1)
                &&& exists|own: VmTools, tools: GuestTools|
                    just_two(registry.held(), Box::new(own), Box::new(tools)) && #[trigger] own@
                        == idle_tools() && #[trigger] tools.guest() == vm && tools@ == vm@
            }
        }),
{
    let tools = GuestTools::new(vm);
    assert(tools.guest() == vm);
    guest_coding_tool_registry_shared(tools)
}

/// Compose the arithmetic VM tools with guest tools that are carried out by `guest`.
pub fn guest_coding_tool_registry_shared<T: Toolbox + 'static>(guest: T) -> (r: Result<
    ToolRegistry,
    ToolError,
>)
    ensures
        ({
            let ours = with_tools(Seq::empty(), vm_tool_models(), 7);
            let guests = with_tools(Seq::empty(), guest_tool_models(), 11);
            r matches Ok(registry) && {
                &&& registry@ == merged(ours, guests, guests.len() as int)
                &&& kept_at(registry, vm_tool_models(), 0)
                &&& kept_at(registry, guest_tool_models(), 1)
                &&& exists|own: VmTools|
                    just_two(registry.held(), Box::new(own), Box::new(guest)) && #[trigger] own@
                        == idle_tools()
            }
        }),
{
    proof {
        lemma_registries_are_apart();
    }
    let mut registry = match vm_tool_registry() {
        Err(error) => return Err(error),
        Ok(registry) => registry,
    };
    let guests = match guest_tool_registry_shared(guest) {
        Err(error) => return Err(error),
        Ok(guests) => guests,
    };
    let ghost ours = registry;
    let ghost theirs = guests;
    match registry.merge(guests) {
        Err(error) => Err(error),
        Ok(_) => {
            proof {
                lemma_kept_in_merges(registry, ours, vm_tool_models(), 0, 0);
                lemma_kept_in_merges(registry, theirs, guest_tool_models(), 0, 1);
            }
            Ok(registry)
        },
    }
}

proof fn lemma_registries_are_apart()
    ensures
        first_shared(
            with_tools(Seq::empty(), vm_tool_models(), 7),
            with_tools(Seq::empty(), guest_tool_models(), 11),
            0,
        ) is None,
{
    let ours = with_tools(Seq::empty(), vm_tool_models(), 7);
    let guests = with_tools(Seq::empty(), guest_tool_models(), 11);
    lemma_guest_tool_names();
    reveal_strlit("compile_program");
    reveal_strlit("trace_program");
    reveal_strlit("run_program");
    reveal_strlit("step_vm");
    reveal_strlit("inspect_vm");
    reveal_strlit("disassemble_program");
    reveal_strlit("reset_vm");
    lemma_with_tools(Seq::empty(), guest_tool_models(), 11, Seq::empty());
    assert forall|name: Seq<char>| registered(guests, name) implies !#[trigger] registered(
        ours,
        name,
    ) by {
        lemma_with_tools(Seq::empty(), guest_tool_models(), 11, name);
        lemma_with_tools(Seq::empty(), vm_tool_models(), 7, name);
        let k = choose|k: int| 0 <= k < 11 && (#[trigger] guest_tool_models()[k]).name == name;
        assert(name[0] == 'g');
        let vm = vm_tool_models();
        assert(vm[0].name[0] == 'c');
        assert(vm[1].name[0] == 't');
        assert(vm[2].name[0] == 'r');
        assert(vm[3].name[0] == 's');
        assert(vm[4].name[0] == 'i');
        assert(vm[5].name[0] == 'd');
        assert(vm[6].name[0] == 'r');
    }
    law_tools_with_other_names_can_be_merged(ours, guests, 0);
}

/// What is written by one guest tool is read back by another, text for text. Reading and listing
/// change nothing, and neither does a write that is refused.
pub proof fn law_guest_files_are_written_and_read(
    s: InstanceState,
    path: Seq<char>,
    content: Seq<char>,
)
    requires
        sound_fs(s.fs),
        !all_white(path),
    ensures
        ({
            let place: Arguments = seq![("path"@, ToolModel::Text(path))];
            let both: Arguments = seq![
                ("content"@, ToolModel::Text(content)),
                ("path"@, ToolModel::Text(path)),
            ];
            let (after, wrote) = guest_tool(s, "guest_write_file"@, both);
            &&& wrote is Ok ==> guest_tool(after, "guest_read_file"@, place) == (
                after,
                Ok::<Seq<char>, Seq<char>>(content),
            )
            &&& wrote is Err ==> after == s
            &&& guest_tool(s, "guest_read_file"@, place).0 == s
            &&& guest_tool(s, "guest_list_files"@, place).0 == s
            &&& match text_at(s.fs, path) {
                Ok(text) => guest_tool(s, "guest_read_file"@, place).1 == Ok::<
                    Seq<char>,
                    Seq<char>,
                >(text),
                Err(_) => guest_tool(s, "guest_read_file"@, place).1 is Err,
            }
        }),
{
    lemma_tool_names_apart();
    reveal_strlit("path");
    reveal_strlit("content");
    assert("path"@.len() != "content"@.len());
    let place: Arguments = seq![("path"@, ToolModel::Text(path))];
    let both: Arguments = seq![
        ("content"@, ToolModel::Text(content)),
        ("path"@, ToolModel::Text(path)),
    ];
    let one = seq!["path"@];
    let two = seq!["path"@, "content"@];
    assert(one[0] == "path"@);
    assert(two[0] == "path"@ && two[1] == "content"@);
    law_unexpected_arguments_are_refused(place, one, 1);
    law_unexpected_arguments_are_refused(both, two, 2);
    law_arguments_are_found_by_name(place, "path"@, 0);
    law_arguments_are_found_by_name(both, "path"@, 1);
    law_arguments_are_found_by_name(both, "content"@, 0);
    law_arguments_have_their_kind(place, "path"@, path, 0);
    law_arguments_have_their_kind(both, "path"@, path, 0);
    law_arguments_have_their_kind(both, "content"@, content, 0);
    let bytes = encode_utf8(content);
    law_write_then_read(s.fs, path, bytes, path);
    vstd::utf8::encode_utf8_valid_utf8(content);
    vstd::utf8::encode_utf8_decode_utf8(content);
}

proof fn lemma_tool_names_apart()
    ensures
        "guest_list_files"@ != "guest_read_file"@,
        "guest_list_files"@ != "guest_write_file"@,
        "guest_read_file"@ != "guest_write_file"@,
        forall|i: int|
            0 <= i < guest_tool_models().len() && i != 10 ==> (#[trigger] guest_tool_models()[i]).name
                != "guest_wait"@,
{
    lemma_guest_tool_names();
    let tools = guest_tool_models();
    assert(tools[0].name == "guest_list_files"@);
    assert(tools[1].name == "guest_read_file"@);
    assert(tools[2].name == "guest_write_file"@);
    assert(tools[10].name == "guest_wait"@);
    assert forall|i: int| 0 <= i < tools.len() && i != 10 implies (#[trigger] tools[i]).name
        != "guest_wait"@ by {
        assert(tools[i].name != tools[10].name);
    }
}

/// Waiting for a guest process tells whether it still runs, and once it has exited it tells the code
/// that it exited with.
pub proof fn law_guest_waits_tell_the_code(s: InstanceState, number: i32, code: i32)
    requires
        number > 0,
    ensures
        ({
            let given: Arguments = seq![("pid"@, ToolModel::Integer(number))];
            let (after, told) = guest_tool(s, "guest_wait"@, given);
            &&& after == s
            &&& wait_in(s, number as u32) is Err ==> told is Err
            &&& wait_in(s, number as u32) == Ok::<WaitModel, Trouble>(WaitModel::Exited { code })
                ==> told == Ok::<Seq<char>, Seq<char>>("exited code="@ + signed_decimal(code as int))
            &&& wait_in(s, number as u32) == Ok::<WaitModel, Trouble>(WaitModel::Running) ==> told
                == Ok::<Seq<char>, Seq<char>>("running"@)
        }),
{
    lemma_tool_names_apart();
    let tools = guest_tool_models();
    assert(tools[0].name == "guest_list_files"@);
    assert(tools[1].name == "guest_read_file"@);
    assert(tools[2].name == "guest_write_file"@);
    assert(tools[3].name == "guest_make_directory"@);
    assert(tools[4].name == "guest_tabulate_file"@);
    assert(tools[5].name == "guest_inspect_pdf"@);
    assert(tools[6].name == "guest_spawn"@);
    assert(tools[7].name == "guest_tick"@);
    assert(tools[8].name == "guest_run"@);
    assert(tools[9].name == "guest_processes"@);
    let given: Arguments = seq![("pid"@, ToolModel::Integer(number))];
    assert(seq!["pid"@][0] == "pid"@);
    law_unexpected_arguments_are_refused(given, seq!["pid"@], 1);
    law_arguments_are_found_by_name(given, "pid"@, 0);
    law_arguments_have_their_kind(given, "pid"@, Seq::empty(), number);
}

} // verus!
