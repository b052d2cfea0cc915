//! The commands that work on a program, and the report on the platform.

use vstd::prelude::*;

use crate::command_line::{ProgramCommand, Reply, has_argument};
#[allow(unused_imports)]
use crate::command_line::{ReplyModel, failure, said, said_line};
use crate::json::{field, write_object};
#[allow(unused_imports)]
use crate::json::{field_models, object_text};
use crate::machine::Vm;
#[allow(unused_imports)]
use crate::machine::{
    Instruction, MAX_VM_STEPS, initial_state, run_from, trace_from, trace_models,
};
use crate::program::Program;
#[allow(unused_imports)]
use crate::program::{deepest_stack, examine, fault_text, listing, parse_source, valid_program};
#[allow(unused_imports)]
use crate::protocol::{API_VERSION, PRODUCT, VERSION};
use crate::protocol::SystemInfo;
use crate::runtime_error::labelled;
#[allow(unused_imports)]
use crate::runtime_error::vm_error_text;
use crate::text::{same_text, signed_text, size_text};
#[allow(unused_imports)]
use crate::text::{decimal, signed_decimal, texts};
use crate::vm_tools::format_trace_entry;
#[allow(unused_imports)]
use crate::vm_tools::{program_in, trace_line, trace_lines};

verus! {

/// The name of a command on a program.
pub open spec fn program_command_name(command: ProgramCommand) -> Seq<char> {
    match command {
        ProgramCommand::Run => "run"@,
        ProgramCommand::Check => "check"@,
        ProgramCommand::Disassemble => "disassemble"@,
        ProgramCommand::Trace => "trace"@,
    }
}

/// How a command on a program is used.
pub open spec fn program_usage(command: ProgramCommand) -> Seq<char> {
    "usage: arvm "@ + program_command_name(command) + " <file|->"@ + (if command
        == ProgramCommand::Run {
        " [--json]"@
    } else {
        ""@
    })
}

/// The arguments among the first `n` that name a file.
pub open spec fn paths_in(arguments: Seq<Seq<char>>, n: int) -> Seq<Seq<char>>
    decreases n,
{
    if n <= 0 {
        Seq::empty()
    } else if arguments[n - 1] != "--json"@ {
        paths_in(arguments, n - 1).push(arguments[n - 1])
    } else {
        paths_in(arguments, n - 1)
    }
}

/// The file with the program, and whether the result is wanted as JSON. There is exactly one
/// file, and only a run has a result.
pub open spec fn program_options(command: ProgramCommand, arguments: Seq<Seq<char>>) -> Option<
    (Seq<char>, bool),
> {
    let paths = paths_in(arguments, arguments.len() as int);
    let json = arguments.contains("--json"@);
    if paths.len() != 1 || (command != ProgramCommand::Run && json) {
        None
    } else {
        Some((paths[0], json))
    }
}

/// The file with the program, and whether the result is wanted as JSON.
pub fn parse_program_options(command: ProgramCommand, arguments: &[String]) -> (r: Result<
    (String, bool),
    String,
>)
    ensures
        match r {
            Ok((path, json)) => program_options(command, texts(arguments@)) == Some((path@, json)),
            Err(message) => program_options(command, texts(arguments@)) is None && message@
                == program_usage(command),
        },
{
    let ghost all = texts(arguments@);
    let json = has_argument(arguments, "--json");
    let mut paths: Vec<String> = Vec::new();
    let mut i: usize = 0;
    assert(texts(paths@) =~= paths_in(all, 0));
    while i < arguments.len()
        invariant
            i <= arguments@.len(),
            all == texts(arguments@),
            texts(paths@) == paths_in(all, i as int),
        decreases arguments@.len() - i,
    {
        assert(all[i as int] == arguments@[i as int]@);
        if !same_text(arguments[i].as_str(), "--json") {
            let ghost before = paths@;
            paths.push(arguments[i].clone());
            assert(texts(paths@) =~= texts(before).push(all[i as int]));
        }
        i += 1;
    }
    assert(all.len() == arguments@.len());
    assert(texts(paths@).len() == paths@.len());
    if paths.len() != 1 || (command != ProgramCommand::Run && json) {
        let mut usage = "usage: arvm ".to_owned();
        usage.push_str(
            match command {
                ProgramCommand::Run => "run",
                ProgramCommand::Check => "check",
                ProgramCommand::Disassemble => "disassemble",
                ProgramCommand::Trace => "trace",
            },
        );
        usage.push_str(" <file|->");
        usage.push_str(
            if command == ProgramCommand::Run {
                " [--json]"
            } else {
                ""
            },
        );
        return Err(usage);
    }
    assert(texts(paths@)[0] == paths@[0]@);
    Ok((paths[0].clone(), json))
}

/// The result of a run as JSON, with the keys in order.
pub open spec fn result_json(program: Seq<Instruction>, result: int) -> Seq<char> {
    object_text(
        seq![
            ("instructions"@, decimal(program.len())),
            ("max_stack_depth"@, decimal(deepest_stack(program))),
            ("result"@, signed_decimal(result)),
        ],
    )
}

fn write_result(program: &Program, result: i32) -> (r: String)
    ensures
        r@ == result_json(program@, result as int),
{
    let fields = vec![
        field("instructions", size_text(program.instructions().len())),
        field("max_stack_depth", size_text(program.max_stack_depth())),
        field("result", signed_text(result as i64)),
    ];
    assert(field_models(fields@) =~= seq![
        ("instructions"@, decimal(program@.len())),
        ("max_stack_depth"@, decimal(deepest_stack(program@))),
        ("result"@, signed_decimal(result as int)),
    ]);
    write_object(&fields)
}

/// What a command on a program replies.
pub open spec fn program_reply(command: ProgramCommand, program: Seq<Instruction>, json: bool) -> ReplyModel {
    match command {
        ProgramCommand::Check => said_line(
            "valid: "@ + decimal(program.len()) + " instructions, max stack depth "@ + decimal(
                deepest_stack(program),
            ),
        ),
        ProgramCommand::Disassemble => said_line(listing(program)),
        ProgramCommand::Trace => match trace_from(
            program,
            initial_state(),
            MAX_VM_STEPS as nat,
        ).1 {
            Err(error) => failure("VM error: "@ + vm_error_text(error), 1),
            Ok(entries) => said(trace_lines(entries)),
        },
        ProgramCommand::Run => match run_from(program, initial_state(), MAX_VM_STEPS as nat).1 {
            Err(error) => failure("VM error: "@ + vm_error_text(error), 1),
            Ok(result) => said_line(
                if json {
                    result_json(program, result as int)
                } else {
                    signed_decimal(result as int)
                },
            ),
        },
    }
}

/// Validates a program and does with it what the command says.
pub fn run_program_command(command: ProgramCommand, source: &str, json: bool) -> (r: Reply)
    ensures
        r@ == (match program_in(source@) {
            Err(message) => failure("invalid program: "@ + message, 2),
            Ok(program) => program_reply(command, program, json),
        }),
{
    let program = match Program::from_source(source) {
        Err(error) => {
            return Reply::fail(labelled("invalid program: ", error.to_text().as_str()), 2);
        },
        Ok(program) => program,
    };
    match command {
        ProgramCommand::Check => {
            let mut text = "valid: ".to_owned();
            text.push_str(size_text(program.instructions().len()).as_str());
            text.push_str(" instructions, max stack depth ");
            text.push_str(size_text(program.max_stack_depth()).as_str());
            Reply::line(text)
        },
        ProgramCommand::Disassemble => Reply::line(program.disassemble()),
        ProgramCommand::Trace => {
            let mut vm = Vm::new();
            match vm.trace(&program) {
                Err(error) => Reply::fail(labelled("VM error: ", error.to_text().as_str()), 1),
                Ok(entries) => {
                    let ghost all = trace_lines(trace_models(entries@));
                    let mut lines: Vec<String> = Vec::new();
                    let mut i: usize = 0;
                    assert(texts(lines@) =~= all.take(0));
                    while i < entries.len()
                        invariant
                            i <= entries@.len(),
                            all == trace_lines(trace_models(entries@)),
                            texts(lines@) == all.take(i as int),
                        decreases entries@.len() - i,
                    {
                        let line = format_trace_entry(&entries[i]);
                        assert(trace_models(entries@)[i as int] == entries@[i as int]@);
                        let ghost before = lines@;
                        lines.push(line);
                        assert(texts(lines@) =~= texts(before).push(line@));
                        assert(all.take(i + 1) =~= all.take(i as int).push(all[i as int]));
                        i += 1;
                    }
                    assert(all.take(i as int) =~= all);
                    Reply::say(lines)
                },
            }
        },
        ProgramCommand::Run => {
            let mut vm = Vm::new();
            match vm.run_program(&program) {
                Err(error) => Reply::fail(labelled("VM error: ", error.to_text().as_str()), 1),
                Ok(result) => Reply::line(
                    if json {
                        write_result(&program, result)
                    } else {
                        signed_text(result as i64)
                    },
                ),
            }
        },
    }
}

// ---------------------------------------------------------------------------
// The platform
// ---------------------------------------------------------------------------

/// How the report on the platform is wanted.
#[derive(Debug, Clone, Copy, PartialEq, Eq, Structural)]
pub enum ReportForm {
    Text,
    Json,
}

/// How the report on the platform is wanted.
pub fn parse_doctor_arguments(arguments: &[String]) -> (r: Result<ReportForm, String>)
    ensures
        ({
            let all = texts(arguments@);
            match r {
                Ok(ReportForm::Text) => all.len() == 0,
                Ok(ReportForm::Json) => all.len() == 1 && all[0] == "--json"@,
                Err(message) => all.len() > 0 && !(all.len() == 1 && all[0] == "--json"@)
                    && message@ == "usage: arvm doctor [--json]"@,
            }
        }),
{
    if arguments.len() == 0 {
        return Ok(ReportForm::Text);
    }
    assert(texts(arguments@)[0] == arguments@[0]@);
    if arguments.len() == 1 && same_text(arguments[0].as_str(), "--json") {
        return Ok(ReportForm::Json);
    }
    Err("usage: arvm doctor [--json]".to_owned())
}

/// The lines of the report on the platform.
pub open spec fn report_lines() -> Seq<Seq<char>> {
    seq![
        PRODUCT@ + " "@ + VERSION@ + " \u{b7} API "@ + API_VERSION@,
        "workspace control plane: available (in-memory)"@,
        "bytecode executor: available"@,
        "Wasm/WASI executor: not installed"@,
        "native sandbox executor: not installed"@,
    ]
}

/// The report on the platform.
pub fn doctor_report() -> (r: Reply)
    ensures
        r@ == said(report_lines()),
{
    let info = SystemInfo::current();
    let mut first = info.product;
    first.push_str(" ");
    first.push_str(info.version.as_str());
    first.push_str(" \u{b7} API ");
    first.push_str(info.api_version.as_str());
    let lines = vec![
        first,
        "workspace control plane: available (in-memory)".to_owned(),
        "bytecode executor: available".to_owned(),
        "Wasm/WASI executor: not installed".to_owned(),
        "native sandbox executor: not installed".to_owned(),
    ];
    assert(texts(lines@) =~= report_lines());
    Reply::say(lines)
}

proof fn lemma_paths(arguments: Seq<Seq<char>>, n: int, at: int)
    requires
        0 <= n <= arguments.len(),
        forall|i: int| 0 <= i < n && i != at ==> #[trigger] arguments[i] == "--json"@,
        0 <= at < n ==> arguments[at] != "--json"@,
    ensures
        paths_in(arguments, n) == (if 0 <= at < n {
            seq![arguments[at]]
        } else {
            Seq::empty()
        }),
    decreases n,
{
    if n > 0 {
        lemma_paths(arguments, n - 1, at);
        assert(n - 1 != at ==> arguments[n - 1] == "--json"@);
        assert(Seq::<Seq<char>>::empty().push(arguments[n - 1]) =~= seq![arguments[n - 1]]);
    }
}

proof fn lemma_more_paths(arguments: Seq<Seq<char>>, n: int, a: int, b: int)
    requires
        0 <= a < b < arguments.len(),
        0 <= n <= arguments.len(),
        arguments[a] != "--json"@,
        arguments[b] != "--json"@,
    ensures
        a < n ==> paths_in(arguments, n).len() >= 1,
        b < n ==> paths_in(arguments, n).len() >= 2,
    decreases n,
{
    if n > 0 {
        lemma_more_paths(arguments, n - 1, a, b);
    }
}

/// A program is named by the one argument that is not `--json`, which may stand before or behind it
/// and which only a run takes.
pub proof fn law_programs_are_named_once(
    command: ProgramCommand,
    before: Seq<Seq<char>>,
    path: Seq<char>,
    after: Seq<Seq<char>>,
    a: int,
    b: int,
)
    requires
        path != "--json"@,
        forall|i: int| 0 <= i < before.len() ==> #[trigger] before[i] == "--json"@,
        forall|i: int| 0 <= i < after.len() ==> #[trigger] after[i] == "--json"@,
    ensures
        before.len() + after.len() == 0 ==> program_options(command, before + seq![path] + after)
            == Some((path, false)),
        before.len() + after.len() > 0 ==> program_options(command, before + seq![path] + after)
            == (if command == ProgramCommand::Run {
            Some((path, true))
        } else {
            None
        }),
        program_options(command, before) is None,
        forall|arguments: Seq<Seq<char>>|
            0 <= a < b < arguments.len() && #[trigger] arguments[a] != "--json"@
                && #[trigger] arguments[b] != "--json"@ ==> program_options(command, arguments)
                is None,
{
    let all = before + seq![path] + after;
    let at = before.len() as int;
    assert(all[at] == path);
    assert forall|i: int| 0 <= i < all.len() && i != at implies #[trigger] all[i] == "--json"@ by {
        if i < at {
            assert(all[i] == before[i]);
        } else {
            assert(all[i] == after[i - at - 1]);
        }
    }
    lemma_paths(all, all.len() as int, at);
    lemma_paths(before, before.len() as int, -1);
    if before.len() > 0 {
        assert(all[0] == "--json"@);
    }
    if after.len() > 0 {
        assert(all[at + 1] == "--json"@);
    }
    assert forall|arguments: Seq<Seq<char>>|
        0 <= a < b < arguments.len() && #[trigger] arguments[a] != "--json"@
            && #[trigger] arguments[b] != "--json"@ implies program_options(command, arguments)
        is None by {
        lemma_more_paths(arguments, arguments.len() as int, a, b);
    }
}

/// A run says its result, alone or in an object; a program that fails says why, with the exit code 1.
pub proof fn law_runs_say_their_result(program: Seq<Instruction>, limit: nat)
    requires
        limit == 1_000_000,
    ensures
        run_from(program, initial_state(), limit).1 matches Ok(result) ==> {
            let reply = program_reply(ProgramCommand::Run, program, false);
            &&& reply.lines == seq![signed_decimal(result as int)]
            &&& reply.error is None
            &&& reply.exit_code == 0
        },
        run_from(program, initial_state(), limit).1 is Err ==> {
            let reply = program_reply(ProgramCommand::Run, program, true);
            &&& reply.lines.len() == 0
            &&& reply.error is Some
            &&& reply.exit_code == 1
        },
{
}

} // verus!
