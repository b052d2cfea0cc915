//! The commands and the options of the command line.

use vstd::prelude::*;

use crate::artifacts::ArtifactKind;
use crate::runtime_error::labelled;
#[allow(unused_imports)]
use crate::skills::below;
use crate::skills::path_below;
#[allow(unused_imports)]
use crate::text::{
    all_white, begins, blank, decimal, ends, joined, law_blank_texts_are_white, text_option, texts,
};
use crate::text::{decimal_text, is_blank, join, same_text};

verus! {

// ---------------------------------------------------------------------------
// Replies
// ---------------------------------------------------------------------------

/// What a command says, and how it ends.
#[derive(Debug, PartialEq, Eq)]
pub struct Reply {
    /// The lines for standard output.
    pub lines: Vec<String>,
    /// The text for standard error.
    pub error: Option<String>,
    pub exit_code: i32,
}

/// What a [`Reply`] says.
#[verifier::ext_equal]
pub struct ReplyModel {
    pub lines: Seq<Seq<char>>,
    pub error: Option<Seq<char>>,
    pub exit_code: int,
}

impl View for Reply {
    type V = ReplyModel;

    open spec fn view(&self) -> ReplyModel {
        ReplyModel {
            lines: texts(self.lines@),
            error: match self.error {
                Some(text) => Some(text@),
                None => None,
            },
            exit_code: self.exit_code as int,
        }
    }
}

/// A reply of some lines.
pub open spec fn said(lines: Seq<Seq<char>>) -> ReplyModel {
    ReplyModel { lines, error: None, exit_code: 0 }
}

/// A reply of one line.
pub open spec fn said_line(line: Seq<char>) -> ReplyModel {
    said(seq![line])
}

/// A reply that says why the command failed.
pub open spec fn failure(message: Seq<char>, exit_code: int) -> ReplyModel {
    ReplyModel { lines: Seq::empty(), error: Some(message), exit_code }
}

impl Reply {
    pub fn say(lines: Vec<String>) -> (r: Self)
        ensures
            r@ == said(texts(lines@)),
    {
        Reply { lines, error: None, exit_code: 0 }
    }

    pub fn line(line: String) -> (r: Self)
        ensures
            r@ == said_line(line@),
    {
        let lines = vec![line];
        assert(texts(lines@) =~= seq![line@]);
        Reply { lines, error: None, exit_code: 0 }
    }

    pub fn fail(message: String, exit_code: i32) -> (r: Self)
        ensures
            r@ == failure(message@, exit_code as int),
    {
        let lines: Vec<String> = Vec::new();
        assert(texts(lines@) =~= Seq::<Seq<char>>::empty());
        Reply { lines, error: Some(message), exit_code }
    }
}

// ---------------------------------------------------------------------------
// Commands
// ---------------------------------------------------------------------------

/// What is done with a program.
#[derive(Debug, Clone, Copy, PartialEq, Eq, Structural)]
pub enum ProgramCommand {
    Run,
    Check,
    Disassemble,
    Trace,
}

/// The commands.
#[derive(Debug, Clone, Copy, PartialEq, Eq, Structural)]
pub enum Command {
    Help,
    Version,
    Doctor,
    Workspace,
    Session,
    Permission,
    Skill,
    Program(ProgramCommand),
    Demo,
    AgentDemo,
    RuntimeDemo,
    GuestDemo,
    CodingDemo,
    Agent,
    ModelBridge,
    Serve,
    Unknown,
}

/// The command with a name; without one, help.
pub open spec fn command_called(name: Seq<char>) -> Command {
    if name == "help"@ || name == "--help"@ || name == "-h"@ {
        Command::Help
    } else if name == "version"@ || name == "--version"@ || name == "-V"@ {
        Command::Version
    } else if name == "doctor"@ {
        Command::Doctor
    } else if name == "workspace"@ {
        Command::Workspace
    } else if name == "session"@ {
        Command::Session
    } else if name == "permission"@ {
        Command::Permission
    } else if name == "skill"@ {
        Command::Skill
    } else if name == "run"@ {
        Command::Program(ProgramCommand::Run)
    } else if name == "check"@ {
        Command::Program(ProgramCommand::Check)
    } else if name == "disassemble"@ {
        Command::Program(ProgramCommand::Disassemble)
    } else if name == "trace"@ {
        Command::Program(ProgramCommand::Trace)
    } else if name == "demo"@ {
        Command::Demo
    } else if name == "agent-demo"@ {
        Command::AgentDemo
    } else if name == "runtime-demo"@ {
        Command::RuntimeDemo
    } else if name == "guest-demo"@ {
        Command::GuestDemo
    } else if name == "coding-demo"@ {
        Command::CodingDemo
    } else if name == "agent"@ || name == "ask"@ {
        Command::Agent
    } else if name == "model-bridge"@ {
        Command::ModelBridge
    } else if name == "serve"@ {
        Command::Serve
    } else {
        Command::Unknown
    }
}

/// The command that the arguments begin with; without any, help.
pub open spec fn command_in(arguments: Seq<Seq<char>>) -> Command {
    if arguments.len() == 0 {
        Command::Help
    } else {
        command_called(arguments[0])
    }
}

fn command_named(name: &str) -> (r: Command)
    ensures
        r == command_called(name@),
{
    if same_text(name, "help") || same_text(name, "--help") || same_text(name, "-h") {
        Command::Help
    } else if same_text(name, "version") || same_text(name, "--version") || same_text(name, "-V") {
        Command::Version
    } else if same_text(name, "doctor") {
        Command::Doctor
    } else if same_text(name, "workspace") {
        Command::Workspace
    } else if same_text(name, "session") {
        Command::Session
    } else if same_text(name, "permission") {
        Command::Permission
    } else if same_text(name, "skill") {
        Command::Skill
    } else if same_text(name, "run") {
        Command::Program(ProgramCommand::Run)
    } else if same_text(name, "check") {
        Command::Program(ProgramCommand::Check)
    } else if same_text(name, "disassemble") {
        Command::Program(ProgramCommand::Disassemble)
    } else if same_text(name, "trace") {
        Command::Program(ProgramCommand::Trace)
    } else if same_text(name, "demo") {
        Command::Demo
    } else if same_text(name, "agent-demo") {
        Command::AgentDemo
    } else if same_text(name, "runtime-demo") {
        Command::RuntimeDemo
    } else if same_text(name, "guest-demo") {
        Command::GuestDemo
    } else if same_text(name, "coding-demo") {
        Command::CodingDemo
    } else if same_text(name, "agent") || same_text(name, "ask") {
        Command::Agent
    } else if same_text(name, "model-bridge") {
        Command::ModelBridge
    } else if same_text(name, "serve") {
        Command::Serve
    } else {
        Command::Unknown
    }
}

/// The command that the arguments begin with; without any, help.
pub fn command_of(arguments: &[String]) -> (r: Command)
    ensures
        r == command_in(texts(arguments@)),
{
    if arguments.len() == 0 {
        Command::Help
    } else {
        command_named(arguments[0].as_str())
    }
}

// ---------------------------------------------------------------------------
// Options
// ---------------------------------------------------------------------------

/// Whether an argument is given.
pub fn has_argument(arguments: &[String], name: &str) -> (r: bool)
    ensures
        r == texts(arguments@).contains(name@),
{
    let ghost all = texts(arguments@);
    let mut i: usize = 0;
    while i < arguments.len()
        invariant
            i <= arguments@.len(),
            all == texts(arguments@),
            forall|j: int| 0 <= j < i ==> #[trigger] all[j] != name@,
        decreases arguments@.len() - i,
    {
        assert(all[i as int] == arguments@[i as int]@);
        if same_text(arguments[i].as_str(), name) {
            return true;
        }
        i += 1;
    }
    assert(all.len() == arguments@.len());
    false
}

/// The arguments that stand behind a flag, among the first `n` that another one follows.
pub open spec fn values_of(arguments: Seq<Seq<char>>, flag: Seq<char>, n: int) -> Seq<Seq<char>>
    decreases n,
{
    if n <= 0 {
        Seq::empty()
    } else {
        let before = values_of(arguments, flag, n - 1);
        if arguments[n - 1] == flag {
            before.push(arguments[n])
        } else {
            before
        }
    }
}

/// The arguments that stand behind a flag.
pub open spec fn flag_values(arguments: Seq<Seq<char>>, flag: Seq<char>) -> Seq<Seq<char>> {
    values_of(arguments, flag, arguments.len() - 1)
}

fn extract_values(arguments: &[String], flag: &str) -> (r: Vec<String>)
    ensures
        texts(r@) == flag_values(texts(arguments@), flag@),
{
    let ghost all = texts(arguments@);
    let mut r: Vec<String> = Vec::new();
    assert(texts(r@) =~= values_of(all, flag@, 0));
    if arguments.len() == 0 {
        return r;
    }
    let mut i: usize = 0;
    while i < arguments.len() - 1
        invariant
            arguments@.len() > 0,
            i <= arguments@.len() - 1,
            all == texts(arguments@),
            texts(r@) == values_of(all, flag@, i as int),
        decreases arguments@.len() - i,
    {
        assert(all[i as int] == arguments@[i as int]@);
        assert(all[i + 1] == arguments@[i + 1]@);
        if same_text(arguments[i].as_str(), flag) {
            let ghost before = r@;
            r.push(arguments[i + 1].clone());
            assert(texts(r@) =~= texts(before).push(all[i + 1]));
        }
        i += 1;
    }
    assert(all.len() == arguments@.len());
    r
}

/// The further directories of the workspace.
pub fn extract_workspace_directories(arguments: &[String]) -> (r: Vec<String>)
    ensures
        texts(r@) == flag_values(texts(arguments@), "--workspace-dir"@),
{
    extract_values(arguments, "--workspace-dir")
}

/// The rules that are given.
pub fn extract_permission_rule_texts(arguments: &[String]) -> (r: Vec<String>)
    ensures
        texts(r@) == flag_values(texts(arguments@), "--rule"@),
{
    extract_values(arguments, "--rule")
}

/// The names of the skills that are asked for.
pub fn extract_skill_names(arguments: &[String]) -> (r: Vec<String>)
    ensures
        texts(r@) == flag_values(texts(arguments@), "--skill"@),
{
    extract_values(arguments, "--skill")
}

/// The first session that is given.
pub fn extract_session_id(arguments: &[String]) -> (r: Option<String>)
    ensures
        ({
            let ids = flag_values(texts(arguments@), "--session"@);
            match r {
                Some(id) => ids.len() > 0 && id@ == ids[0],
                None => ids.len() == 0,
            }
        }),
{
    let ids = extract_values(arguments, "--session");
    assert(texts(ids@).len() == ids@.len());
    if ids.len() == 0 {
        None
    } else {
        assert(texts(ids@)[0] == ids@[0]@);
        Some(ids[0].clone())
    }
}

/// Whether an argument is a flag that another argument belongs to.
pub open spec fn takes_value(argument: Seq<char>) -> bool {
    argument == "--session"@ || argument == "--rule"@ || argument == "--skill"@ || argument
        == "--workspace-dir"@
}

/// Whether an argument is a flag on its own.
pub open spec fn stands_alone(argument: Seq<char>) -> bool {
    argument == "--json"@ || argument == "--auto"@ || argument == "--deny"@
}

/// Whether the argument at `i` belongs to the prompt.
pub open spec fn in_prompt(arguments: Seq<Seq<char>>, i: int) -> bool {
    &&& !takes_value(arguments[i])
    &&& !stands_alone(arguments[i])
    &&& i > 0 ==> !takes_value(arguments[i - 1])
}

/// The words of the prompt among the first `n` arguments.
pub open spec fn prompt_words(arguments: Seq<Seq<char>>, n: int) -> Seq<Seq<char>>
    decreases n,
{
    if n <= 0 {
        Seq::empty()
    } else if in_prompt(arguments, n - 1) {
        prompt_words(arguments, n - 1).push(arguments[n - 1])
    } else {
        prompt_words(arguments, n - 1)
    }
}

/// The prompt that the arguments hold, and whether the events are wanted as JSON.
pub open spec fn one_shot(arguments: Seq<Seq<char>>) -> Option<(Seq<char>, bool)> {
    let prompt = joined(prompt_words(arguments, arguments.len() as int), " "@);
    if blank(prompt) {
        None
    } else {
        Some((prompt, arguments.contains("--json"@)))
    }
}

fn is_valued(argument: &str) -> (r: bool)
    ensures
        r == takes_value(argument@),
{
    same_text(argument, "--session") || same_text(argument, "--rule") || same_text(
        argument,
        "--skill",
    ) || same_text(argument, "--workspace-dir")
}

fn is_bare(argument: &str) -> (r: bool)
    ensures
        r == stands_alone(argument@),
{
    same_text(argument, "--json") || same_text(argument, "--auto") || same_text(argument, "--deny")
}

/// The prompt that the arguments hold, and whether the events are wanted as JSON.
pub fn parse_one_shot_args(arguments: &[String]) -> (r: Option<(String, bool)>)
    ensures
        match r {
            Some((prompt, json)) => one_shot(texts(arguments@)) == Some((prompt@, json)),
            None => one_shot(texts(arguments@)) is None,
        },
{
    let ghost all = texts(arguments@);
    let json = has_argument(arguments, "--json");
    let mut parts: Vec<String> = Vec::new();
    let mut skip_next = false;
    let mut i: usize = 0;
    assert(texts(parts@) =~= prompt_words(all, 0));
    while i < arguments.len()
        invariant
            i <= arguments@.len(),
            all == texts(arguments@),
            skip_next == (i > 0 && takes_value(all[i - 1])),
            texts(parts@) == prompt_words(all, i as int),
        decreases arguments@.len() - i,
    {
        let argument = arguments[i].as_str();
        assert(all[i as int] == argument@);
        if is_valued(argument) {
            skip_next = true;
        } else if skip_next {
            skip_next = false;
        } else if !is_bare(argument) {
            let ghost before = parts@;
            parts.push(argument.to_owned());
            assert(texts(parts@) =~= texts(before).push(argument@));
        }
        i += 1;
    }
    assert(all.len() == arguments@.len());
    let prompt = join(&parts, " ");
    if is_blank(prompt.as_str()) {
        None
    } else {
        Some((prompt, json))
    }
}

/// What becomes of guarded tools when nobody can be asked.
#[derive(Debug, Clone, Copy, PartialEq, Eq, Structural)]
pub enum OneShotPermission {
    Auto,
    Deny,
}

/// Guarded tools are allowed only where this is asked for.
pub fn extract_one_shot_permission(arguments: &[String]) -> (r: OneShotPermission)
    ensures
        r == (if texts(arguments@).contains("--auto"@) {
            OneShotPermission::Auto
        } else {
            OneShotPermission::Deny
        }),
{
    if has_argument(arguments, "--auto") {
        OneShotPermission::Auto
    } else {
        OneShotPermission::Deny
    }
}

// ---------------------------------------------------------------------------
// Artifacts
// ---------------------------------------------------------------------------

pub const MAX_ARTIFACT_BYTES: u64 = 64 * 1024 * 1024;

/// The kind of artifact with a name.
pub open spec fn artifact_kind(value: Seq<char>) -> Result<ArtifactKind, Seq<char>> {
    if value == "source"@ {
        Ok(ArtifactKind::Source)
    } else if value == "generated"@ {
        Ok(ArtifactKind::Generated)
    } else {
        Err("invalid artifact kind '"@ + value + "': expected source|generated"@)
    }
}

pub fn parse_artifact_kind(value: &str) -> (r: Result<ArtifactKind, String>)
    ensures
        match r {
            Ok(kind) => artifact_kind(value@) == Ok::<ArtifactKind, Seq<char>>(kind),
            Err(message) => artifact_kind(value@) == Err::<ArtifactKind, Seq<char>>(message@),
        },
{
    if same_text(value, "source") {
        Ok(ArtifactKind::Source)
    } else if same_text(value, "generated") {
        Ok(ArtifactKind::Generated)
    } else {
        let mut text = labelled("invalid artifact kind '", value);
        text.push_str("': expected source|generated");
        Err(text)
    }
}

/// Checks that an artifact is not too large.
pub fn check_artifact_byte_len(byte_len: u64) -> (r: Result<(), String>)
    ensures
        match r {
            Ok(_) => byte_len <= MAX_ARTIFACT_BYTES,
            Err(message) => byte_len > MAX_ARTIFACT_BYTES && message@ == "artifact file too large: "@
                + decimal(byte_len as nat) + " bytes exceeds 64 MiB limit"@,
        },
{
    if byte_len > MAX_ARTIFACT_BYTES {
        let mut text = labelled("artifact file too large: ", decimal_text(byte_len).as_str());
        text.push_str(" bytes exceeds 64 MiB limit");
        return Err(text);
    }
    Ok(())
}

/// What is to be imported, and where to.
#[derive(Debug, PartialEq, Eq)]
pub struct ArtifactImportArguments {
    pub workspace: String,
    pub artifact_id: String,
    pub version_id: String,
    pub file: String,
    pub media_type: String,
    pub parent_version_id: Option<String>,
}

pub const ARTIFACT_IMPORT_USAGE: &'static str =
    "usage: arvm workspace artifact import <workspace> <artifact-id> <version-id> <file> <media-type> [parent-version-id]";

/// Reads what is to be imported: five arguments, and perhaps the version before.
pub fn parse_artifact_import_arguments(arguments: &[String]) -> (r: Result<
    ArtifactImportArguments,
    String,
>)
    ensures
        match r {
            Ok(request) => {
                let all = texts(arguments@);
                &&& 5 <= all.len() <= 6
                &&& request.workspace@ == all[0]
                &&& request.artifact_id@ == all[1]
                &&& request.version_id@ == all[2]
                &&& request.file@ == all[3]
                &&& request.media_type@ == all[4]
                &&& match request.parent_version_id {
                    Some(parent) => all.len() == 6 && parent@ == all[5],
                    None => all.len() == 5,
                }
            },
            Err(message) => !(5 <= arguments@.len() <= 6) && message@ == ARTIFACT_IMPORT_USAGE@,
        },
{
    if arguments.len() < 5 || arguments.len() > 6 {
        return Err(ARTIFACT_IMPORT_USAGE.to_owned());
    }
    Ok(
        ArtifactImportArguments {
            workspace: arguments[0].clone(),
            artifact_id: arguments[1].clone(),
            version_id: arguments[2].clone(),
            file: arguments[3].clone(),
            media_type: arguments[4].clone(),
            parent_version_id: if arguments.len() == 6 {
                Some(arguments[5].clone())
            } else {
                None
            },
        },
    )
}

// ---------------------------------------------------------------------------
// Places
// ---------------------------------------------------------------------------

/// Where a file of the program's state stands: in the directory that is set aside for the
/// program, else below the one for the state of programs, else below the home directory, and
/// below the temporary directory where there is none.
pub open spec fn state_place(
    own: Option<Seq<char>>,
    shared: Option<Seq<char>>,
    home: Seq<char>,
    name: Seq<char>,
) -> Seq<char> {
    match (own, shared) {
        (Some(directory), _) => below(directory, name),
        (None, Some(directory)) => below(directory, "a-rust-vm/"@ + name),
        (None, None) => below(home, ".local/state/a-rust-vm/"@ + name),
    }
}

/// Where a file of the program's state stands.
pub fn state_path(own: Option<String>, shared: Option<String>, home: &str, name: &str) -> (r:
    String)
    ensures
        r@ == state_place(
            match own {
                Some(text) => Some(text@),
                None => None,
            },
            match shared {
                Some(text) => Some(text@),
                None => None,
            },
            home@,
            name@,
        ),
{
    match (own, shared) {
        (Some(directory), _) => path_below(directory.as_str(), name),
        (None, Some(directory)) => path_below(
            directory.as_str(),
            labelled("a-rust-vm/", name).as_str(),
        ),
        (None, None) => path_below(
            home,
            labelled(".local/state/a-rust-vm/", name).as_str(),
        ),
    }
}

/// The directory with the user's configuration: the program's own where it has one, else the one
/// that programs share, else one below the home directory, else the fallback.
pub open spec fn config_place(
    own: Option<Seq<char>>,
    shared: Option<Seq<char>>,
    home: Option<Seq<char>>,
    fallback: Seq<char>,
) -> Seq<char> {
    match (own, shared, home) {
        (Some(directory), _, _) => directory,
        (None, Some(directory), _) => directory,
        (None, None, Some(home)) => below(home, ".config/a-rust-vm"@),
        (None, None, None) => fallback,
    }
}

/// The directory with the user's configuration.
pub fn user_config_root(
    own: Option<String>,
    shared: Option<String>,
    home: Option<String>,
    fallback: &str,
) -> (r: String)
    ensures
        r@ == config_place(text_option(own), text_option(shared), text_option(home), fallback@),
{
    match (own, shared, home) {
        (Some(directory), _, _) => directory,
        (None, Some(directory), _) => directory,
        (None, None, Some(home)) => path_below(home.as_str(), ".config/a-rust-vm"),
        (None, None, None) => fallback.to_owned(),
    }
}

/// The directories with skills: those of the project come before those of the user.
pub fn skill_roots_for(project_root: &str, user_root: &str) -> (r: Vec<String>)
    ensures
        texts(r@) == seq![
            below(project_root@, "skills"@),
            below(user_root@, "skills"@),
        ],
{
    let r = vec![
        path_below(project_root, "skills"),
        path_below(user_root, "skills"),
    ];
    assert(texts(r@) =~= seq![
        below(project_root@, "skills"@),
        below(user_root@, "skills"@),
    ]);
    r
}

// ---------------------------------------------------------------------------
// Laws
// ---------------------------------------------------------------------------

/// The values of a flag are the arguments that stand right behind it, in their order, and no others.
pub proof fn law_flags_have_their_values(arguments: Seq<Seq<char>>, flag: Seq<char>, n: int)
    requires
        0 <= n < arguments.len(),
    ensures
        n + 1 < arguments.len() ==> values_of(arguments, flag, n + 1) == if arguments[n] == flag {
            values_of(arguments, flag, n).push(arguments[n + 1])
        } else {
            values_of(arguments, flag, n)
        },
        values_of(arguments, flag, 0) == Seq::<Seq<char>>::empty(),
        flag_values(arguments, flag) == values_of(arguments, flag, arguments.len() - 1),
        flag_values(seq![flag, arguments[n]], flag) == seq![arguments[n]],
{
    let two = seq![flag, arguments[n]];
    reveal_with_fuel(values_of, 2);
    assert(values_of(two, flag, 1) =~= seq![arguments[n]]);
}

/// The prompt is made of all arguments but the flags and their values, in their order.
pub proof fn law_prompts_leave_flags_out(arguments: Seq<Seq<char>>, n: int)
    requires
        0 <= n < arguments.len(),
    ensures
        ({
            let argument = arguments[n];
            let flag = argument == "--session"@ || argument == "--rule"@ || argument == "--skill"@
                || argument == "--workspace-dir"@ || argument == "--json"@ || argument == "--auto"@
                || argument == "--deny"@;
            let value = n > 0 && (arguments[n - 1] == "--session"@ || arguments[n - 1] == "--rule"@
                || arguments[n - 1] == "--skill"@ || arguments[n - 1] == "--workspace-dir"@);
            prompt_words(arguments, n + 1) == if flag || value {
                prompt_words(arguments, n)
            } else {
                prompt_words(arguments, n).push(argument)
            }
        }),
        prompt_words(arguments, 0) == Seq::<Seq<char>>::empty(),
        one_shot(arguments) matches Some((prompt, json)) ==> prompt == joined(
            prompt_words(arguments, arguments.len() as int),
            " "@,
        ) && (json <==> arguments.contains("--json"@)) && !all_white(prompt),
        one_shot(arguments) is None ==> all_white(
            joined(prompt_words(arguments, arguments.len() as int), " "@),
        ),
{
    law_blank_texts_are_white(joined(prompt_words(arguments, arguments.len() as int), " "@), ' ');
}

/// Guarded tools are allowed without asking only where `--auto` is given.
pub proof fn law_only_auto_allows_unasked(arguments: &[String], r: OneShotPermission)
    requires
        call_ensures(extract_one_shot_permission, (arguments,), r),
    ensures
        r == OneShotPermission::Auto <==> exists|i: int|
            0 <= i < arguments@.len() && (#[trigger] arguments@[i])@ == "--auto"@,
{
    let all = texts(arguments@);
    if all.contains("--auto"@) {
        let i = choose|i: int| 0 <= i < all.len() && all[i] == "--auto"@;
        assert(arguments@[i]@ == "--auto"@);
    }
    if exists|i: int| 0 <= i < arguments@.len() && (#[trigger] arguments@[i])@ == "--auto"@ {
        let i = choose|i: int| 0 <= i < arguments@.len() && (#[trigger] arguments@[i])@ == "--auto"@;
        assert(all[i] == "--auto"@);
    }
}

/// Configuration and state are kept where the program was told, else where programs of the user keep
/// theirs, else below the home directory.
pub proof fn law_directories_are_chosen_in_order(
    own: Seq<char>,
    shared: Option<Seq<char>>,
    home: Option<Seq<char>>,
    fallback: Seq<char>,
    name: Seq<char>,
)
    ensures
        config_place(Some(own), shared, home, fallback) == own,
        shared matches Some(directory) ==> config_place(None, shared, home, fallback) == directory,
        config_place(None, None, None, fallback) == fallback,
        home matches Some(directory) ==> begins(config_place(None, None, home, fallback), directory)
            && begins(state_place(None, None, directory, name), directory),
        begins(state_place(Some(own), shared, fallback, name), own),
        shared matches Some(directory) ==> begins(state_place(None, shared, fallback, name), directory),
        ends(state_place(Some(own), shared, fallback, name), name),
        ends(state_place(None, shared, fallback, name), name),
{
    if let Some(directory) = home {
        lemma_below_parts(directory, Seq::empty(), ".config/a-rust-vm"@);
        assert(Seq::<char>::empty() + ".config/a-rust-vm"@ =~= ".config/a-rust-vm"@);
        lemma_below_parts(directory, ".local/state/a-rust-vm/"@, name);
    }
    lemma_below_parts(own, Seq::empty(), name);
    assert(Seq::<char>::empty() + name =~= name);
    lemma_below_parts(fallback, ".local/state/a-rust-vm/"@, name);
    if let Some(directory) = shared {
        lemma_below_parts(directory, "a-rust-vm/"@, name);
    }
}

proof fn lemma_below_parts(root: Seq<char>, middle: Seq<char>, name: Seq<char>)
    ensures
        begins(below(root, middle + name), root),
        ends(below(root, middle + name), name),
{
    let whole = below(root, middle + name);
    assert(whole.take(root.len() as int) =~= root);
    assert(whole.skip(whole.len() - name.len()) =~= name);
}

} // verus!
