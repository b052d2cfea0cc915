//! The commands and what they reply.

use a_rust_vm::agent::{
    AgentEvent, ModelMode, PermissionDecision, PermissionRequest, RouteRequest, ToolResult,
};
use a_rust_vm::agent_console::{
    ConsoleInput, ConsoleStep, begin_session, decide_by_rules, decide_unasked, model_arguments,
    read_approval, read_input, record_event, resumed_conversation, resumed_line, show_once, take_input,
};
use a_rust_vm::artifacts::ArtifactKind;
use a_rust_vm::command_line::{
    Command, OneShotPermission, ProgramCommand, check_artifact_byte_len, command_of,
    extract_one_shot_permission, extract_permission_rule_texts, extract_session_id,
    extract_skill_names, extract_workspace_directories, parse_artifact_import_arguments,
    parse_artifact_kind, parse_one_shot_args, skill_roots_for, state_path, user_config_root,
};
use a_rust_vm::control_plane::ControlPlane;
use a_rust_vm::ordered::OrderedMap;
use a_rust_vm::permission_rules::{
    PermissionCommand, RulesFile, add_stored_permission_rule, build_permission_policy, list_rules,
    load_stored_permission_policy, merged_permission_policy, parse_permission_command,
};
use a_rust_vm::permissions::PermissionEffect;
use a_rust_vm::program_commands::{
    ReportForm, doctor_report, parse_doctor_arguments, parse_program_options, run_program_command,
};
use a_rust_vm::runtime::ResourceLimits;
use a_rust_vm::session::{ReadFailure, Session, SessionStore};
use a_rust_vm::session_commands::{
    SessionCommand, export_session, format_session_json, format_session_text, list_sessions,
    parse_session_command, parse_session_export_args, saved_line, session_to_save, show_session,
};
use a_rust_vm::skills::{SkillRoot, SkillSource, discover_skills, load_skill};
use a_rust_vm::workspace_commands::{
    ArtifactCommand, WorkspaceCommand, WorkspaceOutcome, parse_artifact_command,
    parse_workspace_command, run_workspace_command,
};

fn words(all: &[&str]) -> Vec<String> {
    all.iter().map(|word| word.to_string()).collect()
}

#[test]
fn one_shot_args_extract_prompt_and_json_flag() {
    assert_eq!(
        parse_one_shot_args(&["--json".to_owned(), "do".to_owned(), "x".to_owned()]),
        Some(("do x".to_owned(), true))
    );
    assert_eq!(
        parse_one_shot_args(&["do".to_owned(), "x".to_owned()]),
        Some(("do x".to_owned(), false))
    );
    assert_eq!(parse_one_shot_args(&[]), None);
    assert_eq!(parse_one_shot_args(&["--json".to_owned()]), None);
    assert_eq!(
        parse_one_shot_args(&[
            "--session".to_owned(),
            "s-1".to_owned(),
            "--json".to_owned(),
            "hi".to_owned()
        ]),
        Some(("hi".to_owned(), true))
    );
    assert_eq!(
        extract_session_id(&["--session".to_owned(), "s-1".to_owned(), "hi".to_owned()]),
        Some("s-1".to_owned())
    );
    assert_eq!(extract_session_id(&["hi".to_owned()]), None);
    assert_eq!(
        parse_one_shot_args(&["--auto".to_owned(), "write".to_owned(), "x".to_owned()]),
        Some(("write x".to_owned(), false))
    );
    assert_eq!(
        extract_one_shot_permission(&["--auto".to_owned(), "hi".to_owned()]),
        OneShotPermission::Auto
    );
    assert_eq!(
        extract_one_shot_permission(&["hi".to_owned()]),
        OneShotPermission::Deny
    );
    assert_eq!(
        parse_one_shot_args(&[
            "--skill".to_owned(),
            "review".to_owned(),
            "do".to_owned(),
            "x".to_owned()
        ]),
        Some(("do x".to_owned(), false))
    );
    assert_eq!(
        parse_one_shot_args(&[
            "--workspace-dir".to_owned(),
            "/tmp/extra".to_owned(),
            "do".to_owned(),
            "x".to_owned()
        ]),
        Some(("do x".to_owned(), false))
    );
}

#[test]
fn workspace_dir_flags_are_extracted_repeatably() {
    let arguments = [
        "--workspace-dir".to_owned(),
        "/tmp/first".to_owned(),
        "hi".to_owned(),
        "--workspace-dir".to_owned(),
        "/tmp/second".to_owned(),
    ];
    assert_eq!(
        extract_workspace_directories(&arguments),
        vec!["/tmp/first", "/tmp/second"]
    );
    assert!(extract_workspace_directories(&["hi".to_owned()]).is_empty());
}

#[test]
fn skill_names_are_extracted() {
    let arguments = words(&["--skill", "review", "do", "x"]);
    assert_eq!(extract_skill_names(&arguments), vec!["review".to_owned()]);
    assert!(extract_skill_names(&["hi".to_owned()]).is_empty());
}

#[test]
fn permission_rule_flags_are_extracted_and_excluded_from_prompt() {
    let arguments = [
        "--rule".to_owned(),
        "allow write_file:notes.txt".to_owned(),
        "--rule".to_owned(),
        "deny run_command:rm".to_owned(),
        "write".to_owned(),
        "notes".to_owned(),
    ];
    assert_eq!(
        extract_permission_rule_texts(&arguments),
        vec![
            "allow write_file:notes.txt".to_owned(),
            "deny run_command:rm".to_owned(),
        ]
    );
    assert_eq!(
        parse_one_shot_args(&arguments),
        Some(("write notes".to_owned(), false))
    );
    assert!(extract_permission_rule_texts(&["hi".to_owned()]).is_empty());
}

#[test]
fn permission_rule_flags_build_a_policy_or_fail_closed() {
    let arguments = [
        "--rule".to_owned(),
        "deny run_command:rm".to_owned(),
        "hi".to_owned(),
    ];
    let policy = build_permission_policy(&arguments).unwrap();
    assert_eq!(
        policy.decide("run_command", "rm -rf /tmp"),
        PermissionEffect::Deny
    );
    assert!(build_permission_policy(&["--rule".to_owned(), "permit x".to_owned()]).is_err());
}

#[test]
fn durable_permission_rules_round_trip_missing_and_invalid() {
    let empty = load_stored_permission_policy(&RulesFile::Missing).unwrap();
    assert!(empty.rules().is_empty());
    let content = add_stored_permission_rule(&RulesFile::Missing, "deny run_command:rm").unwrap();
    assert_eq!(content, b"[\n  \"deny run_command:rm\"\n]");
    let file = RulesFile::Found(content);
    let stored = load_stored_permission_policy(&file).unwrap();
    assert_eq!(
        stored.decide("run_command", "rm -rf /tmp"),
        PermissionEffect::Deny
    );
    assert_eq!(
        add_stored_permission_rule(&file, "permit write_file").unwrap_err(),
        "invalid rule 'permit write_file': permission effect must be one of 'allow', 'ask', or 'deny'"
    );
    let more = RulesFile::Found(add_stored_permission_rule(&file, " allow * ").unwrap());
    assert_eq!(
        list_rules(&more).lines,
        vec!["deny run_command:rm", "allow *"]
    );
    assert!(load_stored_permission_policy(&RulesFile::Found(b"not json".to_vec())).is_err());
    assert!(load_stored_permission_policy(&RulesFile::Found(b"[\"permit x\"]".to_vec())).is_err());
    assert!(
        add_stored_permission_rule(&RulesFile::Found(b"[\"permit x\"]".to_vec()), "allow *")
            .is_err()
    );
    assert_eq!(
        list_rules(&RulesFile::Unreadable("denied".to_owned())).error,
        Some("[permission] cannot read permission rules: denied".to_owned())
    );
    assert_eq!(list_rules(&RulesFile::Found(Vec::new())).lines, vec!["(no rules)"]);
}

#[test]
fn cli_rules_take_precedence_over_stored_rules() {
    let file = RulesFile::Found(
        add_stored_permission_rule(&RulesFile::Missing, "deny write_file:notes.txt").unwrap(),
    );
    let arguments = ["--rule".to_owned(), "allow write_file:notes.txt".to_owned()];
    let policy = merged_permission_policy(&file, &arguments).unwrap();
    assert_eq!(
        policy.decide("write_file", "notes.txt"),
        PermissionEffect::Allow
    );
}

#[test]
fn permission_commands_are_read() {
    assert_eq!(
        parse_permission_command(&words(&["list"])),
        PermissionCommand::List
    );
    assert_eq!(
        parse_permission_command(&words(&["add", "allow *"])),
        PermissionCommand::Add("allow *".to_owned())
    );
    assert_eq!(
        parse_permission_command(&words(&["clear"])),
        PermissionCommand::Clear
    );
    assert_eq!(
        parse_permission_command(&words(&["add"])),
        PermissionCommand::Usage
    );
}

#[test]
fn session_export_formats_text_json_and_usage() {
    let mut session = Session::new("export-1").unwrap();
    session.push("user", "inspect this workspace");
    session.push("assistant", "I will inspect it.");

    let text = format_session_text(&session);
    assert_eq!(
        text,
        "[user] inspect this workspace\n[assistant] I will inspect it."
    );
    let json = format_session_json(&session).unwrap();
    let decoded: serde_json::Value = serde_json::from_str(&json).unwrap();
    assert_eq!(decoded["id"], "export-1");
    assert_eq!(decoded["updated_at"], session.updated_at);
    assert_eq!(decoded["messages"][0]["role"], "user");
    assert!(json.starts_with("{\n  \"id\": \"export-1\""));

    let empty = Session::new("empty-export").unwrap();
    assert_eq!(format_session_text(&empty), "(empty session empty-export)");

    let store = SessionStore::new("/state/sessions");
    let copy = || {
        let mut copy = Session::new_at("export-1", session.created_at).unwrap();
        for message in &session.messages {
            copy.push_at(&message.role, &message.content, session.updated_at);
        }
        copy
    };
    assert_eq!(export_session(Ok(copy()), false), Ok(text));
    assert_eq!(export_session(Ok(copy()), true), Ok(json));
    assert!(
        export_session(Err(store.load_error("missing", ReadFailure::Missing)), false).is_err()
    );

    assert_eq!(
        parse_session_export_args(&["export-1".to_owned()]).unwrap(),
        ("export-1".to_owned(), false)
    );
    assert_eq!(
        parse_session_export_args(&["export-1".to_owned(), "--json".to_owned()]).unwrap(),
        ("export-1".to_owned(), true)
    );
    assert!(parse_session_export_args(&[]).is_err());
    assert!(parse_session_export_args(&["a".to_owned(), "b".to_owned()]).is_err());
    assert!(parse_session_export_args(&["a".to_owned(), "--text".to_owned()]).is_err());
}

#[test]
fn session_commands_save_and_show() {
    let store = SessionStore::new("/state/sessions");
    let missing = || store.load_error("s-1", ReadFailure::Missing);
    let session = session_to_save(Err(missing()), "s-1", "user", "hi", 9).unwrap();
    assert_eq!(session.created_at, 9);
    assert_eq!(saved_line("s-1", &session), "saved s-1 (1 messages)");
    assert_eq!(show_session("s-1", Ok(session)).lines, vec!["[user] hi"]);
    assert_eq!(
        session_to_save(
            Err(store.load_error("s-1", ReadFailure::Other("denied".to_owned()))),
            "s-1",
            "user",
            "hi",
            9
        )
        .unwrap_err()
        .split(':')
        .next(),
        Some("[session] cannot resume s-1")
    );
    assert!(session_to_save(Err(missing()), "../s", "user", "hi", 9).is_err());
    assert_eq!(show_session("s-1", Err(missing())).exit_code, 1);
    assert_eq!(list_sessions(Vec::new()).lines, vec!["(no sessions)"]);
    assert_eq!(
        parse_session_command(&words(&["save", "a", "user", "hi"])),
        SessionCommand::Save {
            id: "a".to_owned(),
            role: "user".to_owned(),
            content: "hi".to_owned()
        }
    );
    assert_eq!(
        parse_session_command(&words(&["save", "a", "user"])),
        SessionCommand::Usage
    );
    assert_eq!(parse_session_command(&words(&["show"])), SessionCommand::Usage);
    assert_eq!(parse_session_command(&words(&["export"])), SessionCommand::Export);
}

#[test]
fn skill_roots_prefer_project_then_user_and_cli_loads() {
    let paths = skill_roots_for("/project", "/user/");
    assert_eq!(paths, vec!["/project/skills", "/user/skills"]);
    let content = "---\nname: review\ndescription: Review changes\n---\nCheck diffs.\n";
    let mut skills = OrderedMap::new();
    skills.insert(
        "review".to_owned(),
        SkillSource { size: Ok(content.len() as u64), text: Ok(content.to_owned()) },
    );
    let roots = vec![
        SkillRoot { path: paths[0].clone(), skills },
        SkillRoot { path: paths[1].clone(), skills: OrderedMap::new() },
    ];
    let discovered = discover_skills(&roots).unwrap();
    assert_eq!(discovered.len(), 1);
    let loaded = load_skill(&roots, "review").unwrap();
    assert!(loaded.scoped_instructions().contains("Check diffs."));
    assert!(load_skill(&roots, "missing").is_err());
}

#[test]
fn parses_artifact_kinds() {
    assert!(matches!(
        parse_artifact_kind("source"),
        Ok(ArtifactKind::Source)
    ));
    assert!(matches!(
        parse_artifact_kind("generated"),
        Ok(ArtifactKind::Generated)
    ));
    assert!(parse_artifact_kind("blob").is_err());
}

#[test]
fn enforces_artifact_size_limit() {
    assert!(check_artifact_byte_len(64 * 1024 * 1024).is_ok());
    assert!(check_artifact_byte_len(64 * 1024 * 1024 + 1).is_err());
}

#[test]
fn parses_artifact_import_arguments_with_optional_parent() {
    let arguments = [
        "research".to_owned(),
        "budget".to_owned(),
        "budget-v1".to_owned(),
        "budget.xlsx".to_owned(),
        "application/pdf".to_owned(),
        "budget-v0".to_owned(),
    ];
    let parsed = parse_artifact_import_arguments(&arguments).unwrap();
    assert_eq!(parsed.workspace, "research");
    assert_eq!(parsed.parent_version_id.as_deref(), Some("budget-v0"));
    assert!(parse_artifact_import_arguments(&arguments[..2]).is_err());
}

#[test]
fn commands_are_told_apart() {
    assert_eq!(command_of(&[]), Command::Help);
    assert_eq!(command_of(&words(&["-V"])), Command::Version);
    assert_eq!(
        command_of(&words(&["trace", "x"])),
        Command::Program(ProgramCommand::Trace)
    );
    assert_eq!(command_of(&words(&["ask"])), Command::Agent);
    assert_eq!(command_of(&words(&["bogus"])), Command::Unknown);
    assert_eq!(
        state_path(None, Some("/xdg".to_owned()), "/home/a", "rules.json"),
        "/xdg/a-rust-vm/rules.json"
    );
    assert_eq!(
        state_path(Some("/own".to_owned()), None, "/home/a", "rules.json"),
        "/own/rules.json"
    );
    assert_eq!(
        state_path(None, None, "/home/a", "sessions"),
        "/home/a/.local/state/a-rust-vm/sessions"
    );
}

#[test]
fn programs_are_run_checked_and_traced() {
    let source = "PUSH 2\nPUSH 3\nADD\nHALT";
    assert_eq!(
        parse_program_options(ProgramCommand::Run, &words(&["--json", "a.arvm"])),
        Ok(("a.arvm".to_owned(), true))
    );
    assert_eq!(
        parse_program_options(ProgramCommand::Check, &words(&["--json", "a.arvm"])),
        Err("usage: arvm check <file|->".to_owned())
    );
    assert_eq!(
        parse_program_options(ProgramCommand::Run, &[]),
        Err("usage: arvm run <file|-> [--json]".to_owned())
    );
    assert_eq!(
        run_program_command(ProgramCommand::Run, source, false).lines,
        vec!["5"]
    );
    assert_eq!(
        run_program_command(ProgramCommand::Run, source, true).lines,
        vec![r#"{"instructions":4,"max_stack_depth":2,"result":5}"#]
    );
    assert_eq!(
        run_program_command(ProgramCommand::Check, source, false).lines,
        vec!["valid: 4 instructions, max stack depth 2"]
    );
    assert_eq!(
        run_program_command(ProgramCommand::Disassemble, source, false).lines,
        vec!["0000  PUSH 2\n0001  PUSH 3\n0002  ADD\n0003  HALT"]
    );
    assert_eq!(
        run_program_command(ProgramCommand::Trace, source, false).lines[3],
        "ip=3 instruction=HALT result=5 stack=[5]"
    );
    let reply = run_program_command(ProgramCommand::Run, "PUSH 1\nPUSH 0\nDIV\nHALT", false);
    assert_eq!(reply.error, Some("VM error: DivisionByZero".to_owned()));
    assert_eq!(reply.exit_code, 1);
    let reply = run_program_command(ProgramCommand::Run, "", false);
    assert_eq!(reply.exit_code, 2);
}

#[test]
fn the_platform_is_reported() {
    assert_eq!(parse_doctor_arguments(&[]), Ok(ReportForm::Text));
    assert_eq!(
        parse_doctor_arguments(&words(&["--json"])),
        Ok(ReportForm::Json)
    );
    assert!(parse_doctor_arguments(&words(&["--json", "--json"])).is_err());
    let report = doctor_report();
    assert_eq!(report.lines.len(), 5);
    assert_eq!(report.lines[0], "A/RVM 0.1.0 \u{b7} API v1");
}

#[test]
fn workspaces_are_created_granted_and_listed() {
    let mut plane = ControlPlane::new(4, ResourceLimits::default());
    let mut run = |all: &[&str]| {
        run_workspace_command(&mut plane, "alice", parse_workspace_command(&words(all)))
    };
    assert_eq!(
        run(&["list"]),
        WorkspaceOutcome::Said(words(&["no workspaces for alice"]))
    );
    assert_eq!(
        run(&["create", "research"]),
        WorkspaceOutcome::Changed("created workspace alice/research".to_owned())
    );
    assert_eq!(
        run(&["create", "research"]),
        WorkspaceOutcome::Failed(
            "workspace error: workspace already exists: alice/research".to_owned()
        )
    );
    assert_eq!(
        run(&["grant", "research", "issues", "github", "repo:a", "read", "write"]),
        WorkspaceOutcome::Changed("granted capability issues to alice/research".to_owned())
    );
    assert_eq!(
        run(&["list"]),
        WorkspaceOutcome::Said(words(&["research\tActive\t1 capabilities\t0 observations"]))
    );
    assert!(matches!(
        run(&["show", "research"]),
        WorkspaceOutcome::Shown(view) if view.capabilities[0].actions == ["read", "write"]
    ));
    assert_eq!(
        run(&["revoke", "research", "issues"]),
        WorkspaceOutcome::Changed("revoked capability issues from alice/research".to_owned())
    );
    assert_eq!(run(&["grant", "research"]), WorkspaceOutcome::Usage);
    assert_eq!(run(&["artifact", "list"]), WorkspaceOutcome::Artifact);
    assert_eq!(
        parse_workspace_command(&words(&["show", "a"])),
        WorkspaceCommand::Show("a".to_owned())
    );
}

#[test]
fn artifact_commands_are_read() {
    assert_eq!(
        parse_artifact_command(&words(&["list", "research"])),
        Ok(ArtifactCommand::List("research".to_owned()))
    );
    assert!(matches!(
        parse_artifact_command(&words(&["create", "w", "a", "n", "source"])),
        Ok(ArtifactCommand::Create { kind: ArtifactKind::Source, .. })
    ));
    assert_eq!(
        parse_artifact_command(&words(&["create", "w", "a", "n", "blob"])),
        Err("invalid artifact kind 'blob': expected source|generated".to_owned())
    );
    assert!(
        parse_artifact_command(&words(&["import", "w"]))
            .unwrap_err()
            .starts_with("usage: arvm workspace artifact import")
    );
    assert!(
        parse_artifact_command(&words(&["history"]))
            .unwrap_err()
            .starts_with("usage:\n")
    );
}

#[test]
fn the_console_changes_its_route() {
    let mut route = RouteRequest::default();
    assert_eq!(
        take_input(&mut route, read_input(" /model  gpt \n")),
        ConsoleStep::Wait(Some("[route] requested model=gpt".to_owned()))
    );
    assert_eq!(
        take_input(&mut route, read_input("/status")),
        ConsoleStep::Wait(Some("[status] model=gpt tools=false streaming=false".to_owned()))
    );
    assert_eq!(
        take_input(&mut route, read_input("/fast")),
        ConsoleStep::Wait(Some("[route] mode=Fast".to_owned()))
    );
    assert_eq!(route.mode, ModelMode::Fast);
    assert_eq!(route.requested_model, None);
    assert_eq!(take_input(&mut route, read_input("  ")), ConsoleStep::Wait(None));
    assert_eq!(take_input(&mut route, read_input("/quit")), ConsoleStep::Leave);
    assert_eq!(
        take_input(&mut route, read_input(" hello ")),
        ConsoleStep::Ask("hello".to_owned())
    );
    assert_eq!(read_input("/model"), ConsoleInput::Prompt("/model".to_owned()));
}

#[test]
fn only_a_plain_yes_approves() {
    assert_eq!(read_approval(" YES \n"), PermissionDecision::Allow);
    assert_eq!(
        read_approval("yes please"),
        PermissionDecision::Deny {
            reason: "approval denied by user".to_owned()
        }
    );
    let request = PermissionRequest {
        id: "1".to_owned(),
        tool: "run_command".to_owned(),
        description: "run it".to_owned(),
    };
    assert_eq!(
        decide_unasked(OneShotPermission::Auto, &request),
        PermissionDecision::Allow
    );
    assert_eq!(
        decide_unasked(OneShotPermission::Deny, &request),
        PermissionDecision::Deny {
            reason: "one-shot mode denies guarded tool: run it".to_owned()
        }
    );
}

#[test]
fn turns_are_recorded_in_the_session() {
    let mut session = begin_session(12);
    assert_eq!(session.id, "ask-12");
    let mut reply = String::new();
    let mut record = |event: AgentEvent| record_event(&mut session, &mut reply, &event, 13);
    assert_eq!(
        record(AgentEvent::AssistantDelta {
            content: "a".to_owned()
        }),
        "a"
    );
    assert_eq!(
        record(AgentEvent::ToolResult(ToolResult {
            id: "1".to_owned(),
            name: "inspect_vm".to_owned(),
            content: "empty".to_owned(),
            is_error: false
        })),
        "[tool result] empty\n"
    );
    assert_eq!(
        record(AgentEvent::AssistantDelta {
            content: "b".to_owned()
        }),
        "b"
    );
    assert_eq!(record(AgentEvent::Done), "");
    assert_eq!(
        record(AgentEvent::Error {
            message: "late".to_owned()
        }),
        "[error] late\n"
    );
    assert_eq!(reply, "");
    assert_eq!(
        format_session_text(&session),
        "[tool] inspect_vm: empty\n[assistant] ab"
    );
    assert_eq!(session.updated_at, 13);
    assert_eq!(resumed_line("s", &session), "[session] resumed s (2 messages)");
    assert_eq!(resumed_conversation(&session)[1].content, "ab");
    assert_eq!(
        show_once(&AgentEvent::Error {
            message: "late".to_owned()
        }),
        "\n[error] late\n\n"
    );
    assert_eq!(model_arguments(true, None), vec!["model-bridge"]);
    assert_eq!(
        model_arguments(false, Some("-a  b".to_owned())),
        vec!["-a", "b"]
    );
}

#[test]
fn rules_decide_on_what_a_request_names() {
    let policy = build_permission_policy(&words(&[
        "--rule",
        "allow write_file:src/",
        "--rule",
        "deny write_file:secrets/",
    ]))
    .unwrap();
    let ask = |path: &str| PermissionRequest {
        id: format!("call-1:write_file:{path}"),
        tool: "write_file".to_owned(),
        description: format!("write workspace file '{path}'"),
    };
    assert_eq!(
        decide_by_rules(&policy, &ask("src/lib.rs")),
        Some(PermissionDecision::Allow)
    );
    assert_eq!(
        decide_by_rules(&policy, &ask("secrets/key")),
        Some(PermissionDecision::Deny {
            reason: "denied by a permission rule".to_owned()
        })
    );
    assert_eq!(decide_by_rules(&policy, &ask("README.md")), None);
}

#[test]
fn configuration_stands_where_the_environment_says() {
    let text = |value: &str| Some(value.to_owned());
    assert_eq!(
        user_config_root(text("/own"), text("/shared"), text("/home/a"), "/tmp"),
        "/own"
    );
    assert_eq!(
        user_config_root(None, text("/shared"), text("/home/a"), "/tmp"),
        "/shared"
    );
    assert_eq!(
        user_config_root(None, None, text("/home/a"), "/tmp"),
        "/home/a/.config/a-rust-vm"
    );
    assert_eq!(user_config_root(None, None, None, "/tmp"), "/tmp");
}
