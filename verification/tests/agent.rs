//! The agent, its tools and its models.

use std::cell::RefCell;
use std::rc::Rc;

use a_rust_vm::agent::{
    Agent, AgentError, AgentEvent, ConversationMessage, EventSink, EventStream, Model, ModelCapabilities, ModelError, ModelMode,
    ModelRequest, ModelResponse, ModelRouter, ModelStreamEvent, PermissionDecision,
    PermissionRequest, ProcessModel, RouteError, RouteRequest, ScriptedModel, ToolArguments,
    Tool, ToolCall, ToolError, ToolRegistry, ToolSpec, ToolValue, Toolbox,
    system_prompt_with_instructions,
    vm_tool_registry,
};
use a_rust_vm::agent_events::{describe_event, preview, write_event};
use a_rust_vm::agent_messages::project_instructions;
use a_rust_vm::model_requests::write_request;
use a_rust_vm::process_model::{ProcessExit, ProcessRun, ProcessStep};
use a_rust_vm::workspace::{plan, workspace_permission, workspace_tool_registry};

fn model_request(route: RouteRequest) -> ModelRequest {
    ModelRequest {
        system_prompt: String::new(),
        prompt: "test".to_owned(),
        tool_results: Vec::new(),
        tools: Vec::new(),
        conversation: Vec::new(),
        route,
    }
}

fn named(values: Vec<(String, ToolValue)>) -> ToolArguments {
    let mut arguments = ToolArguments::new();
    for (name, value) in values {
        arguments.insert(name, value);
    }
    arguments
}

struct FailingModel;

impl Model for FailingModel {
    fn respond(&mut self, _request: &ModelRequest) -> Result<ModelResponse, ModelError> {
        Err(ModelError::new("provider unavailable"))
    }
}

struct PartialFailureModel;

impl Model for PartialFailureModel {
    fn respond(&mut self, _request: &ModelRequest) -> Result<ModelResponse, ModelError> {
        Err(ModelError::new("provider unavailable"))
    }

    fn respond_stream(
        &mut self,
        _request: &ModelRequest,
        emit: &mut EventStream,
    ) -> Result<ModelResponse, ModelError> {
        emit.emit(ModelStreamEvent::TextDelta {
            content: "partial".to_owned(),
        });
        Err(ModelError::new("stream interrupted"))
    }
}

struct RecordingModel {
    requests: Rc<RefCell<Vec<ModelRequest>>>,
    responses: std::collections::VecDeque<ModelResponse>,
}

impl Model for RecordingModel {
    fn respond(&mut self, request: &ModelRequest) -> Result<ModelResponse, ModelError> {
        self.requests.borrow_mut().push(request.clone());
        self.responses
            .pop_front()
            .ok_or_else(|| ModelError::new("recording model has no response left"))
    }
}

fn program_arguments(source: &str) -> ToolArguments {
    named(vec![("program".to_owned(), ToolValue::Text(source.to_owned()))])
}

#[test]
fn registry_exposes_vm_tools_in_stable_order() {
    let registry = vm_tool_registry().unwrap();
    let names = registry
        .specs()
        .into_iter()
        .map(|spec| spec.name)
        .collect::<Vec<_>>();

    assert_eq!(
        names,
        vec![
            "compile_program",
            "disassemble_program",
            "inspect_vm",
            "reset_vm",
            "run_program",
            "step_vm",
            "trace_program"
        ]
    );
}

#[test]
fn compile_tool_validates_and_formats_a_program() {
    let mut registry = vm_tool_registry().unwrap();
    let result = registry.execute(&ToolCall::new(
        "compile-1",
        "compile_program",
        program_arguments("PUSH 2\nPUSH 3\nADD\nHALT"),
    ));

    assert_eq!(
        result.content,
        "instructions=4\n00 PUSH 2\n01 PUSH 3\n02 ADD\n03 HALT"
    );
    assert!(!result.is_error);
}

#[test]
fn trace_tool_reports_instruction_and_stack_state() {
    let mut registry = vm_tool_registry().unwrap();
    let result = registry.execute(&ToolCall::new(
        "trace-1",
        "trace_program",
        program_arguments("PUSH 2\nPUSH 3\nADD\nHALT"),
    ));

    assert_eq!(
        result.content,
        "ip=0 instruction=PUSH 2 stack=[2]\nip=1 instruction=PUSH 3 stack=[2, 3]\nip=2 instruction=ADD stack=[5]\nip=3 instruction=HALT result=5 stack=[5]"
    );
    assert!(!result.is_error);
}

#[test]
fn vm_tools_share_state() {
    let mut registry = vm_tool_registry().unwrap();
    let run = ToolCall::new(
        "run-1",
        "run_program",
        program_arguments("PUSH 2\nPUSH 3\nADD\nHALT"),
    );
    let result = registry.execute(&run);
    assert_eq!(result.content, "result=5 ip=4 stack=[5]");
    assert!(!result.is_error);

    let inspect = ToolCall::new("inspect-1", "inspect_vm", ToolArguments::new());
    let result = registry.execute(&inspect);
    assert_eq!(result.content, "loaded=true ip=4 halted=true stack=[5]");
}

#[test]
fn malformed_program_is_reported_as_a_tool_error() {
    let mut registry = vm_tool_registry().unwrap();
    let call = ToolCall::new(
        "run-1",
        "run_program",
        program_arguments("PUSH 2\nWHAT\nHALT"),
    );

    let result = registry.execute(&call);
    assert!(result.is_error);
    assert!(result.content.contains("unknown instruction 'WHAT'"));
}

#[test]
fn unexpected_tool_arguments_are_rejected() {
    let mut registry = vm_tool_registry().unwrap();
    let call = ToolCall::new(
        "inspect-1",
        "inspect_vm",
        named(vec![("unexpected".to_owned(), ToolValue::Boolean(true))]),
    );

    let result = registry.execute(&call);
    assert!(result.is_error);
    assert_eq!(result.content, "unexpected argument: unexpected");
}

#[test]
fn scripted_agent_emits_tool_and_completion_events() {
    let model = ScriptedModel::new(vec![
        ModelResponse::ToolCall(ToolCall::new(
            "run-1",
            "run_program",
            program_arguments("PUSH 8\nPUSH 5\nMUL\nHALT"),
        )),
        ModelResponse::Text("The VM result is 40.".to_owned()),
    ]);
    let mut agent = Agent::new(model, vm_tool_registry().unwrap());

    let events = agent.run("multiply 8 by 5").unwrap();

    assert!(matches!(events[0], AgentEvent::UserMessage { .. }));
    assert!(matches!(events[1], AgentEvent::ToolCall(_)));
    assert!(matches!(events[2], AgentEvent::ToolResult(ref result) if !result.is_error));
    assert_eq!(
        events[3],
        AgentEvent::AssistantText {
            content: "The VM result is 40.".to_owned()
        }
    );
    assert_eq!(events[4], AgentEvent::Done);
}

#[test]
fn streaming_agent_emits_text_deltas_and_completion() {
    let model = ScriptedModel::new(vec![ModelResponse::Text("ready".to_owned())]);
    let mut agent = Agent::new(model, vm_tool_registry().unwrap());
    let mut events = EventStream::recording();

    agent.run_streaming("say ready", &mut events).unwrap();

    assert_eq!(
        events.into_events(),
        vec![
            AgentEvent::UserMessage {
                content: "say ready".to_owned()
            },
            AgentEvent::AssistantDelta {
                content: "ready".to_owned()
            },
            AgentEvent::Done,
        ]
    );
}

#[test]
fn agent_sends_project_prompt_and_bounded_prior_tool_history() {
    let requests = Rc::new(RefCell::new(Vec::new()));
    let model = RecordingModel {
        requests: requests.clone(),
        responses: [
            ModelResponse::ToolCall(ToolCall::new(
                "inspect-1",
                "inspect_vm",
                ToolArguments::new(),
            )),
            ModelResponse::Text("The VM is empty.".to_owned()),
            ModelResponse::Text("The previous VM was empty.".to_owned()),
        ]
        .into_iter()
        .collect(),
    };
    let mut agent = Agent::new(model, vm_tool_registry().unwrap())
        .with_system_prompt("workspace rules")
        .with_context_limits(8, 1024);

    agent.run("inspect the VM").unwrap();
    agent.run("what did we learn?").unwrap();

    let requests = requests.borrow();
    assert_eq!(requests.len(), 3);
    assert_eq!(requests[0].system_prompt, "workspace rules");
    assert!(requests[0].conversation.is_empty());
    assert_eq!(requests[2].prompt, "what did we learn?");
    assert!(
        requests[2]
            .conversation
            .iter()
            .any(|message| message.role == "tool" && message.content.contains("loaded=false"))
    );
    assert!(requests[2].conversation.len() <= 8);
    assert!(agent.conversation().len() <= 8);
}

#[test]
fn project_instructions_are_loaded_and_composed() {
    let instructions = project_instructions(Some("Keep changes focused.".to_owned()));
    let prompt = system_prompt_with_instructions(instructions.as_deref());

    assert!(prompt.contains("You are the A/RVM coding agent."));
    assert!(prompt.contains("Keep changes focused."));
    assert_eq!(project_instructions(None), None);
    assert_eq!(project_instructions(Some("  \n".to_owned())), None);
}

#[test]
fn router_selects_explicit_and_profile_routes() {
    let mut router = ModelRouter::new();
    router
        .register_model(
            "default",
            ModelCapabilities::streaming_tools(),
            ScriptedModel::default(),
        )
        .unwrap();
    router
        .register_model(
            "fast",
            ModelCapabilities::streaming_tools(),
            ScriptedModel::default(),
        )
        .unwrap();
    router
        .register_model(
            "strong",
            ModelCapabilities::streaming_tools(),
            ScriptedModel::default(),
        )
        .unwrap();
    router.set_default("default").unwrap();
    router.set_fast("fast").unwrap();
    router.set_strong("strong").unwrap();

    assert_eq!(
        router.select(&RouteRequest::default()).unwrap().model,
        "default"
    );
    assert_eq!(
        router
            .select(&RouteRequest {
                mode: ModelMode::Fast,
                ..RouteRequest::default()
            })
            .unwrap()
            .model,
        "fast"
    );
    assert_eq!(
        router
            .select(&RouteRequest {
                requested_model: Some("strong".to_owned()),
                ..RouteRequest::default()
            })
            .unwrap()
            .model,
        "strong"
    );
}

#[test]
fn router_rejects_routes_missing_required_capabilities() {
    let mut router = ModelRouter::new();
    router
        .register_model(
            "text-only",
            ModelCapabilities {
                streaming: true,
                tools: false,
            },
            ScriptedModel::default(),
        )
        .unwrap();
    router.set_default("text-only").unwrap();

    let error = router
        .select(&RouteRequest {
            requires_tools: true,
            ..RouteRequest::default()
        })
        .unwrap_err();

    assert_eq!(
        error,
        RouteError::MissingCapability {
            model: "text-only".to_owned(),
            capability: "tool calls"
        }
    );
}

#[test]
fn router_falls_back_when_primary_fails_before_output() {
    let mut router = ModelRouter::new();
    router
        .register_model("primary", ModelCapabilities::streaming_tools(), FailingModel)
        .unwrap();
    router
        .register_model(
            "fallback",
            ModelCapabilities::streaming_tools(),
            ScriptedModel::new(vec![ModelResponse::Text("fallback response".to_owned())]),
        )
        .unwrap();
    router.set_default("primary").unwrap();
    router.set_fallback("fallback").unwrap();

    let response = router
        .respond(&model_request(RouteRequest::default()))
        .unwrap();

    assert_eq!(
        response,
        ModelResponse::Text("fallback response".to_owned())
    );
}

#[test]
fn router_does_not_fallback_after_streaming_output() {
    let mut router = ModelRouter::new();
    router
        .register_model(
            "primary",
            ModelCapabilities::streaming_tools(),
            PartialFailureModel,
        )
        .unwrap();
    router
        .register_model(
            "fallback",
            ModelCapabilities::streaming_tools(),
            ScriptedModel::new(vec![ModelResponse::Text("should not run".to_owned())]),
        )
        .unwrap();
    router.set_default("primary").unwrap();
    router.set_fallback("fallback").unwrap();
    let mut chunks = EventStream::recording();

    let error = router
        .respond_stream(&model_request(RouteRequest::default()), &mut chunks)
        .unwrap_err();

    assert_eq!(
        chunks.into_events(),
        vec![AgentEvent::AssistantDelta {
            content: "partial".to_owned()
        }]
    );
    assert_eq!(error.message, "stream interrupted");
}

#[test]
fn model_boundary_serializes_tool_arguments_as_json_objects() {
    let call = ToolCall::new("run-1", "run_program", program_arguments("PUSH 2\nHALT"));

    let json = write_event(&AgentEvent::ToolCall(call));

    assert_eq!(
        json,
        r#"{"type":"tool_call","id":"run-1","name":"run_program","arguments":{"program":"PUSH 2\nHALT"}}"#
    );
}

#[test]
fn process_model_streams_json_events_without_a_shell_wrapper() {
    let model = ProcessModel::new("/bin/sh").with_arguments(vec![
        "-c".to_owned(),
        "read request; printf '%s\\n' '{\"type\":\"text_delta\",\"text\":\"hello \"}' '{\"type\":\"text_delta\",\"text\":\"world\"}' '{\"type\":\"done\"}'".to_owned(),
    ]);
    let request = ModelRequest {
        system_prompt: String::new(),
        prompt: "say hello".to_owned(),
        tool_results: Vec::new(),
        tools: Vec::new(),
        conversation: Vec::new(),
        route: RouteRequest::default(),
    };
    let line = model.request_line(&request);
    assert_eq!(line, format!("{}\n", write_request(&request)));
    assert!(line.starts_with(r#"{"system_prompt":"","prompt":"say hello""#));

    let mut run = ProcessRun::new();
    let mut chunks = Vec::new();
    let mut finished = false;
    for line in [
        r#"{"type":"text_delta","text":"hello "}"#,
        r#"{"type":"text_delta","text":"world"}"#,
        r#"{"type":"done"}"#,
    ] {
        match run.take_line(line) {
            ProcessStep::Continue(Some(content)) => chunks.push(content),
            ProcessStep::Continue(None) => {}
            ProcessStep::Done => finished = true,
            ProcessStep::Failed(error) => panic!("unexpected failure: {}", error.message),
        }
    }
    let response = run.finish(ProcessExit::Success).unwrap();

    assert!(finished);
    assert_eq!(response, ModelResponse::Text("hello world".to_owned()));
    assert_eq!(chunks, vec!["hello ".to_owned(), "world".to_owned()]);
}

#[test]
fn agent_stops_after_the_configured_step_limit() {
    let model = ScriptedModel::new(vec![ModelResponse::ToolCall(ToolCall::new(
        "inspect-1",
        "inspect_vm",
        ToolArguments::new(),
    ))]);
    let mut agent = Agent::new(model, vm_tool_registry().unwrap()).with_max_steps(1);

    let error = agent.run("inspect").unwrap_err();

    assert_eq!(error, AgentError::StepLimitExceeded { limit: 1 });
}

#[test]
fn repeated_identical_tool_call_stops_before_second_execution() {
    let model = ScriptedModel::new(vec![
        ModelResponse::ToolCall(ToolCall::new("probe-1", "inspect_vm", ToolArguments::new())),
        ModelResponse::ToolCall(ToolCall::new("probe-2", "inspect_vm", ToolArguments::new())),
        ModelResponse::Text("unreachable".to_owned()),
    ]);
    let mut agent = Agent::new(model, vm_tool_registry().unwrap()).with_max_steps(4);

    let events = agent.run("probe").unwrap();

    let tool_calls = events
        .iter()
        .filter(|event| matches!(event, AgentEvent::ToolCall(_)))
        .count();
    let repeats = events
        .iter()
        .filter(|event| matches!(event, AgentEvent::RepeatedToolCall { .. }))
        .count();
    assert_eq!(tool_calls, 1);
    assert_eq!(repeats, 1);
    assert!(events.iter().any(|event| matches!(event, AgentEvent::Done)));
}

#[test]
fn pattern_loop_of_two_tools_stops_with_pattern_error() {
    let empty_a = ToolCall::new("a-1", "inspect_vm", ToolArguments::new());
    let tagged_b = ToolCall::new(
        "b-1",
        "inspect_vm",
        named(vec![("tag".to_owned(), ToolValue::Text("b".to_owned()))]),
    );
    let empty_a_again = ToolCall::new("a-2", "inspect_vm", ToolArguments::new());
    let tagged_b_again = ToolCall::new(
        "b-2",
        "inspect_vm",
        named(vec![("tag".to_owned(), ToolValue::Text("b".to_owned()))]),
    );
    let model = ScriptedModel::new(vec![
        ModelResponse::ToolCall(empty_a),
        ModelResponse::ToolCall(tagged_b),
        ModelResponse::ToolCall(empty_a_again),
        ModelResponse::ToolCall(tagged_b_again),
        ModelResponse::Text("unreachable".to_owned()),
    ]);
    let mut agent = Agent::new(model, vm_tool_registry().unwrap())
        .with_max_steps(10)
        .with_max_tool_calls(32);

    let error = agent.run("probe").unwrap_err();

    assert_eq!(error, AgentError::PatternLoopDetected { period: 2 });
}

#[test]
fn tool_call_cap_ends_turn_before_extra_execution() {
    let model = ScriptedModel::new(vec![
        ModelResponse::ToolCall(ToolCall::new("a-1", "inspect_vm", ToolArguments::new())),
        ModelResponse::ToolCall(ToolCall::new(
            "b-1",
            "inspect_vm",
            named(vec![("tag".to_owned(), ToolValue::Text("b".to_owned()))]),
        )),
        ModelResponse::ToolCall(ToolCall::new(
            "c-1",
            "inspect_vm",
            named(vec![("tag".to_owned(), ToolValue::Text("c".to_owned()))]),
        )),
        ModelResponse::Text("unreachable".to_owned()),
    ]);
    let mut agent = Agent::new(model, vm_tool_registry().unwrap())
        .with_max_steps(10)
        .with_max_tool_calls(2);

    let error = agent.run("probe").unwrap_err();

    assert_eq!(error, AgentError::ToolCallLimitExceeded { limit: 2 });
}

#[test]
fn expired_turn_timeout_stops_before_model_call() {
    let model = ScriptedModel::new(vec![ModelResponse::Text("hi".to_owned())]);
    let mut agent = Agent::new(model, vm_tool_registry().unwrap())
        .with_turn_timeout(0);

    assert_eq!(
        agent.run("ping").unwrap_err(),
        AgentError::TurnTimeoutExceeded
    );
}

#[test]
fn different_tool_arguments_are_not_treated_as_repeats() {
    let model = ScriptedModel::new(vec![
        ModelResponse::ToolCall(ToolCall::new("probe-1", "inspect_vm", ToolArguments::new())),
        ModelResponse::ToolCall(ToolCall::new(
            "probe-2",
            "inspect_vm",
            named(vec![("tag".to_owned(), ToolValue::Text("b".to_owned()))]),
        )),
        ModelResponse::Text("done".to_owned()),
    ]);
    let mut agent = Agent::new(model, vm_tool_registry().unwrap()).with_max_steps(4);

    let events = agent.run("probe").unwrap();

    let tool_calls = events
        .iter()
        .filter(|event| matches!(event, AgentEvent::ToolCall(_)))
        .count();
    assert_eq!(tool_calls, 2);
    assert!(
        !events
            .iter()
            .any(|event| matches!(event, AgentEvent::RepeatedToolCall { .. }))
    );
}

#[test]
fn unknown_tool_calls_return_explicit_errors() {
    let mut registry = ToolRegistry::default();
    let result = registry.execute(&ToolCall::new(
        "missing-1",
        "missing_tool",
        ToolArguments::new(),
    ));

    assert!(result.is_error);
    assert_eq!(result.content, "unknown tool: missing_tool");
}

/// A workspace in memory that only takes writes.
struct Notes {
    written: Rc<RefCell<Vec<(String, String)>>>,
}

impl Toolbox for Notes {
    fn execute(&mut self, name: &str, arguments: &ToolArguments) -> Result<String, ToolError> {
        match plan(name, arguments)? {
            a_rust_vm::workspace::WorkspaceAction::Write { path, content } => {
                self.written.borrow_mut().push((path, content));
                Ok("written".to_owned())
            }
            action => Err(ToolError::new(&format!("unexpected action: {action:?}"))),
        }
    }

    fn permission(&self, name: &str, arguments: &ToolArguments) -> Option<PermissionRequest> {
        workspace_permission(name, arguments)
    }
}

fn write_script() -> ScriptedModel {
    ScriptedModel::new(vec![
        ModelResponse::ToolCall(ToolCall::new(
            "write-1",
            "write_file",
            named(vec![
                ("path".to_owned(), ToolValue::Text("blocked.txt".to_owned())),
                ("content".to_owned(), ToolValue::Text("nope".to_owned())),
            ]),
        )),
        ModelResponse::Text("The write was not approved.".to_owned()),
    ])
}

#[test]
fn denied_workspace_write_emits_permission_and_does_not_write() {
    let written = Rc::new(RefCell::new(Vec::new()));
    let notes = Notes {
        written: written.clone(),
    };
    let mut agent = Agent::new(write_script(), workspace_tool_registry(notes).unwrap());

    let events = agent
        .run_with_approval("write a file", |_: &PermissionRequest| PermissionDecision::Deny {
            reason: "test denial".to_owned(),
        })
        .unwrap();

    assert!(
        events
            .iter()
            .any(|event| matches!(event, AgentEvent::PermissionRequested(_)))
    );
    assert!(events.iter().any(|event| {
        matches!(event, AgentEvent::ToolResult(result) if result.is_error && result.content == "test denial")
    }));
    assert!(written.borrow().is_empty());
}

#[test]
fn an_approved_workspace_write_is_carried_out() {
    let written = Rc::new(RefCell::new(Vec::new()));
    let notes = Notes {
        written: written.clone(),
    };
    let mut agent = Agent::new(write_script(), workspace_tool_registry(notes).unwrap());

    let events = agent
        .run_with_approval("write a file", |_: &PermissionRequest| PermissionDecision::Allow)
        .unwrap();

    assert_eq!(events[events.len() - 1], AgentEvent::Done);
    assert_eq!(
        *written.borrow(),
        vec![("blocked.txt".to_owned(), "nope".to_owned())]
    );
}

#[test]
fn a_turn_without_steps_fails_and_keeps_the_conversation() {
    let model = ScriptedModel::new(vec![ModelResponse::Text("hi".to_owned())]);
    let mut agent = Agent::new(model, vm_tool_registry().unwrap()).with_max_steps(0);

    assert_eq!(
        agent.run("ping").unwrap_err(),
        AgentError::StepLimitExceeded { limit: 0 }
    );
    assert!(agent.conversation().is_empty());
}

#[test]
fn a_model_that_fails_ends_the_turn() {
    let mut agent = Agent::new(FailingModel, vm_tool_registry().unwrap());

    assert_eq!(
        agent.run("ping").unwrap_err(),
        AgentError::Model(ModelError::new("provider unavailable"))
    );
}

#[test]
fn registries_refuse_a_name_twice() {
    let mut registry = vm_tool_registry().unwrap();
    assert_eq!(
        registry.merge(vm_tool_registry().unwrap()).unwrap_err().message,
        "tool is already registered: compile_program"
    );
    assert_eq!(registry.specs().len(), 7);
}

#[test]
fn router_errors_name_what_is_wrong() {
    let mut router = ModelRouter::new();
    assert_eq!(
        router.select(&RouteRequest::default()).unwrap_err(),
        RouteError::NoModels
    );
    router
        .register_model("one", ModelCapabilities::streaming_tools(), FailingModel)
        .unwrap();
    assert_eq!(
        router
            .register_model("one", ModelCapabilities::streaming_tools(), FailingModel)
            .unwrap_err(),
        RouteError::DuplicateModel {
            model: "one".to_owned()
        }
    );
    assert_eq!(
        router.set_fast("two").unwrap_err(),
        RouteError::MissingModel {
            model: "two".to_owned()
        }
    );
    assert_eq!(router.model_names(), vec!["one".to_owned()]);
}

#[test]
fn events_are_written_with_their_kind_first() {
    assert_eq!(write_event(&AgentEvent::Done), r#"{"type":"done"}"#);
    assert_eq!(
        write_event(&AgentEvent::UserMessage {
            content: "say \"hi\"\n".to_owned()
        }),
        r#"{"type":"user_message","content":"say \"hi\"\n"}"#
    );
    assert_eq!(
        write_event(&AgentEvent::RepeatedToolCall {
            tool: "inspect_vm".to_owned(),
            count: 2
        }),
        r#"{"type":"repeated_tool_call","tool":"inspect_vm","count":2}"#
    );
    assert_eq!(
        write_event(&AgentEvent::PermissionRequested(PermissionRequest {
            id: "1".to_owned(),
            tool: "t".to_owned(),
            description: "d".to_owned()
        })),
        r#"{"type":"permission_requested","id":"1","tool":"t","description":"d"}"#
    );
    assert_eq!(
        describe_event(&AgentEvent::RepeatedToolCall {
            tool: "inspect_vm".to_owned(),
            count: 2
        }),
        "repeated tool call: inspect_vm (x2)"
    );
    assert_eq!(preview(&"x".repeat(600)), "x".repeat(600));
    assert_eq!(preview(&"x".repeat(601)), format!("{}...", "x".repeat(600)));
}

#[test]
fn conversations_can_be_taken_up_again() {
    let requests = Rc::new(RefCell::new(Vec::new()));
    let model = RecordingModel {
        requests: requests.clone(),
        responses: vec![ModelResponse::Text("again".to_owned())].into(),
    };
    let mut agent = Agent::new(model, ToolRegistry::new());
    agent.set_conversation(vec![ConversationMessage::new("user", "before")]);
    agent.run("now").unwrap();
    assert_eq!(requests.borrow()[0].conversation[0].content, "before");
    assert_eq!(agent.conversation()[0].content, "before");
    assert_eq!(agent.conversation().len(), 3);
    agent.clear_conversation();
    assert!(agent.conversation().is_empty());
}

#[test]
fn events_escape_what_json_requires() {
    let line = write_event(&AgentEvent::AssistantText {
        content: "a\"b\\c\n\r\t\u{8}\u{c}\u{1}\u{1f}\u{7f}/é".to_owned(),
    });
    assert_eq!(
        line,
        "{\"type\":\"assistant_text\",\"content\":\"a\\\"b\\\\c\\n\\r\\t\\b\\f\\u0001\\u001f\u{7f}/é\"}"
    );
    assert!(!line.contains('\n'));
}

/// A tool that says which one it is, and counts.
struct Named {
    name: &'static str,
    calls: usize,
}

impl Tool for Named {
    fn spec(&self) -> ToolSpec {
        ToolSpec {
            name: self.name.to_owned(),
            description: String::new(),
            input_schema: "{}".to_owned(),
        }
    }

    fn execute(&mut self, _arguments: &ToolArguments) -> Result<String, ToolError> {
        self.calls += 1;
        Ok(format!("{} {}", self.name, self.calls))
    }

    fn permission(&self, _arguments: &ToolArguments) -> Option<PermissionRequest> {
        if self.name == "guarded" {
            Some(PermissionRequest {
                id: "need".to_owned(),
                tool: self.name.to_owned(),
                description: "may it".to_owned(),
            })
        } else {
            None
        }
    }
}

fn named_call(name: &str) -> ToolCall {
    ToolCall::new("c", name, ToolArguments::new())
}

#[test]
fn merged_registries_keep_their_tools() {
    let mut first = ToolRegistry::new();
    first.register(Named { name: "b", calls: 0 }).unwrap();
    first.register(Named { name: "d", calls: 10 }).unwrap();
    let mut second = ToolRegistry::new();
    second.register(Named { name: "a", calls: 20 }).unwrap();
    second.register(Named { name: "guarded", calls: 30 }).unwrap();
    first.merge(second).unwrap();
    for (name, said) in [("a", "a 21"), ("b", "b 1"), ("d", "d 11"), ("guarded", "guarded 31")] {
        assert_eq!(first.execute(&named_call(name)).content, said);
    }
    assert_eq!(first.execute(&named_call("a")).content, "a 22");
    let request = first.permission_request(&named_call("guarded")).unwrap();
    assert_eq!(request.id, "c:need");
    assert_eq!(request.tool, "guarded");
    assert_eq!(first.permission_request(&named_call("a")), None);
    assert_eq!(first.permission_request(&named_call("missing")), None);
    let mut third = ToolRegistry::new();
    for name in ["z", "d", "b"] {
        third.register(Named { name, calls: 0 }).unwrap();
    }
    assert_eq!(
        first.merge(third).unwrap_err().to_text(),
        "tool is already registered: b"
    );
    assert_eq!(first.execute(&named_call("b")).content, "b 2");
    assert_eq!(first.specs().len(), 4);
}

#[test]
fn streams_take_the_events_of_a_turn_in_order() {
    let script = || {
        ScriptedModel::new(vec![
            ModelResponse::ToolCall(named_call("guarded")),
            ModelResponse::Text("done".to_owned()),
        ])
    };
    let tools = || {
        let mut tools = ToolRegistry::new();
        tools.register(Named { name: "guarded", calls: 0 }).unwrap();
        tools
    };
    let mut plain = Agent::new(script(), tools());
    let told = plain
        .run_with_approval("go", |_request: &PermissionRequest| PermissionDecision::Allow)
        .unwrap();
    let mut stream = EventStream::recording();
    let mut streaming = Agent::new(script(), tools());
    streaming
        .run_streaming_with_approval(
            "go",
            |_request: &PermissionRequest| PermissionDecision::Allow,
            &mut stream,
        )
        .unwrap();
    let heard = stream.into_events();
    assert_eq!(told.len(), 6);
    assert_eq!(heard.len(), 6);
    assert_eq!(told[0], AgentEvent::UserMessage { content: "go".to_owned() });
    assert!(matches!(&told[1], AgentEvent::ToolCall(call) if call.name == "guarded"));
    assert!(matches!(&told[2], AgentEvent::PermissionRequested(request) if request.id == "c:need"));
    assert!(matches!(&told[3], AgentEvent::ToolResult(result) if result.content == "guarded 1"));
    assert_eq!(told[4], AgentEvent::AssistantText { content: "done".to_owned() });
    assert_eq!(heard[4], AgentEvent::AssistantDelta { content: "done".to_owned() });
    for i in [0, 1, 2, 3, 5] {
        assert_eq!(told[i], heard[i]);
    }
    assert_eq!(plain.conversation(), streaming.conversation());
    assert_eq!(plain.conversation().len(), 4);
}

#[test]
fn scripts_are_followed_until_they_end() {
    let mut agent = Agent::new(
        ScriptedModel::new(vec![ModelResponse::ToolCall(named_call("missing"))]),
        ToolRegistry::new(),
    );
    assert_eq!(
        agent.run("go").unwrap_err(),
        AgentError::Model(ModelError::new("scripted model has no response left"))
    );
    assert!(agent.conversation().is_empty());
}

struct Heard {
    events: Rc<RefCell<Vec<AgentEvent>>>,
}

impl EventSink for Heard {
    fn emit(&mut self, event: AgentEvent) {
        self.events.borrow_mut().push(event);
    }
}

#[test]
fn sinks_are_handed_the_events_of_a_turn_in_order() {
    let script = || {
        ScriptedModel::new(vec![
            ModelResponse::ToolCall(named_call("missing")),
            ModelResponse::Text("done".to_owned()),
        ])
    };
    let mut kept = EventStream::recording();
    Agent::new(script(), ToolRegistry::default()).run_streaming("go", &mut kept).unwrap();
    let events = Rc::new(RefCell::new(Vec::new()));
    let mut handed = EventStream::to(Box::new(Heard { events: Rc::clone(&events) }));
    Agent::new(script(), ToolRegistry::default()).run_streaming("go", &mut handed).unwrap();
    assert_eq!(handed.deltas(), 1);
    assert!(handed.into_events().is_empty());
    let heard = events.borrow();
    assert_eq!(*heard, kept.into_events());
    assert_eq!(heard.len(), 5);
    assert_eq!(heard[3], AgentEvent::AssistantDelta { content: "done".to_owned() });
    assert_eq!(heard[4], AgentEvent::Done);
}

#[test]
fn empty_answers_are_not_streamed() {
    let script = || ScriptedModel::new(vec![ModelResponse::Text(String::new())]);
    let told = Agent::new(script(), ToolRegistry::new()).run("go").unwrap();
    assert_eq!(told.len(), 3);
    let mut stream = EventStream::recording();
    Agent::new(script(), ToolRegistry::new()).run_streaming("go", &mut stream).unwrap();
    assert_eq!(
        stream.into_events(),
        vec![AgentEvent::UserMessage { content: "go".to_owned() }, AgentEvent::Done]
    );
}
