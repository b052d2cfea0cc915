//! Models and tools behind other processes and services.

use a_rust_vm::agent::{
    ConversationMessage, ModelRequest, ModelResponse, RouteRequest, ToolArguments, ToolCall,
    ToolResult, ToolSpec, ToolValue,
};
use a_rust_vm::mcp::{
    McpClient, McpConfig, McpError, McpExit, McpListing, McpTool, call_params, check_exit,
    check_initialize, check_line, initialize_line, list_params, parse_call_result,
    parse_list_result, read_answer, request_line,
};
use a_rust_vm::model_bridge::{BridgeStep, bridge_events, judge_reply, judge_run};
use a_rust_vm::model_replies::{
    collect_runner_text, parse_bridge_response, parse_model_text, read_arguments,
};
use a_rust_vm::model_requests::bridge_instruction;
use a_rust_vm::openrouter::{
    MAX_RESPONSE_BYTES, MAX_TOOL_ARGS_BYTES, OpenRouterConfig, OpenRouterModel,
    OpenRouterVariables, parse_chat_response, redact_secret, sanitize_provider_error,
};
use a_rust_vm::persistent_model::{
    BodyForm, PersistentModel, chunk_size, decode_chunked_text, parse_response, parse_status,
    service_request, session_path, url_encode,
};
use a_rust_vm::process_model::{ProcessExit, ProcessRun, ProcessStep};

fn request() -> ModelRequest {
    ModelRequest {
        system_prompt: "sys".to_owned(),
        prompt: "hello".to_owned(),
        tool_results: Vec::new(),
        tools: Vec::new(),
        conversation: Vec::new(),
        route: RouteRequest::default(),
    }
}

fn text_argument(name: &str, value: &str) -> ToolArguments {
    let mut arguments = ToolArguments::new();
    arguments.insert(name.to_owned(), ToolValue::Text(value.to_owned()));
    arguments
}

// A server that answers with fixed lines, whatever it is asked.

fn config() -> McpConfig {
    McpConfig {
        command: "sh".to_owned(),
        args: vec!["-c".to_owned()],
        env: Vec::new(),
        working_directory: None,
        timeout: Some(10),
    }
}

fn list_tools(answers: impl Fn(&str) -> String) -> Result<Vec<McpTool>, McpError> {
    McpClient::new(config())?;
    let mut listing = McpListing::new();
    loop {
        check_initialize(&check_line(&b"{\"jsonrpc\":\"2.0\",\"id\":1,\"result\":{}}\n".to_vec())?)?;
        let asked = request_line("tools/list", list_params(listing.cursor()));
        let line = check_line(&answers(&asked).into_bytes())?;
        let answer = read_answer(&line, "tools/list")?;
        check_exit(&answer, "tools/list", McpExit::Success)?;
        if listing.take_page(parse_list_result(&answer)?)? {
            return Ok(listing.into_tools());
        }
    }
}

fn call_tool(name: &str, arguments: &str, answer: &str) -> Result<String, McpError> {
    let params = call_params(name, arguments)?;
    assert!(request_line("tools/call", params).contains("\"name\":\"echo\""));
    let answer = read_answer(&check_line(&answer.as_bytes().to_vec())?, "tools/call")?;
    check_exit(&answer, "tools/call", McpExit::Success)?;
    parse_call_result(&answer)
}

#[test]
fn rejects_empty_command_and_malformed_env() {
    let empty = McpConfig {
        command: "   ".to_owned(),
        args: Vec::new(),
        env: Vec::new(),
        working_directory: None,
        timeout: None,
    };
    assert!(McpClient::new(empty).is_err());
    let bad_env = McpConfig {
        command: "sh".to_owned(),
        args: Vec::new(),
        env: vec!["NO_EQUALS".to_owned()],
        working_directory: None,
        timeout: None,
    };
    assert!(McpClient::new(bad_env).is_err());
}

#[test]
fn lists_tools_from_a_stdio_server() {
    let tools = list_tools(|_| {
        r#"{"jsonrpc":"2.0","id":2,"result":{"tools":[{"name":"echo","description":"Echo input","inputSchema":{"type":"object"}}]}}"#.to_owned()
    })
    .unwrap();
    assert_eq!(tools.len(), 1);
    assert_eq!(tools[0].name, "echo");
    assert_eq!(tools[0].description, "Echo input");
    assert_eq!(tools[0].input_schema, r#"{"type":"object"}"#);
    assert!(initialize_line().contains("\"method\":\"initialize\""));
}

#[test]
fn follows_cursor_pagination_across_spawned_servers() {
    let tools = list_tools(|asked| {
        if asked.contains("cursor-1") {
            r#"{"jsonrpc":"2.0","id":2,"result":{"tools":[{"name":"second"}]}}"#.to_owned()
        } else {
            r#"{"jsonrpc":"2.0","id":2,"result":{"tools":[{"name":"first"}],"nextCursor":"cursor-1"}}"#.to_owned()
        }
    })
    .unwrap();
    assert_eq!(tools.len(), 2);
    assert_eq!(tools[0].name, "first");
    assert_eq!(tools[1].name, "second");
}

#[test]
fn calls_a_tool_and_joins_text_content() {
    let output = call_tool(
        "echo",
        r#"{"text": "hi"}"#,
        r#"{"jsonrpc":"2.0","id":2,"result":{"content":[{"type":"text","text":"hello"},{"type":"text","text":"world"}]}}"#,
    )
    .unwrap();
    assert_eq!(output, "hello\nworld");
}

#[test]
fn surfaces_tool_errors_and_rejects_empty_names() {
    let answer = r#"{"jsonrpc":"2.0","id":2,"result":{"content":[{"type":"text","text":"bad input"}],"isError":true}}"#;
    assert!(call_tool("", "null", answer).is_err());
    assert!(
        call_tool("echo", "null", answer)
            .unwrap_err()
            .to_text()
            .contains("failed")
    );
}

#[test]
fn fails_closed_on_malformed_and_oversized_output() {
    assert!(
        list_tools(|_| "not json".to_owned())
            .unwrap_err()
            .to_text()
            .contains("invalid")
    );
    let missing = McpClient::new(McpConfig {
        command: "definitely-not-an-mcp-server-binary".to_owned(),
        args: Vec::new(),
        env: Vec::new(),
        working_directory: None,
        timeout: Some(5),
    })
    .unwrap();
    assert!(
        missing
            .start_error("no such file")
            .to_text()
            .contains("no such file")
    );
    assert!(
        list_tools(|_| "a".repeat(70000))
            .unwrap_err()
            .to_text()
            .contains("64 KiB")
    );
}

#[test]
fn listings_stop_at_their_bound() {
    assert!(
        list_tools(|_| r#"{"jsonrpc":"2.0","id":2,"result":{"tools":[],"nextCursor":"again"}}"#.to_owned()).is_err()
    );
}

// A provider of chat completions.

#[test]
fn builds_request_body_with_messages_and_tools() {
    let config = OpenRouterConfig::with_api_key_for_test("sk-or-test", "openai/gpt-4o-mini");
    let model = OpenRouterModel::from_config(config).unwrap();
    let request = ModelRequest {
        tool_results: vec![ToolResult {
            id: "call-1".to_owned(),
            name: "guest_read_file".to_owned(),
            content: "ok".to_owned(),
            is_error: false,
        }],
        tools: vec![ToolSpec {
            name: "guest_read_file".to_owned(),
            description: "read".to_owned(),
            input_schema: r#"{"type":"object","properties":{"path":{"type":"string"}}}"#.to_owned(),
        }],
        conversation: vec![ConversationMessage {
            role: "user".to_owned(),
            content: "prev".to_owned(),
        }],
        ..request()
    };
    let body: serde_json::Value =
        serde_json::from_str(&model.build_request_body(&request)).unwrap();
    assert_eq!(body["model"], "openai/gpt-4o-mini");
    let messages = body["messages"].as_array().unwrap();
    assert!(messages.iter().any(|value| value["role"] == "system"));
    assert!(
        messages
            .iter()
            .any(|value| value["role"] == "user" && value["content"] == "hello")
    );
    let tools = body["tools"].as_array().unwrap();
    assert_eq!(tools[0]["function"]["name"], "guest_read_file");
    assert!(messages.iter().all(|value| {
        matches!(
            value["role"].as_str(),
            Some("system" | "user" | "assistant")
        )
    }));
    assert!(messages.iter().any(|value| {
        value["content"]
            .as_str()
            .is_some_and(|content| content.contains("Tool results from the previous step"))
    }));
    assert_eq!(
        tools[0]["function"]["parameters"]["properties"]["path"]["type"],
        "string"
    );
}

#[test]
fn falls_back_to_object_schema_on_malformed_input_schema() {
    let config = OpenRouterConfig::with_api_key_for_test("sk-or-test", "openai/gpt-4o-mini");
    let model = OpenRouterModel::from_config(config).unwrap();
    let request = ModelRequest {
        system_prompt: String::new(),
        prompt: "hi".to_owned(),
        tools: vec![ToolSpec {
            name: "bad".to_owned(),
            description: "bad".to_owned(),
            input_schema: "not-json".to_owned(),
        }],
        ..request()
    };
    let body: serde_json::Value =
        serde_json::from_str(&model.build_request_body(&request)).unwrap();
    assert_eq!(body["tools"][0]["function"]["parameters"]["type"], "object");
}

#[test]
fn parses_assistant_text_response() {
    let json = r#"{"choices":[{"message":{"content":"hello world"}}]}"#;
    assert!(
        matches!(parse_chat_response(json), Ok(ModelResponse::Text(text)) if text == "hello world")
    );
}

#[test]
fn parses_tool_call_response() {
    let json = r#"{"choices":[{"message":{"content":null,"tool_calls":[{"id":"call-42","type":"function","function":{"name":"guest_read_file","arguments":"{\"path\":\"/workspace/a.txt\"}"}}]}}]}"#;
    let response = parse_chat_response(json).unwrap();
    match response {
        ModelResponse::ToolCall(call) => {
            assert_eq!(call.id, "call-42");
            assert_eq!(call.name, "guest_read_file");
            assert_eq!(
                call.arguments.get(&"path".to_owned()),
                Some(&ToolValue::Text("/workspace/a.txt".to_owned()))
            );
        }
        _ => panic!("expected tool call"),
    }
}

#[test]
fn rejects_malformed_provider_response() {
    let json = r#"{"choices": "bad"}"#;
    assert!(parse_chat_response(json).is_err());
}

#[test]
fn rejects_oversized_tool_arguments() {
    let big = "a".repeat(MAX_TOOL_ARGS_BYTES + 1);
    let json = format!(
        r#"{{"choices":[{{"message":{{"tool_calls":[{{"id":"1","type":"function","function":{{"name":"guest_read_file","arguments":"{{\\\"path\\\":\\\"{}\\\"}}"}}}}]}}}}]}}"#,
        big
    );
    assert!(parse_chat_response(&json).is_err());
}

#[test]
fn sanitizes_provider_error_without_leaking_key() {
    let error = sanitize_provider_error(401, "invalid bearer sk-or-v1-secret");
    assert!(!error.to_ascii_lowercase().contains("sk-or-"));
    assert!(error.contains("request failed"));
    let bounded = sanitize_provider_error(500, &"a".repeat(1000));
    assert!(bounded.len() <= 500);
}

#[test]
fn redacts_the_configured_secret_from_provider_text() {
    assert_eq!(
        redact_secret("provider echoed sk-or-test", "sk-or-test"),
        "provider echoed [redacted]"
    );
}

#[test]
fn timeout_is_bounded() {
    let config = OpenRouterConfig::with_api_key_for_test("sk-or-test", "openai/gpt-4o-mini");
    assert!(config.timeout >= 1 && config.timeout <= 120);
    let config = OpenRouterConfig::from_env(&OpenRouterVariables {
        api_key: Some("sk-or-test".to_owned()),
        model: None,
        site_url: None,
        site_title: None,
        timeout_secs: Some("999".to_owned()),
        max_tokens: None,
    })
    .unwrap();
    assert_eq!(config.timeout, 30);
}

#[test]
fn missing_key_returns_error() {
    let config = OpenRouterConfig::with_api_key_for_test("", "openai/gpt-4o-mini");
    assert!(OpenRouterModel::from_config(config).is_err());
}

#[test]
fn oversized_response_is_rejected() {
    let big = format!(
        r#"{{"choices":[{{"message":{{"content":"{}"}}}}]}}"#,
        "a".repeat(MAX_RESPONSE_BYTES + 1)
    );
    assert!(parse_chat_response(&big).is_err());
}

#[test]
fn parses_error_envelope() {
    let json = r#"{"error":{"message":"rate limited"}}"#;
    let error = parse_chat_response(json).unwrap_err();
    assert!(error.contains("rate limited") || error.contains("provider error"));
}

#[test]
fn answers_are_read_by_their_status() {
    let config = OpenRouterConfig::with_api_key_for_test("sk-or-test", "openai/gpt-4o-mini");
    let model = OpenRouterModel::from_config(config).unwrap();
    assert_eq!(model.authorization(), "Bearer sk-or-test");
    assert!(model.check_length(Some(MAX_RESPONSE_BYTES as u64 + 1)).is_err());
    assert_eq!(
        model.read_answer(
            200,
            &br#"{"choices":[{"message":{"content":"hi"}}]}"#.to_vec()
        ),
        Ok(ModelResponse::Text("hi".to_owned()))
    );
    let error = model
        .read_answer(500, &b"echo sk-or-test".to_vec())
        .unwrap_err();
    assert!(!error.contains("sk-or-test"));
    assert_eq!(
        model.read_answer(200, &b"\xff".to_vec()).unwrap_err(),
        "provider response was not UTF-8"
    );
}

// A model service that is kept running.

#[test]
fn parses_text_model_response() {
    assert!(matches!(
        parse_model_text(r#"{"kind":"text","text":"hello"}"#),
        Ok(ModelResponse::Text(text)) if text == "hello"
    ));
}

#[test]
fn parses_tool_model_response() {
    assert!(matches!(
        parse_model_text(r#"{"kind":"tool_call","id":"call-1","name":"guest_read_file","arguments":{"path":"/workspace/a.txt"}}"#),
        Ok(ModelResponse::ToolCall(call))
            if call.name == "guest_read_file"
            && call.arguments.get(&"path".to_owned()) == Some(&ToolValue::Text("/workspace/a.txt".to_owned()))
    ));
}

#[test]
fn encodes_query_values() {
    assert_eq!(url_encode("/tmp/a rust"), "/tmp/a%20rust");
    assert_eq!(url_encode("\u{e9}"), "%C3%A9");
}

#[test]
fn decodes_chunked_model_responses() {
    assert_eq!(
        decode_chunked_text("5\r\nhello\r\n6\r\n world\r\n0\r\n\r\n"),
        Some("hello world".to_owned())
    );
    assert_eq!(decode_chunked_text("5\r\nhel"), None);
}

#[test]
fn services_are_asked_over_http() {
    assert_eq!(session_path("/tmp/a rust"), "/session?directory=/tmp/a%20rust");
    let text = service_request("POST", "127.0.0.1:1", "/session", Some("{}"));
    assert!(text.starts_with("POST /session HTTP/1.1\r\n"));
    assert!(text.ends_with("\r\n\r\n{}"));
    assert_eq!(parse_status("HTTP/1.1 200 OK"), Ok(200));
    assert!(parse_status("nonsense").is_err());
    assert_eq!(chunk_size("1a;x"), Ok(26));
    assert!(chunk_size("zz").is_err());
    let mut form = BodyForm::new();
    assert!(!form.take_line("Transfer-Encoding: chunked\r\n"));
    assert!(form.take_line("\r\n"));
    assert!(form.chunked);
    let model = PersistentModel::begin("127.0.0.1:1", "/tmp", r#"{"id":"ses-1"}"#).unwrap();
    assert_eq!(model.message_path(), "/session/ses-1/message?directory=/tmp");
    assert!(model.message_body(&request()).contains("deepseek"));
    assert!(PersistentModel::begin("127.0.0.1:1", "/tmp", "{}").is_err());
    assert!(parse_response("{}").is_err());
}

// The bridge to a local runner.

#[test]
fn parses_bridge_text_response() {
    assert!(matches!(
        parse_bridge_response(r#"{"kind":"text","text":"hello"}"#),
        Ok(ModelResponse::Text(text)) if text == "hello"
    ));
}

#[test]
fn parses_runner_text_event_response() {
    assert!(matches!(
        parse_bridge_response(r#"{"type":"text_delta","text":"hello"}"#),
        Ok(ModelResponse::Text(text)) if text == "hello"
    ));
}

#[test]
fn collects_text_and_text_delta_runner_events() {
    let output = br#"
            {"type":"text_delta","text":"{\"kind\":\"text\",\"text\":"}
            {"type":"text","part":{"text":"hello"}}
            {"type":"done"}
        "#;

    assert_eq!(
        collect_runner_text(output),
        "{\"kind\":\"text\",\"text\":hello"
    );
}

#[test]
fn accepts_plain_runner_text_when_the_model_skips_the_json_envelope() {
    assert!(matches!(
        parse_bridge_response("4"),
        Ok(ModelResponse::Text(text)) if text == "4"
    ));
}

#[test]
fn the_bridge_asks_again_only_once() {
    assert_eq!(
        judge_reply(0, Err("model response was empty".to_owned())),
        BridgeStep::Retry
    );
    assert_eq!(
        judge_reply(1, Err("model response was empty".to_owned())),
        BridgeStep::Failed(
            "local model returned an invalid A/RVM response: model response was empty".to_owned()
        )
    );
    assert_eq!(
        judge_run(0, false, b"", b" gone \n"),
        BridgeStep::Failed("local model runner failed: gone".to_owned())
    );
    assert_eq!(
        judge_run(0, true, b"{\"type\":\"text\",\"text\":\"4\"}\n", b""),
        BridgeStep::Reply(ModelResponse::Text("4".to_owned()))
    );
    assert!(bridge_instruction(&request()).ends_with('}'));
}

#[test]
fn the_bridge_tells_a_response_as_events() {
    assert_eq!(
        bridge_events(&ModelResponse::Text("hi".to_owned())),
        vec![r#"{"text":"hi","type":"text_delta"}"#, r#"{"type":"done"}"#]
    );
    assert_eq!(
        bridge_events(&ModelResponse::ToolCall(ToolCall::new(
            "call-1",
            "echo",
            text_argument("text", "hi")
        )))[0],
        r#"{"arguments":{"text":"hi"},"id":"call-1","name":"echo","type":"tool_call"}"#
    );
}

#[test]
fn arguments_are_read_with_their_kinds() {
    let arguments = read_arguments(r#"{"b":[true,"x"],"a":3}"#).unwrap();
    assert_eq!(arguments.len(), 2);
    assert_eq!(arguments.get(&"a".to_owned()), Some(&ToolValue::Integer(3)));
    assert_eq!(
        arguments.get(&"b".to_owned()),
        Some(&ToolValue::List(vec![
            ToolValue::Boolean(true),
            ToolValue::Text("x".to_owned())
        ]))
    );
    assert!(read_arguments("[]").is_err());
    assert!(read_arguments(r#"{"a":1.5}"#).is_err());
}

#[test]
fn process_failures_are_told() {
    let mut run = ProcessRun::new();
    assert!(matches!(run.take_line("not json"), ProcessStep::Failed(_)));
    let run = ProcessRun::new();
    assert!(run.finish(ProcessExit::Success).is_err());
    let run = ProcessRun::new();
    let error = run
        .finish(ProcessExit::Failure {
            status: "exit status: 3".to_owned(),
            stderr: Ok("boom".to_owned()),
        })
        .unwrap_err();
    assert!(error.message.contains("boom"));
}

#[test]
fn what_the_bridge_says_is_understood() {
    let answers = [
        ModelResponse::Text("two\nlines and \"quotes\"".to_owned()),
        ModelResponse::ToolCall(ToolCall::new(
            "call-1",
            "read_file",
            text_argument("path", "a \\ b\u{1}"),
        )),
    ];
    for answer in answers {
        let mut run = ProcessRun::new();
        for line in bridge_events(&answer) {
            assert!(!matches!(run.take_line(&line), ProcessStep::Failed(_)));
        }
        assert_eq!(run.finish(ProcessExit::Success), Ok(answer));
    }
}
