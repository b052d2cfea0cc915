//! The tools that work inside a guest.

use a_rust_vm::guest_tools::{guest_coding_tool_registry, guest_tool_registry};
use a_rust_vm::agent::{ToolArguments, ToolCall, ToolValue};
use a_rust_vm::runtime::VmInstance;

fn call(id: &str, name: &str, values: Vec<(&'static str, ToolValue)>) -> ToolCall {
    let mut arguments = ToolArguments::new();
    for (key, value) in values {
        arguments.insert(key.to_owned(), value);
    }
    ToolCall::new(id, name, arguments)
}

#[test]
fn guest_tools_share_state_without_touching_host_paths() {
    let mut registry = guest_tool_registry(VmInstance::new("guest-tools")).unwrap();

    let write = registry.execute(&call(
        "write",
        "guest_write_file",
        vec![
            ("path", ToolValue::Text("/workspace/hello.txt".to_owned())),
            ("content", ToolValue::Text("hello guest".to_owned())),
        ],
    ));
    assert!(!write.is_error);

    let read = registry.execute(&call(
        "read",
        "guest_read_file",
        vec![("path", ToolValue::Text("/workspace/hello.txt".to_owned()))],
    ));
    assert_eq!(read.content, "hello guest");

    let listing = registry.execute(&call(
        "list",
        "guest_list_files",
        vec![("path", ToolValue::Text("/workspace".to_owned()))],
    ));
    assert_eq!(listing.content, "file hello.txt size=11");

    let host_path = registry.execute(&call(
        "host",
        "guest_read_file",
        vec![("path", ToolValue::Text("/etc/hosts".to_owned()))],
    ));
    assert!(host_path.is_error);
    assert!(host_path.content.contains("path does not exist"));
}

#[test]
fn guest_process_tools_spawn_run_and_wait() {
    let mut registry = guest_tool_registry(VmInstance::new("guest-processes")).unwrap();
    let spawn = registry.execute(&call(
        "spawn",
        "guest_spawn",
        vec![("program", ToolValue::Text("PUSH 7\nHALT".to_owned()))],
    ));
    assert_eq!(spawn.content, "spawned guest process pid=1");

    let run = registry.execute(&call(
        "run",
        "guest_run",
        vec![("max_ticks", ToolValue::Integer(4))],
    ));
    assert!(run.content.contains("pid=1 exited code=7"));

    let wait = registry.execute(&call(
        "wait",
        "guest_wait",
        vec![("pid", ToolValue::Integer(1))],
    ));
    assert_eq!(wait.content, "exited code=7");
}

#[test]
fn guest_coding_registry_keeps_arithmetic_and_guest_tools_distinct() {
    let registry = guest_coding_tool_registry(VmInstance::new("composed")).unwrap();
    let names = registry
        .specs()
        .into_iter()
        .map(|spec| spec.name)
        .collect::<Vec<_>>();
    assert!(names.contains(&"run_program".to_owned()));
    assert!(names.contains(&"guest_run".to_owned()));
    assert!(names.contains(&"guest_processes".to_owned()));
}

#[test]
fn guest_tools_report_errors_and_argv() {
    let mut registry = guest_tool_registry(VmInstance::new("guest-errors")).unwrap();
    let missing = registry.execute(&call("read", "guest_read_file", vec![]));
    assert!(missing.is_error);
    assert_eq!(missing.content, "missing required argument: path");
    let spawn = registry.execute(&call(
        "spawn",
        "guest_spawn",
        vec![
            ("program", ToolValue::Text("PUSH 7\nHALT".to_owned())),
            (
                "argv",
                ToolValue::List(vec![ToolValue::Text("say \"hi\"".to_owned())]),
            ),
        ],
    ));
    assert!(!spawn.is_error);
    let listing = registry.execute(&call("list", "guest_processes", vec![]));
    assert!(listing.content.contains("argv=[\"say \\\"hi\\\"\"]"));
}

#[test]
fn guest_tools_work_on_the_supplied_guest() {
    let mut vm = VmInstance::new("supplied");
    vm.write_file("/workspace/notes.txt", b"from the guest").unwrap();
    let mut registry = guest_coding_tool_registry(vm).unwrap();
    let read = registry.execute(&call(
        "read",
        "guest_read_file",
        vec![("path", ToolValue::Text("/workspace/notes.txt".to_owned()))],
    ));
    assert!(!read.is_error);
    assert_eq!(read.content, "from the guest");
}
