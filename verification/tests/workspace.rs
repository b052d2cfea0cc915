//! The workspace tools.

use a_rust_vm::agent::{
    PermissionRequest, ToolArguments, ToolCall, ToolError, ToolValue, Toolbox,
};
use a_rust_vm::workspace::{
    PathFound, SearchStep, Workspace, WorkspaceAction, WorkspaceEntry, check_file,
    coding_tool_registry, describe_output, file_text, format_command_output, plan,
    reject_dangerous_command, search_step, search_text, workspace_permission,
    workspace_tool_registry, write_answer,
};

fn arguments(values: Vec<(&str, &str)>) -> ToolArguments {
    let mut arguments = ToolArguments::new();
    for (name, value) in values {
        arguments.insert(name.to_owned(), ToolValue::Text(value.to_owned()));
    }
    arguments
}

fn workspace() -> Workspace {
    Workspace::new("work", Ok("/work".to_owned()), true).unwrap()
}

/// A workspace with one file, in memory.
struct OneFile {
    workspace: Workspace,
    name: String,
    content: String,
}

impl OneFile {
    fn new() -> Self {
        OneFile {
            workspace: workspace(),
            name: "notes.txt".to_owned(),
            content: "hello\nneedle here\n".to_owned(),
        }
    }

    fn found(&self, requested: &str) -> PathFound {
        let path = self.workspace.candidate(requested);
        if path == "/work/." {
            PathFound::Present(Ok("/work".to_owned()))
        } else if path == format!("/work/{}", self.name) {
            PathFound::Present(Ok(path))
        } else {
            PathFound::Missing {
                parent: Some(Ok("/work".to_owned())),
                name: Some(requested.to_owned()),
            }
        }
    }
}

impl Toolbox for OneFile {
    fn execute(&mut self, name: &str, arguments: &ToolArguments) -> Result<String, ToolError> {
        match plan(name, arguments)? {
            WorkspaceAction::List { path } => {
                self.workspace.resolve(&path, self.found(&path), false)?;
                Ok(self.workspace.list_text(&vec![entry(&self.name, false)]))
            }
            WorkspaceAction::Read { path } => {
                self.workspace.resolve(&path, self.found(&path), false)?;
                check_file(&path, true, self.content.len() as u64)?;
                file_text(&path, self.content.as_bytes())
            }
            WorkspaceAction::Search { pattern, path } => {
                self.workspace.resolve(&path, self.found(&path), false)?;
                let mut found = Vec::new();
                let file = format!("/work/{}", self.name);
                self.workspace
                    .search_file(&file, &self.content, &pattern, &mut found);
                Ok(search_text(&found))
            }
            WorkspaceAction::Write { path, content } => {
                let resolved = self.workspace.resolve(&path, self.found(&path), true)?;
                let answer = write_answer(&path, &content, false)?;
                self.name = self.workspace.relative(&resolved);
                self.content = content;
                Ok(answer)
            }
            WorkspaceAction::Run { command } => Ok(format_command_output(
                command.trim_start_matches("printf ").as_bytes(),
                b"",
                Some(0),
            )),
        }
    }

    fn permission(&self, name: &str, arguments: &ToolArguments) -> Option<PermissionRequest> {
        workspace_permission(name, arguments)
    }
}

fn entry(name: &str, is_dir: bool) -> WorkspaceEntry {
    WorkspaceEntry {
        name: Some(name.to_owned()),
        path: format!("/work/{name}"),
        is_symlink: false,
        is_dir,
        is_file: !is_dir,
        size: Some(10),
    }
}

#[test]
fn rejects_paths_outside_the_workspace() {
    let workspace = workspace();

    let error = workspace
        .resolve(
            "../outside",
            PathFound::Present(Ok("/outside".to_owned())),
            false,
        )
        .unwrap_err();

    assert_eq!(error.to_text(), "workspace paths cannot contain '..'");
    let message = |requested: &str, found: PathFound, allow_missing: bool| {
        workspace
            .resolve(requested, found, allow_missing)
            .unwrap_err()
            .to_text()
    };
    let missing = || PathFound::Missing {
        parent: None,
        name: None,
    };
    assert_eq!(
        message("/etc/hosts", missing(), true),
        "workspace paths must be relative"
    );
    assert_eq!(
        message("link", PathFound::Present(Ok("/workshop".to_owned())), false),
        "path escapes the workspace: link"
    );
    assert_eq!(
        message("gone", missing(), false),
        "path does not exist: gone"
    );
    assert_eq!(message("gone", missing(), true), "workspace path has no parent");
    assert_eq!(
        message("gone", PathFound::Present(Err("denied".to_owned())), true),
        "cannot resolve 'gone': denied"
    );
    assert_eq!(
        Workspace::new("work", Err("denied".to_owned()), false)
            .unwrap_err()
            .to_text(),
        "cannot resolve workspace 'work': denied"
    );
    assert_eq!(
        Workspace::new("work", Ok("/work".to_owned()), false)
            .unwrap_err()
            .to_text(),
        "workspace is not a directory: /work"
    );
}

#[test]
fn workspace_tools_read_search_and_write_files() {
    let mut registry = workspace_tool_registry(OneFile::new()).unwrap();

    let read = registry.execute(&ToolCall::new(
        "read-1",
        "read_file",
        arguments(vec![("path", "notes.txt")]),
    ));
    assert_eq!(read.content, "hello\nneedle here\n");
    assert!(!read.is_error);

    let search = registry.execute(&ToolCall::new(
        "search-1",
        "search_files",
        arguments(vec![("pattern", "needle")]),
    ));
    assert_eq!(search.content, "notes.txt:2:needle here");

    let write = registry.execute(&ToolCall::new(
        "write-1",
        "write_file",
        arguments(vec![("path", "new.txt"), ("content", "created")]),
    ));
    assert_eq!(write.content, "wrote 7 bytes to new.txt");
    assert!(!write.is_error);
    let read = registry.execute(&ToolCall::new(
        "read-2",
        "read_file",
        arguments(vec![("path", "new.txt")]),
    ));
    assert_eq!(read.content, "created");
    let large = "a".repeat(128 * 1024 + 1);
    let refused = registry.execute(&ToolCall::new(
        "write-2",
        "write_file",
        arguments(vec![("path", "new.txt"), ("content", &large)]),
    ));
    assert_eq!(refused.content, "content exceeds the 131072 byte limit");
}

#[test]
fn write_and_command_tools_require_approval_metadata() {
    let registry = workspace_tool_registry(OneFile::new()).unwrap();
    let call = ToolCall::new(
        "write-1",
        "write_file",
        arguments(vec![("path", "new.txt"), ("content", "created")]),
    );
    let request = registry.permission_request(&call).unwrap();
    assert_eq!(request.id, "write-1:write_file:new.txt");
    assert_eq!(request.tool, "write_file");
    assert!(request.description.contains("new.txt"));
    let read = ToolCall::new("read-1", "read_file", arguments(vec![("path", "new.txt")]));
    assert_eq!(registry.permission_request(&read), None);

    let coding = coding_tool_registry(OneFile::new()).unwrap();
    assert_eq!(coding.specs().len(), 12);
}

#[test]
fn command_tool_captures_bounded_output_and_exit_code() {
    let mut registry = workspace_tool_registry(OneFile::new()).unwrap();
    let call = ToolCall::new(
        "command-1",
        "run_command",
        arguments(vec![("command", "printf hello")]),
    );

    let result = registry.execute(&call);

    assert!(!result.is_error);
    assert!(result.content.contains("stdout:\nhello"));
    assert!(result.content.contains("exit_code=0"));
    assert_eq!(
        format_command_output(b"", b"", None),
        "(no output)\nexit_code=-1"
    );
    assert_eq!(
        format_command_output(b"out", b"bad \xff", Some(3)),
        "stdout:\nout\nstderr:\nbad \u{fffd}exit_code=3"
    );
    let long = vec![b'a'; 16 * 1024 + 1];
    assert_eq!(
        format_command_output(&long, b"", Some(0)),
        format!(
            "stdout:\n{}\n[output truncated]exit_code=0",
            "a".repeat(16 * 1024)
        )
    );
    assert_eq!(
        describe_output(None, Some("e".to_owned()), Some(-9)),
        "stderr:\neexit_code=-9"
    );
}

#[test]
fn dangerous_commands_fail_closed_before_execution() {
    let mut registry = workspace_tool_registry(OneFile::new()).unwrap();
    for command in [
        "rm -rf /",
        "sudo rm -Rf /*",
        "mkfs -t ext4 /dev/sda1",
        "dd if=/dev/zero of=/dev/sda",
        "shutdown now",
        ":(){ :|:& };:",
    ] {
        let result = registry.execute(&ToolCall::new(
            "blocked",
            "run_command",
            arguments(vec![("command", command)]),
        ));
        assert!(result.is_error, "command should be refused: {command}");
        assert!(
            result.content.contains("refusing dangerous command"),
            "unexpected content: {}",
            result.content
        );
    }
    for command in ["rm -rf ./build", "rm notes.txt /", "echo halting", "dd if=a of=b", ""] {
        assert!(
            reject_dangerous_command(command).is_ok(),
            "command should be run: {command}"
        );
    }
    assert!(reject_dangerous_command("true;/sbin/reboot").is_err());
}

#[test]
fn listings_are_sorted_and_leave_out_what_is_ignored() {
    let mut link = entry("link", false);
    link.is_symlink = true;
    let entries = vec![
        entry("src", true),
        entry("target", true),
        link,
        entry("a.txt", false),
        entry(".git", true),
    ];
    assert_eq!(workspace().list_text(&entries), "dir src\nfile a.txt");
    assert_eq!(workspace().list_text(&Vec::new()), "(empty)");
    assert_eq!(search_step(&entries[0]), SearchStep::Descend);
    assert_eq!(search_step(&entries[1]), SearchStep::Skip);
    assert_eq!(search_step(&entries[2]), SearchStep::Skip);
    assert_eq!(search_step(&entries[3]), SearchStep::Read);
}

#[test]
fn searches_stop_at_their_bound() {
    let mut found = Vec::new();
    workspace().search_file("/work/a.txt", &"x\n".repeat(70), "x", &mut found);
    workspace().search_file("/work/b.txt", &"x\n".repeat(70), "x", &mut found);
    assert_eq!(found.len(), 100);
    assert_eq!(found[99], "b.txt:30:x");
    assert_eq!(search_text(&Vec::new()), "(no matches)");
}

#[test]
fn files_are_bounded_and_text() {
    assert_eq!(
        check_file("a", false, 0).unwrap_err().to_text(),
        "not a file: a"
    );
    assert_eq!(
        check_file("a", true, 131073).unwrap_err().to_text(),
        "file exceeds the 131072 byte limit: a"
    );
    assert_eq!(
        file_text("a", b"\xff").unwrap_err().to_text(),
        "file is not valid UTF-8: a"
    );
    assert_eq!(
        write_answer("a", "", true).unwrap_err().to_text(),
        "cannot write a directory: a"
    );
}
