# A/RVM

A deterministic stack machine, a guest runtime with its own file system and processes, and the
agent platform that uses both: tools, models, permissions, workspaces, artifacts, sessions and a
browser host.

`src/` is the library, all of it verified by Verus. The contract of a function says what it returns
and what it changes, over mathematical models of its data, for every input that it accepts. Laws
that span several functions stand beside them as public proof functions named `law_*`.

Models, tools and event sinks are traits for others to implement, and have no contracts of their
own. What the library does with them is proved all the same: the contracts of an agent, a router, a
registry and a stream of events say which of them is asked or handed something, what that is, in
which order, and what is made of whatever comes back.

- `machine`, `program`, `debugger`, `vm_tools`: instructions, programs, stepping and tracing.
- `filesystem`, `runtime`, `manager`, `snapshot`: guests, their files and their processes.
- `agent`, `turns`, `models`, `toolbox`, `agent_messages`, `tool_values`, `canonical`: the
  turns of an agent, the models it asks and the tools it calls.
- `process_model`, `model_bridge`, `model_replies`, `model_requests`, `openrouter`,
  `persistent_model`, `mcp`: what is said to models and tool servers, and how they are understood.
- `permissions`, `permission_rules`, `approvals`: who may do what.
- `control_plane`, `artifacts`, `content_store` and their stores: durable workspaces.
- `jobs`, `tabulation`, `tables`, `apps`, `format_readers`, `archives`: uploads and the apps on
  them.
- `session`, `session_snapshot`, `skills`, `workspace`: transcripts, guest sessions, skills and
  the files of a project.
- `http`, `server`, `anon_session`, `anon_store`: the rules of the browser host.
- `command_line` and the `*_commands` modules: the commands of the program.
- `json`, `text`, `hex`, `ordered`, `clock`: what the others build on.

What the library does not prove is named where it stands: the few items marked `external_body` or
given an `assume_specification` call into std, `serde_json`, `sha2` and `zip`, and their doc
comments say what is claimed of those calls.

`app/` is the program `arvm` around the library: files, processes, sockets and threads, and the
readers of workbooks. `tests/` runs the library.
