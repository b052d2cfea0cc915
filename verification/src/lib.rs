//! A deterministic stack machine, the guest runtime around it, and the agent platform that uses both.

use vstd::prelude::*;

pub mod agent;
pub mod agent_console;
pub mod agent_events;
pub mod agent_messages;
pub mod anon_session;
pub mod anon_store;
pub mod approvals;
pub mod apps;
pub mod archives;
pub mod artifacts;
pub mod canonical;
pub mod clock;
pub mod command_line;
pub mod content_store;
pub mod control_plane;
pub mod control_plane_store;
pub mod debugger;
pub mod filesystem;
pub mod format_readers;
pub mod guest_tools;
pub mod hex;
pub mod http;
pub mod jobs;
pub mod json;
pub mod machine;
pub mod manager;
pub mod mcp;
pub mod model_bridge;
pub mod model_replies;
pub mod model_requests;
pub mod models;
pub mod openrouter;
pub mod ordered;
pub mod permission_rules;
pub mod permissions;
pub mod persistent_model;
pub mod process_model;
pub mod program;
pub mod program_commands;
pub mod protocol;
pub mod runtime;
pub mod runtime_error;
pub mod server;
pub mod session;
pub mod session_commands;
pub mod session_snapshot;
pub mod session_snapshot_store;
pub mod skills;
pub mod snapshot;
pub mod tables;
pub mod tabulation;
pub mod text;
pub mod tool_arguments;
pub mod tool_values;
pub mod toolbox;
pub mod turns;
pub mod vm_tools;
pub mod workspace;
pub mod workspace_commands;

pub use debugger::{Debugger, run_binary, run_demo};
pub use machine::{Instruction, MAX_VM_STEPS, StepResult, TraceEntry, Vm, VmError};

verus! {

} // verus!
