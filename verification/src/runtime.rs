//! A deterministic guest runtime with an isolated virtual filesystem and
//! bytecode processes.
//!
//! `VmInstance` is deliberately independent from the host filesystem and
//! process table. It models the guest environment that agent tools can target;
//! a later host adapter can place each instance behind an OS sandbox.

use std::collections::VecDeque;

use vstd::prelude::*;

pub use crate::filesystem::{
    DirectoryEntry, EntryKind, VirtualFileSystem, display_path, normalize_path,
};
#[allow(unused_imports)]
use crate::filesystem::{
    FsNode, FsState, Listed, Names, display, file_at, fresh_fs, list_at, listed_entries, mkdir_at,
    law_fresh_filesystems_are_sound, law_mkdir_makes_a_directory, law_normalize_undoes_display,
    law_normalized_paths_are_proper,
    law_write_then_read, normalize, seen, sound_fs, text_at, write_at,
};
use crate::machine::{Instruction, StepResult, Vm};
#[allow(unused_imports)]
use crate::machine::{VmError, VmState, initial_state, step_of};
pub use crate::manager::{VmManager, VmManagerError, VmSummary};
use crate::program::Program;
#[allow(unused_imports)]
use crate::program::{
    arithmetic_error, examine, fault_text, law_valid_programs_have_consistent_depths,
    law_valid_programs_step_soundly, sound_state, valid_program,
};
pub use crate::runtime_error::{Pid, ResourceLimits, RuntimeError};
#[allow(unused_imports)]
use crate::runtime_error::{Trouble, default_limits, vm_error_text};
pub use crate::snapshot::{
    SnapshotEntry, SnapshotEntryKind, VM_SNAPSHOT_SCHEMA_VERSION, VmSnapshot,
};
#[allow(unused_imports)]
use crate::text::{lacks, texts};

verus! {

// ---------------------------------------------------------------------------
// Processes
// ---------------------------------------------------------------------------

/// Lifecycle state for a guest process.
#[derive(Debug, PartialEq, Eq)]
pub enum ProcessState {
    Ready,
    Running,
    Exited { code: i32 },
    Failed { error: String },
}

/// What a [`ProcessState`] says.
#[verifier::ext_equal]
pub enum StateModel {
    Ready,
    Running,
    Exited { code: i32 },
    Failed { error: Seq<char> },
}

impl View for ProcessState {
    type V = StateModel;

    open spec fn view(&self) -> StateModel {
        match self {
            ProcessState::Ready => StateModel::Ready,
            ProcessState::Running => StateModel::Running,
            ProcessState::Exited { code } => StateModel::Exited { code: *code },
            ProcessState::Failed { error } => StateModel::Failed { error: error@ },
        }
    }
}

impl Clone for ProcessState {
    fn clone(&self) -> (r: Self)
        ensures
            r@ == self@,
    {
        match self {
            ProcessState::Ready => ProcessState::Ready,
            ProcessState::Running => ProcessState::Running,
            ProcessState::Exited { code } => ProcessState::Exited { code: *code },
            ProcessState::Failed { error } => ProcessState::Failed { error: error.clone() },
        }
    }
}

/// Inspectable process metadata without exposing mutable guest state.
#[derive(Debug, PartialEq, Eq)]
pub struct ProcessInfo {
    pub pid: Pid,
    pub parent: Option<Pid>,
    pub argv: Vec<String>,
    pub cwd: String,
    pub state: ProcessState,
    pub instruction_pointer: usize,
    pub stack: Vec<i32>,
}

/// What a [`ProcessInfo`] says.
#[verifier::ext_equal]
pub struct InfoModel {
    pub pid: Pid,
    pub parent: Option<Pid>,
    pub argv: Names,
    pub cwd: Seq<char>,
    pub state: StateModel,
    pub instruction_pointer: int,
    pub stack: Seq<i32>,
}

impl View for ProcessInfo {
    type V = InfoModel;

    open spec fn view(&self) -> InfoModel {
        InfoModel {
            pid: self.pid,
            parent: self.parent,
            argv: texts(self.argv@),
            cwd: self.cwd@,
            state: self.state@,
            instruction_pointer: self.instruction_pointer as int,
            stack: self.stack@,
        }
    }
}

#[derive(Debug)]
pub struct GuestProcess {
    parent: Option<Pid>,
    argv: Vec<String>,
    cwd: String,
    program: Vec<Instruction>,
    vm: Vm,
    state: ProcessState,
}

/// A guest process.
#[verifier::ext_equal]
pub struct ProcessModel {
    pub parent: Option<Pid>,
    pub argv: Names,
    pub cwd: Seq<char>,
    pub program: Seq<Instruction>,
    pub vm: VmState,
    pub state: StateModel,
}

impl View for GuestProcess {
    type V = ProcessModel;

    closed spec fn view(&self) -> ProcessModel {
        ProcessModel {
            parent: self.parent,
            argv: texts(self.argv@),
            cwd: self.cwd@,
            program: self.program@,
            vm: self.vm@,
            state: self.state@,
        }
    }
}

/// The result of one deterministic scheduler tick.
#[derive(Debug, PartialEq, Eq)]
pub enum ProcessEvent {
    InstructionExecuted {
        pid: Pid,
        instruction_pointer: usize,
        instruction: Instruction,
        stack: Vec<i32>,
    },
    ProcessExited { pid: Pid, code: i32 },
    ProcessFailed { pid: Pid, error: String },
}

/// What a [`ProcessEvent`] says.
#[verifier::ext_equal]
pub enum EventModel {
    InstructionExecuted {
        pid: Pid,
        instruction_pointer: int,
        instruction: Instruction,
        stack: Seq<i32>,
    },
    ProcessExited { pid: Pid, code: i32 },
    ProcessFailed { pid: Pid, error: Seq<char> },
}

impl View for ProcessEvent {
    type V = EventModel;

    open spec fn view(&self) -> EventModel {
        match self {
            ProcessEvent::InstructionExecuted { pid, instruction_pointer, instruction, stack } =>
                EventModel::InstructionExecuted {
                pid: *pid,
                instruction_pointer: *instruction_pointer as int,
                instruction: *instruction,
                stack: stack@,
            },
            ProcessEvent::ProcessExited { pid, code } => EventModel::ProcessExited {
                pid: *pid,
                code: *code,
            },
            ProcessEvent::ProcessFailed { pid, error } => EventModel::ProcessFailed {
                pid: *pid,
                error: error@,
            },
        }
    }
}

pub open spec fn event_models(events: Seq<ProcessEvent>) -> Seq<EventModel> {
    Seq::new(events.len(), |i: int| events[i]@)
}

/// Result of polling a guest process with `wait`.
#[derive(Debug, PartialEq, Eq)]
pub enum WaitStatus {
    Running,
    Exited { code: i32 },
    Failed { error: String },
}

/// What a [`WaitStatus`] says.
#[verifier::ext_equal]
pub enum WaitModel {
    Running,
    Exited { code: i32 },
    Failed { error: Seq<char> },
}

impl View for WaitStatus {
    type V = WaitModel;

    open spec fn view(&self) -> WaitModel {
        match self {
            WaitStatus::Running => WaitModel::Running,
            WaitStatus::Exited { code } => WaitModel::Exited { code: *code },
            WaitStatus::Failed { error } => WaitModel::Failed { error: error@ },
        }
    }
}

/// Guest operations exposed as an explicit syscall-like API.
#[derive(Debug, PartialEq, Eq)]
pub enum Syscall {
    ReadFile { path: String },
    WriteFile { path: String, content: Vec<u8> },
    MakeDirectory { path: String, recursive: bool },
    ListDirectory { path: String },
    Spawn { program: Vec<Instruction>, argv: Vec<String> },
    Wait { pid: Pid },
    Exit { code: i32 },
}

/// Values returned by a guest syscall.
#[derive(Debug, PartialEq, Eq)]
pub enum SyscallResult {
    File(Vec<u8>),
    Directory(Vec<DirectoryEntry>),
    Process(Pid),
    Wait(WaitStatus),
    Unit,
}

/// What a [`SyscallResult`] says.
#[verifier::ext_equal]
pub enum Answer {
    File(Seq<u8>),
    Directory(Seq<Listed>),
    Process(Pid),
    Wait(WaitModel),
    Unit,
}

impl View for SyscallResult {
    type V = Answer;

    open spec fn view(&self) -> Answer {
        match self {
            SyscallResult::File(content) => Answer::File(content@),
            SyscallResult::Directory(entries) => Answer::Directory(listed_entries(entries@)),
            SyscallResult::Process(pid) => Answer::Process(*pid),
            SyscallResult::Wait(status) => Answer::Wait(status@),
            SyscallResult::Unit => Answer::Unit,
        }
    }
}

// ---------------------------------------------------------------------------
// Instances
// ---------------------------------------------------------------------------

/// The state of a guest environment. Process `pid` stands at index `pid - 1`.
#[verifier::ext_equal]
pub struct InstanceState {
    pub id: Seq<char>,
    pub fs: FsState,
    pub processes: Seq<ProcessModel>,
    pub runnable: Seq<Pid>,
    pub ticks: nat,
}

/// A new guest environment.
pub open spec fn fresh_instance(id: Seq<char>, limits: ResourceLimits) -> InstanceState {
    InstanceState {
        id,
        fs: fresh_fs(limits),
        processes: Seq::empty(),
        runnable: Seq::empty(),
        ticks: 0,
    }
}

/// Whether `pid` names a process.
pub open spec fn known(s: InstanceState, pid: Pid) -> bool {
    1 <= pid <= s.processes.len()
}

/// The process with identifier `pid`.
pub open spec fn process(s: InstanceState, pid: Pid) -> ProcessModel {
    s.processes[pid - 1]
}

pub open spec fn with_process(s: InstanceState, pid: Pid, p: ProcessModel) -> InstanceState {
    InstanceState { processes: s.processes.update(pid - 1, p), ..s }
}

pub open spec fn with_fs(s: InstanceState, fs: FsState) -> InstanceState {
    InstanceState { fs, ..s }
}

pub open spec fn info(s: InstanceState, pid: Pid) -> InfoModel {
    let p = process(s, pid);
    InfoModel {
        pid,
        parent: p.parent,
        argv: p.argv,
        cwd: p.cwd,
        state: p.state,
        instruction_pointer: p.vm.instruction_pointer,
        stack: p.vm.stack,
    }
}

/// Starting a process.
pub open spec fn spawn_in(
    s: InstanceState,
    parent: Option<Pid>,
    program: Seq<Instruction>,
    argv: Names,
) -> (InstanceState, Result<Pid, Trouble>) {
    match examine(program) {
        Err(found) => (s, Err(Trouble::InvalidProgram { reason: fault_text(found) })),
        Ok(_) => if s.processes.len() >= s.fs.limits.max_processes {
            (s, Err(Trouble::ProcessLimitReached { limit: s.fs.limits.max_processes }))
        } else if parent matches Some(pid) && !known(s, pid) {
            (s, Err(Trouble::InvalidParent { pid: parent->0 }))
        } else if s.processes.len() + 1 >= u32::MAX {
            (
                s,
                Err(Trouble::QuotaExceeded { resource: "process IDs", limit: u32::MAX as usize }),
            )
        } else {
            let pid = (s.processes.len() + 1) as Pid;
            let p = ProcessModel {
                parent,
                argv,
                cwd: match parent {
                    Some(pid) => process(s, pid).cwd,
                    None => "/"@,
                },
                program,
                vm: initial_state(),
                state: StateModel::Ready,
            };
            (
                InstanceState {
                    processes: s.processes.push(p),
                    runnable: s.runnable.push(pid),
                    ..s
                },
                Ok(pid),
            )
        },
    }
}

/// Polling a process.
pub open spec fn wait_in(s: InstanceState, pid: Pid) -> Result<WaitModel, Trouble> {
    if !known(s, pid) {
        Err(Trouble::ProcessNotFound { pid })
    } else {
        Ok(
            match process(s, pid).state {
                StateModel::Ready | StateModel::Running => WaitModel::Running,
                StateModel::Exited { code } => WaitModel::Exited { code },
                StateModel::Failed { error } => WaitModel::Failed { error },
            },
        )
    }
}

/// Whether `pid` names a process that is ready to run.
pub open spec fn ready(s: InstanceState, pid: Pid) -> bool {
    ready_in(s.processes, pid)
}

/// Whether `pid` names one of these processes, which is ready to run.
pub open spec fn ready_in(processes: Seq<ProcessModel>, pid: Pid) -> bool {
    1 <= pid <= processes.len() && processes[pid - 1].state is Ready
}

/// A process that was validated: it runs a valid program and, while it can run, its machine is in
/// a state that validation foresaw.
pub open spec fn sound_process(p: ProcessModel) -> bool {
    &&& valid_program(p.program)
    &&& !(p.state is Running)
    &&& p.state is Ready ==> sound_state(p.program, p.vm)
}

/// Validated processes, of which those that are ready wait in the queue.
pub open spec fn well_queued(processes: Seq<ProcessModel>, runnable: Seq<Pid>) -> bool {
    &&& processes.len() < u32::MAX
    &&& forall|i: int| 0 <= i < processes.len() ==> sound_process(#[trigger] processes[i])
    &&& forall|pid: Pid| #[trigger] ready_in(processes, pid) ==> runnable.contains(pid)
}

/// The number of processes at the front of `queue` that are not ready.
pub open spec fn stale(s: InstanceState, queue: Seq<Pid>) -> int
    decreases queue.len(),
{
    if queue.len() == 0 || ready(s, queue[0]) {
        0
    } else {
        1 + stale(s, queue.skip(1))
    }
}

/// One instruction of process `pid`, with `rest` as the queue behind it.
pub open spec fn run_process(s: InstanceState, pid: Pid, rest: Seq<Pid>) -> (
    InstanceState,
    EventModel,
) {
    let p = process(s, pid);
    let (vm, outcome) = step_of(p.program, p.vm);
    match outcome {
        Ok(StepResult::Executed { instruction }) => (
            InstanceState {
                processes: s.processes.update(
                    pid - 1,
                    ProcessModel { vm, state: StateModel::Ready, ..p },
                ),
                runnable: rest.push(pid),
                ticks: s.ticks + 1,
                ..s
            },
            EventModel::InstructionExecuted {
                pid,
                instruction_pointer: p.vm.instruction_pointer,
                instruction,
                stack: vm.stack,
            },
        ),
        Ok(StepResult::Halted { result }) => (
            InstanceState {
                processes: s.processes.update(
                    pid - 1,
                    ProcessModel { vm, state: StateModel::Exited { code: result }, ..p },
                ),
                runnable: rest,
                ticks: s.ticks + 1,
                ..s
            },
            EventModel::ProcessExited { pid, code: result },
        ),
        Err(error) => (
            InstanceState {
                processes: s.processes.update(
                    pid - 1,
                    ProcessModel {
                        vm,
                        state: StateModel::Failed { error: vm_error_text(error) },
                        ..p
                    },
                ),
                runnable: rest,
                ticks: s.ticks + 1,
                ..s
            },
            EventModel::ProcessFailed { pid, error: vm_error_text(error) },
        ),
    }
}

/// One tick of the scheduler: one instruction of the first process in the queue that is ready.
pub open spec fn tick_of(s: InstanceState) -> (InstanceState, Option<EventModel>) {
    let k = stale(s, s.runnable);
    if s.ticks >= s.fs.limits.max_steps {
        (s, None)
    } else if !(0 <= k < s.runnable.len()) {
        (InstanceState { runnable: Seq::empty(), ..s }, None)
    } else {
        let (next, event) = run_process(s, s.runnable[k], s.runnable.skip(k + 1));
        (next, Some(event))
    }
}

/// At most `fuel` ticks, until no process is left to run. `limit` is the number of ticks that the
/// caller asked for.
pub open spec fn idle_from(s: InstanceState, fuel: nat, limit: usize) -> (
    InstanceState,
    Result<Seq<EventModel>, Trouble>,
)
    decreases fuel,
{
    let exhausted = Trouble::ExecutionLimitExceeded { limit: s.fs.limits.max_steps };
    if s.runnable.len() == 0 {
        (s, Ok(Seq::empty()))
    } else if fuel == 0 {
        (s, Err(Trouble::ExecutionLimitExceeded { limit }))
    } else if s.ticks >= s.fs.limits.max_steps {
        (s, Err(exhausted))
    } else {
        match tick_of(s) {
            (next, Some(event)) => match idle_from(next, (fuel - 1) as nat, limit) {
                (last, Ok(rest)) => (last, Ok(seq![event] + rest)),
                (last, Err(trouble)) => (last, Err(trouble)),
            },
            (next, None) => (next, Ok(Seq::empty())),
        }
    }
}

/// `path` as process `pid` sees it.
pub open spec fn path_from(s: InstanceState, pid: Pid, path: Seq<char>) -> Result<
    Seq<char>,
    Trouble,
> {
    match normalize(path, process(s, pid).cwd) {
        Ok(names) => Ok(display(names)),
        Err(trouble) => Err(trouble),
    }
}

/// A syscall of process `pid`.
pub open spec fn syscall_in(s: InstanceState, pid: Pid, syscall: Syscall) -> (
    InstanceState,
    Result<Answer, Trouble>,
) {
    if !known(s, pid) {
        (s, Err(Trouble::ProcessNotFound { pid }))
    } else {
        match syscall {
            Syscall::ReadFile { path } => match path_from(s, pid, path@) {
                Err(trouble) => (s, Err(trouble)),
                Ok(full) => match file_at(s.fs, full) {
                    Ok(content) => (s, Ok(Answer::File(content))),
                    Err(trouble) => (s, Err(trouble)),
                },
            },
            Syscall::WriteFile { path, content } => match path_from(s, pid, path@) {
                Err(trouble) => (s, Err(trouble)),
                Ok(full) => match write_at(s.fs, full, content@) {
                    (fs, Ok(_)) => (with_fs(s, fs), Ok(Answer::Unit)),
                    (fs, Err(trouble)) => (with_fs(s, fs), Err(trouble)),
                },
            },
            Syscall::MakeDirectory { path, recursive } => match path_from(s, pid, path@) {
                Err(trouble) => (s, Err(trouble)),
                Ok(full) => match mkdir_at(s.fs, full, recursive) {
                    (fs, Ok(_)) => (with_fs(s, fs), Ok(Answer::Unit)),
                    (fs, Err(trouble)) => (with_fs(s, fs), Err(trouble)),
                },
            },
            Syscall::ListDirectory { path } => match path_from(s, pid, path@) {
                Err(trouble) => (s, Err(trouble)),
                Ok(full) => match list_at(s.fs, full) {
                    Ok(entries) => (s, Ok(Answer::Directory(entries))),
                    Err(trouble) => (s, Err(trouble)),
                },
            },
            Syscall::Spawn { program, argv } => match spawn_in(
                s,
                Some(pid),
                program@,
                texts(argv@),
            ) {
                (next, Ok(child)) => (next, Ok(Answer::Process(child))),
                (next, Err(trouble)) => (next, Err(trouble)),
            },
            Syscall::Wait { pid: child } => match wait_in(s, child) {
                Ok(status) => (s, Ok(Answer::Wait(status))),
                Err(trouble) => (s, Err(trouble)),
            },
            Syscall::Exit { code } => (
                with_process(
                    s,
                    pid,
                    ProcessModel { state: StateModel::Exited { code }, ..process(s, pid) },
                ),
                Ok(Answer::Unit),
            ),
        }
    }
}

/// One isolated guest environment.
#[derive(Debug)]
pub struct VmInstance {
    id: String,
    filesystem: VirtualFileSystem,
    schedule: Schedule,
    ticks: usize,
}

/// The processes of an environment, and the queue of those that are to run.
#[derive(Debug)]
struct Schedule {
    processes: Vec<GuestProcess>,
    runnable: VecDeque<Pid>,
}

impl Schedule {
    #[verifier::type_invariant]
    spec fn inv(self) -> bool {
        well_queued(process_models(self.processes@), self.runnable@)
    }

    fn empty() -> (r: Self)
        ensures
            r.processes@ == Seq::<GuestProcess>::empty(),
            r.runnable@ == Seq::<Pid>::empty(),
    {
        Schedule { processes: Vec::new(), runnable: VecDeque::new() }
    }
}

pub closed spec fn process_models(processes: Seq<GuestProcess>) -> Seq<ProcessModel> {
    Seq::new(processes.len(), |i: int| processes[i]@)
}

impl View for VmInstance {
    type V = InstanceState;

    closed spec fn view(&self) -> InstanceState {
        InstanceState {
            id: self.id@,
            fs: self.filesystem@,
            processes: process_models(self.schedule.processes@),
            runnable: self.schedule.runnable@,
            ticks: self.ticks as nat,
        }
    }
}

fn copy_texts(parts: &Vec<String>) -> (r: Vec<String>)
    ensures
        texts(r@) == texts(parts@),
{
    let r = parts.clone();
    assert(texts(r@) =~= texts(parts@));
    r
}

fn copy_stack(stack: &[i32]) -> (r: Vec<i32>)
    ensures
        r@ == stack@,
{
    let mut r: Vec<i32> = Vec::new();
    let mut i: usize = 0;
    while i < stack.len()
        invariant
            i <= stack@.len(),
            r@ == stack@.take(i as int),
        decreases stack@.len() - i,
    {
        r.push(stack[i]);
        assert(stack@.take(i + 1) =~= stack@.take(i as int).push(stack@[i as int]));
        i += 1;
    }
    assert(stack@.take(stack@.len() as int) =~= stack@);
    r
}

impl VmInstance {
    pub fn new(id: &str) -> (r: Self)
        ensures
            r@ == fresh_instance(id@, default_limits()),
    {
        VmInstance::with_limits(id, ResourceLimits::default()).unwrap()
    }

    pub fn with_limits(id: &str, limits: ResourceLimits) -> (r: Result<Self, RuntimeError>)
        ensures
            match r {
                Ok(vm) => limits.max_inodes >= 4 && vm@ == fresh_instance(id@, limits),
                Err(error) => limits.max_inodes < 4 && error@ == (Trouble::InvalidLimits {
                    resource: "inodes",
                    minimum: 4,
                    actual: limits.max_inodes,
                }),
            },
    {
        match VirtualFileSystem::new(limits) {
            Ok(filesystem) => {
                let vm = VmInstance {
                    id: id.to_owned(),
                    filesystem,
                    schedule: Schedule::empty(),
                    ticks: 0,
                };
                assert(vm@ =~= fresh_instance(id@, limits));
                Ok(vm)
            },
            Err(error) => Err(error),
        }
    }

    pub fn id(&self) -> (r: &str)
        ensures
            r@ == self@.id,
    {
        self.id.as_str()
    }

    pub fn limits(&self) -> (r: ResourceLimits)
        ensures
            r == self@.fs.limits,
    {
        self.filesystem.limits()
    }

    pub fn ticks(&self) -> (r: usize)
        ensures
            r == self@.ticks,
    {
        self.ticks
    }

    pub fn read_file(&self, path: &str) -> (r: Result<Vec<u8>, RuntimeError>)
        ensures
            match r {
                Ok(content) => file_at(self@.fs, path@) == Ok::<Seq<u8>, Trouble>(content@),
                Err(error) => file_at(self@.fs, path@) == Err::<Seq<u8>, Trouble>(error@),
            },
    {
        self.filesystem.read_file(path)
    }

    pub fn read_text(&self, path: &str) -> (r: Result<String, RuntimeError>)
        ensures
            match r {
                Ok(text) => text_at(self@.fs, path@) == Ok::<Seq<char>, Trouble>(text@),
                Err(error) => text_at(self@.fs, path@) == Err::<Seq<char>, Trouble>(error@),
            },
    {
        self.filesystem.read_text(path)
    }

    pub fn write_file(&mut self, path: &str, content: &[u8]) -> (r: Result<(), RuntimeError>)
        ensures
            final(self)@ == with_fs(old(self)@, write_at(old(self)@.fs, path@, content@).0),
            seen(r) == write_at(old(self)@.fs, path@, content@).1,
    {
        self.filesystem.write_file(path, content)
    }

    pub fn mkdir(&mut self, path: &str, recursive: bool) -> (r: Result<(), RuntimeError>)
        ensures
            final(self)@ == with_fs(old(self)@, mkdir_at(old(self)@.fs, path@, recursive).0),
            seen(r) == mkdir_at(old(self)@.fs, path@, recursive).1,
    {
        self.filesystem.mkdir(path, recursive)
    }

    pub fn list_dir(&self, path: &str) -> (r: Result<Vec<DirectoryEntry>, RuntimeError>)
        ensures
            match r {
                Ok(entries) => list_at(self@.fs, path@) == Ok::<Seq<Listed>, Trouble>(
                    listed_entries(entries@),
                ),
                Err(error) => list_at(self@.fs, path@) == Err::<Seq<Listed>, Trouble>(error@),
            },
    {
        self.filesystem.list_dir(path)
    }

    pub fn filesystem(&self) -> (r: &VirtualFileSystem)
        ensures
            r@ == self@.fs,
    {
        &self.filesystem
    }

    /// The processes were validated, and those of them that are ready wait in the queue.
    pub fn well_queued(&self)
        ensures
            well_queued(self@.processes, self@.runnable),
    {
        proof {
            use_type_invariant(&self.schedule);
        }
    }

    /// The index of process `pid`, if it exists.
    fn index(&self, pid: Pid) -> (r: Option<usize>)
        ensures
            match r {
                Some(i) => known(self@, pid) && i == pid - 1 && i < self.schedule.processes@.len(),
                None => !known(self@, pid),
            },
    {
        if pid >= 1 && ((pid - 1) as usize) < self.schedule.processes.len() {
            Some((pid - 1) as usize)
        } else {
            None
        }
    }

    pub fn process_info(&self, pid: Pid) -> (r: Result<ProcessInfo, RuntimeError>)
        ensures
            match r {
                Ok(found) => known(self@, pid) && found@ == info(self@, pid),
                Err(error) => !known(self@, pid) && error@ == (Trouble::ProcessNotFound { pid }),
            },
    {
        match self.index(pid) {
            None => Err(RuntimeError::ProcessNotFound { pid }),
            Some(i) => {
                let p = &self.schedule.processes[i];
                let found = ProcessInfo {
                    pid,
                    parent: p.parent,
                    argv: copy_texts(&p.argv),
                    cwd: p.cwd.clone(),
                    state: p.state.clone(),
                    instruction_pointer: p.vm.instruction_pointer(),
                    stack: copy_stack(p.vm.stack()),
                };
                assert(found@ =~= info(self@, pid));
                Ok(found)
            },
        }
    }

    /// Every process, in PID order.
    pub fn processes(&self) -> (r: Vec<ProcessInfo>)
        ensures
            r@.len() == if self@.processes.len() <= u32::MAX {
                self@.processes.len()
            } else {
                u32::MAX as nat
            },
            forall|i: int| 0 <= i < r@.len() ==> (#[trigger] r@[i])@ == info(self@, (i + 1) as Pid),
    {
        let mut r: Vec<ProcessInfo> = Vec::new();
        let mut pid: Pid = 0;
        while pid < u32::MAX && (pid as usize) < self.schedule.processes.len()
            invariant
                r@.len() == pid,
                pid <= self@.processes.len(),
                self@.processes.len() == self.schedule.processes@.len(),
                forall|i: int|
                    0 <= i < r@.len() ==> (#[trigger] r@[i])@ == info(self@, (i + 1) as Pid),
            decreases u32::MAX - pid,
        {
            pid += 1;
            if let Ok(found) = self.process_info(pid) {
                r.push(found);
            }
        }
        r
    }

    pub fn process_count(&self) -> (r: usize)
        ensures
            r == self@.processes.len(),
    {
        self.schedule.processes.len()
    }

    /// Starts a process.
    pub fn spawn(
        &mut self,
        parent: Option<Pid>,
        program: Vec<Instruction>,
        argv: Vec<String>,
    ) -> (r: Result<Pid, RuntimeError>)
        ensures
            (final(self)@, seen(r)) == spawn_in(old(self)@, parent, program@, texts(argv@)),
    {
        let checked = match Program::new(program) {
            Ok(checked) => checked,
            Err(error) => {
                return Err(RuntimeError::InvalidProgram { reason: error.to_text() });
            },
        };
        let max_processes: usize = self.limits().max_processes;
        if self.schedule.processes.len() >= max_processes {
            return Err(RuntimeError::ProcessLimitReached { limit: max_processes });
        }
        let cwd = match parent {
            Some(pid) => match self.index(pid) {
                Some(i) => self.schedule.processes[i].cwd.clone(),
                None => {
                    return Err(RuntimeError::InvalidParent { pid });
                },
            },
            None => "/".to_owned(),
        };
        if self.schedule.processes.len() >= (u32::MAX - 1) as usize {
            return Err(
                RuntimeError::QuotaExceeded { resource: "process IDs", limit: u32::MAX as usize },
            );
        }
        let pid: Pid = self.schedule.processes.len() as Pid + 1;
        let ghost before = self@;
        let instructions = checked.into_instructions();
        let p = GuestProcess {
            parent,
            argv,
            cwd,
            program: instructions,
            vm: Vm::new(),
            state: ProcessState::Ready,
        };
        proof {
            use_type_invariant(&self.schedule);
            lemma_spawn_keeps_queue(before, parent, program@, texts(argv@));
        }
        let mut taken = Schedule::empty();
        std::mem::swap(&mut taken, &mut self.schedule);
        let Schedule { mut processes, mut runnable } = taken;
        processes.push(p);
        runnable.push_back(pid);
        assert(process_models(processes@) =~= before.processes.push(p@));
        self.schedule = Schedule { processes, runnable };
        assert(self@ =~= spawn_in(before, parent, program@, texts(argv@)).0);
        Ok(pid)
    }

    /// Polls a process.
    pub fn wait(&self, pid: Pid) -> (r: Result<WaitStatus, RuntimeError>)
        ensures
            match r {
                Ok(status) => wait_in(self@, pid) == Ok::<WaitModel, Trouble>(status@),
                Err(error) => wait_in(self@, pid) == Err::<WaitModel, Trouble>(error@),
            },
    {
        match self.index(pid) {
            None => Err(RuntimeError::ProcessNotFound { pid }),
            Some(i) => Ok(
                match &self.schedule.processes[i].state {
                    ProcessState::Ready => WaitStatus::Running,
                    ProcessState::Running => WaitStatus::Running,
                    ProcessState::Exited { code } => WaitStatus::Exited { code: *code },
                    ProcessState::Failed { error } => WaitStatus::Failed { error: error.clone() },
                },
            ),
        }
    }

    /// Execute one instruction from the next ready process.
    pub fn tick(&mut self) -> (r: Option<ProcessEvent>)
        ensures
            final(self)@ == tick_of(old(self)@).0,
            match r {
                Some(event) => tick_of(old(self)@).1 == Some(event@),
                None => tick_of(old(self)@).1 is None,
            },
            r is None <==> old(self)@.ticks >= old(self)@.fs.limits.max_steps || forall|pid: Pid|
                !#[trigger] ready(old(self)@, pid),
    {
        if self.ticks >= self.limits().max_steps {
            return None;
        }
        let ghost start = self@;
        proof {
            use_type_invariant(&self.schedule);
            lemma_tick_keeps_queue(start);
            lemma_tick_finds_ready(start);
        }
        let mut taken = Schedule::empty();
        std::mem::swap(&mut taken, &mut self.schedule);
        let Schedule { mut processes, mut runnable } = taken;
        let ghost mut skipped: int = 0;
        assert(start.runnable.skip(0) =~= start.runnable);
        while runnable.len() > 0
            invariant
                start == old(self)@,
                0 <= skipped <= start.runnable.len(),
                process_models(processes@) == start.processes,
                runnable@ == start.runnable.skip(skipped),
                self.id@ == start.id,
                self.filesystem@ == start.fs,
                self.ticks == start.ticks,
                start.ticks < start.fs.limits.max_steps,
                well_queued(tick_of(start).0.processes, tick_of(start).0.runnable),
                tick_of(start).1 is None <==> forall|pid: Pid| !#[trigger] ready(start, pid),
                stale(start, start.runnable) == skipped + stale(
                    start,
                    start.runnable.skip(skipped),
                ),
            decreases runnable@.len(),
        {
            let ghost queue = runnable@;
            let pid: Pid = runnable.pop_front().unwrap();
            let ghost rest = runnable@;
            assert(pid == queue[0]);
            assert(rest =~= start.runnable.skip(skipped + 1));
            assert(queue.skip(1) =~= start.runnable.skip(skipped + 1));
            if pid >= 1 && ((pid - 1) as usize) < processes.len() {
                let i: usize = (pid - 1) as usize;
                assert(process(start, pid) == processes@[i as int]@);
                if let ProcessState::Ready = processes[i].state {
                    let ghost before = processes@;
                    let current = &mut processes[i];
                    let instruction_pointer: usize = current.vm.instruction_pointer();
                    let outcome = current.vm.step(current.program.as_slice());
                    let event = match outcome {
                        Ok(StepResult::Executed { instruction }) => {
                            let stack = copy_stack(current.vm.stack());
                            current.state = ProcessState::Ready;
                            runnable.push_back(pid);
                            ProcessEvent::InstructionExecuted {
                                pid,
                                instruction_pointer,
                                instruction,
                                stack,
                            }
                        },
                        Ok(StepResult::Halted { result }) => {
                            current.state = ProcessState::Exited { code: result };
                            ProcessEvent::ProcessExited { pid, code: result }
                        },
                        Err(error) => {
                            let text = error.to_text();
                            current.state = ProcessState::Failed { error: text.clone() };
                            ProcessEvent::ProcessFailed { pid, error: text }
                        },
                    };
                    proof {
                        let (next, seen_event) = run_process(start, pid, rest);
                        assert(processes@ =~= before.update(i as int, processes@[i as int]));
                        assert(process_models(processes@) =~= next.processes);
                        assert(runnable@ =~= next.runnable);
                        assert(event@ =~= seen_event);
                        assert(start.runnable.skip(skipped)[0] == pid);
                        assert(stale(start, start.runnable) == skipped);
                        assert(start.runnable[skipped] == pid);
                        assert(tick_of(start) == (next, Some(seen_event)));
                    }
                    self.ticks = self.ticks + 1;
                    self.schedule = Schedule { processes, runnable };
                    assert(self@ =~= tick_of(start).0);
                    return Some(event);
                }
            }
            proof {
                skipped = skipped + 1;
            }
        }
        assert(start.runnable.skip(skipped) =~= Seq::<Pid>::empty());
        self.schedule = Schedule { processes, runnable };
        assert(self@ =~= tick_of(start).0);
        None
    }

    /// Runs the scheduler until no process is left to run, for at most `max_ticks` ticks.
    pub fn run_until_idle(&mut self, max_ticks: usize) -> (r: Result<
        Vec<ProcessEvent>,
        RuntimeError,
    >)
        ensures
            final(self)@ == idle_from(old(self)@, max_ticks as nat, max_ticks).0,
            match r {
                Ok(events) => idle_from(old(self)@, max_ticks as nat, max_ticks).1 == Ok::<
                    Seq<EventModel>,
                    Trouble,
                >(event_models(events@)),
                Err(error) => idle_from(old(self)@, max_ticks as nat, max_ticks).1 == Err::<
                    Seq<EventModel>,
                    Trouble,
                >(error@),
            },
            r matches Ok(events) ==> {
                &&& events@.len() <= max_ticks
                &&& final(self)@.ticks == old(self)@.ticks + events@.len()
                &&& forall|i: int|
                    0 <= i < final(self)@.processes.len() ==> over(
                        #[trigger] final(self)@.processes[i],
                    )
            },
    {
        proof {
            use_type_invariant(&self.schedule);
            lemma_running_comes_to_an_end(self@, max_ticks as nat, max_ticks);
        }
        let ghost whole = idle_from(self@, max_ticks as nat, max_ticks);
        let ghost started = self@.ticks;
        let mut events: Vec<ProcessEvent> = Vec::new();
        let mut n: usize = 0;
        proof {
            assert(event_models(events@) =~= Seq::<EventModel>::empty());
            if whole.1 is Ok {
                assert(event_models(events@) + whole.1->Ok_0 =~= whole.1->Ok_0);
            }
        }
        while n < max_ticks
            invariant
                n <= max_ticks,
                ({
                    let rest = idle_from(self@, (max_ticks - n) as nat, max_ticks);
                    &&& rest.0 == whole.0
                    &&& match rest.1 {
                        Ok(tail) => whole.1 == Ok::<Seq<EventModel>, Trouble>(
                            event_models(events@) + tail,
                        ),
                        Err(trouble) => whole.1 == Err::<Seq<EventModel>, Trouble>(trouble),
                    }
                }),
                whole == idle_from(old(self)@, max_ticks as nat, max_ticks),
                started == old(self)@.ticks,
                whole.1 matches Ok(all) ==> {
                    &&& all.len() <= max_ticks
                    &&& whole.0.ticks == started + all.len()
                    &&& forall|i: int|
                        0 <= i < whole.0.processes.len() ==> over(#[trigger] whole.0.processes[i])
                },
            decreases max_ticks - n,
        {
            assert(event_models(events@) + Seq::<EventModel>::empty() =~= event_models(events@));
            if self.schedule.runnable.len() == 0 {
                return Ok(events);
            }
            if self.ticks >= self.limits().max_steps {
                return Err(
                    RuntimeError::ExecutionLimitExceeded { limit: self.limits().max_steps },
                );
            }
            let ghost before = events@;
            match self.tick() {
                Some(event) => {
                    events.push(event);
                    proof {
                        assert(event_models(events@) =~= event_models(before).push(event@));
                        let tail = idle_from(self@, (max_ticks - n - 1) as nat, max_ticks);
                        if tail.1 is Ok {
                            assert(event_models(events@) + tail.1->Ok_0 =~= event_models(before) + (
                            seq![event@] + tail.1->Ok_0));
                        }
                    }
                },
                None => {
                    return Ok(events);
                },
            }
            n += 1;
        }
        assert(event_models(events@) + Seq::<EventModel>::empty() =~= event_models(events@));
        if self.schedule.runnable.len() == 0 {
            Ok(events)
        } else {
            Err(RuntimeError::ExecutionLimitExceeded { limit: max_ticks })
        }
    }

    /// `path` as process `pid` sees it.
    fn path_for(&self, pid: Pid, path: &str) -> (r: Result<String, RuntimeError>)
        requires
            known(self@, pid),
        ensures
            match r {
                Ok(full) => path_from(self@, pid, path@) == Ok::<Seq<char>, Trouble>(full@),
                Err(error) => path_from(self@, pid, path@) == Err::<Seq<char>, Trouble>(error@),
            },
    {
        let i: usize = (pid - 1) as usize;
        assert(process(self@, pid) == self.schedule.processes@[i as int]@);
        match normalize_path(path, self.schedule.processes[i].cwd.as_str()) {
            Ok(names) => Ok(display_path(&names)),
            Err(error) => Err(error),
        }
    }

    /// Performs a syscall of process `pid`.
    pub fn syscall(&mut self, pid: Pid, syscall: Syscall) -> (r: Result<
        SyscallResult,
        RuntimeError,
    >)
        ensures
            final(self)@ == syscall_in(old(self)@, pid, syscall).0,
            match r {
                Ok(answer) => syscall_in(old(self)@, pid, syscall).1 == Ok::<Answer, Trouble>(
                    answer@,
                ),
                Err(error) => syscall_in(old(self)@, pid, syscall).1 == Err::<Answer, Trouble>(
                    error@,
                ),
            },
    {
        let i: usize = match self.index(pid) {
            Some(i) => i,
            None => {
                return Err(RuntimeError::ProcessNotFound { pid });
            },
        };
        match syscall {
            Syscall::ReadFile { path } => match self.path_for(pid, path.as_str()) {
                Err(error) => Err(error),
                Ok(full) => match self.filesystem.read_file(full.as_str()) {
                    Ok(content) => Ok(SyscallResult::File(content)),
                    Err(error) => Err(error),
                },
            },
            Syscall::WriteFile { path, content } => match self.path_for(pid, path.as_str()) {
                Err(error) => Err(error),
                Ok(full) => match self.filesystem.write_file(full.as_str(), content.as_slice()) {
                    Ok(_) => Ok(SyscallResult::Unit),
                    Err(error) => Err(error),
                },
            },
            Syscall::MakeDirectory { path, recursive } => match self.path_for(pid, path.as_str()) {
                Err(error) => Err(error),
                Ok(full) => match self.filesystem.mkdir(full.as_str(), recursive) {
                    Ok(_) => Ok(SyscallResult::Unit),
                    Err(error) => Err(error),
                },
            },
            Syscall::ListDirectory { path } => match self.path_for(pid, path.as_str()) {
                Err(error) => Err(error),
                Ok(full) => match self.filesystem.list_dir(full.as_str()) {
                    Ok(entries) => Ok(SyscallResult::Directory(entries)),
                    Err(error) => Err(error),
                },
            },
            Syscall::Spawn { program, argv } => match self.spawn(Some(pid), program, argv) {
                Ok(child) => Ok(SyscallResult::Process(child)),
                Err(error) => Err(error),
            },
            Syscall::Wait { pid: child } => match self.wait(child) {
                Ok(status) => Ok(SyscallResult::Wait(status)),
                Err(error) => Err(error),
            },
            Syscall::Exit { code } => {
                let ghost start = self@;
                let ghost p = process(start, pid);
                proof {
                    use_type_invariant(&self.schedule);
                }
                let mut taken = Schedule::empty();
                std::mem::swap(&mut taken, &mut self.schedule);
                let Schedule { mut processes, runnable } = taken;
                let ghost before = processes@;
                processes[i].state = ProcessState::Exited { code };
                proof {
                    assert(processes@ =~= before.update(i as int, processes@[i as int]));
                    assert(process_models(processes@) =~= process_models(before).update(
                        pid - 1,
                        ProcessModel { state: StateModel::Exited { code }, ..p },
                    ));
                    lemma_exit_keeps_queue(start.processes, start.runnable, pid, code);
                }
                self.schedule = Schedule { processes, runnable };
                Ok(SyscallResult::Unit)
            },
        }
    }
}


// ---------------------------------------------------------------------------
// What the runtime guarantees
// ---------------------------------------------------------------------------

/// An environment within its limits, with validated processes only, of which those that are ready
/// wait in the queue.
pub open spec fn sound_instance(s: InstanceState) -> bool {
    &&& sound_fs(s.fs)
    &&& s.processes.len() <= s.fs.limits.max_processes
    &&& s.ticks <= s.fs.limits.max_steps
    &&& well_queued(s.processes, s.runnable)
}

/// Whether a process has come to its end.
pub open spec fn over(p: ProcessModel) -> bool {
    p.state is Exited || p.state is Failed
}

/// A new environment is sound.
pub proof fn law_fresh_instances_are_sound(id: Seq<char>, limits: ResourceLimits)
    requires
        limits.max_inodes >= 4,
    ensures
        sound_instance(fresh_instance(id, limits)),
{
    law_fresh_filesystems_are_sound(limits);
}

/// Starting a process keeps an environment sound, so no environment exceeds its process limit and
/// none runs a program that was not validated.
pub proof fn law_spawn_keeps_instances_sound(
    s: InstanceState,
    parent: Option<Pid>,
    program: Seq<Instruction>,
    argv: Names,
)
    requires
        sound_instance(s),
    ensures
        sound_instance(spawn_in(s, parent, program, argv).0),
        spawn_in(s, parent, program, argv).0.fs == s.fs,
        spawn_in(s, parent, program, argv).1 is Err ==> spawn_in(s, parent, program, argv).0 == s,
{
    if valid_program(program) {
        law_valid_programs_have_consistent_depths(program);
    }
    lemma_spawn_keeps_queue(s, parent, program, argv);
}

proof fn lemma_spawn_keeps_queue(
    s: InstanceState,
    parent: Option<Pid>,
    program: Seq<Instruction>,
    argv: Names,
)
    requires
        well_queued(s.processes, s.runnable),
    ensures
        ({
            let next = spawn_in(s, parent, program, argv).0;
            well_queued(next.processes, next.runnable)
        }),
{
    if valid_program(program) {
        law_valid_programs_have_consistent_depths(program);
    }
    let next = spawn_in(s, parent, program, argv).0;
    if next.runnable.len() > s.runnable.len() {
        assert forall|pid: Pid| #[trigger] ready_in(next.processes, pid)
            implies next.runnable.contains(
            pid,
        ) by {
            if pid <= s.processes.len() {
                assert(ready_in(s.processes, pid));
                let k = s.runnable.index_of(pid);
                assert(next.runnable[k] == pid);
            } else {
                assert(next.runnable[s.runnable.len() as int] == pid);
            }
        }
    }
}

proof fn lemma_exit_keeps_queue(
    processes: Seq<ProcessModel>,
    runnable: Seq<Pid>,
    pid: Pid,
    code: i32,
)
    requires
        well_queued(processes, runnable),
        1 <= pid <= processes.len(),
    ensures
        well_queued(
            processes.update(
                pid - 1,
                ProcessModel { state: StateModel::Exited { code }, ..processes[pid - 1] },
            ),
            runnable,
        ),
{
    let p = ProcessModel { state: StateModel::Exited { code }, ..processes[pid - 1] };
    let next = processes.update(pid - 1, p);
    assert(sound_process(processes[pid - 1]));
    assert forall|other: Pid| #[trigger] ready_in(next, other) implies runnable.contains(other) by {
        assert(ready_in(processes, other));
    }
}

proof fn lemma_tick_keeps_queue(s: InstanceState)
    requires
        well_queued(s.processes, s.runnable),
    ensures
        well_queued(tick_of(s).0.processes, tick_of(s).0.runnable),
{
    let k = stale(s, s.runnable);
    lemma_stale(s, s.runnable);
    let next = tick_of(s).0;
    if s.ticks < s.fs.limits.max_steps {
        if k == s.runnable.len() {
            assert forall|pid: Pid| #[trigger] ready_in(next.processes, pid)
                implies next.runnable.contains(
                pid,
            ) by {
                assert(ready_in(s.processes, pid));
                let at = s.runnable.index_of(pid);
                assert(!ready(s, s.runnable[at]));
            }
        } else {
            let ran = s.runnable[k];
            let p = process(s, ran);
            assert(ready(s, ran));
            assert(sound_process(s.processes[ran - 1]));
            law_valid_programs_step_soundly(p.program, p.vm);
            assert forall|pid: Pid| #[trigger] ready_in(next.processes, pid)
                implies next.runnable.contains(
                pid,
            ) by {
                if pid == ran {
                    assert(next.runnable.last() == pid);
                } else {
                    assert(ready_in(s.processes, pid));
                    let at = s.runnable.index_of(pid);
                    assert(s.runnable[at] == pid);
                    assert(at > k);
                    assert(next.runnable[at - k - 1] == pid);
                }
            }
        }
    }
}

/// A tick keeps an environment sound: its ticks never exceed its step limit. It touches no file,
/// and only arithmetic makes a process fail. It does nothing exactly when the steps are used up or
/// no process is ready; else it counts, and changes no process but the one that it runs.
pub proof fn law_tick_keeps_instances_sound(s: InstanceState)
    requires
        sound_instance(s),
    ensures
        sound_instance(tick_of(s).0),
        tick_of(s).0.fs == s.fs,
        tick_of(s).1 matches Some(EventModel::ProcessFailed { error, .. }) ==> exists|e: VmError|
            arithmetic_error(e) && error == #[trigger] vm_error_text(e),
        tick_of(s).1 is None <==> s.ticks == s.fs.limits.max_steps || forall|pid: Pid|
            !#[trigger] ready(s, pid),
        tick_of(s).0.ticks == if tick_of(s).1 is None {
            s.ticks
        } else {
            s.ticks + 1
        },
        tick_of(s).1 is None ==> tick_of(s).0.processes == s.processes,
        forall|pid: Pid|
            #![trigger process(s, pid)]
            #![trigger process(tick_of(s).0, pid)]
            known(s, pid) && tick_of(s).1 is Some && pid != s.runnable[stale(s, s.runnable)]
                ==> process(tick_of(s).0, pid) == process(s, pid),
{
    let k = stale(s, s.runnable);
    lemma_stale(s, s.runnable);
    lemma_tick_keeps_queue(s);
    if s.ticks < s.fs.limits.max_steps {
        assert forall|pid: Pid| #[trigger] ready(s, pid) implies k < s.runnable.len() by {
            let at = s.runnable.index_of(pid);
            assert(s.runnable[at] == pid);
        }
    }
    if s.ticks < s.fs.limits.max_steps && 0 <= k < s.runnable.len() {
        lemma_stale(s, s.runnable);
        let pid = s.runnable[k];
        let p = process(s, pid);
        assert(sound_process(s.processes[pid - 1]));
        law_valid_programs_step_soundly(p.program, p.vm);
    }
}

proof fn lemma_stale(s: InstanceState, queue: Seq<Pid>)
    ensures
        0 <= stale(s, queue) <= queue.len(),
        stale(s, queue) < queue.len() ==> ready(s, queue[stale(s, queue)]),
        forall|i: int| 0 <= i < stale(s, queue) ==> !ready(s, #[trigger] queue[i]),
    decreases queue.len(),
{
    if queue.len() > 0 && !ready(s, queue[0]) {
        lemma_stale(s, queue.skip(1));
        assert forall|i: int| 0 <= i < stale(s, queue) implies !ready(s, #[trigger] queue[i]) by {
            if i > 0 {
                assert(queue[i] == queue.skip(1)[i - 1]);
            }
        }
    }
}

/// The scheduler is fair: a tick runs the first ready process of the queue. If that process can go
/// on, it joins the end of the queue, behind every process that was waiting; if not, it leaves it.
pub proof fn law_tick_is_round_robin(s: InstanceState)
    requires
        s.ticks < s.fs.limits.max_steps,
    ensures
        ({
            let k = stale(s, s.runnable);
            &&& 0 <= k <= s.runnable.len()
            &&& forall|i: int| 0 <= i < k ==> !ready(s, #[trigger] s.runnable[i])
            &&& k < s.runnable.len() ==> {
                let pid = s.runnable[k];
                let waiting = s.runnable.skip(k + 1);
                &&& ready(s, pid)
                &&& match tick_of(s).1 {
                    Some(EventModel::InstructionExecuted { pid: ran, .. }) => ran == pid
                        && tick_of(s).0.runnable == waiting.push(pid),
                    Some(EventModel::ProcessExited { pid: ran, .. }) => ran == pid && tick_of(
                        s,
                    ).0.runnable == waiting,
                    Some(EventModel::ProcessFailed { pid: ran, .. }) => ran == pid && tick_of(
                        s,
                    ).0.runnable == waiting,
                    None => false,
                }
            }
            &&& k == s.runnable.len() ==> tick_of(s).1 is None && tick_of(s).0.runnable.len() == 0
        }),
{
    lemma_stale(s, s.runnable);
}

proof fn lemma_tick_finds_ready(s: InstanceState)
    requires
        well_queued(s.processes, s.runnable),
        s.ticks < s.fs.limits.max_steps,
    ensures
        tick_of(s).1 is None <==> forall|pid: Pid| !#[trigger] ready(s, pid),
{
    let k = stale(s, s.runnable);
    lemma_stale(s, s.runnable);
    assert forall|pid: Pid| #[trigger] ready(s, pid) implies k < s.runnable.len() by {
        let at = s.runnable.index_of(pid);
        assert(s.runnable[at] == pid);
    }
}

proof fn lemma_running_comes_to_an_end(s: InstanceState, fuel: nat, limit: usize)
    requires
        well_queued(s.processes, s.runnable),
    ensures
        idle_from(s, fuel, limit).1 matches Ok(events) ==> {
            &&& events.len() <= fuel
            &&& idle_from(s, fuel, limit).0.ticks == s.ticks + events.len()
            &&& forall|i: int|
                0 <= i < idle_from(s, fuel, limit).0.processes.len() ==> over(
                    #[trigger] idle_from(s, fuel, limit).0.processes[i],
                )
        },
    decreases fuel,
{
    if s.runnable.len() == 0 {
        assert forall|i: int| 0 <= i < s.processes.len()
            implies over(#[trigger] s.processes[i]) by {
            assert(sound_process(s.processes[i]));
            let pid = (i + 1) as Pid;
            if ready_in(s.processes, pid) {
                assert(s.runnable.contains(pid));
            }
        }
    } else if fuel > 0 && s.ticks < s.fs.limits.max_steps {
        lemma_tick_keeps_queue(s);
        lemma_tick_finds_ready(s);
        match tick_of(s) {
            (next, Some(_)) => {
                lemma_running_comes_to_an_end(next, (fuel - 1) as nat, limit);
            },
            (next, None) => {
                assert forall|i: int| 0 <= i < next.processes.len() implies over(
                    #[trigger] next.processes[i],
                ) by {
                    assert(sound_process(next.processes[i]));
                    assert(!ready(s, (i + 1) as Pid));
                }
            },
        }
    }
}

/// Running the scheduler keeps an environment sound and touches no file.
pub proof fn law_running_keeps_instances_sound(s: InstanceState, fuel: nat, limit: usize)
    requires
        sound_instance(s),
    ensures
        sound_instance(idle_from(s, fuel, limit).0),
        idle_from(s, fuel, limit).0.fs == s.fs,
        idle_from(s, fuel, limit).1 is Ok ==> idle_from(s, fuel, limit).0.runnable.len() == 0,
    decreases fuel,
{
    if s.runnable.len() > 0 && fuel > 0 && s.ticks < s.fs.limits.max_steps {
        law_tick_keeps_instances_sound(s);
        if let (next, Some(_)) = tick_of(s) {
            law_running_keeps_instances_sound(next, (fuel - 1) as nat, limit);
        }
    }
}

proof fn lemma_other_files_are_sound(s: InstanceState, fs: FsState)
    requires
        sound_instance(s),
        sound_fs(fs),
        fs.limits == s.fs.limits,
    ensures
        sound_instance(with_fs(s, fs)),
{
}

/// What [`law_syscalls_keep_instances_sound`] says of writing a file.
proof fn lemma_write_keeps_instances_sound(s: InstanceState, pid: Pid, syscall: Syscall)
    requires
        sound_instance(s),
        known(s, pid),
        syscall is WriteFile,
    ensures
        sound_instance(syscall_in(s, pid, syscall).0),
        syscall_in(s, pid, syscall).1 is Err ==> syscall_in(s, pid, syscall).0 == s,
{
    let path = syscall->WriteFile_path;
    let content = syscall->content;
    if let Ok(full) = path_from(s, pid, path@) {
        law_write_then_read(s.fs, full, content@, full);
        assert(write_at(s.fs, full, content@).0.limits == s.fs.limits);
        lemma_other_files_are_sound(s, write_at(s.fs, full, content@).0);
        if write_at(s.fs, full, content@).1 is Err {
            assert(with_fs(s, s.fs) =~= s);
        }
    }
}

/// What [`law_syscalls_keep_instances_sound`] says of making a directory.
proof fn lemma_mkdir_keeps_instances_sound(s: InstanceState, pid: Pid, syscall: Syscall)
    requires
        sound_instance(s),
        known(s, pid),
        syscall is MakeDirectory,
    ensures
        sound_instance(syscall_in(s, pid, syscall).0),
        syscall_in(s, pid, syscall).1 is Err ==> syscall_in(s, pid, syscall).0 == s,
{
    let path = syscall->MakeDirectory_path;
    let recursive = syscall->recursive;
    if let Ok(full) = path_from(s, pid, path@) {
        reveal_strlit("/");
        law_normalized_paths_are_proper(full, "/"@);
        if let Ok(names) = normalize(full, "/"@) {
            law_mkdir_makes_a_directory(s.fs, names, recursive, names);
        }
        lemma_other_files_are_sound(s, mkdir_at(s.fs, full, recursive).0);
        if mkdir_at(s.fs, full, recursive).1 is Err {
            assert(with_fs(s, s.fs) =~= s);
        }
    }
}

/// What [`law_syscalls_keep_instances_sound`] says of an exit.
proof fn lemma_exit_keeps_instances_sound(s: InstanceState, pid: Pid, syscall: Syscall)
    requires
        sound_instance(s),
        known(s, pid),
        syscall is Exit,
    ensures
        sound_instance(syscall_in(s, pid, syscall).0),
        syscall_in(s, pid, syscall).1 is Err ==> syscall_in(s, pid, syscall).0 == s,
{
    assert(sound_process(s.processes[pid - 1]));
    lemma_exit_keeps_queue(s.processes, s.runnable, pid, syscall->code);
}

/// A syscall keeps an environment sound, and one that fails changes nothing.
#[verifier::rlimit(30)]
pub proof fn law_syscalls_keep_instances_sound(s: InstanceState, pid: Pid, syscall: Syscall)
    requires
        sound_instance(s),
    ensures
        sound_instance(syscall_in(s, pid, syscall).0),
        syscall_in(s, pid, syscall).1 is Err ==> syscall_in(s, pid, syscall).0 == s,
{
    if known(s, pid) {
        match syscall {
            Syscall::WriteFile { .. } => {
                lemma_write_keeps_instances_sound(s, pid, syscall);
            },
            Syscall::MakeDirectory { .. } => {
                lemma_mkdir_keeps_instances_sound(s, pid, syscall);
            },
            Syscall::Spawn { program, argv } => {
                law_spawn_keeps_instances_sound(s, Some(pid), program@, texts(argv@));
            },
            Syscall::Exit { .. } => {
                lemma_exit_keeps_instances_sound(s, pid, syscall);
            },
            _ => {},
        }
    }
}

// ---------------------------------------------------------------------------
// What processes and syscalls do
// ---------------------------------------------------------------------------

/// A process that exits is reported with the code that it gave, whatever the code; every other
/// process stays as it was, and so do the files.
pub proof fn law_exit_codes_are_waited_for(s: InstanceState, pid: Pid, code: i32, other: Pid)
    requires
        1 <= pid <= s.processes.len(),
    ensures
        ({
            let (after, answer) = syscall_in(s, pid, Syscall::Exit { code });
            &&& answer == Ok::<Answer, Trouble>(Answer::Unit)
            &&& wait_in(after, pid) == Ok::<WaitModel, Trouble>(WaitModel::Exited { code })
            &&& info(after, pid).state == StateModel::Exited { code }
            &&& after.processes.len() == s.processes.len()
            &&& after.fs == s.fs
            &&& after.ticks == s.ticks
            &&& 1 <= other <= s.processes.len() && other != pid ==> wait_in(after, other)
                == wait_in(s, other) && info(after, other) == info(s, other)
        }),
{
}

/// The same, of the calls themselves: a wait that follows an exit gives the code of the exit.
pub proof fn law_waits_follow_exits()
    ensures
        forall|
            vm: &mut VmInstance,
            pid: Pid,
            code: i32,
            r: Result<SyscallResult, RuntimeError>,
            status: Result<WaitStatus, RuntimeError>,
        |
            #[trigger] call_ensures(VmInstance::syscall, (vm, pid, Syscall::Exit { code }), r)
                && #[trigger] call_ensures(VmInstance::wait, (&*final(vm), pid), status) && r is Ok
                ==> (status matches Ok(WaitStatus::Exited { code: told }) && told == code),
        forall|
            vm: &mut VmInstance,
            parent: Option<Pid>,
            program: Vec<Instruction>,
            argv: Vec<String>,
            pid: Pid,
            status: Result<WaitStatus, RuntimeError>,
        |
            #[trigger] call_ensures(
                VmInstance::spawn,
                (vm, parent, program, argv),
                Ok::<Pid, RuntimeError>(pid),
            ) && #[trigger] call_ensures(VmInstance::wait, (&*final(vm), pid), status) ==> (
            status matches Ok(WaitStatus::Running)),
{
    assert forall|
        vm: &mut VmInstance,
        pid: Pid,
        code: i32,
        r: Result<SyscallResult, RuntimeError>,
        status: Result<WaitStatus, RuntimeError>,
    |
        #[trigger] call_ensures(VmInstance::syscall, (vm, pid, Syscall::Exit { code }), r)
            && #[trigger] call_ensures(VmInstance::wait, (&*final(vm), pid), status) && r is Ok
    implies (status matches Ok(WaitStatus::Exited { code: told }) && told == code) by {
        assert(1 <= pid <= (*vm)@.processes.len());
        law_exit_codes_are_waited_for((*vm)@, pid, code, pid);
        assert(wait_in((*final(vm))@, pid) == Ok::<WaitModel, Trouble>(WaitModel::Exited { code }));
    }
}

/// A process that is spawned is a new one: its number was not known before. It is ready to run its
/// program from the beginning, with its arguments, in the directory of its parent or in the root,
/// and waits behind all others. Nothing else changes.
pub proof fn law_spawned_processes_are_new(
    s: InstanceState,
    parent: Option<Pid>,
    program: Seq<Instruction>,
    argv: Names,
    other: Pid,
)
    requires
        spawn_in(s, parent, program, argv).1 is Ok,
    ensures
        ({
            let (after, spawned) = spawn_in(s, parent, program, argv);
            let pid = spawned->Ok_0;
            let p = after.processes[pid - 1];
            &&& wait_in(s, pid) is Err
            &&& wait_in(after, pid) == Ok::<WaitModel, Trouble>(WaitModel::Running)
            &&& 1 <= pid == after.processes.len() == s.processes.len() + 1
            &&& p.parent == parent
            &&& p.argv == argv
            &&& p.program == program
            &&& p.vm == (VmState { stack: Seq::empty(), instruction_pointer: 0, halted: false })
            &&& p.state == StateModel::Ready
            &&& parent is None ==> p.cwd == "/"@
            &&& parent matches Some(of) ==> 1 <= of <= s.processes.len() && p.cwd
                == s.processes[of - 1].cwd
            &&& after.runnable == s.runnable.push(pid)
            &&& after.fs == s.fs
            &&& after.ticks == s.ticks
            &&& 1 <= other <= s.processes.len() ==> after.processes[other - 1] == s.processes[other
                - 1]
        }),
{
}

/// A spawn that is refused changes nothing. It is refused exactly for a program that is not valid,
/// beyond the number of processes, and for a parent that is not known.
pub proof fn law_refused_spawns(
    s: InstanceState,
    parent: Option<Pid>,
    program: Seq<Instruction>,
    argv: Names,
)
    requires
        s.processes.len() + 1 < u32::MAX,
    ensures
        ({
            let (after, spawned) = spawn_in(s, parent, program, argv);
            let known_parent = parent matches Some(of) ==> 1 <= of <= s.processes.len();
            &&& spawned is Err ==> after == s
            &&& spawned is Ok <==> valid_program(program) && s.processes.len()
                < s.fs.limits.max_processes && known_parent
            &&& valid_program(program) && s.processes.len() >= s.fs.limits.max_processes ==> spawned
                == Err::<Pid, Trouble>(
                Trouble::ProcessLimitReached { limit: s.fs.limits.max_processes },
            )
        }),
{
}

/// The process that a tick has run, as the event tells.
pub open spec fn ran(event: EventModel) -> Pid {
    match event {
        EventModel::InstructionExecuted { pid, .. } => pid,
        EventModel::ProcessExited { pid, .. } => pid,
        EventModel::ProcessFailed { pid, .. } => pid,
    }
}

/// A tick executes one instruction of one ready process, and tells what it did. A process that halts
/// has exited with the value on top of its stack; one that fails has failed; any other stays ready.
/// All other processes and the files stay as they were.
pub proof fn law_ticks_execute_one_instruction(s: InstanceState, other: Pid)
    requires
        tick_of(s).1 is Some,
    ensures
        ({
            let (after, event) = tick_of(s);
            let event = event->0;
            let pid = ran(event);
            let p = s.processes[pid - 1];
            let q = after.processes[pid - 1];
            let (vm, outcome) = step_of(p.program, p.vm);
            &&& 1 <= pid <= s.processes.len()
            &&& p.state == StateModel::Ready
            &&& q.vm == vm
            &&& q.program == p.program && q.parent == p.parent && q.argv == p.argv && q.cwd == p.cwd
            &&& after.processes.len() == s.processes.len()
            &&& after.fs == s.fs
            &&& after.ticks == s.ticks + 1
            &&& s.ticks < s.fs.limits.max_steps
            &&& 1 <= other <= s.processes.len() && other != pid ==> after.processes[other - 1]
                == s.processes[other - 1]
            &&& match event {
                EventModel::InstructionExecuted { instruction_pointer, instruction, stack, .. } => {
                    &&& outcome is Ok
                    &&& instruction_pointer == p.vm.instruction_pointer
                    &&& instruction == p.program[p.vm.instruction_pointer]
                    &&& !(instruction is Halt)
                    &&& stack == vm.stack
                    &&& wait_in(after, pid) == Ok::<WaitModel, Trouble>(WaitModel::Running)
                    &&& after.runnable.len() > 0 && after.runnable.last() == pid
                },
                EventModel::ProcessExited { code, .. } => {
                    &&& p.program[p.vm.instruction_pointer] is Halt
                    &&& p.vm.stack.len() > 0 && code == p.vm.stack.last()
                    &&& wait_in(after, pid) == Ok::<WaitModel, Trouble>(WaitModel::Exited { code })
                },
                EventModel::ProcessFailed { error, .. } => {
                    &&& outcome is Err
                    &&& wait_in(after, pid) == Ok::<WaitModel, Trouble>(WaitModel::Failed { error })
                },
            }
        }),
{
    lemma_stale(s, s.runnable);
}

/// A process that is over never runs again and keeps its status.
pub proof fn law_finished_processes_stay_finished(s: InstanceState, pid: Pid)
    requires
        wait_in(s, pid) is Ok,
        wait_in(s, pid) != Ok::<WaitModel, Trouble>(WaitModel::Running),
    ensures
        wait_in(tick_of(s).0, pid) == wait_in(s, pid),
        tick_of(s).1 matches Some(event) ==> ran(event) != pid,
{
    lemma_stale(s, s.runnable);
}

/// Processes take turns: of those that wait, the first in the queue is run, and all others move up.
/// Two ready processes at the front run one after the other.
pub proof fn law_processes_take_turns(s: InstanceState, first: Pid, second: Pid, rest: Seq<Pid>)
    requires
        s.runnable == seq![first, second] + rest,
        first != second,
        1 <= first <= s.processes.len(),
        1 <= second <= s.processes.len(),
        s.processes[first - 1].state == StateModel::Ready,
        s.processes[second - 1].state == StateModel::Ready,
        s.ticks + 1 < s.fs.limits.max_steps,
    ensures
        ({
            let (middle, event) = tick_of(s);
            &&& event matches Some(event) && ran(event) == first
            &&& tick_of(middle).1 matches Some(event) && ran(event) == second
            &&& middle.runnable.len() >= 1 + rest.len()
            &&& middle.runnable.take(1 + rest.len() as int) == seq![second] + rest
        }),
{
    lemma_stale(s, s.runnable);
    let middle = tick_of(s).0;
    assert(s.runnable[0] == first);
    assert(ready(s, s.runnable[0]));
    assert(stale(s, s.runnable) == 0);
    assert(s.runnable.skip(1) =~= seq![second] + rest);
    assert(middle.runnable[0] == second);
    assert(ready(middle, middle.runnable[0]));
    lemma_stale(middle, middle.runnable);
    assert(middle.runnable.take(1 + rest.len() as int) =~= seq![second] + rest);
}

/// What a process writes it reads back, and so does every process that sees the same path. A failed
/// syscall and one that only reads leave everything as it was.
pub proof fn law_written_files_are_read_back(
    s: InstanceState,
    pid: Pid,
    reader: Pid,
    path: String,
    content: Vec<u8>,
)
    requires
        sound_fs(s.fs),
        1 <= pid <= s.processes.len(),
        1 <= reader <= s.processes.len(),
        s.processes[reader - 1].cwd == s.processes[pid - 1].cwd,
        lacks(s.processes[pid - 1].cwd, '\0'),
    ensures
        ({
            let (after, written) = syscall_in(s, pid, Syscall::WriteFile { path, content });
            let read = syscall_in(after, reader, Syscall::ReadFile { path });
            &&& read.0 == after
            &&& written is Ok ==> read.1 == Ok::<Answer, Trouble>(Answer::File(content@))
            &&& written is Err ==> after == s
            &&& after.processes == s.processes && after.runnable == s.runnable && after.ticks
                == s.ticks
        }),
{
    let cwd = s.processes[pid - 1].cwd;
    if let Ok(names) = normalize(path@, cwd) {
        law_normalized_paths_are_proper(path@, cwd);
        law_normalize_undoes_display(names, "/"@);
        law_write_then_read(s.fs, display(names), content@, display(names));
    }
}

/// What the other syscalls do: a child is a process spawned by its parent, a wait tells what a wait
/// on the instance tells, and a process that is not known has no syscalls.
pub proof fn law_syscalls_speak_for_their_process(
    s: InstanceState,
    pid: Pid,
    child: Pid,
    program: Vec<Instruction>,
    argv: Vec<String>,
    syscall: Syscall,
)
    ensures
        1 <= pid <= s.processes.len() ==> {
            let (after, answer) = syscall_in(s, pid, Syscall::Wait { pid: child });
            &&& after == s
            &&& match wait_in(s, child) {
                Ok(status) => answer == Ok::<Answer, Trouble>(Answer::Wait(status)),
                Err(trouble) => answer == Err::<Answer, Trouble>(trouble),
            }
        },
        1 <= pid <= s.processes.len() ==> {
            let (after, answer) = syscall_in(s, pid, Syscall::Spawn { program, argv });
            let (spawned, number) = spawn_in(s, Some(pid), program@, texts(argv@));
            &&& after == spawned
            &&& answer is Ok <==> number is Ok
            &&& number is Ok ==> answer == Ok::<Answer, Trouble>(Answer::Process(number->Ok_0))
        },
        !(1 <= pid <= s.processes.len()) ==> syscall_in(s, pid, syscall) == (
            s,
            Err::<Answer, Trouble>(Trouble::ProcessNotFound { pid }),
        ) && wait_in(s, pid) == Err::<WaitModel, Trouble>(Trouble::ProcessNotFound { pid }),
{
}

/// Running until idle is ticking: the first event is that of a tick, and the others follow from
/// there. Nothing is run where nothing waits, and nothing beyond the ticks that are given.
pub proof fn law_running_is_ticking(s: InstanceState, fuel: nat, limit: usize)
    ensures
        s.runnable.len() == 0 ==> idle_from(s, fuel, limit) == (
            s,
            Ok::<Seq<EventModel>, Trouble>(Seq::empty()),
        ),
        s.runnable.len() > 0 ==> idle_from(s, 0, limit) == (
            s,
            Err::<Seq<EventModel>, Trouble>(Trouble::ExecutionLimitExceeded { limit }),
        ),
        s.runnable.len() > 0 && s.ticks >= s.fs.limits.max_steps ==> idle_from(s, fuel + 1, limit)
            == (
            s,
            Err::<Seq<EventModel>, Trouble>(
                Trouble::ExecutionLimitExceeded { limit: s.fs.limits.max_steps },
            ),
        ),
        s.runnable.len() > 0 && s.ticks < s.fs.limits.max_steps ==> {
            let (next, event) = tick_of(s);
            let (end, events) = idle_from(s, fuel + 1, limit);
            let (last, rest) = idle_from(next, fuel, limit);
            match event {
                Some(event) => {
                    &&& end == last
                    &&& events is Ok <==> rest is Ok
                    &&& rest is Ok ==> events->Ok_0 == seq![event] + rest->Ok_0
                    &&& rest is Err ==> events == rest
                },
                None => end == next && events == Ok::<Seq<EventModel>, Trouble>(Seq::empty()),
            }
        },
{
}

} // verus!
