//! The guest runtime.

use a_rust_vm::Instruction;
use a_rust_vm::runtime::{
    DirectoryEntry, EntryKind, ProcessEvent, ProcessState, ResourceLimits, RuntimeError,
    SnapshotEntry, SnapshotEntryKind, Syscall, SyscallResult, VmInstance, VmManager,
    VmManagerError, WaitStatus,
};
use a_rust_vm::snapshot::{MAX_SNAPSHOT_BYTES, MAX_SNAPSHOT_ENTRIES};

fn add_program() -> Vec<Instruction> {
    vec![
        Instruction::Push(2),
        Instruction::Push(3),
        Instruction::Add,
        Instruction::Halt,
    ]
}

#[test]
fn instances_have_independent_filesystems_and_pid_spaces() {
    let mut first = VmInstance::new("user-a");
    let mut second = VmInstance::new("user-b");

    first.write_file("/workspace/secret.txt", b"only-a").unwrap();
    let pid_a = first
        .spawn(None, add_program(), vec!["calc".to_owned()])
        .unwrap();
    let pid_b = second
        .spawn(None, add_program(), vec!["calc".to_owned()])
        .unwrap();

    assert_eq!(first.read_text("/workspace/secret.txt").unwrap(), "only-a");
    assert!(matches!(
        second.read_file("/workspace/secret.txt"),
        Err(RuntimeError::NotFound { .. })
    ));
    assert_eq!(pid_a, 1);
    assert_eq!(pid_b, 1);
    assert_eq!(first.id(), "user-a");
}

#[test]
fn filesystem_normalizes_guest_paths_without_host_access() {
    let mut vm = VmInstance::new("paths");
    vm.write_file("/workspace/notes.txt", b"hello").unwrap();

    assert_eq!(vm.read_text("/workspace/./notes.txt").unwrap(), "hello");
    assert_eq!(
        vm.read_text("/workspace/../workspace/notes.txt").unwrap(),
        "hello"
    );
    assert!(matches!(
        vm.read_file("../../etc/passwd"),
        Err(RuntimeError::InvalidPath { .. })
    ));
}

#[test]
fn filesystem_tracks_entries_and_enforces_quotas() {
    let limits = ResourceLimits {
        max_inodes: 5,
        max_bytes: 10,
        ..ResourceLimits::default()
    };
    let mut vm = VmInstance::with_limits("quota", limits).unwrap();
    vm.write_file("/workspace/a", b"1234").unwrap();
    assert_eq!(vm.filesystem().inode_count(), 5);
    assert!(matches!(
        vm.write_file("/workspace/b", b"x"),
        Err(RuntimeError::QuotaExceeded {
            resource: "inodes",
            ..
        })
    ));
    assert!(matches!(
        vm.write_file("/workspace/a", b"12345678901"),
        Err(RuntimeError::QuotaExceeded {
            resource: "file bytes",
            ..
        })
    ));
}

#[test]
fn vm_snapshots_round_trip_files_and_empty_directories() {
    let mut vm = VmInstance::new("snapshot");
    vm.mkdir("/workspace/empty", true).unwrap();
    vm.write_file("/workspace/notes.txt", b"hello").unwrap();
    vm.spawn(
        None,
        add_program(),
        vec!["ignored-after-restart".to_owned()],
    )
    .unwrap();

    let restored = VmInstance::from_snapshot(vm.snapshot()).unwrap();

    assert_eq!(restored.id(), "snapshot");
    assert_eq!(restored.read_text("/workspace/notes.txt").unwrap(), "hello");
    assert!(restored.list_dir("/workspace/empty").unwrap().is_empty());
    assert_eq!(restored.process_count(), 0);
    assert_eq!(restored.snapshot(), vm.snapshot());
}

#[test]
fn vm_snapshot_rejects_unknown_schema() {
    let mut snapshot = VmInstance::new("snapshot").snapshot();
    snapshot.schema_version += 1;

    assert!(matches!(
        VmInstance::from_snapshot(snapshot),
        Err(RuntimeError::InvalidSnapshot { .. })
    ));
}

#[test]
fn vm_snapshot_rejects_untrusted_bounds() {
    let mut snapshot = VmInstance::new("snapshot").snapshot();
    snapshot.limits.max_bytes = MAX_SNAPSHOT_BYTES + 1;
    assert!(matches!(
        VmInstance::from_snapshot(snapshot),
        Err(RuntimeError::InvalidSnapshot { .. })
    ));

    let mut snapshot = VmInstance::new("snapshot").snapshot();
    snapshot.entries = (0..=MAX_SNAPSHOT_ENTRIES)
        .map(|index| SnapshotEntry {
            path: format!("/workspace/file-{index}"),
            kind: SnapshotEntryKind::File,
            bytes: Vec::new(),
        })
        .collect();
    assert!(matches!(
        VmInstance::from_snapshot(snapshot),
        Err(RuntimeError::InvalidSnapshot { .. })
    ));
}

#[test]
fn scheduler_runs_processes_round_robin_and_reports_results() {
    let mut vm = VmInstance::new("scheduler");
    let first = vm
        .spawn(None, add_program(), vec!["first".to_owned()])
        .unwrap();
    let second = vm
        .spawn(None, add_program(), vec!["second".to_owned()])
        .unwrap();

    let events = vm.run_until_idle(8).unwrap();
    let pids = events
        .iter()
        .map(|event| match event {
            ProcessEvent::InstructionExecuted { pid, .. }
            | ProcessEvent::ProcessExited { pid, .. }
            | ProcessEvent::ProcessFailed { pid, .. } => *pid,
        })
        .collect::<Vec<_>>();
    assert_eq!(
        pids,
        vec![first, second, first, second, first, second, first, second]
    );
    assert_eq!(vm.wait(first), Ok(WaitStatus::Exited { code: 5 }));
    assert_eq!(vm.wait(second), Ok(WaitStatus::Exited { code: 5 }));
    assert_eq!(
        vm.process_info(first).unwrap().state,
        ProcessState::Exited { code: 5 }
    );
}

#[test]
fn spawn_rejects_programs_that_fail_structural_validation() {
    let mut vm = VmInstance::new("validation");

    assert!(matches!(
        vm.spawn(None, vec![Instruction::Push(1)], vec![]),
        Err(RuntimeError::InvalidProgram { .. })
    ));
    assert_eq!(vm.process_count(), 0);
}

#[test]
fn scheduler_discards_processes_exited_by_syscall() {
    let mut vm = VmInstance::new("stale-queue");
    let pid = vm
        .spawn(
            None,
            vec![Instruction::Push(0), Instruction::Halt],
            vec!["exit".to_owned()],
        )
        .unwrap();

    vm.syscall(pid, Syscall::Exit { code: 0 }).unwrap();

    assert_eq!(vm.run_until_idle(1), Ok(Vec::new()));
    assert_eq!(vm.wait(pid), Ok(WaitStatus::Exited { code: 0 }));
}

#[test]
fn syscalls_use_the_callers_guest_working_directory() {
    let mut vm = VmInstance::new("syscalls");
    let pid = vm
        .spawn(
            None,
            vec![Instruction::Push(0), Instruction::Halt],
            vec!["init".to_owned()],
        )
        .unwrap();
    vm.syscall(
        pid,
        Syscall::MakeDirectory {
            path: "/workspace/app".to_owned(),
            recursive: false,
        },
    )
    .unwrap();
    vm.syscall(
        pid,
        Syscall::WriteFile {
            path: "/workspace/app/main.arvm".to_owned(),
            content: b"PUSH 2".to_vec(),
        },
    )
    .unwrap();
    let listing = vm
        .syscall(
            pid,
            Syscall::ListDirectory {
                path: "/workspace/app".to_owned(),
            },
        )
        .unwrap();
    assert_eq!(
        listing,
        SyscallResult::Directory(vec![DirectoryEntry {
            name: "main.arvm".to_owned(),
            kind: EntryKind::File,
            size: 6,
        }])
    );
}

#[test]
fn process_can_spawn_and_poll_a_child() {
    let mut vm = VmInstance::new("processes");
    let parent = vm
        .spawn(
            None,
            vec![Instruction::Push(0), Instruction::Halt],
            vec!["parent".to_owned()],
        )
        .unwrap();
    let child = match vm
        .syscall(
            parent,
            Syscall::Spawn {
                program: add_program(),
                argv: vec!["child".to_owned()],
            },
        )
        .unwrap()
    {
        SyscallResult::Process(pid) => pid,
        result => panic!("unexpected syscall result: {result:?}"),
    };
    assert_eq!(vm.wait(child), Ok(WaitStatus::Running));
    vm.run_until_idle(8).unwrap();
    assert_eq!(vm.wait(child), Ok(WaitStatus::Exited { code: 5 }));
}

#[test]
fn manager_scopes_same_vm_id_to_each_owner() {
    let mut manager = VmManager::with_max_instances(4, ResourceLimits::default());
    manager.create("alice", "dev").unwrap();
    manager.create("bob", "dev").unwrap();

    manager
        .get_mut("alice", "dev")
        .unwrap()
        .write_file("/workspace/secret", b"alice-only")
        .unwrap();
    assert_eq!(
        manager
            .get("alice", "dev")
            .unwrap()
            .read_text("/workspace/secret")
            .unwrap(),
        "alice-only"
    );
    assert!(matches!(
        manager
            .get("bob", "dev")
            .unwrap()
            .read_file("/workspace/secret"),
        Err(RuntimeError::NotFound { .. })
    ));
    assert!(matches!(
        manager.get("mallory", "dev"),
        Err(VmManagerError::NotFound { .. })
    ));
    assert_eq!(manager.list("alice").len(), 1);
    assert_eq!(manager.list("bob").len(), 1);
}

#[test]
fn manager_enforces_instance_quota_and_duplicate_ids() {
    let mut manager = VmManager::with_max_instances(2, ResourceLimits::default());
    manager.create("alice", "dev").unwrap();
    assert!(matches!(
        manager.create("alice", "dev"),
        Err(VmManagerError::AlreadyExists { .. })
    ));
    manager.create("bob", "other").unwrap();
    assert!(matches!(
        manager.create("bob", "second"),
        Err(VmManagerError::InstanceLimitReached { limit: 2 })
    ));
    assert!(matches!(
        VmInstance::with_limits(
            "invalid",
            ResourceLimits {
                max_inodes: 3,
                ..ResourceLimits::default()
            }
        ),
        Err(RuntimeError::InvalidLimits { .. })
    ));
}

#[test]
fn scheduler_honors_the_per_instance_step_limit() {
    let mut vm = VmInstance::with_limits(
        "limited",
        ResourceLimits {
            max_steps: 2,
            ..ResourceLimits::default()
        },
    )
    .unwrap();
    vm.spawn(None, add_program(), vec!["limited".to_owned()])
        .unwrap();

    assert_eq!(
        vm.run_until_idle(8),
        Err(RuntimeError::ExecutionLimitExceeded { limit: 2 })
    );
    assert_eq!(vm.ticks(), 2);
}

#[test]
fn idle_guests_have_no_process_left_to_run() {
    let mut vm = VmInstance::new("idle");
    for _ in 0..3 {
        vm.spawn(None, add_program(), Vec::new()).unwrap();
    }
    let before = vm.ticks();
    let events = vm.run_until_idle(100).unwrap();
    assert_eq!(events.len(), 12);
    assert_eq!(vm.ticks(), before + 12);
    assert!(vm.processes().iter().all(|process| process.state == ProcessState::Exited { code: 5 }));
    assert_eq!(vm.tick(), None);
    let pid = vm.spawn(None, add_program(), Vec::new()).unwrap();
    assert!(vm.tick().is_some());
    vm.syscall(pid, Syscall::Exit { code: 9 }).unwrap();
    assert_eq!(vm.tick(), None);
    assert_eq!(vm.ticks(), before + 13);
}
