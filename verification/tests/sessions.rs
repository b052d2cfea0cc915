//! Sessions, their snapshots and where both are kept.

use a_rust_vm::jobs::{JobRecord, JobState, JobStore};
use a_rust_vm::protocol::{API_VERSION, SystemInfo};
use a_rust_vm::runtime::VmInstance;
use a_rust_vm::session::{ReadFailure, SaveStep, Session, SessionStore};
use a_rust_vm::session_snapshot::{
    SESSION_SNAPSHOT_SCHEMA_VERSION, SessionSnapshot, SessionSnapshotError,
};
use a_rust_vm::session_snapshot_store::{
    MAX_SERIALIZED_SNAPSHOT_BYTES, SessionSnapshotStore, SessionSnapshotStoreError,
    StoredSessionSnapshot, ensure_size,
};

#[test]
fn sessions_round_trip_and_list() {
    let store = SessionStore::new("/state/sessions");
    let mut session = Session::new("session-1").unwrap();
    session.push("user", "inspect this workspace");
    session.push("assistant", "I will inspect it.");

    let plan = store.plan_save(&session, 7, 3).unwrap();

    assert_eq!(plan.file, "session-1.json");
    assert_eq!(plan.temporary, ".session-1.7.3.tmp");
    let value: serde_json::Value = serde_json::from_slice(&plan.content).unwrap();
    assert_eq!(value["id"], "session-1");
    assert_eq!(value["created_at"], session.created_at);
    assert_eq!(value["messages"][1]["role"], "assistant");
    assert_eq!(value["messages"][1]["content"], "I will inspect it.");
    assert_eq!(store.file_for("session-1").unwrap(), plan.file);
    assert_eq!(
        store.list(&vec![
            "session-1.json".to_owned(),
            ".session-1.7.3.tmp".to_owned(),
            "notes.txt".to_owned(),
        ]),
        vec!["session-1"]
    );
}

#[test]
fn invalid_session_ids_cannot_escape_the_store() {
    assert!(Session::new("../outside").is_err());
    assert!(Session::new("with space").is_err());
    let store = SessionStore::new("/state/sessions");
    assert!(store.file_for("../outside").is_err());
    assert!(store.file_for("").is_err());
}

#[test]
fn missing_sessions_are_distinguished_from_storage_failures() {
    let store = SessionStore::new("/state/sessions");

    let error = store.load_error("missing", ReadFailure::Missing);

    assert!(error.is_not_found());
    let error = store.load_error("there", ReadFailure::Other("denied".to_owned()));
    assert!(!error.is_not_found());
    assert!(error.to_text().contains("denied"));
    assert_eq!(
        store.save_error(SaveStep::Commit, "there", "denied").to_text(),
        "cannot commit session 'there': denied"
    );
}

#[test]
fn session_snapshots_round_trip_resumable_state() {
    let mut vm = VmInstance::new("session-a");
    vm.write_file("/workspace/notes.txt", b"hello").unwrap();
    let mut jobs = JobStore::default();
    jobs.try_start_tabulation("alice", "/workspace/notes.txt", 4);

    let snapshot = SessionSnapshot::capture("alice", "session-a", &vm, &jobs).unwrap();
    let restored = snapshot.restore().unwrap();

    assert_eq!(restored.owner, "alice");
    assert_eq!(restored.session_id, "session-a");
    assert_eq!(
        restored.vm.read_text("/workspace/notes.txt").unwrap(),
        "hello"
    );
    assert_eq!(restored.jobs.list("alice").len(), 1);
    assert!(matches!(
        restored.jobs.list("alice")[0].state,
        JobState::Failed
    ));
}

#[test]
fn session_snapshots_reject_unknown_schema_and_foreign_jobs() {
    let vm = VmInstance::new("session-a");
    let jobs = JobStore::default();
    let mut snapshot = SessionSnapshot::capture("alice", "session-a", &vm, &jobs).unwrap();
    snapshot.schema_version = SESSION_SNAPSHOT_SCHEMA_VERSION + 1;
    assert!(matches!(
        snapshot.restore(),
        Err(SessionSnapshotError::UnsupportedSchema { .. })
    ));

    let mut snapshot = SessionSnapshot::capture("alice", "session-a", &vm, &jobs).unwrap();
    snapshot.jobs.jobs.push(JobRecord {
        id: "job-1".to_owned(),
        owner: "bob".to_owned(),
        executor: "builtin.tabulate.v1".to_owned(),
        input_path: "/workspace/uploads/file.csv".to_owned(),
        output_path: None,
        state: JobState::Failed,
        error: Some("test".to_owned()),
    });
    assert!(matches!(
        snapshot.restore(),
        Err(SessionSnapshotError::ForeignJob { .. })
    ));
    assert!(matches!(
        SessionSnapshot::capture("alice", "session-b", &vm, &jobs),
        Err(SessionSnapshotError::MismatchedVmId)
    ));
}

#[test]
fn snapshots_round_trip_with_owner_key_and_timestamp() {
    let store = SessionSnapshotStore::new("/state/snapshots");
    let mut vm = VmInstance::new("session-a");
    vm.write_file("/workspace/notes.txt", b"hello").unwrap();
    let snapshot =
        SessionSnapshot::capture("alice", "session-a", &vm, &JobStore::default()).unwrap();
    let again = SessionSnapshot::capture("alice", "session-a", &vm, &JobStore::default()).unwrap();

    let place = store.place("alice", "session-a").unwrap();
    assert_eq!(place.file, "session-a.json");
    let stored = store
        .check_loaded(
            "alice",
            "session-a",
            StoredSessionSnapshot {
                last_seen_at: 12,
                snapshot,
            },
            "/state/snapshots/alice/session-a.json",
        )
        .unwrap();

    assert!(stored.last_seen_at > 0);
    assert_eq!(stored.snapshot, again);
    assert!(matches!(
        store.check_loaded("bob", "session-a", stored, "/state/snapshots/bob/session-a.json"),
        Err(SessionSnapshotStoreError::IdentityMismatch { .. })
    ));
}

#[test]
fn snapshot_keys_reject_path_traversal() {
    let store = SessionSnapshotStore::new("/state/snapshots");

    assert!(matches!(
        store.place("../alice", "session-a"),
        Err(SessionSnapshotStoreError::InvalidIdentity { field: "owner" })
    ));
    assert!(matches!(
        store.place("alice", "../session-a"),
        Err(SessionSnapshotStoreError::InvalidIdentity { field: "id" })
    ));
    assert!(ensure_size(MAX_SERIALIZED_SNAPSHOT_BYTES).is_ok());
    assert!(matches!(
        ensure_size(MAX_SERIALIZED_SNAPSHOT_BYTES + 1),
        Err(SessionSnapshotStoreError::TooLarge { .. })
    ));
}

#[test]
fn snapshots_stay_below_the_directory_of_their_owner() {
    let store = SessionSnapshotStore::new("/var/lib/arvm/snapshots");
    for owner in ["..", "."] {
        assert!(matches!(
            store.place(owner, "session-a"),
            Err(SessionSnapshotStoreError::InvalidIdentity { field: "owner" })
        ));
    }
    let place = store.place("..alice", "..").unwrap();
    assert_eq!(place.owner_directory, "..alice");
    assert_eq!(place.file, "...json");
}

#[test]
fn system_info_round_trips_as_versioned_json() {
    let info = SystemInfo::current();
    assert_eq!(info.api_version, API_VERSION);
    assert!(!info.features.wasm_executor.available);
    let json = a_rust_vm::server::system_info_payload(false);
    let decoded: serde_json::Value = serde_json::from_str(&json).unwrap();
    assert_eq!(decoded["api_version"], info.api_version);
    assert_eq!(decoded["product"], info.product);
    assert_eq!(
        decoded["runtime_limits"]["max_bytes"],
        info.runtime_limits.max_bytes
    );
    assert_eq!(decoded["features"]["wasm_executor"]["available"], false);
}
