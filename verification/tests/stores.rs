//! What the stores decide about the files of the host.

use a_rust_vm::artifacts::{ArtifactKind, ArtifactStore, artifacts_in};
use a_rust_vm::command_line::ArtifactImportArguments;
use a_rust_vm::content_store::{ContentStore, ContentStoreError, StoredContent};
use a_rust_vm::control_plane::CapabilityGrant;
use a_rust_vm::control_plane_store::{ControlPlaneStore, StateFile, StoreStep};
use a_rust_vm::runtime::ResourceLimits;
use a_rust_vm::workspace_commands::{artifact_history, create_artifact, import_artifact_version};

#[test]
fn stores_content_once_and_reads_it_by_digest() {
    let store = ContentStore::new("/state/objects");
    let first = store.put(b"artifact bytes", None).unwrap();
    let second = store
        .put(b"artifact bytes", Some(Ok(b"artifact bytes".to_vec())))
        .unwrap();

    assert_eq!(first, second);
    assert_eq!(first.byte_len, 14);
    assert!(store.contains(&first.reference, true).unwrap());
    assert!(!store.contains(&first.reference, false).unwrap());
    assert_eq!(
        store
            .get(&first.reference, Ok(b"artifact bytes".to_vec()))
            .unwrap(),
        b"artifact bytes"
    );
    assert!(store.get(&first.reference, Ok(b"other bytes".to_vec())).is_err());
}

#[test]
fn references_are_digests() {
    let store = ContentStore::new("/state/objects");
    assert_eq!(
        store.reference(b""),
        "sha256:e3b0c44298fc1c149afbf4c8996fb92427ae41e4649b934ca495991b7852b855"
    );
    assert_eq!(
        store.reference(b"abc"),
        "sha256:ba7816bf8f01cfea414140de5dae2223b00361a396177a9cb410ff61f20015ad"
    );
}

#[test]
fn rejects_references_that_cannot_name_a_content_object() {
    let store = ContentStore::new("/state/objects");
    assert_eq!(
        store.get("../../workspace", Ok(Vec::new())).unwrap_err(),
        ContentStoreError::InvalidReference
    );
    assert_eq!(
        store.contains("sha256:ABCDEF", true).unwrap_err(),
        ContentStoreError::InvalidReference
    );
}

#[test]
fn store_round_trips_workspace_policy_atomically() {
    let store = ControlPlaneStore::new("/state/state.json", 8, ResourceLimits::default());
    let mut plane = store.load(StateFile::Missing).unwrap();
    plane.create_workspace("alice", "research").unwrap();
    plane
        .grant_capability(
            "alice",
            "research",
            CapabilityGrant::new("issues", "github", "repo:a/rvm", vec!["read".to_owned()]).unwrap(),
        )
        .unwrap();
    let restored = store.load(StateFile::Snapshot(plane.snapshot())).unwrap();
    assert_eq!(
        restored
            .inspect("alice", "research")
            .unwrap()
            .capabilities
            .len(),
        1
    );
    assert_eq!(store.temporary(7), ".control-plane.7.tmp");
}

#[test]
fn store_errors_name_the_file() {
    let store = ControlPlaneStore::new("/state/state.json", 8, ResourceLimits::default());
    assert_eq!(
        store
            .load(StateFile::Unreadable("denied".to_owned()))
            .unwrap_err()
            .to_text(),
        "cannot read '/state/state.json': denied"
    );
    assert_eq!(
        store
            .load(StateFile::Undecodable("bad".to_owned()))
            .unwrap_err()
            .to_text(),
        "cannot decode '/state/state.json': bad"
    );
    assert_eq!(
        store
            .save_error(StoreStep::Commit, "/state/state.json", "denied")
            .to_text(),
        "cannot commit '/state/state.json': denied"
    );
}

#[test]
fn artifacts_are_created_and_listed() {
    let mut artifacts = ArtifactStore::default();
    assert_eq!(
        create_artifact(
            &mut artifacts,
            "alice",
            "research",
            "budget",
            "Budget",
            ArtifactKind::Source
        ),
        Ok("created artifact budget in alice/research".to_owned())
    );
    assert_eq!(
        create_artifact(
            &mut artifacts,
            "alice",
            "research",
            "budget",
            "Budget",
            ArtifactKind::Source
        ),
        Err("artifact already exists: budget".to_owned())
    );
    assert_eq!(artifact_history(&artifacts, "research", "budget"), Ok(Vec::new()));
}

#[test]
fn artifacts_stay_in_their_workspace() {
    let mut artifacts = ArtifactStore::default();
    for (workspace, id) in [("research", "notes"), ("other", "budget"), ("research", "data")] {
        create_artifact(&mut artifacts, "alice", workspace, id, "Name", ArtifactKind::Source)
            .unwrap();
    }
    let ids: Vec<String> = artifacts_in(&artifacts, "research")
        .into_iter()
        .map(|artifact| artifact.id)
        .collect();
    assert_eq!(ids, vec!["data", "notes"]);
    assert!(artifacts_in(&artifacts, "nowhere").is_empty());
    let stored = StoredContent { reference: "sha256:00".to_owned(), byte_len: 3 };
    let import = |workspace: &str, version: &str, parent: Option<&str>| ArtifactImportArguments {
        workspace: workspace.to_owned(),
        artifact_id: "notes".to_owned(),
        version_id: version.to_owned(),
        file: "notes.txt".to_owned(),
        media_type: "text/plain".to_owned(),
        parent_version_id: parent.map(str::to_owned),
    };
    assert_eq!(
        import_artifact_version(&mut artifacts, "alice", &import("other", "v1", None), &stored),
        Err("artifact not found: notes".to_owned())
    );
    assert_eq!(
        import_artifact_version(&mut artifacts, "alice", &import("research", "v1", None), &stored),
        Ok("imported version v1 for notes (sha256:00)".to_owned())
    );
    assert_eq!(
        import_artifact_version(
            &mut artifacts,
            "alice",
            &import("research", "v2", Some("v1")),
            &stored
        ),
        Ok("imported version v2 for notes (sha256:00)".to_owned())
    );
    assert_eq!(
        artifact_history(&artifacts, "research", "notes").unwrap(),
        vec!["v1\tsha256:00\ttext/plain\t-", "v2\tsha256:00\ttext/plain\tv1"]
    );
    let history = artifacts.version_history("notes");
    assert!(history[0].sequence < history[1].sequence);
    assert_eq!(
        artifact_history(&artifacts, "other", "notes"),
        Err("artifact not found: notes".to_owned())
    );
    assert!(artifact_history(&artifacts, "research", "missing").is_err());
}
