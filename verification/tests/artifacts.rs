//! Artifacts and their versions.

use a_rust_vm::artifacts::{ArtifactError, ArtifactKind, ArtifactStore, NewArtifact, NewArtifactVersion};

fn source_artifact(id: &str) -> NewArtifact {
    NewArtifact::new(
        id,
        "workspace-1",
        "budget.xlsx",
        ArtifactKind::Source,
        "user-1",
    )
}

#[test]
fn versions_are_immutable_and_current_version_advances() {
    let mut store = ArtifactStore::default();
    store
        .create_artifact(source_artifact("artifact-1"))
        .unwrap();

    let initial = store
        .create_version(NewArtifactVersion::new(
            "version-1",
            "artifact-1",
            "blob:budget-v1",
            "application/vnd.openxmlformats-officedocument.spreadsheetml.sheet",
            120,
            "user-1",
        ))
        .unwrap();
    let successor = store
        .create_version(
            NewArtifactVersion::new(
                "version-2",
                "artifact-1",
                "blob:budget-v2",
                "application/vnd.openxmlformats-officedocument.spreadsheetml.sheet",
                144,
                "agent-1",
            )
            .with_parent("version-1")
            .with_inputs(vec!["version-1".to_owned()]),
        )
        .unwrap();

    assert_eq!(initial.sequence, 1);
    assert_eq!(successor.sequence, 2);
    assert_eq!(store.version("version-1").unwrap(), &initial);
    assert_eq!(store.current_version("artifact-1").unwrap(), &successor);
    assert_eq!(
        store
            .version_history("artifact-1")
            .into_iter()
            .map(|version| version.id.as_str())
            .collect::<Vec<_>>(),
        vec!["version-1", "version-2"]
    );
}

#[test]
fn rejects_invalid_workspace_and_media_type() {
    let mut store = ArtifactStore::default();
    let error = store
        .create_artifact(NewArtifact::new(
            "artifact-1",
            "",
            "budget.xlsx",
            ArtifactKind::Source,
            "user-1",
        ))
        .unwrap_err();
    assert_eq!(
        error,
        ArtifactError::InvalidInput {
            field: "workspace id"
        }
    );

    store
        .create_artifact(source_artifact("artifact-1"))
        .unwrap();
    let error = store
        .create_version(NewArtifactVersion::new(
            "version-1",
            "artifact-1",
            "blob:budget-v1",
            "not a mime type",
            120,
            "user-1",
        ))
        .unwrap_err();
    assert_eq!(error, ArtifactError::InvalidMediaType);
}

#[test]
fn rejects_missing_or_cross_artifact_parent_versions() {
    let mut store = ArtifactStore::default();
    store
        .create_artifact(source_artifact("artifact-1"))
        .unwrap();
    store
        .create_artifact(NewArtifact::new(
            "artifact-2",
            "workspace-1",
            "summary.pdf",
            ArtifactKind::Generated,
            "agent-1",
        ))
        .unwrap();
    store
        .create_version(NewArtifactVersion::new(
            "version-1",
            "artifact-1",
            "blob:budget-v1",
            "application/vnd.openxmlformats-officedocument.spreadsheetml.sheet",
            120,
            "user-1",
        ))
        .unwrap();

    let missing_parent = store
        .create_version(
            NewArtifactVersion::new(
                "version-2",
                "artifact-1",
                "blob:budget-v2",
                "application/vnd.openxmlformats-officedocument.spreadsheetml.sheet",
                144,
                "user-1",
            )
            .with_parent("missing-version"),
        )
        .unwrap_err();
    assert_eq!(
        missing_parent,
        ArtifactError::VersionNotFound("missing-version".to_owned())
    );

    let cross_artifact_parent = store
        .create_version(
            NewArtifactVersion::new(
                "version-3",
                "artifact-2",
                "blob:summary-v1",
                "application/pdf",
                32,
                "agent-1",
            )
            .with_parent("version-1"),
        )
        .unwrap_err();
    assert_eq!(
        cross_artifact_parent,
        ArtifactError::ParentBelongsToDifferentArtifact {
            parent_version_id: "version-1".to_owned(),
            artifact_id: "artifact-2".to_owned(),
        }
    );
}
