//! Workspaces, capabilities and their audit.

use a_rust_vm::control_plane::{CapabilityGrant, ControlPlane};
use a_rust_vm::runtime::ResourceLimits;

#[test]
fn workspaces_start_with_no_external_capabilities() {
    let mut plane = ControlPlane::new(4, ResourceLimits::default());
    plane.create_workspace("alice", "research").unwrap();
    let workspace = plane.inspect("alice", "research").unwrap();
    assert!(workspace.capabilities.is_empty());
    assert_eq!(workspace.audit.len(), 1);
}

#[test]
fn capabilities_scope_resources_and_actions_and_audit_denials() {
    let mut plane = ControlPlane::new(4, ResourceLimits::default());
    plane.create_workspace("alice", "research").unwrap();
    let grant =
        CapabilityGrant::new("issues", "github", "repo:a/rvm", vec!["read_issues".to_owned()]).unwrap();
    plane.grant_capability("alice", "research", grant).unwrap();
    plane
        .record_observation("alice", "research", "issues", "repo:a/rvm", "read_issues")
        .unwrap();
    assert!(
        plane
            .record_observation("alice", "research", "issues", "repo:a/rvm", "merge")
            .is_err()
    );
    let workspace = plane.inspect("alice", "research").unwrap();
    assert_eq!(workspace.observations.len(), 1);
    assert!(
        workspace
            .audit
            .iter()
            .any(|event| format!("{:?}", event.kind) == "AccessDenied")
    );
}

#[test]
fn ownership_scopes_workspace_lookup() {
    let mut plane = ControlPlane::new(4, ResourceLimits::default());
    plane.create_workspace("alice", "shared-name").unwrap();
    plane.create_workspace("bob", "shared-name").unwrap();
    assert_eq!(plane.list("alice").len(), 1);
    assert_eq!(plane.list("bob").len(), 1);
    assert!(plane.inspect("mallory", "shared-name").is_err());
}

#[test]
fn snapshots_restore_policy_and_audit_with_fresh_runtimes() {
    let limits = ResourceLimits::default();
    let mut plane = ControlPlane::new(4, limits);
    plane.create_workspace("alice", "research").unwrap();
    let grant =
        CapabilityGrant::new("issues", "github", "repo:a/rvm", vec!["read_issues".to_owned()]).unwrap();
    plane.grant_capability("alice", "research", grant).unwrap();
    let restored = ControlPlane::restore(plane.snapshot(), 4, limits).unwrap();
    let workspace = restored.inspect("alice", "research").unwrap();
    assert_eq!(workspace.capabilities.len(), 1);
    assert_eq!(workspace.runtime.process_count, 0);
}

#[test]
fn errors_name_the_workspace_and_the_capability() {
    let mut plane = ControlPlane::new(4, ResourceLimits::default());
    assert_eq!(
        plane.inspect("alice", "research").unwrap_err().to_text(),
        "workspace not found: alice/research"
    );
    plane.create_workspace("alice", "research").unwrap();
    assert_eq!(
        plane.create_workspace("alice", "research").unwrap_err().to_text(),
        "workspace already exists: alice/research"
    );
    assert_eq!(
        plane
            .revoke_capability("alice", "research", "issues")
            .unwrap_err()
            .to_text(),
        "capability not found: issues"
    );
    assert_eq!(
        plane
            .record_observation("alice", "research", "issues", "repo:a/rvm", "read")
            .unwrap_err()
            .to_text(),
        "capability not found: issues"
    );
    let grant = CapabilityGrant::new("issues", "github", "repo:a/rvm", vec!["read".to_owned()]).unwrap();
    plane.grant_capability("alice", "research", grant.clone()).unwrap();
    assert_eq!(
        plane
            .grant_capability("alice", "research", grant)
            .unwrap_err()
            .to_text(),
        "capability already exists: issues"
    );
    assert_eq!(
        plane
            .record_observation("alice", "research", "issues", "repo:a/rvm", "merge")
            .unwrap_err()
            .to_text(),
        "capability issues does not allow merge on repo:a/rvm"
    );
    plane.revoke_capability("alice", "research", "issues").unwrap();
    assert!(plane.inspect("alice", "research").unwrap().capabilities.is_empty());
}

#[test]
fn restoring_refuses_another_schema() {
    let plane = ControlPlane::new(4, ResourceLimits::default());
    let mut snapshot = plane.snapshot();
    snapshot.schema_version = 2;
    assert_eq!(
        ControlPlane::restore(snapshot, 4, ResourceLimits::default())
            .unwrap_err()
            .to_text(),
        "unsupported control-plane schema: expected 1, got 2"
    );
}

#[test]
fn revoking_undoes_granting() {
    let limits = ResourceLimits::default();
    let mut plane = ControlPlane::new(4, limits);
    plane.create_workspace("alice", "research").unwrap();
    for id in ["b", "a", "c"] {
        let grant = CapabilityGrant::new(id, "github", "repo", vec!["read".to_owned()]).unwrap();
        plane.grant_capability("alice", "research", grant).unwrap();
    }
    plane.revoke_capability("alice", "research", "b").unwrap();
    let view = plane.inspect("alice", "research").unwrap();
    let ids: Vec<&str> = view.capabilities.iter().map(|grant| grant.id.as_str()).collect();
    assert_eq!(ids, vec!["a", "c"]);
    assert!(plane.record_observation("alice", "research", "b", "repo", "read").is_err());
    let view = plane.inspect("alice", "research").unwrap();
    for pair in view.audit.windows(2) {
        assert!(pair[0].sequence < pair[1].sequence);
    }
    let restored = ControlPlane::restore(plane.snapshot(), 4, limits).unwrap();
    let again = restored.inspect("alice", "research").unwrap();
    assert_eq!(again.audit, view.audit);
    assert_eq!(again.capabilities, view.capabilities);
}
