//! The commands on owned workspaces and on their artifacts.

use vstd::prelude::*;

use crate::artifacts::{
    Artifact, ArtifactError, ArtifactKind, ArtifactStore, ArtifactVersion, NewArtifact,
    NewArtifactVersion,
};
#[allow(unused_imports)]
use crate::artifacts::{
    ArtifactModel, ArtifactTrouble, StoreState, VersionModel, VersionRequest, artifact_at,
    artifact_created, artifact_models, artifact_trouble, artifact_trouble_text, history_of, new_version, version_created, version_models,
    version_trouble,
};
use crate::command_line::{
    ArtifactImportArguments, parse_artifact_import_arguments, parse_artifact_kind,
};
#[allow(unused_imports)]
use crate::command_line::{ARTIFACT_IMPORT_USAGE, artifact_kind};
use crate::content_store::StoredContent;
use crate::control_plane::{CapabilityGrant, ControlPlane, WorkspaceState, WorkspaceView};
#[allow(unused_imports)]
use crate::control_plane::{
    GrantModel, PlaneState, PlaneTrouble, ViewModel, action_set, capability_granted,
    capability_revoked, grant_trouble, inspected, listed_views, plane_trouble_text, view_models,
    workspace_created,
};
use crate::runtime_error::labelled;
use crate::text::{same_text, size_text};
#[allow(unused_imports)]
use crate::text::{begins, decimal, ends, text_option, texts};
use vstd::slice::slice_subrange;

verus! {

pub const WORKSPACE_USAGE: &'static str =
    "usage:\n  arvm workspace create <id>\n  arvm workspace list\n  arvm workspace show <id>\n  arvm workspace grant <workspace> <capability> <kind> <resource> <action>...\n  arvm workspace revoke <workspace> <capability>\n  arvm workspace artifact create <workspace> <artifact-id> <name> <source|generated>\n  arvm workspace artifact import <workspace> <artifact-id> <version-id> <file> <media-type> [parent-version-id]\n  arvm workspace artifact list <workspace>\n  arvm workspace artifact history <workspace> <artifact-id>\n\nSet A_RVM_OWNER to select the local principal.";

pub const ARTIFACT_USAGE: &'static str =
    "usage:\n  arvm workspace artifact create <workspace> <artifact-id> <name> <source|generated>\n  arvm workspace artifact import <workspace> <artifact-id> <version-id> <file> <media-type> [parent-version-id]\n  arvm workspace artifact list <workspace>\n  arvm workspace artifact history <workspace> <artifact-id>";

// ---------------------------------------------------------------------------
// Workspaces
// ---------------------------------------------------------------------------

/// What is asked of the workspaces. What belongs to artifacts is read by itself.
#[derive(Debug, PartialEq, Eq)]
pub enum WorkspaceCommand {
    Artifact,
    Create(String),
    List,
    Show(String),
    Grant {
        workspace: String,
        capability: String,
        kind: String,
        resource: String,
        actions: Vec<String>,
    },
    Revoke { workspace: String, capability: String },
    Usage,
}

/// What a [`WorkspaceCommand`] says.
#[verifier::ext_equal]
pub enum WorkspaceCommandModel {
    Artifact,
    Create(Seq<char>),
    List,
    Show(Seq<char>),
    Grant {
        workspace: Seq<char>,
        capability: Seq<char>,
        kind: Seq<char>,
        resource: Seq<char>,
        actions: Seq<Seq<char>>,
    },
    Revoke { workspace: Seq<char>, capability: Seq<char> },
    Usage,
}

impl View for WorkspaceCommand {
    type V = WorkspaceCommandModel;

    open spec fn view(&self) -> WorkspaceCommandModel {
        match self {
            WorkspaceCommand::Artifact => WorkspaceCommandModel::Artifact,
            WorkspaceCommand::Create(id) => WorkspaceCommandModel::Create(id@),
            WorkspaceCommand::List => WorkspaceCommandModel::List,
            WorkspaceCommand::Show(id) => WorkspaceCommandModel::Show(id@),
            WorkspaceCommand::Grant { workspace, capability, kind, resource, actions } =>
                WorkspaceCommandModel::Grant {
                workspace: workspace@,
                capability: capability@,
                kind: kind@,
                resource: resource@,
                actions: texts(actions@),
            },
            WorkspaceCommand::Revoke { workspace, capability } => WorkspaceCommandModel::Revoke {
                workspace: workspace@,
                capability: capability@,
            },
            WorkspaceCommand::Usage => WorkspaceCommandModel::Usage,
        }
    }
}

/// What the arguments ask of the workspaces.
pub open spec fn workspace_asked(all: Seq<Seq<char>>) -> WorkspaceCommandModel {
    if all.len() == 0 {
        WorkspaceCommandModel::Usage
    } else if all[0] == "artifact"@ {
        WorkspaceCommandModel::Artifact
    } else if all[0] == "create"@ && all.len() == 2 {
        WorkspaceCommandModel::Create(all[1])
    } else if all[0] == "list"@ && all.len() == 1 {
        WorkspaceCommandModel::List
    } else if all[0] == "show"@ && all.len() == 2 {
        WorkspaceCommandModel::Show(all[1])
    } else if all[0] == "grant"@ && all.len() >= 6 {
        WorkspaceCommandModel::Grant {
            workspace: all[1],
            capability: all[2],
            kind: all[3],
            resource: all[4],
            actions: all.skip(5),
        }
    } else if all[0] == "revoke"@ && all.len() == 3 {
        WorkspaceCommandModel::Revoke { workspace: all[1], capability: all[2] }
    } else {
        WorkspaceCommandModel::Usage
    }
}

fn copy_from(arguments: &[String], from: usize) -> (r: Vec<String>)
    requires
        from <= arguments@.len(),
    ensures
        texts(r@) == texts(arguments@).skip(from as int),
{
    let ghost all = texts(arguments@).skip(from as int);
    let mut r: Vec<String> = Vec::new();
    let mut i: usize = from;
    assert(texts(r@) =~= all.take(0));
    while i < arguments.len()
        invariant
            from <= i <= arguments@.len(),
            all == texts(arguments@).skip(from as int),
            texts(r@) == all.take(i - from),
        decreases arguments@.len() - i,
    {
        let ghost before = r@;
        r.push(arguments[i].clone());
        assert(texts(r@) =~= texts(before).push(arguments@[i as int]@));
        assert(all.take(i + 1 - from) =~= all.take(i - from).push(arguments@[i as int]@));
        i += 1;
    }
    assert(all.take(i - from) =~= all);
    r
}

/// What the arguments ask of the workspaces.
pub fn parse_workspace_command(arguments: &[String]) -> (r: WorkspaceCommand)
    ensures
        r@ == workspace_asked(texts(arguments@)),
{
    let ghost all = texts(arguments@);
    assert(all.len() == arguments@.len());
    if arguments.len() == 0 {
        return WorkspaceCommand::Usage;
    }
    assert(forall|i: int| 0 <= i < all.len() ==> #[trigger] all[i] == arguments@[i]@);
    let command = arguments[0].as_str();
    if same_text(command, "artifact") {
        WorkspaceCommand::Artifact
    } else if same_text(command, "create") && arguments.len() == 2 {
        WorkspaceCommand::Create(arguments[1].clone())
    } else if same_text(command, "list") && arguments.len() == 1 {
        WorkspaceCommand::List
    } else if same_text(command, "show") && arguments.len() == 2 {
        WorkspaceCommand::Show(arguments[1].clone())
    } else if same_text(command, "grant") && arguments.len() >= 6 {
        WorkspaceCommand::Grant {
            workspace: arguments[1].clone(),
            capability: arguments[2].clone(),
            kind: arguments[3].clone(),
            resource: arguments[4].clone(),
            actions: copy_from(arguments, 5),
        }
    } else if same_text(command, "revoke") && arguments.len() == 3 {
        WorkspaceCommand::Revoke {
            workspace: arguments[1].clone(),
            capability: arguments[2].clone(),
        }
    } else {
        WorkspaceCommand::Usage
    }
}

/// What came of a command on workspaces.
#[derive(Debug, PartialEq, Eq)]
pub enum WorkspaceOutcome {
    /// The control plane is to be saved; this is said once it is.
    Changed(String),
    Said(Vec<String>),
    Shown(WorkspaceView),
    Failed(String),
    /// How the commands are used.
    Usage,
    /// The command is one on artifacts.
    Artifact,
}

/// What a [`WorkspaceOutcome`] says.
#[verifier::ext_equal]
pub enum OutcomeModel {
    Changed(Seq<char>),
    Said(Seq<Seq<char>>),
    Shown(ViewModel),
    Failed(Seq<char>),
    Usage,
    Artifact,
}

impl View for WorkspaceOutcome {
    type V = OutcomeModel;

    open spec fn view(&self) -> OutcomeModel {
        match self {
            WorkspaceOutcome::Changed(line) => OutcomeModel::Changed(line@),
            WorkspaceOutcome::Said(lines) => OutcomeModel::Said(texts(lines@)),
            WorkspaceOutcome::Shown(view) => OutcomeModel::Shown(view@),
            WorkspaceOutcome::Failed(message) => OutcomeModel::Failed(message@),
            WorkspaceOutcome::Usage => OutcomeModel::Usage,
            WorkspaceOutcome::Artifact => OutcomeModel::Artifact,
        }
    }
}

/// The word for the state of a workspace.
pub open spec fn state_word(state: WorkspaceState) -> Seq<char> {
    match state {
        WorkspaceState::Active => "Active"@,
        WorkspaceState::Suspended => "Suspended"@,
    }
}

/// A workspace as it is listed.
pub open spec fn workspace_line(view: ViewModel) -> Seq<char> {
    view.id + "\t"@ + state_word(view.state) + "\t"@ + decimal(view.capabilities.len())
        + " capabilities\t"@ + decimal(view.observations.len()) + " observations"@
}

/// The lines that list the workspaces of an owner.
pub open spec fn workspace_lines(owner: Seq<char>, views: Seq<ViewModel>) -> Seq<Seq<char>> {
    if views.len() == 0 {
        seq!["no workspaces for "@ + owner]
    } else {
        Seq::new(views.len(), |i: int| workspace_line(views[i]))
    }
}

fn format_workspace(view: &WorkspaceView) -> (r: String)
    ensures
        r@ == workspace_line(view@),
{
    let mut line = labelled(view.id.as_str(), "\t");
    line.push_str(
        match view.state {
            WorkspaceState::Active => "Active",
            WorkspaceState::Suspended => "Suspended",
        },
    );
    line.push_str("\t");
    line.push_str(size_text(view.capabilities.len()).as_str());
    line.push_str(" capabilities\t");
    line.push_str(size_text(view.observations.len()).as_str());
    line.push_str(" observations");
    line
}

fn list_workspaces(owner: &str, views: &Vec<WorkspaceView>) -> (r: Vec<String>)
    ensures
        texts(r@) == workspace_lines(owner@, view_models(views@)),
{
    let ghost models = view_models(views@);
    let ghost all = workspace_lines(owner@, models);
    let mut lines: Vec<String> = Vec::new();
    assert(models.len() == views@.len());
    if views.len() == 0 {
        let line = labelled("no workspaces for ", owner);
        lines.push(line);
        assert(texts(lines@) =~= seq![line@]);
        return lines;
    }
    let mut i: usize = 0;
    assert(texts(lines@) =~= all.take(0));
    while i < views.len()
        invariant
            i <= views@.len(),
            views@.len() > 0,
            models == view_models(views@),
            all == workspace_lines(owner@, models),
            texts(lines@) == all.take(i as int),
        decreases views@.len() - i,
    {
        assert(models[i as int] == views@[i as int]@);
        let line = format_workspace(&views[i]);
        let ghost before = lines@;
        lines.push(line);
        assert(texts(lines@) =~= texts(before).push(line@));
        assert(all.take(i + 1) =~= all.take(i as int).push(all[i as int]));
        i += 1;
    }
    assert(all.take(i as int) =~= all);
    lines
}

/// What is said of a workspace error.
pub open spec fn workspace_failure(trouble: PlaneTrouble) -> OutcomeModel {
    OutcomeModel::Failed("workspace error: "@ + plane_trouble_text(trouble))
}

/// The grant that a command asks for.
pub open spec fn wanted_grant(
    capability: Seq<char>,
    kind: Seq<char>,
    resource: Seq<char>,
    actions: Seq<Seq<char>>,
) -> GrantModel {
    GrantModel { id: capability, kind, resource, actions: action_set(actions) }
}

/// The control plane after a command, and what came of it.
pub open spec fn workspace_done(
    plane: PlaneState,
    owner: Seq<char>,
    command: WorkspaceCommandModel,
) -> (PlaneState, OutcomeModel) {
    match command {
        WorkspaceCommandModel::Artifact => (plane, OutcomeModel::Artifact),
        WorkspaceCommandModel::Usage => (plane, OutcomeModel::Usage),
        WorkspaceCommandModel::List => (
            plane,
            OutcomeModel::Said(workspace_lines(owner, listed_views(plane, owner, 0))),
        ),
        WorkspaceCommandModel::Show(id) => (
            plane,
            match inspected(plane, owner, id) {
                Ok(view) => OutcomeModel::Shown(view),
                Err(trouble) => workspace_failure(trouble),
            },
        ),
        WorkspaceCommandModel::Create(id) => {
            let (after, result) = workspace_created(plane, owner, id);
            (
                after,
                match result {
                    Ok(_) => OutcomeModel::Changed("created workspace "@ + owner + "/"@ + id),
                    Err(trouble) => workspace_failure(trouble),
                },
            )
        },
        WorkspaceCommandModel::Grant { workspace, capability, kind, resource, actions } => {
            let grant = wanted_grant(capability, kind, resource, actions);
            match grant_trouble(grant) {
                Some(trouble) => (plane, workspace_failure(trouble)),
                None => {
                    let (after, result) = capability_granted(plane, owner, workspace, grant);
                    (
                        after,
                        match result {
                            Ok(_) => OutcomeModel::Changed(
                                "granted capability "@ + capability + " to "@ + owner + "/"@
                                    + workspace,
                            ),
                            Err(trouble) => workspace_failure(trouble),
                        },
                    )
                },
            }
        },
        WorkspaceCommandModel::Revoke { workspace, capability } => {
            let (after, result) = capability_revoked(plane, owner, workspace, capability);
            (
                after,
                match result {
                    Ok(_) => OutcomeModel::Changed(
                        "revoked capability "@ + capability + " from "@ + owner + "/"@ + workspace,
                    ),
                    Err(trouble) => workspace_failure(trouble),
                },
            )
        },
    }
}

fn tell_change(label: &str, capability: &str, link: &str, owner: &str, workspace: &str) -> (r:
    String)
    ensures
        r@ == label@ + capability@ + link@ + owner@ + "/"@ + workspace@,
{
    let mut line = labelled(label, capability);
    line.push_str(link);
    line.push_str(owner);
    line.push_str("/");
    line.push_str(workspace);
    line
}

/// Carries out a command on workspaces.
pub fn run_workspace_command(plane: &mut ControlPlane, owner: &str, command: WorkspaceCommand) -> (r:
    WorkspaceOutcome)
    requires
        old(plane)@.next_sequence < u64::MAX,
    ensures
        (final(plane)@, r@) == workspace_done(old(plane)@, owner@, command@),
{
    match command {
        WorkspaceCommand::Artifact => WorkspaceOutcome::Artifact,
        WorkspaceCommand::Usage => WorkspaceOutcome::Usage,
        WorkspaceCommand::List => {
            let views = plane.list(owner);
            WorkspaceOutcome::Said(list_workspaces(owner, &views))
        },
        WorkspaceCommand::Show(id) => match plane.inspect(owner, id.as_str()) {
            Ok(view) => WorkspaceOutcome::Shown(view),
            Err(error) => WorkspaceOutcome::Failed(
                labelled("workspace error: ", error.to_text().as_str()),
            ),
        },
        WorkspaceCommand::Create(id) => match plane.create_workspace(owner, id.as_str()) {
            Ok(_) => {
                let mut line = labelled("created workspace ", owner);
                line.push_str("/");
                line.push_str(id.as_str());
                WorkspaceOutcome::Changed(line)
            },
            Err(error) => WorkspaceOutcome::Failed(
                labelled("workspace error: ", error.to_text().as_str()),
            ),
        },
        WorkspaceCommand::Grant { workspace, capability, kind, resource, actions } => {
            let grant = match CapabilityGrant::new(
                capability.as_str(),
                kind.as_str(),
                resource.as_str(),
                actions,
            ) {
                Ok(grant) => grant,
                Err(error) => {
                    return WorkspaceOutcome::Failed(
                        labelled("workspace error: ", error.to_text().as_str()),
                    );
                },
            };
            match plane.grant_capability(owner, workspace.as_str(), grant) {
                Ok(_) => WorkspaceOutcome::Changed(
                    tell_change(
                        "granted capability ",
                        capability.as_str(),
                        " to ",
                        owner,
                        workspace.as_str(),
                    ),
                ),
                Err(error) => WorkspaceOutcome::Failed(
                    labelled("workspace error: ", error.to_text().as_str()),
                ),
            }
        },
        WorkspaceCommand::Revoke { workspace, capability } => match plane.revoke_capability(
            owner,
            workspace.as_str(),
            capability.as_str(),
        ) {
            Ok(_) => WorkspaceOutcome::Changed(
                tell_change(
                    "revoked capability ",
                    capability.as_str(),
                    " from ",
                    owner,
                    workspace.as_str(),
                ),
            ),
            Err(error) => WorkspaceOutcome::Failed(
                labelled("workspace error: ", error.to_text().as_str()),
            ),
        },
    }
}

// ---------------------------------------------------------------------------
// Artifacts
// ---------------------------------------------------------------------------

/// What is asked of the artifacts of a workspace.
#[derive(Debug, PartialEq, Eq)]
pub enum ArtifactCommand {
    Create { workspace: String, artifact_id: String, name: String, kind: ArtifactKind },
    Import(ArtifactImportArguments),
    List(String),
    History { workspace: String, artifact_id: String },
}

/// Whether the arguments are a command on artifacts that is complete.
pub open spec fn complete_artifact_command(all: Seq<Seq<char>>) -> bool {
    all.len() > 0 && ((all[0] == "create"@ && all.len() == 5) || all[0] == "import"@ || (all[0]
        == "list"@ && all.len() == 2) || (all[0] == "history"@ && all.len() == 3))
}

/// What the arguments ask of the artifacts.
pub fn parse_artifact_command(arguments: &[String]) -> (r: Result<ArtifactCommand, String>)
    ensures
        ({
            let all = texts(arguments@);
            match r {
                Ok(ArtifactCommand::Create { workspace, artifact_id, name, kind }) => {
                    &&& all.len() == 5
                    &&& all[0] == "create"@
                    &&& workspace@ == all[1]
                    &&& artifact_id@ == all[2]
                    &&& name@ == all[3]
                    &&& artifact_kind(all[4]) == Ok::<ArtifactKind, Seq<char>>(kind)
                },
                Ok(ArtifactCommand::Import(request)) => {
                    &&& 6 <= all.len() <= 7
                    &&& all[0] == "import"@
                    &&& request.workspace@ == all[1]
                    &&& request.artifact_id@ == all[2]
                    &&& request.version_id@ == all[3]
                    &&& request.file@ == all[4]
                    &&& request.media_type@ == all[5]
                    &&& match request.parent_version_id {
                        Some(parent) => all.len() == 7 && parent@ == all[6],
                        None => all.len() == 6,
                    }
                },
                Ok(ArtifactCommand::List(workspace)) => all.len() == 2 && all[0] == "list"@
                    && workspace@ == all[1],
                Ok(ArtifactCommand::History { workspace, artifact_id }) => {
                    &&& all.len() == 3
                    &&& all[0] == "history"@
                    &&& workspace@ == all[1]
                    &&& artifact_id@ == all[2]
                },
                Err(message) => if !complete_artifact_command(all) {
                    message@ == ARTIFACT_USAGE@
                } else if all[0] == "import"@ {
                    !(6 <= all.len() <= 7) && message@ == ARTIFACT_IMPORT_USAGE@
                } else {
                    all[0] == "create"@ && artifact_kind(all[4]) == Err::<ArtifactKind, Seq<char>>(
                        message@,
                    )
                },
            }
        }),
{
    let ghost all = texts(arguments@);
    assert(all.len() == arguments@.len());
    if arguments.len() == 0 {
        return Err(ARTIFACT_USAGE.to_owned());
    }
    assert(forall|i: int| 0 <= i < all.len() ==> #[trigger] all[i] == arguments@[i]@);
    let command = arguments[0].as_str();
    proof {
        reveal_strlit("create");
        reveal_strlit("import");
        reveal_strlit("list");
        reveal_strlit("history");
        assert("create"@[0] != "import"@[0]);
        assert("list"@.len() != "import"@.len());
        assert("history"@.len() != "import"@.len());
    }
    if same_text(command, "create") && arguments.len() == 5 {
        match parse_artifact_kind(arguments[4].as_str()) {
            Err(message) => Err(message),
            Ok(kind) => Ok(
                ArtifactCommand::Create {
                    workspace: arguments[1].clone(),
                    artifact_id: arguments[2].clone(),
                    name: arguments[3].clone(),
                    kind,
                },
            ),
        }
    } else if same_text(command, "import") {
        let rest = slice_subrange(arguments, 1, arguments.len());
        assert(texts(rest@) =~= all.skip(1));
        match parse_artifact_import_arguments(rest) {
            Err(message) => Err(message),
            Ok(request) => Ok(ArtifactCommand::Import(request)),
        }
    } else if same_text(command, "list") && arguments.len() == 2 {
        Ok(ArtifactCommand::List(arguments[1].clone()))
    } else if same_text(command, "history") && arguments.len() == 3 {
        Ok(
            ArtifactCommand::History {
                workspace: arguments[1].clone(),
                artifact_id: arguments[2].clone(),
            },
        )
    } else {
        Err(ARTIFACT_USAGE.to_owned())
    }
}

/// The artifact that an owner asks for.
pub open spec fn wanted_artifact(
    owner: Seq<char>,
    workspace: Seq<char>,
    artifact_id: Seq<char>,
    name: Seq<char>,
    kind: ArtifactKind,
) -> ArtifactModel {
    ArtifactModel {
        id: artifact_id,
        workspace_id: workspace,
        name,
        kind,
        created_by: owner,
        current_version_id: None,
        version_ids: Seq::empty(),
    }
}

/// Creates an artifact, and says so.
pub fn create_artifact(
    artifacts: &mut ArtifactStore,
    owner: &str,
    workspace: &str,
    artifact_id: &str,
    name: &str,
    kind: ArtifactKind,
) -> (r: Result<String, String>)
    ensures
        ({
            let wanted = wanted_artifact(owner@, workspace@, artifact_id@, name@, kind);
            &&& final(artifacts)@ == artifact_created(old(artifacts)@, wanted)
            &&& match artifact_trouble(old(artifacts)@, wanted) {
                None => r matches Ok(line) && line@ == "created artifact "@ + artifact_id@ + " in "@
                    + owner@ + "/"@ + workspace@,
                Some(trouble) => r matches Err(message) && message@ == artifact_trouble_text(
                    trouble,
                ),
            }
        }),
{
    match artifacts.create_artifact(
        NewArtifact::new(artifact_id, workspace, name, kind, owner),
    ) {
        Err(error) => Err(error.to_text()),
        Ok(artifact) => Ok(
            tell_change("created artifact ", artifact.id.as_str(), " in ", owner, workspace),
        ),
    }
}

/// The version that an import asks for, once its content is stored.
pub open spec fn wanted_version(
    owner: Seq<char>,
    request: ArtifactImportArguments,
    stored: (Seq<char>, u64),
) -> VersionRequest {
    VersionRequest {
        id: request.version_id@,
        artifact_id: request.artifact_id@,
        parent_version_id: text_option(request.parent_version_id),
        input_version_ids: Seq::empty(),
        content_reference: stored.0,
        media_type: request.media_type@,
        byte_len: stored.1,
        created_by: owner,
    }
}

/// Whether an artifact belongs to another workspace.
pub open spec fn foreign(s: StoreState, workspace: Seq<char>, artifact_id: Seq<char>) -> bool {
    artifact_at(s, artifact_id) matches Some(artifact) && artifact.workspace_id != workspace
}

fn is_foreign(artifacts: &ArtifactStore, workspace: &str, artifact_id: &str) -> (r: bool)
    ensures
        r == foreign(artifacts@, workspace@, artifact_id@),
{
    match artifacts.artifact(artifact_id) {
        Some(artifact) => !same_text(artifact.workspace_id.as_str(), workspace),
        None => false,
    }
}

/// Adds a version with stored content to an artifact of a workspace, and says so. An artifact of
/// another workspace is not found.
pub fn import_artifact_version(
    artifacts: &mut ArtifactStore,
    owner: &str,
    request: &ArtifactImportArguments,
    stored: &StoredContent,
) -> (r: Result<String, String>)
    ensures
        ({
            let wanted = wanted_version(owner@, *request, stored@);
            if foreign(old(artifacts)@, request.workspace@, request.artifact_id@) {
                &&& final(artifacts)@ == old(artifacts)@
                &&& r matches Err(message) && message@ == artifact_trouble_text(
                    ArtifactTrouble::ArtifactNotFound(request.artifact_id@),
                )
            } else {
                &&& final(artifacts)@ == version_created(old(artifacts)@, wanted)
                &&& match version_trouble(old(artifacts)@, wanted) {
                    None => r matches Ok(line) && line@ == "imported version "@ + wanted.id
                        + " for "@ + wanted.artifact_id + " ("@ + stored@.0 + ")"@,
                    Some(trouble) => r matches Err(message) && message@ == artifact_trouble_text(
                        trouble,
                    ),
                }
            }
        }),
{
    if is_foreign(artifacts, request.workspace.as_str(), request.artifact_id.as_str()) {
        return Err(ArtifactError::ArtifactNotFound(request.artifact_id.clone()).to_text());
    }
    let mut version = NewArtifactVersion::new(
        request.version_id.as_str(),
        request.artifact_id.as_str(),
        stored.reference.as_str(),
        request.media_type.as_str(),
        stored.byte_len,
        owner,
    );
    if let Some(parent) = &request.parent_version_id {
        version = version.with_parent(parent.as_str());
    }
    match artifacts.create_version(version) {
        Err(error) => Err(error.to_text()),
        Ok(created) => {
            let mut line = labelled("imported version ", created.id.as_str());
            line.push_str(" for ");
            line.push_str(created.artifact_id.as_str());
            line.push_str(" (");
            line.push_str(created.content_reference.as_str());
            line.push_str(")");
            Ok(line)
        },
    }
}

/// An identifier, or a dash where there is none.
pub open spec fn or_dash(id: Option<Seq<char>>) -> Seq<char> {
    match id {
        Some(id) => id,
        None => "-"@,
    }
}

fn dash_text(id: &Option<String>) -> (r: String)
    ensures
        r@ == or_dash(text_option(*id)),
{
    match id {
        Some(id) => id.clone(),
        None => "-".to_owned(),
    }
}

/// An artifact as it is listed.
pub open spec fn artifact_line(artifact: ArtifactModel) -> Seq<char> {
    artifact.id + "\t"@ + artifact.name + "\t"@ + (match artifact.kind {
        ArtifactKind::Source => "Source"@,
        ArtifactKind::Generated => "Generated"@,
    }) + "\t"@ + or_dash(artifact.current_version_id)
}

/// The lines that list the artifacts of a workspace.
pub open spec fn artifact_listing(
    owner: Seq<char>,
    workspace: Seq<char>,
    artifacts: Seq<ArtifactModel>,
) -> Seq<Seq<char>> {
    if artifacts.len() == 0 {
        seq!["no artifacts in "@ + owner + "/"@ + workspace]
    } else {
        Seq::new(artifacts.len(), |i: int| artifact_line(artifacts[i]))
    }
}

/// The lines that list the artifacts of a workspace.
pub fn list_artifacts(owner: &str, workspace: &str, artifacts: &Vec<Artifact>) -> (r: Vec<String>)
    ensures
        texts(r@) == artifact_listing(owner@, workspace@, artifact_models(artifacts@)),
{
    let ghost models = artifact_models(artifacts@);
    let ghost all = artifact_listing(owner@, workspace@, models);
    let mut lines: Vec<String> = Vec::new();
    if artifacts.len() == 0 {
        let mut line = labelled("no artifacts in ", owner);
        line.push_str("/");
        line.push_str(workspace);
        lines.push(line);
        assert(texts(lines@) =~= seq![line@]);
        return lines;
    }
    let mut i: usize = 0;
    assert(texts(lines@) =~= all.take(0));
    while i < artifacts.len()
        invariant
            i <= artifacts@.len(),
            artifacts@.len() > 0,
            models == artifact_models(artifacts@),
            all == artifact_listing(owner@, workspace@, models),
            texts(lines@) == all.take(i as int),
        decreases artifacts@.len() - i,
    {
        let artifact = &artifacts[i];
        assert(models[i as int] == artifact@);
        let mut line = labelled(artifact.id.as_str(), "\t");
        line.push_str(artifact.name.as_str());
        line.push_str("\t");
        line.push_str(
            match artifact.kind {
                ArtifactKind::Source => "Source",
                ArtifactKind::Generated => "Generated",
            },
        );
        line.push_str("\t");
        line.push_str(dash_text(&artifact.current_version_id).as_str());
        let ghost before = lines@;
        lines.push(line);
        assert(texts(lines@) =~= texts(before).push(line@));
        assert(all.take(i + 1) =~= all.take(i as int).push(all[i as int]));
        i += 1;
    }
    assert(all.take(i as int) =~= all);
    lines
}

/// A version as it is listed.
pub open spec fn version_line(version: VersionModel) -> Seq<char> {
    version.id + "\t"@ + version.content_reference + "\t"@ + version.media_type + "\t"@ + or_dash(
        version.parent_version_id,
    )
}

/// The lines that list versions.
pub open spec fn version_lines(versions: Seq<VersionModel>) -> Seq<Seq<char>> {
    Seq::new(versions.len(), |i: int| version_line(versions[i]))
}

/// The lines that list the versions of an artifact of a workspace, from the first one on. An
/// artifact of another workspace is not found.
pub fn artifact_history(artifacts: &ArtifactStore, workspace: &str, artifact_id: &str) -> (r: Result<
    Vec<String>,
    String,
>)
    ensures
        match r {
            Ok(lines) => artifact_at(artifacts@, artifact_id@) is Some && !foreign(
                artifacts@,
                workspace@,
                artifact_id@,
            ) && texts(lines@) == version_lines(history_of(artifacts@, artifact_id@)),
            Err(message) => (artifact_at(artifacts@, artifact_id@) is None || foreign(
                artifacts@,
                workspace@,
                artifact_id@,
            )) && message@ == artifact_trouble_text(
                ArtifactTrouble::ArtifactNotFound(artifact_id@),
            ),
        },
{
    if artifacts.artifact(artifact_id).is_none() || is_foreign(artifacts, workspace, artifact_id) {
        return Err(ArtifactError::ArtifactNotFound(artifact_id.to_owned()).to_text());
    }
    let versions = artifacts.version_history(artifact_id);
    let ghost models = version_models(versions@);
    let ghost all = version_lines(models);
    let mut lines: Vec<String> = Vec::new();
    let mut i: usize = 0;
    assert(texts(lines@) =~= all.take(0));
    while i < versions.len()
        invariant
            i <= versions@.len(),
            models == version_models(versions@),
            all == version_lines(models),
            texts(lines@) == all.take(i as int),
        decreases versions@.len() - i,
    {
        let version: &ArtifactVersion = versions[i];
        assert(models[i as int] == version@);
        let mut line = labelled(version.id.as_str(), "\t");
        line.push_str(version.content_reference.as_str());
        line.push_str("\t");
        line.push_str(version.media_type.as_str());
        line.push_str("\t");
        line.push_str(dash_text(&version.parent_version_id).as_str());
        let ghost before = lines@;
        lines.push(line);
        assert(texts(lines@) =~= texts(before).push(line@));
        assert(all.take(i + 1) =~= all.take(i as int).push(all[i as int]));
        i += 1;
    }
    assert(all.take(i as int) =~= all);
    Ok(lines)
}

/// The commands on workspaces do what their words say, for the owner that gives them: the one to
/// create creates, the one to grant grants this capability on this resource with these actions, the
/// one to revoke revokes it, and those to list and to show change nothing.
pub proof fn law_workspace_commands_do_what_they_say(
    plane: PlaneState,
    owner: Seq<char>,
    workspace: Seq<char>,
    capability: Seq<char>,
    kind: Seq<char>,
    resource: Seq<char>,
    actions: Seq<Seq<char>>,
)
    requires
        actions.len() > 0,
        grant_trouble(wanted_grant(capability, kind, resource, actions)) is None,
    ensures
        workspace_done(plane, owner, workspace_asked(seq!["create"@, workspace])).0
            == workspace_created(plane, owner, workspace).0,
        workspace_done(plane, owner, workspace_asked(seq!["list"@])).0 == plane,
        workspace_done(plane, owner, workspace_asked(seq!["show"@, workspace])).0 == plane,
        workspace_done(
            plane,
            owner,
            workspace_asked(seq!["revoke"@, workspace, capability]),
        ).0 == capability_revoked(plane, owner, workspace, capability).0,
        workspace_done(
            plane,
            owner,
            workspace_asked(seq!["grant"@, workspace, capability, kind, resource] + actions),
        ).0 == capability_granted(
            plane,
            owner,
            workspace,
            GrantModel { id: capability, kind, resource, actions: action_set(actions) },
        ).0,
{
    reveal_strlit("artifact");
    reveal_strlit("create");
    reveal_strlit("list");
    reveal_strlit("show");
    reveal_strlit("grant");
    reveal_strlit("revoke");
    assert("artifact"@[0] == 'a');
    assert("create"@[0] == 'c');
    assert("list"@[0] == 'l');
    assert("show"@[0] == 's');
    assert("grant"@[0] == 'g');
    assert("revoke"@[0] == 'r');
    let all = seq!["grant"@, workspace, capability, kind, resource] + actions;
    assert(all[0] == "grant"@ && all[1] == workspace && all[2] == capability && all[3] == kind
        && all[4] == resource);
    assert(all.skip(5) =~= actions);
}

/// Artifacts and versions are listed one to a line, each from its identifier to the version that it
/// leads to or comes from, with a dash where there is none.
pub proof fn law_artifacts_are_listed(
    owner: Seq<char>,
    workspace: Seq<char>,
    artifacts: Seq<ArtifactModel>,
    versions: Seq<VersionModel>,
    i: int,
)
    ensures
        0 <= i < artifacts.len() ==> {
            let line = artifact_listing(owner, workspace, artifacts)[i];
            &&& artifact_listing(owner, workspace, artifacts).len() == artifacts.len()
            &&& begins(line, artifacts[i].id + "\t"@ + artifacts[i].name + "\t"@)
            &&& ends(
                line,
                "\t"@ + (match artifacts[i].current_version_id {
                    Some(id) => id,
                    None => seq!['-'],
                }),
            )
        },
        0 <= i < versions.len() ==> {
            let line = version_lines(versions)[i];
            &&& version_lines(versions).len() == versions.len()
            &&& begins(line, versions[i].id + "\t"@ + versions[i].content_reference + "\t"@)
            &&& ends(
                line,
                versions[i].media_type + "\t"@ + (match versions[i].parent_version_id {
                    Some(id) => id,
                    None => seq!['-'],
                }),
            )
        },
{
    reveal_strlit("-");
    assert("-"@ =~= seq!['-']);
    if 0 <= i < artifacts.len() {
        let line = artifact_listing(owner, workspace, artifacts)[i];
        let first = artifacts[i].id + "\t"@ + artifacts[i].name + "\t"@;
        assert(line.take(first.len() as int) =~= first);
        let last = "\t"@ + or_dash(artifacts[i].current_version_id);
        assert(line.skip(line.len() - last.len()) =~= last);
    }
    if 0 <= i < versions.len() {
        let line = version_lines(versions)[i];
        let first = versions[i].id + "\t"@ + versions[i].content_reference + "\t"@;
        assert(line.take(first.len() as int) =~= first);
        let last = versions[i].media_type + "\t"@ + or_dash(versions[i].parent_version_id);
        assert(line.skip(line.len() - last.len()) =~= last);
    }
}

} // verus!
