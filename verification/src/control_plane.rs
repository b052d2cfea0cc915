//! Workspace ownership, capabilities, provenance, and audit control plane.
//!
//! The control plane never stores credentials. A capability identifies an
//! allowed resource and action set; a host-side gatekeeper resolves it to a
//! concrete service credential outside the guest runtime.

use vstd::prelude::*;

#[allow(unused_imports)]
use crate::manager::{
    ManagedModel, ManagerState, ManagerTrouble, SummaryModel, create_in, find_vm, is_named,
    law_create_is_isolated, law_listings_are_scoped, lemma_found_vm, managed_vm,
    manager_trouble_text, summaries, summary,
    summary_models,
};
use crate::manager::{VmManager, VmManagerError, VmSummary};
use crate::ordered::OrderedMap;
#[allow(unused_imports)]
use crate::ordered::{
    OrderedKey, keys_of, law_put_then_get, law_remove_then_get, lemma_found, lemma_not_found,
    lemma_position, lemma_put_after_remove, lemma_put_at_end, lemma_viewed_lookup, lemma_viewed_put,
    lemma_viewed_remove, lemma_viewed_sorted, lemma_with_entry_sorted, lemma_without_entry_sorted,
    lookup, position, present, sorted, viewed, with_entry, without_entry,
};
use crate::runtime::ResourceLimits;
#[allow(unused_imports)]
use crate::runtime::fresh_instance;
use crate::runtime_error::labelled;
#[allow(unused_imports)]
use crate::text::{all_white, ascii_alphanumeric, blank, decimal, law_blank_texts_are_white, texts};
use crate::text::{chars_of, decimal_text, is_ascii_alphanumeric, is_blank, same_text};

verus! {

#[derive(Debug, Clone, Copy, PartialEq, Eq, Structural)]
pub enum WorkspaceState {
    Active,
    Suspended,
}

/// What a workspace may do with one resource. The actions are in order, and none occurs twice.
#[derive(Debug, PartialEq, Eq)]
pub struct CapabilityGrant {
    pub id: String,
    pub kind: String,
    pub resource: String,
    pub actions: Vec<String>,
}

/// What a [`CapabilityGrant`] says.
#[verifier::ext_equal]
pub struct GrantModel {
    pub id: Seq<char>,
    pub kind: Seq<char>,
    pub resource: Seq<char>,
    pub actions: Seq<Seq<char>>,
}

impl View for CapabilityGrant {
    type V = GrantModel;

    open spec fn view(&self) -> GrantModel {
        GrantModel {
            id: self.id@,
            kind: self.kind@,
            resource: self.resource@,
            actions: texts(self.actions@),
        }
    }
}

#[derive(Debug, PartialEq, Eq)]
pub struct Observation {
    pub sequence: u64,
    pub capability_id: String,
    pub resource: String,
    pub action: String,
}

/// What an [`Observation`] says.
#[verifier::ext_equal]
pub struct ObservationModel {
    pub sequence: u64,
    pub capability_id: Seq<char>,
    pub resource: Seq<char>,
    pub action: Seq<char>,
}

impl View for Observation {
    type V = ObservationModel;

    open spec fn view(&self) -> ObservationModel {
        ObservationModel {
            sequence: self.sequence,
            capability_id: self.capability_id@,
            resource: self.resource@,
            action: self.action@,
        }
    }
}

#[derive(Debug, Clone, Copy, PartialEq, Eq, Structural)]
pub enum AuditKind {
    WorkspaceCreated,
    WorkspaceSuspended,
    WorkspaceResumed,
    CapabilityGranted,
    CapabilityRevoked,
    ResourceObserved,
    AccessDenied,
}

#[derive(Debug, PartialEq, Eq)]
pub struct AuditEvent {
    pub sequence: u64,
    pub workspace_id: String,
    pub actor: String,
    pub kind: AuditKind,
    pub detail: String,
}

/// What an [`AuditEvent`] says.
#[verifier::ext_equal]
pub struct AuditModel {
    pub sequence: u64,
    pub workspace_id: Seq<char>,
    pub actor: Seq<char>,
    pub kind: AuditKind,
    pub detail: Seq<char>,
}

impl View for AuditEvent {
    type V = AuditModel;

    open spec fn view(&self) -> AuditModel {
        AuditModel {
            sequence: self.sequence,
            workspace_id: self.workspace_id@,
            actor: self.actor@,
            kind: self.kind,
            detail: self.detail@,
        }
    }
}

impl Clone for CapabilityGrant {
    fn clone(&self) -> (r: Self)
        ensures
            r@ == self@,
    {
        let actions = self.actions.clone();
        assert(texts(actions@) =~= texts(self.actions@));
        CapabilityGrant {
            id: self.id.clone(),
            kind: self.kind.clone(),
            resource: self.resource.clone(),
            actions,
        }
    }
}

impl Clone for Observation {
    fn clone(&self) -> (r: Self)
        ensures
            r@ == self@,
    {
        Observation {
            sequence: self.sequence,
            capability_id: self.capability_id.clone(),
            resource: self.resource.clone(),
            action: self.action.clone(),
        }
    }
}

impl Clone for AuditEvent {
    fn clone(&self) -> (r: Self)
        ensures
            r@ == self@,
    {
        AuditEvent {
            sequence: self.sequence,
            workspace_id: self.workspace_id.clone(),
            actor: self.actor.clone(),
            kind: self.kind,
            detail: self.detail.clone(),
        }
    }
}

pub open spec fn observation_models(observations: Seq<Observation>) -> Seq<ObservationModel> {
    Seq::new(observations.len(), |i: int| observations[i]@)
}

pub open spec fn audit_models(audit: Seq<AuditEvent>) -> Seq<AuditModel> {
    Seq::new(audit.len(), |i: int| audit[i]@)
}

pub open spec fn grant_models(grants: Seq<CapabilityGrant>) -> Seq<GrantModel> {
    Seq::new(grants.len(), |i: int| grants[i]@)
}

fn copy_observations(observations: &Vec<Observation>) -> (r: Vec<Observation>)
    ensures
        observation_models(r@) == observation_models(observations@),
{
    let r = observations.clone();
    assert(observation_models(r@) =~= observation_models(observations@));
    r
}

fn copy_audit(audit: &Vec<AuditEvent>) -> (r: Vec<AuditEvent>)
    ensures
        audit_models(r@) == audit_models(audit@),
{
    let r = audit.clone();
    assert(audit_models(r@) =~= audit_models(audit@));
    r
}

// ---------------------------------------------------------------------------
// Errors
// ---------------------------------------------------------------------------

#[derive(Debug, PartialEq, Eq)]
pub enum ControlPlaneError {
    InvalidInput { field: &'static str },
    AlreadyExists { owner: String, workspace_id: String },
    NotFound { owner: String, workspace_id: String },
    CapabilityAlreadyExists(String),
    CapabilityNotFound(String),
    AccessDenied { capability_id: String, resource: String, action: String },
    WorkspaceSuspended,
    Runtime(String),
    UnsupportedSchema { expected: u32, actual: u32 },
}

/// What a [`ControlPlaneError`] says.
#[verifier::ext_equal]
pub enum PlaneTrouble {
    InvalidInput { field: &'static str },
    AlreadyExists { owner: Seq<char>, workspace_id: Seq<char> },
    NotFound { owner: Seq<char>, workspace_id: Seq<char> },
    CapabilityAlreadyExists(Seq<char>),
    CapabilityNotFound(Seq<char>),
    AccessDenied { capability_id: Seq<char>, resource: Seq<char>, action: Seq<char> },
    WorkspaceSuspended,
    Runtime(Seq<char>),
    UnsupportedSchema { expected: u32, actual: u32 },
}

impl View for ControlPlaneError {
    type V = PlaneTrouble;

    open spec fn view(&self) -> PlaneTrouble {
        match self {
            ControlPlaneError::InvalidInput { field } => PlaneTrouble::InvalidInput {
                field: *field,
            },
            ControlPlaneError::AlreadyExists { owner, workspace_id } =>
                PlaneTrouble::AlreadyExists { owner: owner@, workspace_id: workspace_id@ },
            ControlPlaneError::NotFound { owner, workspace_id } => PlaneTrouble::NotFound {
                owner: owner@,
                workspace_id: workspace_id@,
            },
            ControlPlaneError::CapabilityAlreadyExists(id) =>
                PlaneTrouble::CapabilityAlreadyExists(id@),
            ControlPlaneError::CapabilityNotFound(id) => PlaneTrouble::CapabilityNotFound(id@),
            ControlPlaneError::AccessDenied { capability_id, resource, action } =>
                PlaneTrouble::AccessDenied {
                capability_id: capability_id@,
                resource: resource@,
                action: action@,
            },
            ControlPlaneError::WorkspaceSuspended => PlaneTrouble::WorkspaceSuspended,
            ControlPlaneError::Runtime(message) => PlaneTrouble::Runtime(message@),
            ControlPlaneError::UnsupportedSchema { expected, actual } =>
                PlaneTrouble::UnsupportedSchema { expected: *expected, actual: *actual },
        }
    }
}

/// The message of a control-plane error.
pub open spec fn plane_trouble_text(trouble: PlaneTrouble) -> Seq<char> {
    match trouble {
        PlaneTrouble::InvalidInput { field } => "invalid "@ + field@,
        PlaneTrouble::AlreadyExists { owner, workspace_id } => "workspace already exists: "@ + owner
            + "/"@ + workspace_id,
        PlaneTrouble::NotFound { owner, workspace_id } => "workspace not found: "@ + owner + "/"@
            + workspace_id,
        PlaneTrouble::CapabilityAlreadyExists(id) => "capability already exists: "@ + id,
        PlaneTrouble::CapabilityNotFound(id) => "capability not found: "@ + id,
        PlaneTrouble::AccessDenied { capability_id, resource, action } => "capability "@
            + capability_id + " does not allow "@ + action + " on "@ + resource,
        PlaneTrouble::WorkspaceSuspended => "workspace is suspended"@,
        PlaneTrouble::Runtime(message) => message,
        PlaneTrouble::UnsupportedSchema { expected, actual } =>
            "unsupported control-plane schema: expected "@ + decimal(expected as nat) + ", got "@
                + decimal(actual as nat),
    }
}

impl ControlPlaneError {
    /// The message of the error.
    pub fn to_text(&self) -> (r: String)
        ensures
            r@ == plane_trouble_text(self@),
    {
        match self {
            ControlPlaneError::InvalidInput { field } => labelled("invalid ", field),
            ControlPlaneError::AlreadyExists { owner, workspace_id } => {
                let mut r = labelled("workspace already exists: ", owner.as_str());
                r.push_str("/");
                r.push_str(workspace_id.as_str());
                r
            },
            ControlPlaneError::NotFound { owner, workspace_id } => {
                let mut r = labelled("workspace not found: ", owner.as_str());
                r.push_str("/");
                r.push_str(workspace_id.as_str());
                r
            },
            ControlPlaneError::CapabilityAlreadyExists(id) => labelled(
                "capability already exists: ",
                id.as_str(),
            ),
            ControlPlaneError::CapabilityNotFound(id) => labelled(
                "capability not found: ",
                id.as_str(),
            ),
            ControlPlaneError::AccessDenied { capability_id, resource, action } => {
                let mut r = labelled("capability ", capability_id.as_str());
                r.push_str(" does not allow ");
                r.push_str(action.as_str());
                r.push_str(" on ");
                r.push_str(resource.as_str());
                r
            },
            ControlPlaneError::WorkspaceSuspended => "workspace is suspended".to_owned(),
            ControlPlaneError::Runtime(message) => message.clone(),
            ControlPlaneError::UnsupportedSchema { expected, actual } => {
                let mut r = labelled(
                    "unsupported control-plane schema: expected ",
                    decimal_text(*expected as u64).as_str(),
                );
                r.push_str(", got ");
                r.push_str(decimal_text(*actual as u64).as_str());
                r
            },
        }
    }
}

// ---------------------------------------------------------------------------
// Names and grants
// ---------------------------------------------------------------------------

pub open spec fn name_character(c: char) -> bool {
    ascii_alphanumeric(c) || c == '-' || c == '_' || c == '.'
}

/// A name of at most 128 letters, digits and marks.
pub open spec fn valid_name(value: Seq<char>) -> bool {
    1 <= value.len() <= 128 && forall|i: int|
        0 <= i < value.len() ==> name_character(#[trigger] value[i])
}

fn validate_name(value: &str, field: &'static str) -> (r: Result<(), ControlPlaneError>)
    ensures
        match r {
            Ok(_) => valid_name(value@),
            Err(error) => !valid_name(value@) && error@ == (PlaneTrouble::InvalidInput { field }),
        },
{
    let chars = chars_of(value);
    if chars.len() == 0 || chars.len() > 128 {
        return Err(ControlPlaneError::InvalidInput { field });
    }
    let mut i: usize = 0;
    while i < chars.len()
        invariant
            i <= chars@.len(),
            chars@ == value@,
            forall|j: int| 0 <= j < i ==> name_character(#[trigger] value@[j]),
        decreases chars@.len() - i,
    {
        let c = chars[i];
        if !(is_ascii_alphanumeric(c) || c == '-' || c == '_' || c == '.') {
            assert(!name_character(value@[i as int]));
            return Err(ControlPlaneError::InvalidInput { field });
        }
        i += 1;
    }
    Ok(())
}

fn validate_non_empty(value: &str, field: &'static str) -> (r: Result<(), ControlPlaneError>)
    ensures
        match r {
            Ok(_) => !blank(value@),
            Err(error) => blank(value@) && error@ == (PlaneTrouble::InvalidInput { field }),
        },
{
    if is_blank(value) {
        Err(ControlPlaneError::InvalidInput { field })
    } else {
        Ok(())
    }
}

/// The set of `actions`, as entries in order.
pub open spec fn action_entries(actions: Seq<Seq<char>>) -> Seq<(Seq<char>, ())>
    decreases actions.len(),
{
    if actions.len() == 0 {
        Seq::empty()
    } else {
        with_entry::<String, ()>(action_entries(actions.drop_last()), actions.last(), ())
    }
}

/// The actions in order, each once.
pub open spec fn action_set(actions: Seq<Seq<char>>) -> Seq<Seq<char>> {
    keys_of::<String, ()>(action_entries(actions))
}

/// What is wrong with a grant.
pub open spec fn grant_trouble(grant: GrantModel) -> Option<PlaneTrouble> {
    if !valid_name(grant.id) {
        Some(PlaneTrouble::InvalidInput { field: "capability id" })
    } else if blank(grant.kind) {
        Some(PlaneTrouble::InvalidInput { field: "capability kind" })
    } else if blank(grant.resource) {
        Some(PlaneTrouble::InvalidInput { field: "capability resource" })
    } else if grant.actions.len() == 0 || exists|i: int|
        0 <= i < grant.actions.len() && blank(#[trigger] grant.actions[i]) {
        Some(PlaneTrouble::InvalidInput { field: "capability actions" })
    } else {
        None
    }
}

/// Whether a grant allows `action`.
pub open spec fn grant_allows(grant: GrantModel, action: Seq<char>) -> bool {
    grant.actions.contains(action)
}

fn ordered_actions(actions: &Vec<String>) -> (r: Vec<String>)
    ensures
        texts(r@) == action_set(texts(actions@)),
{
    let ghost all = texts(actions@);
    let mut set: OrderedMap<String, ()> = OrderedMap::new();
    let mut i: usize = 0;
    assert(all.take(0) =~= Seq::<Seq<char>>::empty());
    while i < actions.len()
        invariant
            i <= actions@.len(),
            all == texts(actions@),
            set@ == action_entries(all.take(i as int)),
        decreases actions@.len() - i,
    {
        assert(all.take(i + 1).drop_last() =~= all.take(i as int));
        assert(all.take(i + 1).last() == actions@[i as int]@);
        set.insert(actions[i].clone(), ());
        i += 1;
    }
    assert(all.take(all.len() as int) =~= all);
    let ghost entries = set@;
    let r = set.into_keys();
    assert(texts(r@) =~= keys_of::<String, ()>(entries));
    r
}

impl CapabilityGrant {
    pub fn new(id: &str, kind: &str, resource: &str, actions: Vec<String>) -> (r: Result<
        Self,
        ControlPlaneError,
    >)
        ensures
            ({
                let wanted = GrantModel {
                    id: id@,
                    kind: kind@,
                    resource: resource@,
                    actions: action_set(texts(actions@)),
                };
                match r {
                    Ok(grant) => grant_trouble(wanted) is None && grant@ == wanted,
                    Err(error) => grant_trouble(wanted) == Some(error@),
                }
            }),
    {
        let ordered = ordered_actions(&actions);
        if let Err(error) = validate_name(id, "capability id") {
            return Err(error);
        }
        if let Err(error) = validate_non_empty(kind, "capability kind") {
            return Err(error);
        }
        if let Err(error) = validate_non_empty(resource, "capability resource") {
            return Err(error);
        }
        let ghost set = texts(ordered@);
        if ordered.len() == 0 {
            return Err(ControlPlaneError::InvalidInput { field: "capability actions" });
        }
        let mut i: usize = 0;
        while i < ordered.len()
            invariant
                i <= ordered@.len(),
                set == texts(ordered@),
                set == action_set(texts(actions@)),
                valid_name(id@),
                !blank(kind@),
                !blank(resource@),
                forall|j: int| 0 <= j < i ==> !blank(#[trigger] set[j]),
            decreases ordered@.len() - i,
        {
            if is_blank(ordered[i].as_str()) {
                assert(blank(set[i as int]));
                return Err(ControlPlaneError::InvalidInput { field: "capability actions" });
            }
            i += 1;
        }
        Ok(
            CapabilityGrant {
                id: id.to_owned(),
                kind: kind.to_owned(),
                resource: resource.to_owned(),
                actions: ordered,
            },
        )
    }

    /// Whether the grant allows `action`.
    pub fn allows(&self, action: &str) -> (r: bool)
        ensures
            r == grant_allows(self@, action@),
    {
        let ghost all = texts(self.actions@);
        let mut i: usize = 0;
        while i < self.actions.len()
            invariant
                i <= self.actions@.len(),
                all == texts(self.actions@),
                forall|j: int| 0 <= j < i ==> #[trigger] all[j] != action@,
            decreases self.actions@.len() - i,
        {
            if same_text(self.actions[i].as_str(), action) {
                assert(all[i as int] == action@);
                return true;
            }
            i += 1;
        }
        false
    }
}

// ---------------------------------------------------------------------------
// Workspaces
// ---------------------------------------------------------------------------

/// The owner and the identifier of a workspace.
pub open spec fn workspace_key(owner: Seq<char>, id: Seq<char>) -> Seq<Seq<char>> {
    seq![owner, id]
}

fn key_of(owner: &str, id: &str) -> (r: Vec<String>)
    ensures
        texts(r@) == workspace_key(owner@, id@),
{
    let mut r: Vec<String> = Vec::new();
    r.push(owner.to_owned());
    r.push(id.to_owned());
    assert(texts(r@) =~= workspace_key(owner@, id@));
    r
}

#[derive(Debug)]
pub struct WorkspaceRecord {
    id: String,
    owner: String,
    state: WorkspaceState,
    capabilities: OrderedMap<String, CapabilityGrant>,
    observations: Vec<Observation>,
    audit: Vec<AuditEvent>,
}

/// What the control plane knows of a workspace. The capabilities stand in the order of their
/// identifiers.
#[verifier::ext_equal]
pub struct RecordModel {
    pub id: Seq<char>,
    pub owner: Seq<char>,
    pub state: WorkspaceState,
    pub capabilities: Seq<(Seq<char>, GrantModel)>,
    pub observations: Seq<ObservationModel>,
    pub audit: Seq<AuditModel>,
}

impl View for WorkspaceRecord {
    type V = RecordModel;

    closed spec fn view(&self) -> RecordModel {
        RecordModel {
            id: self.id@,
            owner: self.owner@,
            state: self.state,
            capabilities: viewed::<String, CapabilityGrant>(self.capabilities@),
            observations: observation_models(self.observations@),
            audit: audit_models(self.audit@),
        }
    }
}

fn copy_capabilities(capabilities: &OrderedMap<String, CapabilityGrant>) -> (r: OrderedMap<
    String,
    CapabilityGrant,
>)
    ensures
        viewed::<String, CapabilityGrant>(r@) == viewed::<String, CapabilityGrant>(capabilities@),
{
    let ghost all = viewed::<String, CapabilityGrant>(capabilities@);
    capabilities.in_order();
    proof {
        lemma_viewed_sorted::<String, CapabilityGrant>(capabilities@);
    }
    let mut r: OrderedMap<String, CapabilityGrant> = OrderedMap::new();
    let mut i: usize = 0;
    assert(viewed::<String, CapabilityGrant>(r@) =~= all.take(0));
    while i < capabilities.len()
        invariant
            i <= capabilities@.len(),
            all == viewed::<String, CapabilityGrant>(capabilities@),
            sorted::<String, GrantModel>(all),
            viewed::<String, CapabilityGrant>(r@) == all.take(i as int),
        decreases capabilities@.len() - i,
    {
        let key = capabilities.key(i).clone();
        let grant = capabilities.value(i).clone();
        proof {
            lemma_viewed_put::<String, CapabilityGrant>(r@, key@, grant);
            let so_far = all.take(i as int);
            assert forall|j: int| 0 <= j < so_far.len() implies <String as OrderedKey>::before(
                (#[trigger] so_far[j]).0,
                key@,
            ) by {
                assert(so_far[j] == all[j]);
                assert(all[i as int].0 == key@);
            }
            lemma_put_at_end::<String, GrantModel>(so_far, key@, grant@);
            assert(all.take(i + 1) =~= so_far.push(all[i as int]));
        }
        r.insert(key, grant);
        i += 1;
    }
    assert(all.take(all.len() as int) =~= all);
    r
}

impl Clone for WorkspaceRecord {
    fn clone(&self) -> (r: Self)
        ensures
            r@ == self@,
    {
        WorkspaceRecord {
            id: self.id.clone(),
            owner: self.owner.clone(),
            state: self.state,
            capabilities: copy_capabilities(&self.capabilities),
            observations: copy_observations(&self.observations),
            audit: copy_audit(&self.audit),
        }
    }
}

impl WorkspaceRecord {
    /// A record from its parts; the grants are put under their own identifiers.
    pub fn from_parts(
        id: String,
        owner: String,
        state: WorkspaceState,
        grants: Vec<CapabilityGrant>,
        observations: Vec<Observation>,
        audit: Vec<AuditEvent>,
    ) -> (r: Self)
        ensures
            r@ == (RecordModel {
                id: id@,
                owner: owner@,
                state,
                capabilities: grants_by_id(grant_models(grants@)),
                observations: observation_models(observations@),
                audit: audit_models(audit@),
            }),
    {
        let ghost all = grant_models(grants@);
        let mut capabilities: OrderedMap<String, CapabilityGrant> = OrderedMap::new();
        let mut i: usize = 0;
        proof {
            assert(all.take(0) =~= Seq::<GrantModel>::empty());
            assert(viewed::<String, CapabilityGrant>(capabilities@) =~= grants_by_id(all.take(0)));
        }
        while i < grants.len()
            invariant
                i <= grants@.len(),
                all == grant_models(grants@),
                viewed::<String, CapabilityGrant>(capabilities@) == grants_by_id(
                    all.take(i as int),
                ),
            decreases grants@.len() - i,
        {
            let grant = grants[i].clone();
            proof {
                assert(all.take(i + 1).drop_last() =~= all.take(i as int));
                assert(all.take(i + 1).last() == grant@);
                lemma_viewed_put::<String, CapabilityGrant>(capabilities@, grant.id@, grant);
            }
            capabilities.insert(grant.id.clone(), grant);
            i += 1;
        }
        assert(all.take(all.len() as int) =~= all);
        WorkspaceRecord { id, owner, state, capabilities, observations, audit }
    }

    pub fn id(&self) -> (r: &str)
        ensures
            r@ == self@.id,
    {
        self.id.as_str()
    }

    pub fn owner(&self) -> (r: &str)
        ensures
            r@ == self@.owner,
    {
        self.owner.as_str()
    }

    pub fn state(&self) -> (r: WorkspaceState)
        ensures
            r == self@.state,
    {
        self.state
    }

    /// The grants, in the order of their identifiers.
    pub fn grants(&self) -> (r: Vec<CapabilityGrant>)
        ensures
            grant_models(r@) == grants_of(self@),
    {
        let ghost all = grants_of(self@);
        let mut r: Vec<CapabilityGrant> = Vec::new();
        let mut i: usize = 0;
        assert(grant_models(r@) =~= all.take(0));
        while i < self.capabilities.len()
            invariant
                i <= self.capabilities@.len(),
                all == grants_of(self@),
                grant_models(r@) == all.take(i as int),
            decreases self.capabilities@.len() - i,
        {
            let ghost before = r@;
            let grant = self.capabilities.value(i).clone();
            r.push(grant);
            assert(grant_models(r@) =~= grant_models(before).push(grant@));
            assert(all.take(i + 1) =~= all.take(i as int).push(all[i as int]));
            i += 1;
        }
        assert(all.take(all.len() as int) =~= all);
        r
    }

    pub fn observations(&self) -> (r: &Vec<Observation>)
        ensures
            observation_models(r@) == self@.observations,
    {
        &self.observations
    }

    pub fn audit(&self) -> (r: &Vec<AuditEvent>)
        ensures
            audit_models(r@) == self@.audit,
    {
        &self.audit
    }
}

/// Grants under their own identifiers; a later grant replaces an earlier one.
pub open spec fn grants_by_id(grants: Seq<GrantModel>) -> Seq<(Seq<char>, GrantModel)>
    decreases grants.len(),
{
    if grants.len() == 0 {
        Seq::empty()
    } else {
        with_entry::<String, GrantModel>(
            grants_by_id(grants.drop_last()),
            grants.last().id,
            grants.last(),
        )
    }
}

/// The grants of a workspace, in the order of their identifiers.
pub open spec fn grants_of(record: RecordModel) -> Seq<GrantModel> {
    Seq::new(record.capabilities.len(), |i: int| record.capabilities[i].1)
}

#[derive(Debug, PartialEq, Eq)]
pub struct WorkspaceView {
    pub id: String,
    pub owner: String,
    pub state: WorkspaceState,
    pub runtime: VmSummary,
    pub capabilities: Vec<CapabilityGrant>,
    pub observations: Vec<Observation>,
    pub audit: Vec<AuditEvent>,
}

/// What a [`WorkspaceView`] says.
#[verifier::ext_equal]
pub struct ViewModel {
    pub id: Seq<char>,
    pub owner: Seq<char>,
    pub state: WorkspaceState,
    pub runtime: SummaryModel,
    pub capabilities: Seq<GrantModel>,
    pub observations: Seq<ObservationModel>,
    pub audit: Seq<AuditModel>,
}

impl View for WorkspaceView {
    type V = ViewModel;

    open spec fn view(&self) -> ViewModel {
        ViewModel {
            id: self.id@,
            owner: self.owner@,
            state: self.state,
            runtime: self.runtime@,
            capabilities: grant_models(self.capabilities@),
            observations: observation_models(self.observations@),
            audit: audit_models(self.audit@),
        }
    }
}

pub open spec fn view_models(views: Seq<WorkspaceView>) -> Seq<ViewModel> {
    Seq::new(views.len(), |i: int| views[i]@)
}

pub const CONTROL_PLANE_SCHEMA_VERSION: u32 = 1;

#[derive(Debug)]
pub struct ControlPlaneSnapshot {
    pub schema_version: u32,
    next_sequence: u64,
    workspaces: Vec<WorkspaceRecord>,
}

/// What a [`ControlPlaneSnapshot`] says.
#[verifier::ext_equal]
pub struct PlaneImage {
    pub schema_version: u32,
    pub next_sequence: u64,
    pub workspaces: Seq<RecordModel>,
}

pub closed spec fn record_models(records: Seq<WorkspaceRecord>) -> Seq<RecordModel> {
    Seq::new(records.len(), |i: int| records[i]@)
}

impl View for ControlPlaneSnapshot {
    type V = PlaneImage;

    closed spec fn view(&self) -> PlaneImage {
        PlaneImage {
            schema_version: self.schema_version,
            next_sequence: self.next_sequence,
            workspaces: record_models(self.workspaces@),
        }
    }
}

impl ControlPlaneSnapshot {
    /// A snapshot from its parts.
    pub fn from_parts(
        schema_version: u32,
        next_sequence: u64,
        workspaces: Vec<WorkspaceRecord>,
    ) -> (r: Self)
        ensures
            r@ == (PlaneImage {
                schema_version,
                next_sequence,
                workspaces: record_models(workspaces@),
            }),
    {
        ControlPlaneSnapshot { schema_version, next_sequence, workspaces }
    }

    pub fn next_sequence(&self) -> (r: u64)
        ensures
            r == self@.next_sequence,
    {
        self.next_sequence
    }

    pub fn workspaces(&self) -> (r: &Vec<WorkspaceRecord>)
        ensures
            record_models(r@) == self@.workspaces,
    {
        &self.workspaces
    }
}

#[derive(Debug)]
pub struct ControlPlane {
    workspaces: OrderedMap<Vec<String>, WorkspaceRecord>,
    runtimes: VmManager,
    next_sequence: u64,
}

pub type Workspaces = Seq<(Seq<Seq<char>>, RecordModel)>;

/// The workspaces in the order of owner and identifier, their runtimes, and the number of events
/// numbered so far.
#[verifier::ext_equal]
pub struct PlaneState {
    pub workspaces: Workspaces,
    pub runtimes: ManagerState,
    pub next_sequence: u64,
}

impl View for ControlPlane {
    type V = PlaneState;

    closed spec fn view(&self) -> PlaneState {
        PlaneState {
            workspaces: viewed::<Vec<String>, WorkspaceRecord>(self.workspaces@),
            runtimes: self.runtimes@,
            next_sequence: self.next_sequence,
        }
    }
}

pub open spec fn workspace_at(p: PlaneState, owner: Seq<char>, id: Seq<char>) -> Option<
    RecordModel,
> {
    lookup::<Vec<String>, RecordModel>(p.workspaces, workspace_key(owner, id))
}

pub open spec fn with_workspace(
    p: PlaneState,
    owner: Seq<char>,
    id: Seq<char>,
    record: RecordModel,
) -> PlaneState {
    PlaneState {
        workspaces: with_entry::<Vec<String>, RecordModel>(
            p.workspaces,
            workspace_key(owner, id),
            record,
        ),
        ..p
    }
}

/// A control plane without workspaces.
pub open spec fn empty_plane(max_workspaces: usize, limits: ResourceLimits) -> PlaneState {
    PlaneState {
        workspaces: Seq::empty(),
        runtimes: ManagerState { instances: Seq::empty(), limits, max_instances: max_workspaces },
        next_sequence: 0,
    }
}

/// The control plane once another event has been numbered.
pub open spec fn numbered(p: PlaneState) -> PlaneState {
    PlaneState { next_sequence: (p.next_sequence + 1) as u64, ..p }
}

pub open spec fn not_found(owner: Seq<char>, id: Seq<char>) -> PlaneTrouble {
    PlaneTrouble::NotFound { owner, workspace_id: id }
}

/// Creating a workspace.
pub open spec fn workspace_created(p: PlaneState, owner: Seq<char>, id: Seq<char>) -> (
    PlaneState,
    Result<(), PlaneTrouble>,
) {
    if !valid_name(owner) {
        (p, Err(PlaneTrouble::InvalidInput { field: "owner" }))
    } else if !valid_name(id) {
        (p, Err(PlaneTrouble::InvalidInput { field: "workspace id" }))
    } else if workspace_at(p, owner, id) is Some {
        (p, Err(PlaneTrouble::AlreadyExists { owner, workspace_id: id }))
    } else {
        match create_in(p.runtimes, owner, id) {
            (_, Err(trouble)) => (p, Err(PlaneTrouble::Runtime(manager_trouble_text(trouble)))),
            (runtimes, Ok(_)) => {
                let next = numbered(p);
                let record = RecordModel {
                    id,
                    owner,
                    state: WorkspaceState::Active,
                    capabilities: Seq::empty(),
                    observations: Seq::empty(),
                    audit: seq![
                        AuditModel {
                            sequence: next.next_sequence,
                            workspace_id: id,
                            actor: owner,
                            kind: AuditKind::WorkspaceCreated,
                            detail: "workspace created"@,
                        },
                    ],
                };
                (with_workspace(PlaneState { runtimes, ..next }, owner, id, record), Ok(()))
            },
        }
    }
}

pub open spec fn audited(record: RecordModel, event: AuditModel) -> RecordModel {
    RecordModel { audit: record.audit.push(event), ..record }
}

/// Granting a capability. The attempt is numbered whether or not it succeeds.
pub open spec fn capability_granted(
    p: PlaneState,
    owner: Seq<char>,
    id: Seq<char>,
    grant: GrantModel,
) -> (PlaneState, Result<(), PlaneTrouble>) {
    let next = numbered(p);
    match workspace_at(p, owner, id) {
        None => (next, Err(not_found(owner, id))),
        Some(record) => if lookup::<String, GrantModel>(record.capabilities, grant.id) is Some {
            (next, Err(PlaneTrouble::CapabilityAlreadyExists(grant.id)))
        } else {
            let later = RecordModel {
                capabilities: with_entry::<String, GrantModel>(
                    record.capabilities,
                    grant.id,
                    grant,
                ),
                ..record
            };
            let event = AuditModel {
                sequence: next.next_sequence,
                workspace_id: id,
                actor: owner,
                kind: AuditKind::CapabilityGranted,
                detail: "granted "@ + grant.id + " for "@ + grant.resource,
            };
            (with_workspace(next, owner, id, audited(later, event)), Ok(()))
        },
    }
}

/// Revoking a capability. The attempt is numbered whether or not it succeeds.
pub open spec fn capability_revoked(
    p: PlaneState,
    owner: Seq<char>,
    id: Seq<char>,
    capability_id: Seq<char>,
) -> (PlaneState, Result<(), PlaneTrouble>) {
    let next = numbered(p);
    match workspace_at(p, owner, id) {
        None => (next, Err(not_found(owner, id))),
        Some(record) => if lookup::<String, GrantModel>(
            record.capabilities,
            capability_id,
        ) is None {
            (next, Err(PlaneTrouble::CapabilityNotFound(capability_id)))
        } else {
            let later = RecordModel {
                capabilities: without_entry::<String, GrantModel>(
                    record.capabilities,
                    capability_id,
                ),
                ..record
            };
            let event = AuditModel {
                sequence: next.next_sequence,
                workspace_id: id,
                actor: owner,
                kind: AuditKind::CapabilityRevoked,
                detail: "revoked "@ + capability_id,
            };
            (with_workspace(next, owner, id, audited(later, event)), Ok(()))
        },
    }
}

/// The audit event of a refused access.
pub open spec fn denial(
    sequence: u64,
    owner: Seq<char>,
    id: Seq<char>,
    capability_id: Seq<char>,
    action: Seq<char>,
) -> AuditModel {
    AuditModel {
        sequence,
        workspace_id: id,
        actor: owner,
        kind: AuditKind::AccessDenied,
        detail: "denied "@ + action + " via "@ + capability_id,
    }
}

/// Recording that a workspace used a resource. A use that no capability allows is refused, and
/// the refusal is audited.
pub open spec fn observation_recorded(
    p: PlaneState,
    owner: Seq<char>,
    id: Seq<char>,
    capability_id: Seq<char>,
    resource: Seq<char>,
    action: Seq<char>,
) -> (PlaneState, Result<ObservationModel, PlaneTrouble>) {
    let next = numbered(p);
    let sequence = next.next_sequence;
    if blank(resource) {
        (p, Err(PlaneTrouble::InvalidInput { field: "observed resource" }))
    } else if blank(action) {
        (p, Err(PlaneTrouble::InvalidInput { field: "capability action" }))
    } else {
        match workspace_at(p, owner, id) {
            None => (next, Err(not_found(owner, id))),
            Some(record) => if record.state != WorkspaceState::Active {
                (next, Err(PlaneTrouble::WorkspaceSuspended))
            } else {
                let refused = with_workspace(
                    next,
                    owner,
                    id,
                    audited(record, denial(sequence, owner, id, capability_id, action)),
                );
                match lookup::<String, GrantModel>(record.capabilities, capability_id) {
                    None => (refused, Err(PlaneTrouble::CapabilityNotFound(capability_id))),
                    Some(grant) => if !grant_allows(grant, action) || grant.resource != resource {
                        (
                            refused,
                            Err(PlaneTrouble::AccessDenied { capability_id, resource, action }),
                        )
                    } else {
                        let observation = ObservationModel {
                            sequence,
                            capability_id,
                            resource,
                            action,
                        };
                        let later = RecordModel {
                            observations: record.observations.push(observation),
                            ..record
                        };
                        let event = AuditModel {
                            sequence,
                            workspace_id: id,
                            actor: owner,
                            kind: AuditKind::ResourceObserved,
                            detail: action + " "@ + resource + " via "@ + capability_id,
                        };
                        (with_workspace(next, owner, id, audited(later, event)), Ok(observation))
                    },
                }
            },
        }
    }
}

/// The first of `list` from `index` on that is called `id`.
pub open spec fn summary_named(list: Seq<SummaryModel>, id: Seq<char>, index: int) -> Option<
    SummaryModel,
>
    decreases list.len() - index,
{
    if !(0 <= index < list.len()) {
        None
    } else if list[index].id == id {
        Some(list[index])
    } else {
        summary_named(list, id, index + 1)
    }
}

/// What can be seen of a workspace.
pub open spec fn inspected(p: PlaneState, owner: Seq<char>, id: Seq<char>) -> Result<
    ViewModel,
    PlaneTrouble,
> {
    match workspace_at(p, owner, id) {
        None => Err(not_found(owner, id)),
        Some(record) => match summary_named(
            summaries(p.runtimes.instances, owner, 0),
            id,
            0,
        ) {
            None => Err(not_found(owner, id)),
            Some(runtime) => Ok(
                ViewModel {
                    id: record.id,
                    owner: record.owner,
                    state: record.state,
                    runtime,
                    capabilities: grants_of(record),
                    observations: record.observations,
                    audit: record.audit,
                },
            ),
        },
    }
}

/// What can be seen of the workspaces of `owner` among those from `index` on.
pub open spec fn listed_views(p: PlaneState, owner: Seq<char>, index: int) -> Seq<ViewModel>
    decreases p.workspaces.len() - index,
{
    if !(0 <= index < p.workspaces.len()) {
        Seq::empty()
    } else {
        let key = p.workspaces[index].0;
        let rest = listed_views(p, owner, index + 1);
        if key.len() == 2 && key[0] == owner {
            match inspected(p, owner, key[1]) {
                Ok(view) => seq![view] + rest,
                Err(_) => rest,
            }
        } else {
            rest
        }
    }
}

/// The image of a control plane: its workspaces, without their runtimes.
pub open spec fn plane_image(p: PlaneState) -> PlaneImage {
    PlaneImage {
        schema_version: CONTROL_PLANE_SCHEMA_VERSION,
        next_sequence: p.next_sequence,
        workspaces: Seq::new(p.workspaces.len(), |i: int| p.workspaces[i].1),
    }
}

/// Restoring the records from `index` on into `p`, each with a fresh runtime.
pub open spec fn records_restored(p: PlaneState, records: Seq<RecordModel>, index: int) -> Result<
    PlaneState,
    PlaneTrouble,
>
    decreases records.len() - index,
{
    if !(0 <= index < records.len()) {
        Ok(p)
    } else {
        let record = records[index];
        if workspace_at(p, record.owner, record.id) is Some {
            Err(PlaneTrouble::AlreadyExists { owner: record.owner, workspace_id: record.id })
        } else {
            match create_in(p.runtimes, record.owner, record.id) {
                (_, Err(trouble)) => Err(PlaneTrouble::Runtime(manager_trouble_text(trouble))),
                (runtimes, Ok(_)) => records_restored(
                    with_workspace(
                        PlaneState { runtimes, ..p },
                        record.owner,
                        record.id,
                        record,
                    ),
                    records,
                    index + 1,
                ),
            }
        }
    }
}

/// The control plane that an image denotes.
pub open spec fn plane_restored(
    image: PlaneImage,
    max_workspaces: usize,
    limits: ResourceLimits,
) -> Result<PlaneState, PlaneTrouble> {
    if image.schema_version != CONTROL_PLANE_SCHEMA_VERSION {
        Err(
            PlaneTrouble::UnsupportedSchema {
                expected: CONTROL_PLANE_SCHEMA_VERSION,
                actual: image.schema_version,
            },
        )
    } else {
        records_restored(
            PlaneState {
                next_sequence: image.next_sequence,
                ..empty_plane(max_workspaces, limits)
            },
            image.workspaces,
            0,
        )
    }
}

fn not_found_error(owner: &str, id: &str) -> (r: ControlPlaneError)
    ensures
        r@ == not_found(owner@, id@),
{
    ControlPlaneError::NotFound { owner: owner.to_owned(), workspace_id: id.to_owned() }
}

fn runtime_failure(error: VmManagerError) -> (r: ControlPlaneError)
    ensures
        r@ == PlaneTrouble::Runtime(manager_trouble_text(error@)),
{
    ControlPlaneError::Runtime(error.to_text())
}

impl ControlPlane {
    pub fn new(max_workspaces: usize, runtime_limits: ResourceLimits) -> (r: Self)
        ensures
            r@ == empty_plane(max_workspaces, runtime_limits),
    {
        let r = ControlPlane {
            workspaces: OrderedMap::new(),
            runtimes: VmManager::with_max_instances(max_workspaces, runtime_limits),
            next_sequence: 0,
        };
        assert(r@ =~= empty_plane(max_workspaces, runtime_limits));
        r
    }

    pub fn snapshot(&self) -> (r: ControlPlaneSnapshot)
        ensures
            r@ == plane_image(self@),
    {
        let ghost all = plane_image(self@).workspaces;
        let mut workspaces: Vec<WorkspaceRecord> = Vec::new();
        let mut i: usize = 0;
        assert(record_models(workspaces@) =~= all.take(0));
        while i < self.workspaces.len()
            invariant
                i <= self.workspaces@.len(),
                all == plane_image(self@).workspaces,
                record_models(workspaces@) == all.take(i as int),
            decreases self.workspaces@.len() - i,
        {
            let ghost before = workspaces@;
            let record = self.workspaces.value(i).clone();
            workspaces.push(record);
            assert(record_models(workspaces@) =~= record_models(before).push(record@));
            assert(all.take(i + 1) =~= all.take(i as int).push(all[i as int]));
            i += 1;
        }
        assert(all.take(all.len() as int) =~= all);
        ControlPlaneSnapshot {
            schema_version: CONTROL_PLANE_SCHEMA_VERSION,
            next_sequence: self.next_sequence,
            workspaces,
        }
    }

    /// The control plane that a snapshot denotes, with fresh runtimes.
    pub fn restore(
        snapshot: ControlPlaneSnapshot,
        max_workspaces: usize,
        runtime_limits: ResourceLimits,
    ) -> (r: Result<Self, ControlPlaneError>)
        ensures
            match r {
                Ok(plane) => plane_restored(snapshot@, max_workspaces, runtime_limits) == Ok::<
                    PlaneState,
                    PlaneTrouble,
                >(plane@),
                Err(error) => plane_restored(snapshot@, max_workspaces, runtime_limits) == Err::<
                    PlaneState,
                    PlaneTrouble,
                >(error@),
            },
    {
        if snapshot.schema_version != CONTROL_PLANE_SCHEMA_VERSION {
            return Err(
                ControlPlaneError::UnsupportedSchema {
                    expected: CONTROL_PLANE_SCHEMA_VERSION,
                    actual: snapshot.schema_version,
                },
            );
        }
        let ghost image = snapshot@;
        let mut plane = ControlPlane::new(max_workspaces, runtime_limits);
        plane.next_sequence = snapshot.next_sequence;
        let mut i: usize = 0;
        while i < snapshot.workspaces.len()
            invariant
                i <= snapshot.workspaces@.len(),
                image == snapshot@,
                image.schema_version == CONTROL_PLANE_SCHEMA_VERSION,
                records_restored(plane@, image.workspaces, i as int) == plane_restored(
                    image,
                    max_workspaces,
                    runtime_limits,
                ),
            decreases snapshot.workspaces@.len() - i,
        {
            let record = snapshot.workspaces[i].clone();
            assert(image.workspaces[i as int] == record@);
            if plane.has_workspace(record.owner.as_str(), record.id.as_str()) {
                return Err(
                    ControlPlaneError::AlreadyExists {
                        owner: record.owner,
                        workspace_id: record.id,
                    },
                );
            }
            if let Err(error) = plane.runtimes.create(record.owner.as_str(), record.id.as_str()) {
                return Err(runtime_failure(error));
            }
            let key = key_of(record.owner.as_str(), record.id.as_str());
            proof {
                lemma_viewed_put::<Vec<String>, WorkspaceRecord>(
                    plane.workspaces@,
                    workspace_key(record.owner@, record.id@),
                    record,
                );
            }
            plane.workspaces.insert(key, record);
            i += 1;
        }
        Ok(plane)
    }

    fn has_workspace(&self, owner: &str, id: &str) -> (r: bool)
        ensures
            r == (workspace_at(self@, owner@, id@) is Some),
    {
        proof {
            lemma_viewed_lookup::<Vec<String>, WorkspaceRecord>(
                self.workspaces@,
                workspace_key(owner@, id@),
            );
        }
        self.workspaces.contains(&key_of(owner, id))
    }

    fn record(&self, owner: &str, id: &str) -> (r: Option<&WorkspaceRecord>)
        ensures
            match r {
                Some(record) => workspace_at(self@, owner@, id@) == Some(record@),
                None => workspace_at(self@, owner@, id@) is None,
            },
    {
        proof {
            lemma_viewed_lookup::<Vec<String>, WorkspaceRecord>(
                self.workspaces@,
                workspace_key(owner@, id@),
            );
        }
        self.workspaces.get(&key_of(owner, id))
    }

    /// Takes a record out, to be put back with [`ControlPlane::put_record`].
    fn take_record(&mut self, owner: &str, id: &str) -> (r: Option<WorkspaceRecord>)
        ensures
            final(self)@.runtimes == old(self)@.runtimes,
            final(self)@.next_sequence == old(self)@.next_sequence,
            match r {
                Some(record) => {
                    &&& workspace_at(old(self)@, owner@, id@) == Some(record@)
                    &&& forall|v: RecordModel|
                        #[trigger] with_workspace(final(self)@, owner@, id@, v) == with_workspace(
                            old(self)@,
                            owner@,
                            id@,
                            v,
                        )
                },
                None => workspace_at(old(self)@, owner@, id@) is None && final(self)@ == old(
                    self,
                )@,
            },
    {
        let ghost before = self.workspaces@;
        let ghost start = self@;
        let ghost key = workspace_key(owner@, id@);
        self.workspaces.in_order();
        proof {
            lemma_viewed_lookup::<Vec<String>, WorkspaceRecord>(before, key);
            lemma_viewed_remove::<Vec<String>, WorkspaceRecord>(before, key);
            lemma_viewed_sorted::<Vec<String>, WorkspaceRecord>(before);
        }
        let r = self.workspaces.remove(&key_of(owner, id));
        proof {
            assert forall|v: RecordModel| #[trigger] with_workspace(self@, owner@, id@, v)
                == with_workspace(start, owner@, id@, v) by {
                lemma_put_after_remove::<Vec<String>, RecordModel>(start.workspaces, key, v);
            }
        }
        r
    }

    fn put_record(&mut self, owner: &str, id: &str, record: WorkspaceRecord)
        ensures
            final(self)@ == with_workspace(old(self)@, owner@, id@, record@),
    {
        proof {
            lemma_viewed_put::<Vec<String>, WorkspaceRecord>(
                self.workspaces@,
                workspace_key(owner@, id@),
                record,
            );
        }
        self.workspaces.insert(key_of(owner, id), record);
    }

    pub fn create_workspace(&mut self, owner: &str, id: &str) -> (r: Result<(), ControlPlaneError>)
        requires
            old(self)@.next_sequence < u64::MAX,
        ensures
            final(self)@ == workspace_created(old(self)@, owner@, id@).0,
            match r {
                Ok(_) => workspace_created(old(self)@, owner@, id@).1 is Ok,
                Err(error) => workspace_created(old(self)@, owner@, id@).1 == Err::<
                    (),
                    PlaneTrouble,
                >(error@),
            },
    {
        if let Err(error) = validate_name(owner, "owner") {
            return Err(error);
        }
        if let Err(error) = validate_name(id, "workspace id") {
            return Err(error);
        }
        if self.has_workspace(owner, id) {
            return Err(
                ControlPlaneError::AlreadyExists {
                    owner: owner.to_owned(),
                    workspace_id: id.to_owned(),
                },
            );
        }
        let ghost start = self@;
        if let Err(error) = self.runtimes.create(owner, id) {
            proof {
                law_create_is_isolated(start.runtimes, owner@, id@, owner@, id@);
            }
            return Err(runtime_failure(error));
        }
        self.next_sequence = self.next_sequence + 1;
        let mut audit: Vec<AuditEvent> = Vec::new();
        audit.push(
            AuditEvent {
                sequence: self.next_sequence,
                workspace_id: id.to_owned(),
                actor: owner.to_owned(),
                kind: AuditKind::WorkspaceCreated,
                detail: "workspace created".to_owned(),
            },
        );
        let record = WorkspaceRecord {
            id: id.to_owned(),
            owner: owner.to_owned(),
            state: WorkspaceState::Active,
            capabilities: OrderedMap::new(),
            observations: Vec::new(),
            audit,
        };
        proof {
            assert(record@.capabilities =~= Seq::<(Seq<char>, GrantModel)>::empty());
            assert(record@.observations =~= Seq::<ObservationModel>::empty());
            assert(record@.audit =~= seq![record@.audit[0]]);
        }
        self.put_record(owner, id, record);
        Ok(())
    }

    pub fn grant_capability(
        &mut self,
        owner: &str,
        workspace_id: &str,
        grant: CapabilityGrant,
    ) -> (r: Result<(), ControlPlaneError>)
        requires
            old(self)@.next_sequence < u64::MAX,
        ensures
            final(self)@ == capability_granted(old(self)@, owner@, workspace_id@, grant@).0,
            match r {
                Ok(_) => capability_granted(old(self)@, owner@, workspace_id@, grant@).1 is Ok,
                Err(error) => capability_granted(old(self)@, owner@, workspace_id@, grant@).1
                    == Err::<(), PlaneTrouble>(error@),
            },
    {
        self.next_sequence = self.next_sequence + 1;
        let sequence: u64 = self.next_sequence;
        match self.record(owner, workspace_id) {
            None => {
                return Err(not_found_error(owner, workspace_id));
            },
            Some(record) => {
                proof {
                    lemma_viewed_lookup::<String, CapabilityGrant>(
                        record.capabilities@,
                        grant.id@,
                    );
                }
                if record.capabilities.contains(&grant.id) {
                    return Err(ControlPlaneError::CapabilityAlreadyExists(grant.id));
                }
            },
        }
        let mut record = self.take_record(owner, workspace_id).unwrap();
        let ghost found = record@;
        let mut detail = labelled("granted ", grant.id.as_str());
        detail.push_str(" for ");
        detail.push_str(grant.resource.as_str());
        proof {
            lemma_viewed_put::<String, CapabilityGrant>(
                record.capabilities@,
                grant.id@,
                grant,
            );
        }
        record.capabilities.insert(grant.id.clone(), grant);
        let event = AuditEvent {
            sequence,
            workspace_id: workspace_id.to_owned(),
            actor: owner.to_owned(),
            kind: AuditKind::CapabilityGranted,
            detail,
        };
        record.audit.push(event);
        assert(record@.audit =~= found.audit.push(event@));
        self.put_record(owner, workspace_id, record);
        Ok(())
    }

    pub fn revoke_capability(
        &mut self,
        owner: &str,
        workspace_id: &str,
        capability_id: &str,
    ) -> (r: Result<(), ControlPlaneError>)
        requires
            old(self)@.next_sequence < u64::MAX,
        ensures
            final(self)@ == capability_revoked(
                old(self)@,
                owner@,
                workspace_id@,
                capability_id@,
            ).0,
            match r {
                Ok(_) => capability_revoked(
                    old(self)@,
                    owner@,
                    workspace_id@,
                    capability_id@,
                ).1 is Ok,
                Err(error) => capability_revoked(
                    old(self)@,
                    owner@,
                    workspace_id@,
                    capability_id@,
                ).1 == Err::<(), PlaneTrouble>(error@),
            },
    {
        self.next_sequence = self.next_sequence + 1;
        let sequence: u64 = self.next_sequence;
        let capability = capability_id.to_owned();
        match self.record(owner, workspace_id) {
            None => {
                return Err(not_found_error(owner, workspace_id));
            },
            Some(record) => {
                proof {
                    lemma_viewed_lookup::<String, CapabilityGrant>(
                        record.capabilities@,
                        capability_id@,
                    );
                }
                if !record.capabilities.contains(&capability) {
                    return Err(ControlPlaneError::CapabilityNotFound(capability));
                }
            },
        }
        let mut record = self.take_record(owner, workspace_id).unwrap();
        let ghost found = record@;
        proof {
            lemma_viewed_remove::<String, CapabilityGrant>(record.capabilities@, capability_id@);
        }
        let _ = record.capabilities.remove(&capability);
        let event = AuditEvent {
            sequence,
            workspace_id: workspace_id.to_owned(),
            actor: owner.to_owned(),
            kind: AuditKind::CapabilityRevoked,
            detail: labelled("revoked ", capability_id),
        };
        record.audit.push(event);
        assert(record@.audit =~= found.audit.push(event@));
        self.put_record(owner, workspace_id, record);
        Ok(())
    }

    /// Audits a refused access.
    fn refuse(
        &mut self,
        sequence: u64,
        owner: &str,
        workspace_id: &str,
        capability_id: &str,
        action: &str,
    )
        requires
            workspace_at(old(self)@, owner@, workspace_id@) is Some,
        ensures
            final(self)@ == with_workspace(
                old(self)@,
                owner@,
                workspace_id@,
                audited(
                    workspace_at(old(self)@, owner@, workspace_id@)->0,
                    denial(sequence, owner@, workspace_id@, capability_id@, action@),
                ),
            ),
    {
        let mut record = self.take_record(owner, workspace_id).unwrap();
        let ghost found = record@;
        let mut detail = labelled("denied ", action);
        detail.push_str(" via ");
        detail.push_str(capability_id);
        let event = AuditEvent {
            sequence,
            workspace_id: workspace_id.to_owned(),
            actor: owner.to_owned(),
            kind: AuditKind::AccessDenied,
            detail,
        };
        record.audit.push(event);
        assert(record@.audit =~= found.audit.push(event@));
        self.put_record(owner, workspace_id, record);
    }

    pub fn record_observation(
        &mut self,
        owner: &str,
        workspace_id: &str,
        capability_id: &str,
        resource: &str,
        action: &str,
    ) -> (r: Result<Observation, ControlPlaneError>)
        requires
            old(self)@.next_sequence < u64::MAX,
        ensures
            ({
                let (next, outcome) = observation_recorded(
                    old(self)@,
                    owner@,
                    workspace_id@,
                    capability_id@,
                    resource@,
                    action@,
                );
                &&& final(self)@ == next
                &&& match r {
                    Ok(observation) => outcome == Ok::<ObservationModel, PlaneTrouble>(
                        observation@,
                    ),
                    Err(error) => outcome == Err::<ObservationModel, PlaneTrouble>(error@),
                }
            }),
    {
        if let Err(error) = validate_non_empty(resource, "observed resource") {
            return Err(error);
        }
        if let Err(error) = validate_non_empty(action, "capability action") {
            return Err(error);
        }
        self.next_sequence = self.next_sequence + 1;
        let sequence: u64 = self.next_sequence;
        let capability = capability_id.to_owned();
        let (known, allowed) = match self.record(owner, workspace_id) {
            None => {
                return Err(not_found_error(owner, workspace_id));
            },
            Some(record) => {
                if record.state != WorkspaceState::Active {
                    return Err(ControlPlaneError::WorkspaceSuspended);
                }
                proof {
                    lemma_viewed_lookup::<String, CapabilityGrant>(
                        record.capabilities@,
                        capability_id@,
                    );
                }
                match record.capabilities.get(&capability) {
                    None => (false, false),
                    Some(grant) => (
                        true,
                        grant.allows(action) && same_text(grant.resource.as_str(), resource),
                    ),
                }
            },
        };
        if !known {
            self.refuse(sequence, owner, workspace_id, capability_id, action);
            return Err(ControlPlaneError::CapabilityNotFound(capability));
        }
        if !allowed {
            self.refuse(sequence, owner, workspace_id, capability_id, action);
            return Err(
                ControlPlaneError::AccessDenied {
                    capability_id: capability,
                    resource: resource.to_owned(),
                    action: action.to_owned(),
                },
            );
        }
        let mut record = self.take_record(owner, workspace_id).unwrap();
        let ghost found = record@;
        let observation = Observation {
            sequence,
            capability_id: capability,
            resource: resource.to_owned(),
            action: action.to_owned(),
        };
        let r = observation.clone();
        record.observations.push(observation);
        let mut detail = labelled(action, " ");
        detail.push_str(resource);
        detail.push_str(" via ");
        detail.push_str(capability_id);
        let event = AuditEvent {
            sequence,
            workspace_id: workspace_id.to_owned(),
            actor: owner.to_owned(),
            kind: AuditKind::ResourceObserved,
            detail,
        };
        record.audit.push(event);
        proof {
            assert(record@.observations =~= found.observations.push(observation@));
            assert(record@.audit =~= found.audit.push(event@));
        }
        self.put_record(owner, workspace_id, record);
        Ok(r)
    }

    pub fn inspect(&self, owner: &str, workspace_id: &str) -> (r: Result<
        WorkspaceView,
        ControlPlaneError,
    >)
        ensures
            match r {
                Ok(view) => inspected(self@, owner@, workspace_id@) == Ok::<
                    ViewModel,
                    PlaneTrouble,
                >(view@),
                Err(error) => inspected(self@, owner@, workspace_id@) == Err::<
                    ViewModel,
                    PlaneTrouble,
                >(error@),
            },
    {
        let record = match self.record(owner, workspace_id) {
            Some(record) => record,
            None => {
                return Err(not_found_error(owner, workspace_id));
            },
        };
        let mut list = self.runtimes.list(owner);
        let ghost all = summary_models(list@);
        let mut i: usize = 0;
        while i < list.len() && !same_text(list[i].id.as_str(), workspace_id)
            invariant
                i <= list@.len(),
                all == summary_models(list@),
                summary_named(all, workspace_id@, 0) == summary_named(
                    all,
                    workspace_id@,
                    i as int,
                ),
            decreases list@.len() - i,
        {
            assert(all[i as int] == list@[i as int]@);
            i += 1;
        }
        if i == list.len() {
            return Err(not_found_error(owner, workspace_id));
        }
        assert(all[i as int] == list@[i as int]@);
        let runtime = list.swap_remove(i);
        Ok(
            WorkspaceView {
                id: record.id.clone(),
                owner: record.owner.clone(),
                state: record.state,
                runtime,
                capabilities: record.grants(),
                observations: copy_observations(&record.observations),
                audit: copy_audit(&record.audit),
            },
        )
    }

    /// What can be seen of the workspaces of `owner`.
    pub fn list(&self, owner: &str) -> (r: Vec<WorkspaceView>)
        ensures
            view_models(r@) == listed_views(self@, owner@, 0),
    {
        let ghost p = self@;
        let mut r: Vec<WorkspaceView> = Vec::new();
        let mut i: usize = 0;
        assert(view_models(r@) + listed_views(p, owner@, 0) =~= listed_views(p, owner@, 0));
        while i < self.workspaces.len()
            invariant
                i <= self.workspaces@.len(),
                p == self@,
                view_models(r@) + listed_views(p, owner@, i as int) == listed_views(p, owner@, 0),
            decreases self.workspaces@.len() - i,
        {
            let key = self.workspaces.key(i);
            let ghost before = r@;
            assert(p.workspaces[i as int].0 == texts(key@));
            if key.len() == 2 && same_text(key[0].as_str(), owner) {
                if let Ok(view) = self.inspect(owner, key[1].as_str()) {
                    r.push(view);
                    assert(view_models(r@) =~= view_models(before).push(view@));
                    assert(view_models(r@) + listed_views(p, owner@, i + 1) =~= view_models(before)
                        + (seq![view@] + listed_views(p, owner@, i + 1)));
                }
            }
            i += 1;
        }
        assert(view_models(r@) + Seq::<ViewModel>::empty() =~= view_models(r@));
        r
    }
}


// ---------------------------------------------------------------------------
// What the control plane guarantees
// ---------------------------------------------------------------------------

proof fn lemma_action_entries(actions: Seq<Seq<char>>, action: Seq<char>)
    ensures
        sorted::<String, ()>(action_entries(actions)),
        present::<String, ()>(action_entries(actions), action) == actions.contains(action),
    decreases actions.len(),
{
    if actions.len() == 0 {
        lemma_not_found::<String, ()>(action_entries(actions), action);
    } else {
        let rest = actions.drop_last();
        lemma_action_entries(rest, action);
        lemma_with_entry_sorted::<String, ()>(action_entries(rest), actions.last(), ());
        law_put_then_get::<String, ()>(action_entries(rest), actions.last(), (), action);
        if actions.contains(action) && action != actions.last() {
            let i = choose|i: int| 0 <= i < actions.len() && actions[i] == action;
            assert(rest[i] == action);
        }
        if rest.contains(action) {
            let i = choose|i: int| 0 <= i < rest.len() && rest[i] == action;
            assert(actions[i] == action);
        }
        if action == actions.last() {
            assert(actions[actions.len() - 1] == action);
        }
    }
}

/// A grant allows exactly the actions that it was made with.
pub proof fn law_grants_allow_their_actions(actions: Seq<Seq<char>>, action: Seq<char>)
    ensures
        action_set(actions).contains(action) == actions.contains(action),
{
    let entries = action_entries(actions);
    lemma_action_entries(actions, action);
    if present::<String, ()>(entries, action) {
        let p = position::<String, ()>(entries, action);
        assert(action_set(actions)[p] == action);
    }
    if action_set(actions).contains(action) {
        let i = choose|i: int| 0 <= i < entries.len() && action_set(actions)[i] == action;
        lemma_found::<String, ()>(entries, i);
    }
}

/// The capability that allows an observation.
pub open spec fn permitted(
    record: RecordModel,
    capability_id: Seq<char>,
    resource: Seq<char>,
    action: Seq<char>,
) -> bool {
    &&& record.state == WorkspaceState::Active
    &&& lookup::<String, GrantModel>(record.capabilities, capability_id) matches Some(grant)
        && grant_allows(grant, action) && grant.resource == resource
}

/// An observation is recorded exactly when an active workspace has a capability that allows the
/// action on the resource. Every attempt on an active workspace leaves one audit event; a refused
/// one leaves no observation and is audited as a denial.
pub proof fn law_observations_need_capabilities(
    p: PlaneState,
    owner: Seq<char>,
    id: Seq<char>,
    capability_id: Seq<char>,
    resource: Seq<char>,
    action: Seq<char>,
)
    requires
        sorted::<Vec<String>, RecordModel>(p.workspaces),
        !blank(resource),
        !blank(action),
        workspace_at(p, owner, id) is Some,
        workspace_at(p, owner, id)->0.state == WorkspaceState::Active,
    ensures
        ({
            let (next, outcome) = observation_recorded(
                p,
                owner,
                id,
                capability_id,
                resource,
                action,
            );
            let before = workspace_at(p, owner, id)->0;
            &&& outcome is Ok <==> permitted(before, capability_id, resource, action)
            &&& workspace_at(next, owner, id) matches Some(after) && {
                &&& after.capabilities == before.capabilities
                &&& after.audit.len() == before.audit.len() + 1
                &&& after.audit.drop_last() == before.audit
                &&& outcome is Ok ==> after.observations == before.observations.push(
                    outcome->Ok_0,
                ) && after.audit.last().kind == AuditKind::ResourceObserved
                &&& outcome is Err ==> after.observations == before.observations
                    && after.audit.last().kind == AuditKind::AccessDenied
            }
        }),
{
    let (next, outcome) = observation_recorded(p, owner, id, capability_id, resource, action);
    let key = workspace_key(owner, id);
    let before = workspace_at(p, owner, id)->0;
    let sequence = numbered(p).next_sequence;
    let refused = audited(before, denial(sequence, owner, id, capability_id, action));
    law_put_then_get::<Vec<String>, RecordModel>(p.workspaces, key, refused, key);
    assert(refused.audit.drop_last() =~= before.audit);
    if outcome is Ok {
        let observation = outcome->Ok_0;
        let later = RecordModel {
            observations: before.observations.push(observation),
            ..before
        };
        let event = AuditModel {
            sequence,
            workspace_id: id,
            actor: owner,
            kind: AuditKind::ResourceObserved,
            detail: action + " "@ + resource + " via "@ + capability_id,
        };
        law_put_then_get::<Vec<String>, RecordModel>(
            p.workspaces,
            key,
            audited(later, event),
            key,
        );
        assert(audited(later, event).audit.drop_last() =~= before.audit);
    }
}

/// What happens to one workspace leaves every other workspace as it was, whoever owns it.
pub proof fn law_workspaces_are_isolated(
    p: PlaneState,
    owner: Seq<char>,
    id: Seq<char>,
    grant: GrantModel,
    capability_id: Seq<char>,
    resource: Seq<char>,
    action: Seq<char>,
    other_owner: Seq<char>,
    other_id: Seq<char>,
)
    requires
        sorted::<Vec<String>, RecordModel>(p.workspaces),
        other_owner != owner || other_id != id,
    ensures
        workspace_at(workspace_created(p, owner, id).0, other_owner, other_id) == workspace_at(
            p,
            other_owner,
            other_id,
        ),
        workspace_at(capability_granted(p, owner, id, grant).0, other_owner, other_id)
            == workspace_at(p, other_owner, other_id),
        workspace_at(capability_revoked(p, owner, id, capability_id).0, other_owner, other_id)
            == workspace_at(p, other_owner, other_id),
        workspace_at(
            observation_recorded(p, owner, id, capability_id, resource, action).0,
            other_owner,
            other_id,
        ) == workspace_at(p, other_owner, other_id),
{
    let key = workspace_key(owner, id);
    let other = workspace_key(other_owner, other_id);
    assert(key != other) by {
        if key == other {
            assert(key[0] == other[0] && key[1] == other[1]);
        }
    }
    assert forall|record: RecordModel|
        lookup::<Vec<String>, RecordModel>(
            #[trigger] with_entry::<Vec<String>, RecordModel>(p.workspaces, key, record),
            other,
        ) == lookup::<Vec<String>, RecordModel>(p.workspaces, other) by {
        law_put_then_get::<Vec<String>, RecordModel>(p.workspaces, key, record, other);
    }
}

/// A capability that was revoked allows nothing until it is granted again.
pub proof fn law_revoked_capabilities_are_gone(
    p: PlaneState,
    owner: Seq<char>,
    id: Seq<char>,
    capability_id: Seq<char>,
    resource: Seq<char>,
    action: Seq<char>,
)
    requires
        sound_plane(p),
        capability_revoked(p, owner, id, capability_id).1 is Ok,
    ensures
        observation_recorded(
            capability_revoked(p, owner, id, capability_id).0,
            owner,
            id,
            capability_id,
            resource,
            action,
        ).1 is Err,
{
    let record = workspace_at(p, owner, id)->0;
    let key = workspace_key(owner, id);
    lemma_workspace_sound(p, owner, id);
    law_remove_then_get::<String, GrantModel>(record.capabilities, capability_id, capability_id);
    let later = RecordModel {
        capabilities: without_entry::<String, GrantModel>(record.capabilities, capability_id),
        ..record
    };
    let event = AuditModel {
        sequence: numbered(p).next_sequence,
        workspace_id: id,
        actor: owner,
        kind: AuditKind::CapabilityRevoked,
        detail: "revoked "@ + capability_id,
    };
    law_put_then_get::<Vec<String>, RecordModel>(p.workspaces, key, audited(later, event), key);
}

/// A record that stands under its owner and identifier, both of them proper names: its capabilities
/// are in order, and its audit rises in sequence up to the last number that was given.
pub open spec fn sound_record(key: Seq<Seq<char>>, record: RecordModel, last: u64) -> bool {
    &&& key == workspace_key(record.owner, record.id)
    &&& valid_name(record.owner)
    &&& valid_name(record.id)
    &&& sorted::<String, GrantModel>(record.capabilities)
    &&& forall|i: int| 0 <= i < record.audit.len() ==> (#[trigger] record.audit[i]).sequence <= last
    &&& forall|i: int, j: int|
        0 <= i < j < record.audit.len() ==> (#[trigger] record.audit[i]).sequence < (
        #[trigger] record.audit[j]).sequence
}

/// A control plane whose workspaces are in order and sound.
pub open spec fn sound_plane(p: PlaneState) -> bool {
    &&& sorted::<Vec<String>, RecordModel>(p.workspaces)
    &&& forall|i: int|
        0 <= i < p.workspaces.len() ==> sound_record(
            (#[trigger] p.workspaces[i]).0,
            p.workspaces[i].1,
            p.next_sequence,
        )
}

proof fn lemma_workspace_sound(p: PlaneState, owner: Seq<char>, id: Seq<char>)
    requires
        sound_plane(p),
    ensures
        workspace_at(p, owner, id) matches Some(record) ==> {
            &&& record.owner == owner
            &&& record.id == id
            &&& sound_record(workspace_key(owner, id), record, p.next_sequence)
        },
{
    if let Some(record) = workspace_at(p, owner, id) {
        let i = position::<Vec<String>, RecordModel>(p.workspaces, workspace_key(owner, id));
        assert(p.workspaces[i].0 == workspace_key(owner, id));
        assert(workspace_key(owner, id)[0] == owner && workspace_key(owner, id)[1] == id);
        assert(workspace_key(record.owner, record.id)[0] == record.owner);
        assert(workspace_key(record.owner, record.id)[1] == record.id);
    }
}

proof fn lemma_audited_sound(
    key: Seq<Seq<char>>,
    record: RecordModel,
    last: u64,
    event: AuditModel,
)
    requires
        sound_record(key, record, last),
        last < event.sequence,
    ensures
        sound_record(key, audited(record, event), event.sequence),
{
    let after = audited(record, event).audit;
    assert forall|i: int| 0 <= i < after.len() implies (#[trigger] after[i]).sequence
        <= event.sequence by {
        if i < record.audit.len() {
            assert(after[i] == record.audit[i]);
        }
    }
    assert forall|i: int, j: int| 0 <= i < j < after.len()
        implies (#[trigger] after[i]).sequence < (
    #[trigger] after[j]).sequence by {
        assert(after[i] == record.audit[i]);
        if j < record.audit.len() {
            assert(after[j] == record.audit[j]);
        }
    }
}

proof fn lemma_numbered_sound(p: PlaneState, q: PlaneState)
    requires
        sound_plane(p),
        q.workspaces == p.workspaces,
        q.next_sequence >= p.next_sequence,
    ensures
        sound_plane(q),
{
    assert forall|i: int| 0 <= i < q.workspaces.len() implies sound_record(
        (#[trigger] q.workspaces[i]).0,
        q.workspaces[i].1,
        q.next_sequence,
    ) by {
        let record = p.workspaces[i].1;
        assert(sound_record(p.workspaces[i].0, record, p.next_sequence));
        assert forall|j: int| 0 <= j < record.audit.len() implies (#[trigger]
        record.audit[j]).sequence <= q.next_sequence by {}
    }
}

/// The operations keep a control plane sound: every workspace under its owner and identifier, its
/// capabilities in order and its audit rising in sequence.
pub proof fn law_planes_stay_sound(
    p: PlaneState,
    owner: Seq<char>,
    id: Seq<char>,
    grant: GrantModel,
    capability_id: Seq<char>,
    resource: Seq<char>,
    action: Seq<char>,
)
    requires
        sound_plane(p),
        p.next_sequence < u64::MAX,
    ensures
        sound_plane(workspace_created(p, owner, id).0),
        sound_plane(capability_granted(p, owner, id, grant).0),
        sound_plane(capability_revoked(p, owner, id, capability_id).0),
        sound_plane(observation_recorded(p, owner, id, capability_id, resource, action).0),
{
    let next = numbered(p);
    lemma_numbered_sound(p, next);
    lemma_workspace_sound(p, owner, id);
    let key = workspace_key(owner, id);
    if workspace_created(p, owner, id).1 is Ok {
        let made = workspace_created(p, owner, id).0;
        let (runtimes, _) = create_in(p.runtimes, owner, id);
        let record = workspace_at(made, owner, id);
        law_put_then_get::<Vec<String>, RecordModel>(
            p.workspaces,
            key,
            RecordModel {
                id,
                owner,
                state: WorkspaceState::Active,
                capabilities: Seq::empty(),
                observations: Seq::empty(),
                audit: seq![
                    AuditModel {
                        sequence: next.next_sequence,
                        workspace_id: id,
                        actor: owner,
                        kind: AuditKind::WorkspaceCreated,
                        detail: "workspace created"@,
                    },
                ],
            },
            key,
        );
        lemma_numbered_sound(next, PlaneState { runtimes, ..next });
        lemma_with_workspace_sound(PlaneState { runtimes, ..next }, owner, id, record->0);
    }
    if let Some(record) = workspace_at(p, owner, id) {
        let sequence = next.next_sequence;
        lemma_with_entry_sorted::<String, GrantModel>(record.capabilities, grant.id, grant);
        lemma_without_entry_sorted::<String, GrantModel>(record.capabilities, capability_id);
        assert forall|capabilities: Seq<(Seq<char>, GrantModel)>, observations: Seq<
            ObservationModel,
        >, event: AuditModel|
            sorted::<String, GrantModel>(capabilities) && event.sequence
                == sequence implies sound_plane(
            #[trigger] with_workspace(
                next,
                owner,
                id,
                audited(RecordModel { capabilities, observations, ..record }, event),
            ),
        ) by {
            let later = RecordModel { capabilities, observations, ..record };
            lemma_audited_sound(key, later, p.next_sequence, event);
            lemma_with_workspace_sound(next, owner, id, audited(later, event));
        }
        let granted = RecordModel {
            capabilities: with_entry::<String, GrantModel>(record.capabilities, grant.id, grant),
            observations: record.observations,
            ..record
        };
        let revoked = RecordModel {
            capabilities: without_entry::<String, GrantModel>(record.capabilities, capability_id),
            observations: record.observations,
            ..record
        };
        let same = RecordModel {
            capabilities: record.capabilities,
            observations: record.observations,
            ..record
        };
        assert(same == record);
    }
}

proof fn lemma_with_workspace_sound(
    p: PlaneState,
    owner: Seq<char>,
    id: Seq<char>,
    record: RecordModel,
)
    requires
        sound_plane(p),
        sound_record(workspace_key(owner, id), record, p.next_sequence),
    ensures
        sound_plane(with_workspace(p, owner, id, record)),
{
    let key = workspace_key(owner, id);
    let next = with_workspace(p, owner, id, record).workspaces;
    lemma_with_entry_sorted::<Vec<String>, RecordModel>(p.workspaces, key, record);
    lemma_position::<Vec<String>, RecordModel>(p.workspaces, key);
    let q = position::<Vec<String>, RecordModel>(p.workspaces, key);
    assert forall|i: int| 0 <= i < next.len() implies sound_record(
        (#[trigger] next[i]).0,
        next[i].1,
        p.next_sequence,
    ) by {
        if i != q {
            let j = if present::<Vec<String>, RecordModel>(p.workspaces, key) || i < q {
                i
            } else {
                i - 1
            };
            assert(next[i] == p.workspaces[j]);
        }
    }
}

/// A capability that is granted and revoked again leaves the capabilities as they were.
pub proof fn law_revoking_undoes_granting(
    p: PlaneState,
    owner: Seq<char>,
    id: Seq<char>,
    grant: GrantModel,
)
    requires
        sound_plane(p),
        capability_granted(p, owner, id, grant).1 is Ok,
    ensures
        ({
            let granted = capability_granted(p, owner, id, grant).0;
            let (revoked, outcome) = capability_revoked(granted, owner, id, grant.id);
            &&& outcome is Ok
            &&& workspace_at(revoked, owner, id) is Some
            &&& workspace_at(revoked, owner, id)->0.capabilities == workspace_at(
                p,
                owner,
                id,
            )->0.capabilities
        }),
{
    lemma_workspace_sound(p, owner, id);
    let record = workspace_at(p, owner, id)->0;
    let key = workspace_key(owner, id);
    let granted = capability_granted(p, owner, id, grant).0;
    let entries = with_entry::<String, GrantModel>(record.capabilities, grant.id, grant);
    let noted = workspace_at(granted, owner, id)->0;
    let event = AuditModel {
        sequence: numbered(p).next_sequence,
        workspace_id: id,
        actor: owner,
        kind: AuditKind::CapabilityGranted,
        detail: "granted "@ + grant.id + " for "@ + grant.resource,
    };
    let later = audited(RecordModel { capabilities: entries, ..record }, event);
    law_put_then_get::<Vec<String>, RecordModel>(p.workspaces, key, later, key);
    assert(noted == later);
    law_put_then_get::<String, GrantModel>(record.capabilities, grant.id, grant, grant.id);
    lemma_with_entry_sorted::<Vec<String>, RecordModel>(p.workspaces, key, later);
    let gone = RecordModel {
        capabilities: without_entry::<String, GrantModel>(entries, grant.id),
        ..later
    };
    let last = AuditModel {
        sequence: numbered(granted).next_sequence,
        workspace_id: id,
        actor: owner,
        kind: AuditKind::CapabilityRevoked,
        detail: "revoked "@ + grant.id,
    };
    law_put_then_get::<Vec<String>, RecordModel>(
        granted.workspaces,
        key,
        audited(gone, last),
        key,
    );
    lemma_position::<String, GrantModel>(record.capabilities, grant.id);
    let at = position::<String, GrantModel>(record.capabilities, grant.id);
    lemma_with_entry_sorted::<String, GrantModel>(record.capabilities, grant.id, grant);
    assert(entries[at] == (grant.id, grant));
    lemma_found::<String, GrantModel>(entries, at);
    assert(without_entry::<String, GrantModel>(entries, grant.id) =~= record.capabilities);
}

proof fn lemma_valid_name_shows(name: Seq<char>)
    requires
        valid_name(name),
    ensures
        !blank(name),
{
    assert(name_character(name[0]));
    assert(name_character(name[name.len() - 1]));
    crate::text::lemma_trim_solid(name);
}

proof fn lemma_records_restored(p: PlaneState, q: PlaneState, k: int)
    requires
        sound_plane(p),
        0 <= k <= p.workspaces.len(),
        q.workspaces == p.workspaces.take(k),
        q.next_sequence == p.next_sequence,
        q.runtimes.instances.len() == k,
        q.runtimes.max_instances >= p.workspaces.len(),
        q.runtimes.limits.max_inodes >= 4,
        forall|owner: Seq<char>, id: Seq<char>|
            #[trigger] managed_vm(q.runtimes.instances, owner, id) == if workspace_at(
                q,
                owner,
                id,
            ) is Some {
                Some(fresh_instance(id, q.runtimes.limits))
            } else {
                None
            },
    ensures
        records_restored(q, plane_image(p).workspaces, k) matches Ok(r) && r.workspaces
            == p.workspaces && r.next_sequence == p.next_sequence && forall|
            owner: Seq<char>,
            id: Seq<char>,
        |
            workspace_at(p, owner, id) is Some ==> #[trigger] managed_vm(
                r.runtimes.instances,
                owner,
                id,
            ) == Some(fresh_instance(id, q.runtimes.limits)),
    decreases p.workspaces.len() - k,
{
    let records = plane_image(p).workspaces;
    if k == p.workspaces.len() {
        assert(p.workspaces.take(k) =~= p.workspaces);
    } else {
        let record = records[k];
        assert(p.workspaces[k].1 == record);
        let key = workspace_key(record.owner, record.id);
        assert(p.workspaces[k].0 == key);
        lemma_valid_name_shows(record.owner);
        lemma_valid_name_shows(record.id);
        assert forall|i: int| 0 <= i < k implies <Vec<String> as OrderedKey>::before(
            (#[trigger] q.workspaces[i]).0,
            key,
        ) by {
            assert(q.workspaces[i] == p.workspaces[i]);
        }
        assert forall|i: int| 0 <= i < q.workspaces.len() implies (#[trigger] q.workspaces[i]).0
            != key by {
            <Vec<String> as OrderedKey>::lemma_irreflexive(key);
            assert(<Vec<String> as OrderedKey>::before(q.workspaces[i].0, key));
        }
        lemma_not_found::<Vec<String>, RecordModel>(q.workspaces, key);
        lemma_put_at_end::<Vec<String>, RecordModel>(q.workspaces, key, record);
        law_create_is_isolated(
            q.runtimes,
            record.owner,
            record.id,
            record.owner,
            record.id,
        );
        let (runtimes, outcome) = create_in(q.runtimes, record.owner, record.id);
        assert(outcome is Ok);
        let next = with_workspace(
            PlaneState { runtimes, ..q },
            record.owner,
            record.id,
            record,
        );
        assert(next.workspaces =~= p.workspaces.take(k + 1));
        assert forall|x: int, y: int| 0 <= x < y < q.workspaces.len() implies <Vec<
            String,
        > as OrderedKey>::before((#[trigger] q.workspaces[x]).0, (#[trigger] q.workspaces[y]).0) by {
            assert(q.workspaces[x] == p.workspaces[x] && q.workspaces[y] == p.workspaces[y]);
        }
        assert forall|owner: Seq<char>, id: Seq<char>| #[trigger]
            managed_vm(next.runtimes.instances, owner, id) == if workspace_at(
                next,
                owner,
                id,
            ) is Some {
                Some(fresh_instance(id, q.runtimes.limits))
            } else {
                None
            } by {
            law_put_then_get::<Vec<String>, RecordModel>(
                q.workspaces,
                key,
                record,
                workspace_key(owner, id),
            );
            assert(workspace_key(owner, id)[0] == owner && workspace_key(owner, id)[1] == id);
            assert(key[0] == record.owner && key[1] == record.id);
            law_create_is_isolated(q.runtimes, record.owner, record.id, owner, id);
            assert(managed_vm(q.runtimes.instances, owner, id) is Some == (workspace_at(
                q,
                owner,
                id,
            ) is Some));
        }
        lemma_records_restored(p, next, k + 1);
    }
}

proof fn lemma_summary_behind(
    first: SummaryModel,
    rest: Seq<SummaryModel>,
    id: Seq<char>,
    index: int,
)
    requires
        0 <= index <= rest.len(),
    ensures
        summary_named(seq![first] + rest, id, index + 1) == summary_named(rest, id, index),
    decreases rest.len() - index,
{
    if index < rest.len() {
        assert((seq![first] + rest)[index + 1] == rest[index]);
        lemma_summary_behind(first, rest, id, index + 1);
    }
}

proof fn lemma_summary_found(
    instances: Seq<ManagedModel>,
    owner: Seq<char>,
    id: Seq<char>,
    index: int,
)
    requires
        managed_vm(instances, owner, id) is Some,
        0 <= index <= find_vm(instances, owner, id),
    ensures
        summary_named(summaries(instances, owner, index), id, 0) == Some(
            summary(instances[find_vm(instances, owner, id)]),
        ),
    decreases instances.len() - index,
{
    lemma_found_vm(instances, owner, id);
    let rest = summaries(instances, owner, index + 1);
    if index < find_vm(instances, owner, id) {
        lemma_summary_found(instances, owner, id, index + 1);
        assert(!is_named(instances[index], owner, id));
        if instances[index].owner == owner {
            lemma_summary_behind(summary(instances[index]), rest, id, 0);
            assert((seq![summary(instances[index])] + rest)[0] == summary(instances[index]));
        }
    } else {
        assert((seq![summary(instances[index])] + rest)[0] == summary(instances[index]));
    }
}

/// Every workspace of a restored control plane can be inspected: it shows what its record says,
/// beside a runtime that is fresh.
pub proof fn law_restored_workspaces_can_be_inspected(
    p: PlaneState,
    max_workspaces: usize,
    limits: ResourceLimits,
    owner: Seq<char>,
    id: Seq<char>,
)
    requires
        sound_plane(p),
        p.workspaces.len() <= max_workspaces,
        limits.max_inodes >= 4,
        workspace_at(p, owner, id) is Some,
    ensures
        plane_restored(plane_image(p), max_workspaces, limits) matches Ok(r) && (inspected(
            r,
            owner,
            id,
        ) matches Ok(view) && {
            let record = workspace_at(p, owner, id)->0;
            &&& view.id == id
            &&& view.owner == owner
            &&& view.state == record.state
            &&& view.capabilities == grants_of(record)
            &&& view.observations == record.observations
            &&& view.audit == record.audit
            &&& view.runtime == summary(
                ManagedModel { owner, id, vm: fresh_instance(id, limits) },
            )
        }),
{
    let start = PlaneState {
        next_sequence: p.next_sequence,
        ..empty_plane(max_workspaces, limits)
    };
    assert(start.workspaces =~= p.workspaces.take(0));
    lemma_records_restored(p, start, 0);
    lemma_workspace_sound(p, owner, id);
    let r = plane_restored(plane_image(p), max_workspaces, limits)->Ok_0;
    lemma_summary_found(r.runtimes.instances, owner, id, 0);
    lemma_found_vm(r.runtimes.instances, owner, id);
}

/// Restoring the snapshot of a control plane gives its workspaces, with their grants,
/// observations and audit, and its numbering back, provided that there is room for them.
pub proof fn law_snapshots_read_back(
    p: PlaneState,
    max_workspaces: usize,
    limits: ResourceLimits,
)
    requires
        sound_plane(p),
        p.workspaces.len() <= max_workspaces,
        limits.max_inodes >= 4,
    ensures
        plane_restored(plane_image(p), max_workspaces, limits) matches Ok(r) && r.workspaces
            == p.workspaces && r.next_sequence == p.next_sequence,
{
    let start = PlaneState {
        next_sequence: p.next_sequence,
        ..empty_plane(max_workspaces, limits)
    };
    assert(start.workspaces =~= p.workspaces.take(0));
    lemma_records_restored(p, start, 0);
}

/// Whether a text is a name: one to 128 letters, digits, hyphens, underscores and dots.
pub open spec fn is_name(value: Seq<char>) -> bool {
    &&& 1 <= value.len() <= 128
    &&& forall|i: int|
        0 <= i < value.len() ==> ('a' <= #[trigger] value[i] <= 'z' || 'A' <= value[i] <= 'Z' || '0'
            <= value[i] <= '9' || value[i] == '-' || value[i] == '_' || value[i] == '.')
}

proof fn lemma_is_name(value: Seq<char>)
    ensures
        valid_name(value) <==> is_name(value),
{
    if is_name(value) {
        assert forall|i: int| 0 <= i < value.len() implies name_character(#[trigger] value[i]) by {}
    }
    if valid_name(value) {
        assert forall|i: int| 0 <= i < value.len() implies ('a' <= #[trigger] value[i] <= 'z' || 'A'
            <= value[i] <= 'Z' || '0' <= value[i] <= '9' || value[i] == '-' || value[i] == '_'
            || value[i] == '.') by {
            assert(name_character(value[i]));
        }
    }
}

/// An observation is recorded exactly where the workspace is active and the capability that is named
/// was granted for this very resource with this very action. What is recorded says so, with a number
/// that is higher than all before it.
pub proof fn law_observations_are_granted_by_resource_and_action(
    p: PlaneState,
    owner: Seq<char>,
    id: Seq<char>,
    capability_id: Seq<char>,
    resource: Seq<char>,
    action: Seq<char>,
)
    requires
        sound_plane(p),
        p.next_sequence < u64::MAX,
    ensures
        ({
            let (next, outcome) = observation_recorded(
                p,
                owner,
                id,
                capability_id,
                resource,
                action,
            );
            &&& outcome is Ok <==> {
                &&& !all_white(resource)
                &&& !all_white(action)
                &&& workspace_at(p, owner, id) matches Some(record) && record.state
                    == WorkspaceState::Active && (lookup::<String, GrantModel>(
                    record.capabilities,
                    capability_id,
                ) matches Some(grant) && grant.resource == resource && grant.actions.contains(
                    action,
                ))
            }
            &&& outcome matches Ok(observation) ==> {
                &&& observation.sequence == p.next_sequence + 1
                &&& next.next_sequence == p.next_sequence + 1
                &&& observation.capability_id == capability_id
                &&& observation.resource == resource
                &&& observation.action == action
                &&& workspace_at(next, owner, id) matches Some(after)
                    && after.observations.contains(observation) && after.audit.len() > 0
                    && after.audit.last().actor == owner && after.audit.last().workspace_id == id
                    && after.audit.last().sequence == observation.sequence
            }
        }),
{
    law_blank_texts_are_white(resource, ' ');
    law_blank_texts_are_white(action, ' ');
    if !blank(resource) && !blank(action) && workspace_at(p, owner, id) is Some && workspace_at(
        p,
        owner,
        id,
    )->0.state == WorkspaceState::Active {
        law_observations_need_capabilities(p, owner, id, capability_id, resource, action);
        let (next, outcome) = observation_recorded(p, owner, id, capability_id, resource, action);
        if let Ok(observation) = outcome {
            let key = workspace_key(owner, id);
            let before = workspace_at(p, owner, id)->0;
            let later = RecordModel {
                observations: before.observations.push(observation),
                ..before
            };
            let event = AuditModel {
                sequence: numbered(p).next_sequence,
                workspace_id: id,
                actor: owner,
                kind: AuditKind::ResourceObserved,
                detail: action + " "@ + resource + " via "@ + capability_id,
            };
            law_put_then_get::<Vec<String>, RecordModel>(
                p.workspaces,
                key,
                audited(later, event),
                key,
            );
            let after = workspace_at(next, owner, id)->0;
            assert(after.observations.last() == observation);
            assert(after.observations[before.observations.len() as int] == observation);
        }
    }
}

/// A workspace is created active, with nothing granted, nothing observed and one entry in its audit,
/// for an owner and under an identifier that are names; and it is not created twice.
pub proof fn law_created_workspaces_are_fresh(p: PlaneState, owner: Seq<char>, id: Seq<char>)
    requires
        sound_plane(p),
        p.next_sequence < u64::MAX,
    ensures
        ({
            let (next, outcome) = workspace_created(p, owner, id);
            &&& outcome is Err ==> next == p
            &&& !is_name(owner) || !is_name(id) || workspace_at(p, owner, id) is Some ==> outcome is Err
            &&& is_name(owner) && is_name(id) && workspace_at(p, owner, id) is None && create_in(
                p.runtimes,
                owner,
                id,
            ).1 is Ok ==> outcome is Ok
            &&& outcome is Ok ==> {
                &&& workspace_at(p, owner, id) is None
                &&& workspace_at(next, owner, id) matches Some(record) && record.owner == owner
                    && record.id == id && record.state == WorkspaceState::Active
                    && record.capabilities.len() == 0 && record.observations.len() == 0
                    && record.audit.len() == 1 && record.audit[0].kind
                    == AuditKind::WorkspaceCreated && record.audit[0].actor == owner
                &&& next.runtimes == create_in(p.runtimes, owner, id).0
                &&& workspace_created(next, owner, id).1 is Err
            }
        }),
{
    lemma_is_name(owner);
    lemma_is_name(id);
    let (next, outcome) = workspace_created(p, owner, id);
    if outcome is Ok {
        let key = workspace_key(owner, id);
        let record = RecordModel {
            id,
            owner,
            state: WorkspaceState::Active,
            capabilities: Seq::empty(),
            observations: Seq::empty(),
            audit: seq![
                AuditModel {
                    sequence: numbered(p).next_sequence,
                    workspace_id: id,
                    actor: owner,
                    kind: AuditKind::WorkspaceCreated,
                    detail: "workspace created"@,
                },
            ],
        };
        law_put_then_get::<Vec<String>, RecordModel>(p.workspaces, key, record, key);
    }
}

/// A capability that is granted is held as it was granted, beside all others; one that is held
/// already is not granted again. A capability that is revoked is held no longer, and all others
/// still are. Each is entered in the audit.
pub proof fn law_capabilities_are_held_until_revoked(
    p: PlaneState,
    owner: Seq<char>,
    id: Seq<char>,
    grant: GrantModel,
    other: Seq<char>,
)
    requires
        sound_plane(p),
        p.next_sequence < u64::MAX,
        workspace_at(p, owner, id) is Some,
    ensures
        ({
            let before = workspace_at(p, owner, id)->0;
            let held = lookup::<String, GrantModel>(before.capabilities, grant.id);
            let (granted, first) = capability_granted(p, owner, id, grant);
            let (revoked, second) = capability_revoked(p, owner, id, grant.id);
            &&& first is Ok <==> held is None
            &&& second is Ok <==> held is Some
            &&& first is Ok ==> (workspace_at(granted, owner, id) matches Some(after) && lookup::<
                String,
                GrantModel,
            >(after.capabilities, grant.id) == Some(grant) && (other != grant.id ==> lookup::<
                String,
                GrantModel,
            >(after.capabilities, other) == lookup::<String, GrantModel>(
                before.capabilities,
                other,
            )) && after.audit.len() == before.audit.len() + 1 && after.audit.last().kind
                == AuditKind::CapabilityGranted && after.observations == before.observations
                && after.state == before.state)
            &&& second is Ok ==> (workspace_at(revoked, owner, id) matches Some(after) && lookup::<
                String,
                GrantModel,
            >(after.capabilities, grant.id) is None && (other != grant.id ==> lookup::<
                String,
                GrantModel,
            >(after.capabilities, other) == lookup::<String, GrantModel>(
                before.capabilities,
                other,
            )) && after.audit.len() == before.audit.len() + 1 && after.audit.last().kind
                == AuditKind::CapabilityRevoked && after.observations == before.observations
                && after.state == before.state)
        }),
{
    let before = workspace_at(p, owner, id)->0;
    let key = workspace_key(owner, id);
    lemma_workspace_sound(p, owner, id);
    let sequence = numbered(p).next_sequence;
    let more = RecordModel {
        capabilities: with_entry::<String, GrantModel>(before.capabilities, grant.id, grant),
        ..before
    };
    let less = RecordModel {
        capabilities: without_entry::<String, GrantModel>(before.capabilities, grant.id),
        ..before
    };
    let told = AuditModel {
        sequence,
        workspace_id: id,
        actor: owner,
        kind: AuditKind::CapabilityGranted,
        detail: "granted "@ + grant.id + " for "@ + grant.resource,
    };
    let gone = AuditModel {
        sequence,
        workspace_id: id,
        actor: owner,
        kind: AuditKind::CapabilityRevoked,
        detail: "revoked "@ + grant.id,
    };
    law_put_then_get::<Vec<String>, RecordModel>(p.workspaces, key, audited(more, told), key);
    law_put_then_get::<Vec<String>, RecordModel>(p.workspaces, key, audited(less, gone), key);
    law_put_then_get::<String, GrantModel>(before.capabilities, grant.id, grant, grant.id);
    law_put_then_get::<String, GrantModel>(before.capabilities, grant.id, grant, other);
    law_remove_then_get::<String, GrantModel>(before.capabilities, grant.id, grant.id);
    law_remove_then_get::<String, GrantModel>(before.capabilities, grant.id, other);
}

/// A grant names its capability, what kind it is, the resource and at least one action, none of them
/// blank; it allows these actions and no other.
pub proof fn law_grants_are_complete(
    id: &str,
    kind: &str,
    resource: &str,
    actions: Vec<String>,
    r: Result<CapabilityGrant, ControlPlaneError>,
    action: &str,
    allowed: bool,
)
    requires
        call_ensures(CapabilityGrant::new, (id, kind, resource, actions), r),
    ensures
        r is Ok <==> {
            &&& is_name(id@)
            &&& !all_white(kind@)
            &&& !all_white(resource@)
            &&& actions@.len() > 0
            &&& forall|i: int| 0 <= i < actions@.len() ==> !all_white((#[trigger] actions@[i])@)
        },
        r matches Ok(grant) ==> {
            &&& grant@.id == id@ && grant@.kind == kind@ && grant@.resource == resource@
            &&& call_ensures(CapabilityGrant::allows, (&grant, action), allowed) ==> (allowed
                <==> texts(actions@).contains(action@))
        },
{
    let all = texts(actions@);
    let set = action_set(all);
    lemma_is_name(id@);
    law_blank_texts_are_white(kind@, ' ');
    law_blank_texts_are_white(resource@, ' ');
    law_grants_allow_their_actions(all, action@);
    assert forall|i: int| 0 <= i < all.len() implies set.contains(#[trigger] all[i]) by {
        law_grants_allow_their_actions(all, all[i]);
        assert(all.contains(all[i]));
    }
    assert forall|i: int| 0 <= i < set.len() implies all.contains(#[trigger] set[i]) by {
        law_grants_allow_their_actions(all, set[i]);
        assert(set.contains(set[i]));
    }
    if actions@.len() > 0 {
        assert(set.contains(all[0]));
    }
    if set.len() > 0 {
        assert(all.contains(set[0]));
    }
    if forall|i: int| 0 <= i < actions@.len() ==> !all_white((#[trigger] actions@[i])@) {
        assert forall|i: int| 0 <= i < set.len() implies !blank(#[trigger] set[i]) by {
            let k = choose|k: int| 0 <= k < all.len() && all[k] == set[i];
            assert(!all_white(actions@[k]@));
            law_blank_texts_are_white(set[i], ' ');
        }
    }
    if forall|i: int| 0 <= i < set.len() ==> !blank(#[trigger] set[i]) {
        assert forall|i: int| 0 <= i < actions@.len() implies !all_white((#[trigger] actions@[i])@) by {
            assert(set.contains(all[i]));
            let k = choose|k: int| 0 <= k < set.len() && set[k] == all[i];
            assert(!blank(set[k]));
            law_blank_texts_are_white(all[i], ' ');
        }
    }
}

/// What an inspection shows of a workspace is what it holds.
pub proof fn law_inspections_show_the_workspace(p: PlaneState, owner: Seq<char>, id: Seq<char>, i: int)
    requires
        sound_plane(p),
    ensures
        workspace_at(p, owner, id) is None ==> inspected(p, owner, id) is Err,
        inspected(p, owner, id) matches Ok(view) ==> {
            &&& workspace_at(p, owner, id) matches Some(record) && view.state == record.state
                && view.observations == record.observations && view.audit == record.audit
                && view.capabilities.len() == record.capabilities.len() && (0 <= i
                < record.capabilities.len() ==> view.capabilities[i] == record.capabilities[i].1)
            &&& view.owner == owner
            &&& view.id == id
            &&& view.runtime.id == id
            &&& view.runtime.owner == owner
        },
{
    lemma_workspace_sound(p, owner, id);
    let list = summaries(p.runtimes.instances, owner, 0);
    lemma_summary_is(list, id, 0);
    law_listings_are_scoped(p.runtimes.instances, owner, 0);
}

proof fn lemma_summary_is(list: Seq<SummaryModel>, id: Seq<char>, index: int)
    requires
        0 <= index,
    ensures
        summary_named(list, id, index) matches Some(found) ==> found.id == id && exists|k: int|
            index <= k < list.len() && #[trigger] list[k] == found,
    decreases list.len() - index,
{
    if index < list.len() {
        if list[index].id != id {
            lemma_summary_is(list, id, index + 1);
        }
    }
}

/// Grants are found by their identifiers, the last of one identifier before the others.
pub proof fn law_grants_are_found_by_their_identifier(
    grants: Seq<GrantModel>,
    grant: GrantModel,
    id: Seq<char>,
)
    ensures
        sorted::<String, GrantModel>(grants_by_id(grants)),
        lookup::<String, GrantModel>(grants_by_id(grants.push(grant)), id) == (if id == grant.id {
            Some(grant)
        } else {
            lookup::<String, GrantModel>(grants_by_id(grants), id)
        }),
        lookup::<String, GrantModel>(grants_by_id(Seq::empty()), id) is None,
    decreases grants.len(),
{
    if grants.len() > 0 {
        law_grants_are_found_by_their_identifier(grants.drop_last(), grants.last(), id);
        lemma_with_entry_sorted::<String, GrantModel>(
            grants_by_id(grants.drop_last()),
            grants.last().id,
            grants.last(),
        );
    }
    assert(grants.push(grant).drop_last() =~= grants);
    law_put_then_get::<String, GrantModel>(grants_by_id(grants), grant.id, grant, id);
}

} // verus!
