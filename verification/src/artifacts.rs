//! Immutable, workspace-owned artifacts and artifact versions.
//!
//! This module owns the in-memory domain contract only. Content bytes remain
//! outside the store behind a validated content reference so a future durable
//! control plane can choose an object store without changing version semantics.

use vstd::prelude::*;

use crate::ordered::OrderedMap;
#[allow(unused_imports)]
use crate::ordered::{
    OrderedKey, law_put_then_get, lemma_found, lemma_position, lemma_viewed_lookup,
    lemma_viewed_put, lemma_viewed_sorted, lemma_with_entry_sorted, lookup, position, present,
    sorted, viewed, with_entry,
};
use crate::runtime_error::labelled;
#[allow(unused_imports)]
use crate::text::{
    all_white, ascii_alphanumeric, blank, control, find_char, lacks, law_blank_texts_are_white,
    lemma_find_char, lemma_find_char_is, text_option, texts,
};
use crate::text::{
    copy_text_option,
    chars_of, contains_char, is_ascii_alphanumeric, is_blank, is_control, same_text, split_once,
};

verus! {

/// Whether an artifact originated with a workspace user or a job runner.
#[derive(Debug, Clone, Copy, PartialEq, Eq, Structural)]
pub enum ArtifactKind {
    Source,
    Generated,
}

/// A stable, user-visible file or output inside one workspace.
#[derive(Debug, PartialEq, Eq)]
pub struct Artifact {
    pub id: String,
    pub workspace_id: String,
    pub name: String,
    pub kind: ArtifactKind,
    pub created_by: String,
    pub current_version_id: Option<String>,
    pub version_ids: Vec<String>,
}

/// One immutable revision of an [`Artifact`].
#[derive(Debug, PartialEq, Eq)]
pub struct ArtifactVersion {
    pub id: String,
    pub artifact_id: String,
    pub parent_version_id: Option<String>,
    pub input_version_ids: Vec<String>,
    pub content_reference: String,
    pub media_type: String,
    pub byte_len: u64,
    pub created_by: String,
    pub sequence: u64,
}

/// Input used to create a logical artifact.
#[derive(Debug, PartialEq, Eq)]
pub struct NewArtifact {
    pub id: String,
    pub workspace_id: String,
    pub name: String,
    pub kind: ArtifactKind,
    pub created_by: String,
}

/// Input used to append an immutable version to an existing artifact.
#[derive(Debug, PartialEq, Eq)]
pub struct NewArtifactVersion {
    pub id: String,
    pub artifact_id: String,
    pub parent_version_id: Option<String>,
    pub input_version_ids: Vec<String>,
    pub content_reference: String,
    pub media_type: String,
    pub byte_len: u64,
    pub created_by: String,
}

/// What an [`Artifact`] says.
#[verifier::ext_equal]
pub struct ArtifactModel {
    pub id: Seq<char>,
    pub workspace_id: Seq<char>,
    pub name: Seq<char>,
    pub kind: ArtifactKind,
    pub created_by: Seq<char>,
    pub current_version_id: Option<Seq<char>>,
    pub version_ids: Seq<Seq<char>>,
}

/// What an [`ArtifactVersion`] says.
#[verifier::ext_equal]
pub struct VersionModel {
    pub id: Seq<char>,
    pub artifact_id: Seq<char>,
    pub parent_version_id: Option<Seq<char>>,
    pub input_version_ids: Seq<Seq<char>>,
    pub content_reference: Seq<char>,
    pub media_type: Seq<char>,
    pub byte_len: u64,
    pub created_by: Seq<char>,
    pub sequence: u64,
}

/// What a [`NewArtifactVersion`] asks for.
#[verifier::ext_equal]
pub struct VersionRequest {
    pub id: Seq<char>,
    pub artifact_id: Seq<char>,
    pub parent_version_id: Option<Seq<char>>,
    pub input_version_ids: Seq<Seq<char>>,
    pub content_reference: Seq<char>,
    pub media_type: Seq<char>,
    pub byte_len: u64,
    pub created_by: Seq<char>,
}

impl View for Artifact {
    type V = ArtifactModel;

    open spec fn view(&self) -> ArtifactModel {
        ArtifactModel {
            id: self.id@,
            workspace_id: self.workspace_id@,
            name: self.name@,
            kind: self.kind,
            created_by: self.created_by@,
            current_version_id: text_option(self.current_version_id),
            version_ids: texts(self.version_ids@),
        }
    }
}

impl View for ArtifactVersion {
    type V = VersionModel;

    open spec fn view(&self) -> VersionModel {
        VersionModel {
            id: self.id@,
            artifact_id: self.artifact_id@,
            parent_version_id: text_option(self.parent_version_id),
            input_version_ids: texts(self.input_version_ids@),
            content_reference: self.content_reference@,
            media_type: self.media_type@,
            byte_len: self.byte_len,
            created_by: self.created_by@,
            sequence: self.sequence,
        }
    }
}

impl View for NewArtifact {
    type V = ArtifactModel;

    /// The artifact that is asked for: one without versions.
    open spec fn view(&self) -> ArtifactModel {
        ArtifactModel {
            id: self.id@,
            workspace_id: self.workspace_id@,
            name: self.name@,
            kind: self.kind,
            created_by: self.created_by@,
            current_version_id: None,
            version_ids: Seq::empty(),
        }
    }
}

impl View for NewArtifactVersion {
    type V = VersionRequest;

    open spec fn view(&self) -> VersionRequest {
        VersionRequest {
            id: self.id@,
            artifact_id: self.artifact_id@,
            parent_version_id: text_option(self.parent_version_id),
            input_version_ids: texts(self.input_version_ids@),
            content_reference: self.content_reference@,
            media_type: self.media_type@,
            byte_len: self.byte_len,
            created_by: self.created_by@,
        }
    }
}

fn copy_text_list(parts: &Vec<String>) -> (r: Vec<String>)
    ensures
        texts(r@) == texts(parts@),
{
    let r = parts.clone();
    assert(texts(r@) =~= texts(parts@));
    r
}

impl Clone for Artifact {
    fn clone(&self) -> (r: Self)
        ensures
            r@ == self@,
    {
        Artifact {
            id: self.id.clone(),
            workspace_id: self.workspace_id.clone(),
            name: self.name.clone(),
            kind: self.kind,
            created_by: self.created_by.clone(),
            current_version_id: copy_text_option(&self.current_version_id),
            version_ids: copy_text_list(&self.version_ids),
        }
    }
}

impl Clone for ArtifactVersion {
    fn clone(&self) -> (r: Self)
        ensures
            r@ == self@,
    {
        ArtifactVersion {
            id: self.id.clone(),
            artifact_id: self.artifact_id.clone(),
            parent_version_id: copy_text_option(&self.parent_version_id),
            input_version_ids: copy_text_list(&self.input_version_ids),
            content_reference: self.content_reference.clone(),
            media_type: self.media_type.clone(),
            byte_len: self.byte_len,
            created_by: self.created_by.clone(),
            sequence: self.sequence,
        }
    }
}

impl NewArtifact {
    pub fn new(
        id: &str,
        workspace_id: &str,
        name: &str,
        kind: ArtifactKind,
        created_by: &str,
    ) -> (r: Self)
        ensures
            r@ == (ArtifactModel {
                id: id@,
                workspace_id: workspace_id@,
                name: name@,
                kind,
                created_by: created_by@,
                current_version_id: None,
                version_ids: Seq::empty(),
            }),
    {
        NewArtifact {
            id: id.to_owned(),
            workspace_id: workspace_id.to_owned(),
            name: name.to_owned(),
            kind,
            created_by: created_by.to_owned(),
        }
    }
}

impl NewArtifactVersion {
    pub fn new(
        id: &str,
        artifact_id: &str,
        content_reference: &str,
        media_type: &str,
        byte_len: u64,
        created_by: &str,
    ) -> (r: Self)
        ensures
            r@ == (VersionRequest {
                id: id@,
                artifact_id: artifact_id@,
                parent_version_id: None,
                input_version_ids: Seq::empty(),
                content_reference: content_reference@,
                media_type: media_type@,
                byte_len,
                created_by: created_by@,
            }),
    {
        let r = NewArtifactVersion {
            id: id.to_owned(),
            artifact_id: artifact_id.to_owned(),
            parent_version_id: None,
            input_version_ids: Vec::new(),
            content_reference: content_reference.to_owned(),
            media_type: media_type.to_owned(),
            byte_len,
            created_by: created_by.to_owned(),
        };
        assert(r@.input_version_ids =~= Seq::<Seq<char>>::empty());
        r
    }

    pub fn with_parent(self, parent_version_id: &str) -> (r: Self)
        ensures
            r@ == (VersionRequest { parent_version_id: Some(parent_version_id@), ..self@ }),
    {
        let mut r = self;
        r.parent_version_id = Some(parent_version_id.to_owned());
        r
    }

    pub fn with_inputs(self, input_version_ids: Vec<String>) -> (r: Self)
        ensures
            r@ == (VersionRequest { input_version_ids: texts(input_version_ids@), ..self@ }),
    {
        let mut r = self;
        r.input_version_ids = input_version_ids;
        r
    }
}

// ---------------------------------------------------------------------------
// Errors
// ---------------------------------------------------------------------------

/// Errors raised when artifact metadata would violate the workspace contract.
#[derive(Debug, PartialEq, Eq)]
pub enum ArtifactError {
    InvalidInput { field: &'static str },
    InvalidMediaType,
    ArtifactAlreadyExists(String),
    ArtifactNotFound(String),
    VersionAlreadyExists(String),
    VersionNotFound(String),
    ParentBelongsToDifferentArtifact { parent_version_id: String, artifact_id: String },
    DuplicateInputVersion(String),
    SequenceExhausted,
}

/// What an [`ArtifactError`] says.
#[verifier::ext_equal]
pub enum ArtifactTrouble {
    InvalidInput { field: &'static str },
    InvalidMediaType,
    ArtifactAlreadyExists(Seq<char>),
    ArtifactNotFound(Seq<char>),
    VersionAlreadyExists(Seq<char>),
    VersionNotFound(Seq<char>),
    ParentBelongsToDifferentArtifact { parent_version_id: Seq<char>, artifact_id: Seq<char> },
    DuplicateInputVersion(Seq<char>),
    SequenceExhausted,
}

impl View for ArtifactError {
    type V = ArtifactTrouble;

    open spec fn view(&self) -> ArtifactTrouble {
        match self {
            ArtifactError::InvalidInput { field } => ArtifactTrouble::InvalidInput {
                field: *field,
            },
            ArtifactError::InvalidMediaType => ArtifactTrouble::InvalidMediaType,
            ArtifactError::ArtifactAlreadyExists(id) => ArtifactTrouble::ArtifactAlreadyExists(id@),
            ArtifactError::ArtifactNotFound(id) => ArtifactTrouble::ArtifactNotFound(id@),
            ArtifactError::VersionAlreadyExists(id) => ArtifactTrouble::VersionAlreadyExists(id@),
            ArtifactError::VersionNotFound(id) => ArtifactTrouble::VersionNotFound(id@),
            ArtifactError::ParentBelongsToDifferentArtifact { parent_version_id, artifact_id } =>
                ArtifactTrouble::ParentBelongsToDifferentArtifact {
                parent_version_id: parent_version_id@,
                artifact_id: artifact_id@,
            },
            ArtifactError::DuplicateInputVersion(id) => ArtifactTrouble::DuplicateInputVersion(id@),
            ArtifactError::SequenceExhausted => ArtifactTrouble::SequenceExhausted,
        }
    }
}

/// The message of an artifact error.
pub open spec fn artifact_trouble_text(trouble: ArtifactTrouble) -> Seq<char> {
    match trouble {
        ArtifactTrouble::InvalidInput { field } => "invalid "@ + field@,
        ArtifactTrouble::InvalidMediaType => "invalid media type"@,
        ArtifactTrouble::ArtifactAlreadyExists(id) => "artifact already exists: "@ + id,
        ArtifactTrouble::ArtifactNotFound(id) => "artifact not found: "@ + id,
        ArtifactTrouble::VersionAlreadyExists(id) => "artifact version already exists: "@ + id,
        ArtifactTrouble::VersionNotFound(id) => "artifact version not found: "@ + id,
        ArtifactTrouble::ParentBelongsToDifferentArtifact { parent_version_id, artifact_id } =>
            "parent version '"@ + parent_version_id + "' does not belong to artifact '"@
                + artifact_id + "'"@,
        ArtifactTrouble::DuplicateInputVersion(id) => "duplicate input version: "@ + id,
        ArtifactTrouble::SequenceExhausted => "artifact version sequence exhausted"@,
    }
}

impl ArtifactError {
    /// The message of the error.
    pub fn to_text(&self) -> (r: String)
        ensures
            r@ == artifact_trouble_text(self@),
    {
        match self {
            ArtifactError::InvalidInput { field } => labelled("invalid ", field),
            ArtifactError::InvalidMediaType => "invalid media type".to_owned(),
            ArtifactError::ArtifactAlreadyExists(id) => labelled(
                "artifact already exists: ",
                id.as_str(),
            ),
            ArtifactError::ArtifactNotFound(id) => labelled("artifact not found: ", id.as_str()),
            ArtifactError::VersionAlreadyExists(id) => labelled(
                "artifact version already exists: ",
                id.as_str(),
            ),
            ArtifactError::VersionNotFound(id) => labelled(
                "artifact version not found: ",
                id.as_str(),
            ),
            ArtifactError::ParentBelongsToDifferentArtifact { parent_version_id, artifact_id } => {
                let mut r = labelled("parent version '", parent_version_id.as_str());
                r.push_str("' does not belong to artifact '");
                r.push_str(artifact_id.as_str());
                r.push_str("'");
                r
            },
            ArtifactError::DuplicateInputVersion(id) => labelled(
                "duplicate input version: ",
                id.as_str(),
            ),
            ArtifactError::SequenceExhausted => "artifact version sequence exhausted".to_owned(),
        }
    }
}

// ---------------------------------------------------------------------------
// Validation
// ---------------------------------------------------------------------------

pub open spec fn id_character(c: char) -> bool {
    ascii_alphanumeric(c) || c == '-' || c == '_' || c == '.' || c == ':'
}

/// A non-empty identifier.
pub open spec fn valid_id(value: Seq<char>) -> bool {
    value.len() > 0 && forall|i: int| 0 <= i < value.len() ==> id_character(#[trigger] value[i])
}

/// Text that shows something and holds no control character.
pub open spec fn valid_text(value: Seq<char>) -> bool {
    !blank(value) && forall|i: int| 0 <= i < value.len() ==> !control(#[trigger] value[i])
}

pub open spec fn media_character(c: char) -> bool {
    ascii_alphanumeric(c) || c == '!' || c == '#' || c == '$' || c == '&' || c == '^' || c == '_'
        || c == '.' || c == '+' || c == '-'
}

pub open spec fn media_token(s: Seq<char>) -> bool {
    s.len() > 0 && forall|i: int| 0 <= i < s.len() ==> media_character(#[trigger] s[i])
}

/// A media type: two tokens with a slash between them.
pub open spec fn valid_media_type(value: Seq<char>) -> bool {
    let i = find_char(value, '/');
    i < value.len() && media_token(value.take(i)) && media_token(value.skip(i + 1))
}

fn validate_id(value: &str, field: &'static str) -> (r: Result<(), ArtifactError>)
    ensures
        match r {
            Ok(_) => valid_id(value@),
            Err(error) => !valid_id(value@) && error@ == (ArtifactTrouble::InvalidInput { field }),
        },
{
    let chars = chars_of(value);
    if chars.len() == 0 {
        return Err(ArtifactError::InvalidInput { field });
    }
    let mut i: usize = 0;
    while i < chars.len()
        invariant
            i <= chars@.len(),
            chars@ == value@,
            forall|j: int| 0 <= j < i ==> id_character(#[trigger] value@[j]),
        decreases chars@.len() - i,
    {
        let c = chars[i];
        if !is_ascii_alphanumeric(c) && c != '-' && c != '_' && c != '.' && c != ':' {
            assert(!id_character(value@[i as int]));
            return Err(ArtifactError::InvalidInput { field });
        }
        i += 1;
    }
    Ok(())
}

fn validate_text(value: &str, field: &'static str) -> (r: Result<(), ArtifactError>)
    ensures
        match r {
            Ok(_) => valid_text(value@),
            Err(error) => !valid_text(value@) && error@ == (ArtifactTrouble::InvalidInput {
                field,
            }),
        },
{
    if is_blank(value) {
        return Err(ArtifactError::InvalidInput { field });
    }
    let chars = chars_of(value);
    let mut i: usize = 0;
    while i < chars.len()
        invariant
            i <= chars@.len(),
            chars@ == value@,
            forall|j: int| 0 <= j < i ==> !control(#[trigger] value@[j]),
        decreases chars@.len() - i,
    {
        if is_control(chars[i]) {
            assert(control(value@[i as int]));
            return Err(ArtifactError::InvalidInput { field });
        }
        i += 1;
    }
    Ok(())
}

fn is_media_token(s: &str) -> (r: bool)
    ensures
        r == media_token(s@),
{
    let chars = chars_of(s);
    let mut i: usize = 0;
    while i < chars.len()
        invariant
            i <= chars@.len(),
            chars@ == s@,
            forall|j: int| 0 <= j < i ==> media_character(#[trigger] s@[j]),
        decreases chars@.len() - i,
    {
        let c = chars[i];
        if !(is_ascii_alphanumeric(c) || c == '!' || c == '#' || c == '$' || c == '&' || c == '^'
            || c == '_' || c == '.' || c == '+' || c == '-') {
            assert(!media_character(s@[i as int]));
            return false;
        }
        i += 1;
    }
    chars.len() > 0
}

fn validate_media_type(value: &str) -> (r: Result<(), ArtifactError>)
    ensures
        match r {
            Ok(_) => valid_media_type(value@),
            Err(error) => !valid_media_type(value@) && error@ == ArtifactTrouble::InvalidMediaType,
        },
{
    proof {
        lemma_find_char(value@, '/');
    }
    match split_once(value, '/') {
        Some((kind, subtype)) => if is_media_token(kind.as_str()) && is_media_token(
            subtype.as_str(),
        ) {
            Ok(())
        } else {
            Err(ArtifactError::InvalidMediaType)
        },
        None => Err(ArtifactError::InvalidMediaType),
    }
}

// ---------------------------------------------------------------------------
// The store
// ---------------------------------------------------------------------------

/// In-memory artifact metadata store.
#[derive(Debug)]
pub struct ArtifactStore {
    artifacts: OrderedMap<String, Artifact>,
    versions: OrderedMap<String, ArtifactVersion>,
    next_sequence: u64,
}

pub type Artifacts = Seq<(Seq<char>, ArtifactModel)>;

pub type Versions = Seq<(Seq<char>, VersionModel)>;

/// The artifacts and versions of a store, each in the order of their identifiers, and the number
/// of versions made.
#[verifier::ext_equal]
pub struct StoreState {
    pub artifacts: Artifacts,
    pub versions: Versions,
    pub next_sequence: u64,
}

impl View for ArtifactStore {
    type V = StoreState;

    closed spec fn view(&self) -> StoreState {
        StoreState {
            artifacts: viewed::<String, Artifact>(self.artifacts@),
            versions: viewed::<String, ArtifactVersion>(self.versions@),
            next_sequence: self.next_sequence,
        }
    }
}

/// An empty store.
pub open spec fn empty_store() -> StoreState {
    StoreState { artifacts: Seq::empty(), versions: Seq::empty(), next_sequence: 0 }
}

pub open spec fn artifact_at(s: StoreState, id: Seq<char>) -> Option<ArtifactModel> {
    lookup::<String, ArtifactModel>(s.artifacts, id)
}

pub open spec fn version_at(s: StoreState, id: Seq<char>) -> Option<VersionModel> {
    lookup::<String, VersionModel>(s.versions, id)
}

/// Why an artifact cannot be created, if it cannot.
pub open spec fn artifact_trouble(s: StoreState, request: ArtifactModel) -> Option<
    ArtifactTrouble,
> {
    if !valid_id(request.id) {
        Some(ArtifactTrouble::InvalidInput { field: "artifact id" })
    } else if !valid_id(request.workspace_id) {
        Some(ArtifactTrouble::InvalidInput { field: "workspace id" })
    } else if !valid_text(request.name) {
        Some(ArtifactTrouble::InvalidInput { field: "artifact name" })
    } else if !valid_text(request.created_by) {
        Some(ArtifactTrouble::InvalidInput { field: "artifact creator" })
    } else if artifact_at(s, request.id) is Some {
        Some(ArtifactTrouble::ArtifactAlreadyExists(request.id))
    } else {
        None
    }
}

/// Creating an artifact.
pub open spec fn artifact_created(s: StoreState, request: ArtifactModel) -> StoreState {
    if artifact_trouble(s, request) is None {
        StoreState {
            artifacts: with_entry::<String, ArtifactModel>(s.artifacts, request.id, request),
            ..s
        }
    } else {
        s
    }
}

/// What is wrong with the inputs of a version from `index` on.
pub open spec fn inputs_trouble(s: StoreState, inputs: Seq<Seq<char>>, index: int) -> Option<
    ArtifactTrouble,
>
    decreases inputs.len() - index,
{
    if !(0 <= index < inputs.len()) {
        None
    } else if !valid_id(inputs[index]) {
        Some(ArtifactTrouble::InvalidInput { field: "input version id" })
    } else if inputs.take(index).contains(inputs[index]) {
        Some(ArtifactTrouble::DuplicateInputVersion(inputs[index]))
    } else if version_at(s, inputs[index]) is None {
        Some(ArtifactTrouble::VersionNotFound(inputs[index]))
    } else {
        inputs_trouble(s, inputs, index + 1)
    }
}

/// What is wrong with the parent of a version.
pub open spec fn parent_trouble(s: StoreState, request: VersionRequest) -> Option<ArtifactTrouble> {
    match request.parent_version_id {
        None => None,
        Some(parent) => if !valid_id(parent) {
            Some(ArtifactTrouble::InvalidInput { field: "parent version id" })
        } else {
            match version_at(s, parent) {
                None => Some(ArtifactTrouble::VersionNotFound(parent)),
                Some(found) => if found.artifact_id != request.artifact_id {
                    Some(
                        ArtifactTrouble::ParentBelongsToDifferentArtifact {
                            parent_version_id: parent,
                            artifact_id: request.artifact_id,
                        },
                    )
                } else {
                    None
                },
            }
        },
    }
}

/// Why a version cannot be made, if it cannot.
pub open spec fn version_trouble(s: StoreState, request: VersionRequest) -> Option<
    ArtifactTrouble,
> {
    if !valid_id(request.id) {
        Some(ArtifactTrouble::InvalidInput { field: "artifact version id" })
    } else if !valid_id(request.artifact_id) {
        Some(ArtifactTrouble::InvalidInput { field: "artifact id" })
    } else if !valid_text(request.content_reference) {
        Some(ArtifactTrouble::InvalidInput { field: "content reference" })
    } else if !valid_media_type(request.media_type) {
        Some(ArtifactTrouble::InvalidMediaType)
    } else if !valid_text(request.created_by) {
        Some(ArtifactTrouble::InvalidInput { field: "artifact version creator" })
    } else if version_at(s, request.id) is Some {
        Some(ArtifactTrouble::VersionAlreadyExists(request.id))
    } else if artifact_at(s, request.artifact_id) is None {
        Some(ArtifactTrouble::ArtifactNotFound(request.artifact_id))
    } else if parent_trouble(s, request) is Some {
        parent_trouble(s, request)
    } else if inputs_trouble(s, request.input_version_ids, 0) is Some {
        inputs_trouble(s, request.input_version_ids, 0)
    } else if s.next_sequence == u64::MAX {
        Some(ArtifactTrouble::SequenceExhausted)
    } else {
        None
    }
}

/// The version that a request makes.
pub open spec fn new_version(s: StoreState, request: VersionRequest) -> VersionModel {
    VersionModel {
        id: request.id,
        artifact_id: request.artifact_id,
        parent_version_id: request.parent_version_id,
        input_version_ids: request.input_version_ids,
        content_reference: request.content_reference,
        media_type: request.media_type,
        byte_len: request.byte_len,
        created_by: request.created_by,
        sequence: (s.next_sequence + 1) as u64,
    }
}

/// An artifact once `version` has become its current version.
pub open spec fn advanced(artifact: ArtifactModel, version: Seq<char>) -> ArtifactModel {
    ArtifactModel {
        current_version_id: Some(version),
        version_ids: artifact.version_ids.push(version),
        ..artifact
    }
}

/// Making a version.
pub open spec fn version_created(s: StoreState, request: VersionRequest) -> StoreState {
    if version_trouble(s, request) is None {
        StoreState {
            artifacts: with_entry::<String, ArtifactModel>(
                s.artifacts,
                request.artifact_id,
                advanced(artifact_at(s, request.artifact_id)->0, request.id),
            ),
            versions: with_entry::<String, VersionModel>(
                s.versions,
                request.id,
                new_version(s, request),
            ),
            next_sequence: (s.next_sequence + 1) as u64,
        }
    } else {
        s
    }
}

/// The versions with the given identifiers, from `index` on; those that do not exist are left out.
pub open spec fn versions_named(s: StoreState, ids: Seq<Seq<char>>, index: int) -> Seq<VersionModel>
    decreases ids.len() - index,
{
    if !(0 <= index < ids.len()) {
        Seq::empty()
    } else {
        match version_at(s, ids[index]) {
            Some(version) => seq![version] + versions_named(s, ids, index + 1),
            None => versions_named(s, ids, index + 1),
        }
    }
}

/// The versions of an artifact, oldest first.
pub open spec fn history_of(s: StoreState, artifact_id: Seq<char>) -> Seq<VersionModel> {
    match artifact_at(s, artifact_id) {
        Some(artifact) => versions_named(s, artifact.version_ids, 0),
        None => Seq::empty(),
    }
}

/// The current version of an artifact.
pub open spec fn current_of(s: StoreState, artifact_id: Seq<char>) -> Option<VersionModel> {
    match artifact_at(s, artifact_id) {
        Some(artifact) => match artifact.current_version_id {
            Some(id) => version_at(s, id),
            None => None,
        },
        None => None,
    }
}

pub open spec fn version_models(versions: Seq<&ArtifactVersion>) -> Seq<VersionModel> {
    Seq::new(versions.len(), |i: int| versions[i]@)
}

impl Default for ArtifactStore {
    fn default() -> (r: Self)
        ensures
            r@ == empty_store(),
    {
        let r = ArtifactStore {
            artifacts: OrderedMap::new(),
            versions: OrderedMap::new(),
            next_sequence: 0,
        };
        assert(r@ =~= empty_store());
        r
    }
}

impl ArtifactStore {
    fn has_artifact(&self, id: &String) -> (r: bool)
        ensures
            r == (artifact_at(self@, id@) is Some),
    {
        proof {
            lemma_viewed_lookup::<String, Artifact>(self.artifacts@, id@);
        }
        self.artifacts.contains(id)
    }

    fn has_version(&self, id: &String) -> (r: bool)
        ensures
            r == (version_at(self@, id@) is Some),
    {
        proof {
            lemma_viewed_lookup::<String, ArtifactVersion>(self.versions@, id@);
        }
        self.versions.contains(id)
    }

    /// Creates an artifact without versions.
    pub fn create_artifact(&mut self, request: NewArtifact) -> (r: Result<Artifact, ArtifactError>)
        ensures
            final(self)@ == artifact_created(old(self)@, request@),
            match r {
                Ok(artifact) => artifact_trouble(old(self)@, request@) is None && artifact@
                    == request@,
                Err(error) => artifact_trouble(old(self)@, request@) == Some(error@),
            },
    {
        if let Err(error) = validate_id(request.id.as_str(), "artifact id") {
            return Err(error);
        }
        if let Err(error) = validate_id(request.workspace_id.as_str(), "workspace id") {
            return Err(error);
        }
        if let Err(error) = validate_text(request.name.as_str(), "artifact name") {
            return Err(error);
        }
        if let Err(error) = validate_text(request.created_by.as_str(), "artifact creator") {
            return Err(error);
        }
        if self.has_artifact(&request.id) {
            return Err(ArtifactError::ArtifactAlreadyExists(request.id));
        }
        let ghost wanted = request@;
        let artifact = Artifact {
            id: request.id.clone(),
            workspace_id: request.workspace_id,
            name: request.name,
            kind: request.kind,
            created_by: request.created_by,
            current_version_id: None,
            version_ids: Vec::new(),
        };
        proof {
            assert(artifact@.version_ids =~= Seq::<Seq<char>>::empty());
            assert(artifact@ =~= wanted);
            lemma_viewed_put::<String, Artifact>(self.artifacts@, request.id@, artifact);
        }
        let r = artifact.clone();
        self.artifacts.insert(request.id, artifact);
        Ok(r)
    }

    fn check_inputs(&self, inputs: &Vec<String>) -> (r: Result<(), ArtifactError>)
        ensures
            match r {
                Ok(_) => inputs_trouble(self@, texts(inputs@), 0) is None,
                Err(error) => inputs_trouble(self@, texts(inputs@), 0) == Some(error@),
            },
    {
        let ghost all = texts(inputs@);
        let mut i: usize = 0;
        while i < inputs.len()
            invariant
                i <= inputs@.len(),
                all == texts(inputs@),
                inputs_trouble(self@, all, 0) == inputs_trouble(self@, all, i as int),
            decreases inputs@.len() - i,
        {
            let input = &inputs[i];
            assert(all[i as int] == input@);
            if let Err(error) = validate_id(input.as_str(), "input version id") {
                return Err(error);
            }
            let mut k: usize = 0;
            while k < i
                invariant
                    k <= i < inputs@.len(),
                    all == texts(inputs@),
                    input@ == all[i as int],
                    valid_id(all[i as int]),
                    inputs_trouble(self@, all, 0) == inputs_trouble(self@, all, i as int),
                    forall|j: int| 0 <= j < k ==> #[trigger] all[j] != input@,
                decreases i - k,
            {
                if same_text(inputs[k].as_str(), input.as_str()) {
                    assert(all.take(i as int)[k as int] == input@);
                    return Err(ArtifactError::DuplicateInputVersion(input.clone()));
                }
                k += 1;
            }
            assert(!all.take(i as int).contains(input@)) by {
                if all.take(i as int).contains(input@) {
                    let j = choose|j: int| 0 <= j < i && all.take(i as int)[j] == input@;
                    assert(all[j] == input@);
                }
            }
            if !self.has_version(input) {
                return Err(ArtifactError::VersionNotFound(input.clone()));
            }
            i += 1;
        }
        Ok(())
    }

    fn check_parent(&self, request: &NewArtifactVersion) -> (r: Result<(), ArtifactError>)
        ensures
            match r {
                Ok(_) => parent_trouble(self@, request@) is None,
                Err(error) => parent_trouble(self@, request@) == Some(error@),
            },
    {
        match &request.parent_version_id {
            None => Ok(()),
            Some(parent) => {
                if let Err(error) = validate_id(parent.as_str(), "parent version id") {
                    return Err(error);
                }
                match self.version(parent.as_str()) {
                    None => Err(ArtifactError::VersionNotFound(parent.clone())),
                    Some(found) => if !same_text(
                        found.artifact_id.as_str(),
                        request.artifact_id.as_str(),
                    ) {
                        Err(
                            ArtifactError::ParentBelongsToDifferentArtifact {
                                parent_version_id: parent.clone(),
                                artifact_id: request.artifact_id.clone(),
                            },
                        )
                    } else {
                        Ok(())
                    },
                }
            },
        }
    }

    /// Appends an immutable version to an artifact and makes it the current one.
    pub fn create_version(&mut self, request: NewArtifactVersion) -> (r: Result<
        ArtifactVersion,
        ArtifactError,
    >)
        ensures
            final(self)@ == version_created(old(self)@, request@),
            match r {
                Ok(version) => version_trouble(old(self)@, request@) is None && version@
                    == new_version(old(self)@, request@),
                Err(error) => version_trouble(old(self)@, request@) == Some(error@),
            },
    {
        if let Err(error) = validate_id(request.id.as_str(), "artifact version id") {
            return Err(error);
        }
        if let Err(error) = validate_id(request.artifact_id.as_str(), "artifact id") {
            return Err(error);
        }
        if let Err(error) = validate_text(
            request.content_reference.as_str(),
            "content reference",
        ) {
            return Err(error);
        }
        if let Err(error) = validate_media_type(request.media_type.as_str()) {
            return Err(error);
        }
        if let Err(error) = validate_text(
            request.created_by.as_str(),
            "artifact version creator",
        ) {
            return Err(error);
        }
        if self.has_version(&request.id) {
            return Err(ArtifactError::VersionAlreadyExists(request.id));
        }
        let place: usize = match self.artifacts.index(&request.artifact_id) {
            Some(place) => place,
            None => {
                proof {
                    lemma_viewed_lookup::<String, Artifact>(
                        self.artifacts@,
                        request.artifact_id@,
                    );
                }
                return Err(ArtifactError::ArtifactNotFound(request.artifact_id));
            },
        };
        proof {
            lemma_viewed_lookup::<String, Artifact>(self.artifacts@, request.artifact_id@);
        }
        if let Err(error) = self.check_parent(&request) {
            return Err(error);
        }
        if let Err(error) = self.check_inputs(&request.input_version_ids) {
            return Err(error);
        }
        if self.next_sequence == u64::MAX {
            return Err(ArtifactError::SequenceExhausted);
        }
        let ghost before = self@;
        let ghost wanted = request@;
        let sequence: u64 = self.next_sequence + 1;
        self.next_sequence = sequence;
        let mut artifact = self.artifacts.value(place).clone();
        let ghost found = artifact@;
        artifact.current_version_id = Some(request.id.clone());
        artifact.version_ids.push(request.id.clone());
        let version = ArtifactVersion {
            id: request.id.clone(),
            artifact_id: request.artifact_id,
            parent_version_id: request.parent_version_id,
            input_version_ids: request.input_version_ids,
            content_reference: request.content_reference,
            media_type: request.media_type,
            byte_len: request.byte_len,
            created_by: request.created_by,
            sequence,
        };
        let r = version.clone();
        proof {
            assert(artifact@.version_ids =~= found.version_ids.push(wanted.id));
            assert(artifact@ =~= advanced(found, wanted.id));
            assert(artifact_at(before, wanted.artifact_id) == Some(found));
            assert(version@ =~= new_version(before, wanted));
            lemma_viewed_put::<String, ArtifactVersion>(self.versions@, wanted.id, version);
            lemma_viewed_put::<String, Artifact>(
                self.artifacts@,
                wanted.artifact_id,
                artifact,
            );
            assert(with_entry::<String, Artifact>(
                self.artifacts@,
                wanted.artifact_id,
                artifact,
            ) == self.artifacts@.update(
                place as int,
                (self.artifacts@[place as int].0, artifact),
            ));
        }
        self.versions.insert(request.id, version);
        self.artifacts.set(place, artifact);
        assert(self@ =~= version_created(before, wanted));
        Ok(r)
    }

    pub fn artifact(&self, id: &str) -> (r: Option<&Artifact>)
        ensures
            match r {
                Some(artifact) => artifact_at(self@, id@) == Some(artifact@),
                None => artifact_at(self@, id@) is None,
            },
    {
        proof {
            lemma_viewed_lookup::<String, Artifact>(self.artifacts@, id@);
        }
        self.artifacts.get(&id.to_owned())
    }

    pub fn version(&self, id: &str) -> (r: Option<&ArtifactVersion>)
        ensures
            match r {
                Some(version) => version_at(self@, id@) == Some(version@),
                None => version_at(self@, id@) is None,
            },
    {
        proof {
            lemma_viewed_lookup::<String, ArtifactVersion>(self.versions@, id@);
        }
        self.versions.get(&id.to_owned())
    }

    pub fn current_version(&self, artifact_id: &str) -> (r: Option<&ArtifactVersion>)
        ensures
            match r {
                Some(version) => current_of(self@, artifact_id@) == Some(version@),
                None => current_of(self@, artifact_id@) is None,
            },
    {
        match self.artifact(artifact_id) {
            Some(artifact) => match &artifact.current_version_id {
                Some(id) => self.version(id.as_str()),
                None => None,
            },
            None => None,
        }
    }

    pub fn version_history(&self, artifact_id: &str) -> (r: Vec<&ArtifactVersion>)
        ensures
            version_models(r@) == history_of(self@, artifact_id@),
    {
        let mut r: Vec<&ArtifactVersion> = Vec::new();
        assert(version_models(r@) =~= Seq::<VersionModel>::empty());
        if let Some(artifact) = self.artifact(artifact_id) {
            let ghost ids = texts(artifact.version_ids@);
            let mut i: usize = 0;
            assert(version_models(r@) + versions_named(self@, ids, 0) =~= versions_named(
                self@,
                ids,
                0,
            ));
            while i < artifact.version_ids.len()
                invariant
                    i <= artifact.version_ids@.len(),
                    ids == texts(artifact.version_ids@),
                    version_models(r@) + versions_named(self@, ids, i as int) == versions_named(
                        self@,
                        ids,
                        0,
                    ),
                decreases artifact.version_ids@.len() - i,
            {
                let ghost before = r@;
                assert(ids[i as int] == artifact.version_ids@[i as int]@);
                if let Some(version) = self.version(artifact.version_ids[i].as_str()) {
                    r.push(version);
                    assert(version_models(r@) =~= version_models(before).push(version@));
                    assert(version_models(r@) + versions_named(self@, ids, i + 1)
                        =~= version_models(before) + (seq![version@] + versions_named(
                        self@,
                        ids,
                        i + 1,
                    )));
                }
                i += 1;
            }
            assert(version_models(r@) + Seq::<VersionModel>::empty() =~= version_models(r@));
        }
        r
    }
}

// ---------------------------------------------------------------------------
// What the store guarantees
// ---------------------------------------------------------------------------

/// A store in order: every artifact stands under its own identifier, its current version is its
/// latest, every version of it exists and belongs to it, and no sequence number exceeds the
/// number of versions made.
pub open spec fn sound_store(s: StoreState) -> bool {
    &&& sorted::<String, ArtifactModel>(s.artifacts)
    &&& sorted::<String, VersionModel>(s.versions)
    &&& forall|id: Seq<char>|
        #[trigger] artifact_at(s, id) matches Some(artifact) ==> {
            &&& artifact.id == id
            &&& artifact.current_version_id == if artifact.version_ids.len() == 0 {
                None
            } else {
                Some(artifact.version_ids.last())
            }
            &&& forall|k: int|
                0 <= k < artifact.version_ids.len() ==> (version_at(
                    s,
                    #[trigger] artifact.version_ids[k],
                ) matches Some(version) && version.artifact_id == id)
        }
    &&& forall|id: Seq<char>|
        #[trigger] version_at(s, id) matches Some(version) ==> version.id == id && version.sequence
            <= s.next_sequence
}

/// An empty store is in order.
pub proof fn law_empty_stores_are_sound()
    ensures
        sound_store(empty_store()),
{
    let s = empty_store();
    assert forall|id: Seq<char>| artifact_at(s, id) is None && version_at(s, id) is None by {
        crate::ordered::lemma_not_found::<String, ArtifactModel>(s.artifacts, id);
        crate::ordered::lemma_not_found::<String, VersionModel>(s.versions, id);
    }
}

/// Creating an artifact keeps the store in order, and leaves every other artifact and every
/// version as it was.
pub proof fn law_creating_artifacts(s: StoreState, request: ArtifactModel, other: Seq<char>)
    requires
        sound_store(s),
        request.current_version_id is None,
        request.version_ids.len() == 0,
    ensures
        sound_store(artifact_created(s, request)),
        artifact_created(s, request).versions == s.versions,
        artifact_trouble(s, request) is None ==> artifact_at(
            artifact_created(s, request),
            request.id,
        ) == Some(request),
        artifact_trouble(s, request) is None && other == request.id || artifact_at(
            artifact_created(s, request),
            other,
        ) == artifact_at(s, other),
{
    let next = artifact_created(s, request);
    if artifact_trouble(s, request) is None {
        lemma_with_entry_sorted::<String, ArtifactModel>(s.artifacts, request.id, request);
        law_put_then_get::<String, ArtifactModel>(s.artifacts, request.id, request, request.id);
        law_put_then_get::<String, ArtifactModel>(s.artifacts, request.id, request, other);
        assert forall|id: Seq<char>| #[trigger] artifact_at(next, id) matches Some(artifact) ==> {
            &&& artifact.id == id
            &&& artifact.current_version_id == if artifact.version_ids.len() == 0 {
                None
            } else {
                Some(artifact.version_ids.last())
            }
            &&& forall|k: int|
                0 <= k < artifact.version_ids.len() ==> (version_at(
                    next,
                    #[trigger] artifact.version_ids[k],
                ) matches Some(version) && version.artifact_id == id)
        } by {
            law_put_then_get::<String, ArtifactModel>(s.artifacts, request.id, request, id);
            if id != request.id && artifact_at(next, id) is Some {
                let artifact = artifact_at(s, id)->0;
                assert forall|k: int| 0 <= k < artifact.version_ids.len() implies (version_at(
                    next,
                    #[trigger] artifact.version_ids[k],
                ) matches Some(version) && version.artifact_id == id) by {
                    assert(version_at(s, artifact.version_ids[k]) is Some);
                }
            }
        }
        assert forall|id: Seq<char>|
            #[trigger] version_at(next, id) matches Some(version) ==> version.id == id
                && version.sequence <= next.next_sequence by {
            assert(version_at(next, id) == version_at(s, id));
        }
    }
}

/// Versions are immutable: making one keeps every version that exists. The new version becomes the
/// current one of its artifact, with a sequence number above all others, and every other artifact
/// stays as it was. A refusal changes nothing.
pub proof fn law_versions_are_immutable(
    s: StoreState,
    request: VersionRequest,
    other_version: Seq<char>,
    other_artifact: Seq<char>,
)
    requires
        sound_store(s),
    ensures
        ({
            let next = version_created(s, request);
            &&& sound_store(next)
            &&& version_at(s, other_version) is Some ==> version_at(next, other_version)
                == version_at(s, other_version)
            &&& other_artifact != request.artifact_id ==> artifact_at(next, other_artifact)
                == artifact_at(s, other_artifact)
            &&& version_trouble(s, request) is Some ==> next == s
            &&& version_trouble(s, request) is None ==> {
                &&& current_of(next, request.artifact_id) == Some(new_version(s, request))
                &&& forall|id: Seq<char>|
                    #[trigger] version_at(s, id) matches Some(version) ==> version.sequence
                        < new_version(s, request).sequence
            }
        }),
{
    let next = version_created(s, request);
    if version_trouble(s, request) is None {
        let artifact = artifact_at(s, request.artifact_id)->0;
        let later = advanced(artifact, request.id);
        let version = new_version(s, request);
        assert(artifact_at(s, request.artifact_id) is Some);
        lemma_with_entry_sorted::<String, ArtifactModel>(s.artifacts, request.artifact_id, later);
        lemma_with_entry_sorted::<String, VersionModel>(s.versions, request.id, version);
        law_put_then_get::<String, VersionModel>(s.versions, request.id, version, other_version);
        law_put_then_get::<String, VersionModel>(s.versions, request.id, version, request.id);
        law_put_then_get::<String, ArtifactModel>(
            s.artifacts,
            request.artifact_id,
            later,
            other_artifact,
        );
        law_put_then_get::<String, ArtifactModel>(
            s.artifacts,
            request.artifact_id,
            later,
            request.artifact_id,
        );
        assert forall|id: Seq<char>|
            #[trigger] version_at(next, id) matches Some(found) ==> found.id == id && found.sequence
                <= next.next_sequence by {
            law_put_then_get::<String, VersionModel>(s.versions, request.id, version, id);
            if id != request.id {
                assert(version_at(next, id) == version_at(s, id));
            }
        }
        assert forall|id: Seq<char>| #[trigger] artifact_at(next, id) matches Some(found) ==> {
            &&& found.id == id
            &&& found.current_version_id == if found.version_ids.len() == 0 {
                None
            } else {
                Some(found.version_ids.last())
            }
            &&& forall|k: int|
                0 <= k < found.version_ids.len() ==> (version_at(
                    next,
                    #[trigger] found.version_ids[k],
                ) matches Some(kept) && kept.artifact_id == id)
        } by {
            law_put_then_get::<String, ArtifactModel>(
                s.artifacts,
                request.artifact_id,
                later,
                id,
            );
            if artifact_at(next, id) is Some {
                let found = artifact_at(next, id)->0;
                let old_found = artifact_at(s, id)->0;
                assert(artifact_at(s, id) is Some);
                assert forall|k: int| 0 <= k < found.version_ids.len() implies (version_at(
                    next,
                    #[trigger] found.version_ids[k],
                ) matches Some(kept) && kept.artifact_id == id) by {
                    law_put_then_get::<String, VersionModel>(
                        s.versions,
                        request.id,
                        version,
                        found.version_ids[k],
                    );
                    if k < old_found.version_ids.len() {
                        assert(found.version_ids[k] == old_found.version_ids[k]);
                        assert(version_at(s, old_found.version_ids[k]) is Some);
                    }
                }
            }
        }
    }
}

/// The artifacts of a workspace among the first `n`.
pub open spec fn artifacts_of(artifacts: Artifacts, workspace: Seq<char>, n: int) -> Seq<
    ArtifactModel,
>
    decreases n,
{
    if n <= 0 {
        Seq::empty()
    } else if artifacts[n - 1].1.workspace_id == workspace {
        artifacts_of(artifacts, workspace, n - 1).push(artifacts[n - 1].1)
    } else {
        artifacts_of(artifacts, workspace, n - 1)
    }
}

pub open spec fn artifact_models(artifacts: Seq<Artifact>) -> Seq<ArtifactModel> {
    Seq::new(artifacts.len(), |i: int| artifacts[i]@)
}

/// The artifacts of a workspace, in the order of their identifiers.
pub fn artifacts_in(store: &ArtifactStore, workspace: &str) -> (r: Vec<Artifact>)
    ensures
        artifact_models(r@) == artifacts_of(
            store@.artifacts,
            workspace@,
            store@.artifacts.len() as int,
        ),
{
    let ghost all = store@.artifacts;
    let n: usize = store.artifacts.len();
    let mut r: Vec<Artifact> = Vec::new();
    let mut i: usize = 0;
    assert(artifact_models(r@) =~= Seq::<ArtifactModel>::empty());
    while i < n
        invariant
            i <= n,
            n == store.artifacts@.len(),
            all == viewed::<String, Artifact>(store.artifacts@),
            artifact_models(r@) == artifacts_of(all, workspace@, i as int),
        decreases n - i,
    {
        let artifact = store.artifacts.value(i);
        assert(all[i as int].1 == artifact@);
        if same_text(artifact.workspace_id.as_str(), workspace) {
            let ghost before = r@;
            let copy = artifact.clone();
            r.push(copy);
            assert(artifact_models(r@) =~= artifact_models(before).push(copy@));
        }
        i += 1;
    }
    r
}

proof fn lemma_artifacts_of(artifacts: Artifacts, workspace: Seq<char>, n: int, artifact: ArtifactModel)
    requires
        0 <= n <= artifacts.len(),
    ensures
        artifacts_of(artifacts, workspace, n).contains(artifact) <==> artifact.workspace_id
            == workspace && exists|i: int| 0 <= i < n && (#[trigger] artifacts[i]).1 == artifact,
    decreases n,
{
    if n > 0 {
        lemma_artifacts_of(artifacts, workspace, n - 1, artifact);
        let before = artifacts_of(artifacts, workspace, n - 1);
        let after = artifacts_of(artifacts, workspace, n);
        if after.contains(artifact) {
            let k = after.index_of(artifact);
            if k < before.len() {
                assert(before[k] == artifact);
                let i = choose|i: int| 0 <= i < n - 1 && (#[trigger] artifacts[i]).1 == artifact;
                assert(artifacts[i].1 == artifact);
            } else {
                assert(artifacts[n - 1].1 == artifact);
            }
        }
        if artifact.workspace_id == workspace && exists|i: int|
            0 <= i < n && (#[trigger] artifacts[i]).1 == artifact {
            let i = choose|i: int| 0 <= i < n && (#[trigger] artifacts[i]).1 == artifact;
            if i == n - 1 {
                assert(after.last() == artifact);
            } else {
                let k = before.index_of(artifact);
                assert(after[k] == artifact);
            }
        }
    }
}

/// The artifacts of a workspace are those that were made for it, and no others.
pub proof fn law_workspaces_list_their_artifacts(
    s: StoreState,
    workspace: Seq<char>,
    artifact: ArtifactModel,
)
    requires
        sound_store(s),
    ensures
        artifacts_of(s.artifacts, workspace, s.artifacts.len() as int).contains(artifact)
            <==> artifact.workspace_id == workspace
                && artifact_at(s, artifact.id) == Some(artifact),
{
    lemma_artifacts_of(s.artifacts, workspace, s.artifacts.len() as int, artifact);
    if exists|i: int| 0 <= i < s.artifacts.len() && (#[trigger] s.artifacts[i]).1 == artifact {
        let i = choose|i: int|
            0 <= i < s.artifacts.len() && (#[trigger] s.artifacts[i]).1 == artifact;
        lemma_found::<String, ArtifactModel>(s.artifacts, i);
        assert(artifact_at(s, s.artifacts[i].0) == Some(artifact));
    }
    if artifact_at(s, artifact.id) == Some(artifact) {
        let i = position::<String, ArtifactModel>(s.artifacts, artifact.id);
        assert(s.artifacts[i].1 == artifact);
    }
}

/// A store in order whose histories rise: the versions of an artifact have rising sequence numbers,
/// each version belongs to an artifact that lists it, and its parent is an earlier version of the
/// same artifact.
pub open spec fn rising_store(s: StoreState) -> bool {
    &&& sound_store(s)
    &&& forall|id: Seq<char>| #[trigger] artifact_at(s, id) is Some ==> rising_ids(
        s,
        artifact_at(s, id)->0.version_ids,
    )
    &&& forall|id: Seq<char>| #[trigger] version_at(s, id) is Some ==> rooted(
        s,
        version_at(s, id)->0,
    )
}

/// Whether versions have rising sequence numbers.
pub open spec fn rising_ids(s: StoreState, ids: Seq<Seq<char>>) -> bool {
    forall|j: int, k: int|
        0 <= j < k < ids.len() ==> version_at(s, #[trigger] ids[j])->0.sequence < version_at(
            s,
            #[trigger] ids[k],
        )->0.sequence
}

/// Whether an artifact lists a version, and its parent is an earlier version of that artifact.
pub open spec fn rooted(s: StoreState, version: VersionModel) -> bool {
    &&& artifact_at(s, version.artifact_id) matches Some(artifact)
        && artifact.version_ids.contains(version.id)
    &&& version.parent_version_id matches Some(parent) ==> (version_at(s, parent) matches Some(
        earlier,
    ) && earlier.artifact_id == version.artifact_id && earlier.sequence < version.sequence)
}

/// The histories of an empty store rise.
pub proof fn law_empty_histories_rise()
    ensures
        rising_store(empty_store()),
{
    law_empty_stores_are_sound();
    let s = empty_store();
    assert forall|id: Seq<char>| artifact_at(s, id) is None && version_at(s, id) is None by {
        crate::ordered::lemma_not_found::<String, ArtifactModel>(s.artifacts, id);
        crate::ordered::lemma_not_found::<String, VersionModel>(s.versions, id);
    }
}

/// A new artifact leaves every history rising.
pub proof fn law_new_artifacts_keep_histories(s: StoreState, request: ArtifactModel)
    requires
        rising_store(s),
        request.current_version_id is None,
        request.version_ids.len() == 0,
    ensures
        rising_store(artifact_created(s, request)),
{
    let next = artifact_created(s, request);
    law_creating_artifacts(s, request, request.id);
    if artifact_trouble(s, request) is None {
        assert forall|id: Seq<char>| #[trigger] artifact_at(next, id) is Some implies rising_ids(
            next,
            artifact_at(next, id)->0.version_ids,
        ) by {
            law_creating_artifacts(s, request, id);
            if id != request.id {
                let ids = artifact_at(s, id)->0.version_ids;
                assert(rising_ids(s, ids));
                assert forall|j: int, k: int| 0 <= j < k < ids.len() implies version_at(
                    next,
                    #[trigger] ids[j],
                )->0.sequence < version_at(next, #[trigger] ids[k])->0.sequence by {
                    assert(version_at(next, ids[j]) == version_at(s, ids[j]));
                    assert(version_at(next, ids[k]) == version_at(s, ids[k]));
                }
            }
        }
        assert forall|id: Seq<char>| #[trigger] version_at(next, id) is Some implies rooted(
            next,
            version_at(next, id)->0,
        ) by {
            assert(version_at(next, id) == version_at(s, id));
            let version = version_at(s, id)->0;
            assert(rooted(s, version));
            law_creating_artifacts(s, request, version.artifact_id);
            if let Some(parent) = version.parent_version_id {
                assert(version_at(next, parent) == version_at(s, parent));
            }
        }
    }
}

/// A new version leaves every history rising.
pub proof fn law_new_versions_keep_histories(s: StoreState, request: VersionRequest)
    requires
        rising_store(s),
    ensures
        rising_store(version_created(s, request)),
{
    let next = version_created(s, request);
    law_versions_are_immutable(s, request, request.id, request.artifact_id);
    if version_trouble(s, request) is None {
        let version = new_version(s, request);
        let later = advanced(artifact_at(s, request.artifact_id)->0, request.id);
        assert forall|id: Seq<char>| #[trigger] version_at(next, id) == if id == request.id {
            Some(version)
        } else {
            version_at(s, id)
        } by {
            law_put_then_get::<String, VersionModel>(s.versions, request.id, version, id);
        }
        assert forall|id: Seq<char>| #[trigger] artifact_at(next, id) == if id
            == request.artifact_id {
            Some(later)
        } else {
            artifact_at(s, id)
        } by {
            law_put_then_get::<String, ArtifactModel>(
                s.artifacts,
                request.artifact_id,
                later,
                id,
            );
        }
        assert forall|id: Seq<char>| #[trigger] artifact_at(next, id) is Some implies rising_ids(
            next,
            artifact_at(next, id)->0.version_ids,
        ) by {
            let ids = artifact_at(next, id)->0.version_ids;
            let earlier = artifact_at(s, id)->0.version_ids;
            assert(artifact_at(s, id) is Some);
            assert(rising_ids(s, earlier));
            assert forall|j: int, k: int| 0 <= j < k < ids.len() implies version_at(
                next,
                #[trigger] ids[j],
            )->0.sequence < version_at(next, #[trigger] ids[k])->0.sequence by {
                assert(ids[j] == earlier[j]);
                assert(version_at(s, earlier[j]) is Some);
                if k < earlier.len() {
                    assert(ids[k] == earlier[k]);
                    assert(version_at(s, earlier[k]) is Some);
                }
            }
        }
        assert forall|id: Seq<char>| #[trigger] version_at(next, id) is Some implies rooted(
            next,
            version_at(next, id)->0,
        ) by {
            let found = version_at(next, id)->0;
            if id == request.id {
                assert(later.version_ids.last() == request.id);
                if let Some(parent) = found.parent_version_id {
                    assert(version_at(s, parent) is Some);
                }
            } else {
                assert(version_at(s, id) is Some);
                assert(rooted(s, found));
                let ids = artifact_at(s, found.artifact_id)->0.version_ids;
                if found.artifact_id == request.artifact_id {
                    let at = ids.index_of(found.id);
                    assert(later.version_ids[at] == found.id);
                }
            }
        }
    }
}

proof fn lemma_versions_named(s: StoreState, ids: Seq<Seq<char>>, index: int)
    requires
        0 <= index <= ids.len(),
        forall|k: int| 0 <= k < ids.len() ==> version_at(s, #[trigger] ids[k]) is Some,
    ensures
        versions_named(s, ids, index).len() == ids.len() - index,
        forall|k: int|
            index <= k < ids.len() ==> versions_named(s, ids, index)[k - index] == version_at(
                s,
                #[trigger] ids[k],
            )->0,
    decreases ids.len() - index,
{
    if index < ids.len() {
        lemma_versions_named(s, ids, index + 1);
        assert(version_at(s, ids[index]) is Some);
        let rest = versions_named(s, ids, index + 1);
        assert forall|k: int| index <= k < ids.len()
            implies versions_named(s, ids, index)[k - index]
            == version_at(s, #[trigger] ids[k])->0 by {
            if k > index {
                assert(versions_named(s, ids, index)[k - index] == rest[k - index - 1]);
            }
        }
    }
}

/// The history of an artifact rises in sequence, and the parent of each of its versions stands
/// earlier in it.
pub proof fn law_histories_rise(s: StoreState, artifact_id: Seq<char>)
    requires
        rising_store(s),
    ensures
        ({
            let history = history_of(s, artifact_id);
            &&& forall|j: int, k: int|
                0 <= j < k < history.len() ==> (#[trigger] history[j]).sequence < (
                #[trigger] history[k]).sequence
            &&& forall|k: int|
                #![trigger history[k]]
                0 <= k < history.len() ==> (history[k].parent_version_id matches Some(parent)
                    ==> exists|j: int| 0 <= j < k && (#[trigger] history[j]).id == parent)
        }),
{
    let history = history_of(s, artifact_id);
    if let Some(artifact) = artifact_at(s, artifact_id) {
        let ids = artifact.version_ids;
        assert(rising_ids(s, ids));
        lemma_versions_named(s, ids, 0);
        assert forall|k: int| 0 <= k < history.len() implies #[trigger] history[k] == version_at(
            s,
            ids[k],
        )->0 by {
            assert(versions_named(s, ids, 0)[k - 0] == version_at(s, ids[k])->0);
        }
        assert forall|k: int|
            #![trigger history[k]]
            0 <= k < history.len() && history[k].parent_version_id is Some implies exists|j: int|
            0 <= j < k && (#[trigger] history[j]).id == history[k].parent_version_id->0 by {
            assert(version_at(s, ids[k]) is Some);
            let version = history[k];
            assert(rooted(s, version));
            let parent = version.parent_version_id->0;
            let earlier = version_at(s, parent)->0;
            assert(rooted(s, earlier));
            let j = ids.index_of(parent);
            assert(ids[j] == parent);
            assert(history[j] == earlier);
        }
    }
}

/// Whether a character may stand in an identifier.
pub open spec fn in_identifiers(c: char) -> bool {
    'a' <= c <= 'z' || 'A' <= c <= 'Z' || '0' <= c <= '9' || c == '-' || c == '_' || c == '.' || c
        == ':'
}

/// Whether a text is an identifier.
pub open spec fn is_identifier(value: Seq<char>) -> bool {
    value.len() > 0 && forall|i: int| 0 <= i < value.len() ==> in_identifiers(#[trigger] value[i])
}

proof fn lemma_is_identifier(value: Seq<char>)
    ensures
        valid_id(value) <==> is_identifier(value),
{
    if is_identifier(value) {
        assert forall|i: int| 0 <= i < value.len() implies id_character(#[trigger] value[i]) by {
            assert(in_identifiers(value[i]));
        }
    }
    if valid_id(value) {
        assert forall|i: int| 0 <= i < value.len() implies in_identifiers(#[trigger] value[i]) by {
            assert(id_character(value[i]));
        }
    }
}

/// A version is made as it was asked for: with its parent, its inputs, the reference to its content,
/// its type, its size and its maker, and with a number of its own. It becomes the current version of
/// its artifact and the last of its history, and what came before stays there.
pub proof fn law_versions_are_made_as_asked(s: StoreState, request: VersionRequest)
    requires
        sound_store(s),
        version_trouble(s, request) is None,
    ensures
        ({
            let next = version_created(s, request);
            &&& version_at(next, request.id) matches Some(version) && {
                &&& version.id == request.id
                &&& version.artifact_id == request.artifact_id
                &&& version.parent_version_id == request.parent_version_id
                &&& version.input_version_ids == request.input_version_ids
                &&& version.content_reference == request.content_reference
                &&& version.media_type == request.media_type
                &&& version.byte_len == request.byte_len
                &&& version.created_by == request.created_by
                &&& version.sequence == s.next_sequence + 1
                &&& current_of(next, request.artifact_id) == Some(version)
                &&& history_of(next, request.artifact_id) == history_of(
                    s,
                    request.artifact_id,
                ).push(version)
            }
            &&& next.next_sequence == s.next_sequence + 1
            &&& artifact_at(next, request.artifact_id) matches Some(artifact) && artifact_at(
                s,
                request.artifact_id,
            ) matches Some(before) && artifact.workspace_id == before.workspace_id && artifact.name
                == before.name && artifact.kind == before.kind && artifact.created_by
                == before.created_by
        }),
{
    let next = version_created(s, request);
    let artifact = artifact_at(s, request.artifact_id)->0;
    let later = advanced(artifact, request.id);
    let version = new_version(s, request);
    law_put_then_get::<String, VersionModel>(s.versions, request.id, version, request.id);
    law_put_then_get::<String, ArtifactModel>(
        s.artifacts,
        request.artifact_id,
        later,
        request.artifact_id,
    );
    let ids = artifact.version_ids;
    let more = later.version_ids;
    assert forall|k: int| 0 <= k < ids.len() implies version_at(next, #[trigger] ids[k])
        == version_at(s, ids[k]) && version_at(s, ids[k]) is Some by {
        assert(version_at(s, ids[k]) is Some);
        law_put_then_get::<String, VersionModel>(s.versions, request.id, version, ids[k]);
    }
    assert forall|k: int| 0 <= k < more.len() implies version_at(next, #[trigger] more[k]) is Some by {
        if k < ids.len() {
            assert(more[k] == ids[k]);
            assert(version_at(next, ids[k]) is Some);
        }
    }
    lemma_versions_named(s, ids, 0);
    lemma_versions_named(next, more, 0);
    let before = history_of(s, request.artifact_id);
    let after = history_of(next, request.artifact_id);
    assert forall|k: int| 0 <= k < after.len() implies after[k] == before.push(version)[k] by {
        assert(versions_named(next, more, 0)[k - 0] == version_at(next, more[k])->0);
        if k < ids.len() {
            assert(more[k] == ids[k]);
            assert(versions_named(s, ids, 0)[k - 0] == version_at(s, ids[k])->0);
        }
    }
    assert(after =~= before.push(version));
}

/// A version is refused for any of these: an identifier that is none, one that is taken, an artifact
/// that is not there, a parent that is not there or belongs to another artifact, and inputs that are
/// not there or named twice.
pub proof fn law_versions_are_refused_for_these(
    s: StoreState,
    request: VersionRequest,
    i: int,
    j: int,
)
    requires
        0 <= i < request.input_version_ids.len() || i == -1,
    ensures
        version_trouble(s, request) is None ==> {
            &&& is_identifier(request.id)
            &&& is_identifier(request.artifact_id)
            &&& version_at(s, request.id) is None
            &&& artifact_at(s, request.artifact_id) is Some
            &&& request.parent_version_id matches Some(parent) ==> (version_at(
                s,
                parent,
            ) matches Some(found) && found.artifact_id == request.artifact_id)
            &&& i >= 0 ==> version_at(s, request.input_version_ids[i]) is Some
            &&& 0 <= j < i ==> request.input_version_ids[j] != request.input_version_ids[i]
            &&& s.next_sequence < u64::MAX
        },
{
    lemma_is_identifier(request.id);
    lemma_is_identifier(request.artifact_id);
    if version_trouble(s, request) is None && i >= 0 {
        lemma_inputs(s, request.input_version_ids, 0, i, j);
    }
}

proof fn lemma_inputs(s: StoreState, inputs: Seq<Seq<char>>, index: int, i: int, j: int)
    requires
        0 <= index <= i < inputs.len(),
        inputs_trouble(s, inputs, index) is None,
    ensures
        version_at(s, inputs[i]) is Some,
        0 <= j < i ==> inputs[j] != inputs[i],
    decreases i - index,
{
    if index < i {
        lemma_inputs(s, inputs, index + 1, i, j);
    } else if 0 <= j < i {
        assert(inputs.take(i)[j] == inputs[j]);
    }
}

/// An artifact is made exactly where its own identifier and that of its workspace are identifiers,
/// its name and its maker show something without control characters, and its identifier is free.
pub proof fn law_artifacts_are_made_for_these(s: StoreState, request: ArtifactModel)
    ensures
        artifact_trouble(s, request) is None <==> {
            &&& is_identifier(request.id)
            &&& is_identifier(request.workspace_id)
            &&& !all_white(request.name)
            &&& forall|i: int|
                0 <= i < request.name.len() ==> !((#[trigger] request.name[i]) as u32 <= 0x1f
                    || 0x7f <= request.name[i] as u32 <= 0x9f)
            &&& !all_white(request.created_by)
            &&& forall|i: int|
                0 <= i < request.created_by.len() ==> !((#[trigger] request.created_by[i]) as u32
                    <= 0x1f || 0x7f <= request.created_by[i] as u32 <= 0x9f)
            &&& artifact_at(s, request.id) is None
        },
{
    lemma_is_identifier(request.id);
    lemma_is_identifier(request.workspace_id);
    law_blank_texts_are_white(request.name, ' ');
    law_blank_texts_are_white(request.created_by, ' ');
    lemma_shows_no_control(request.name);
    lemma_shows_no_control(request.created_by);
}

proof fn lemma_shows_no_control(s: Seq<char>)
    ensures
        (forall|i: int| 0 <= i < s.len() ==> !control(#[trigger] s[i])) <==> (forall|i: int|
            0 <= i < s.len() ==> !((#[trigger] s[i]) as u32 <= 0x1f || 0x7f <= s[i] as u32 <= 0x9f)),
{
    if forall|i: int|
        0 <= i < s.len() ==> !((#[trigger] s[i]) as u32 <= 0x1f || 0x7f <= s[i] as u32 <= 0x9f) {
        assert forall|i: int| 0 <= i < s.len() implies !control(#[trigger] s[i]) by {
            assert(!(s[i] as u32 <= 0x1f || 0x7f <= s[i] as u32 <= 0x9f));
        }
    }
    if forall|i: int| 0 <= i < s.len() ==> !control(#[trigger] s[i]) {
        assert forall|i: int| 0 <= i < s.len() implies !((#[trigger] s[i]) as u32 <= 0x1f || 0x7f
            <= s[i] as u32 <= 0x9f) by {
            assert(!control(s[i]));
        }
    }
}

/// A media type is two words of its own characters with one slash between them.
pub proof fn law_media_types_have_two_parts(first: Seq<char>, second: Seq<char>)
    requires
        is_identifier(first),
        is_identifier(second),
        lacks(first, ':'),
        lacks(second, ':'),
    ensures
        valid_media_type(first + "/"@ + second),
        !valid_media_type(first),
        !valid_media_type(first + "/"@),
        !valid_media_type(first + "/"@ + second + "/"@ + second),
        !valid_media_type(first + " "@ + "/"@ + second),
{
    reveal_strlit("/");
    reveal_strlit(" ");
    lemma_media_parts(first, second);
    let n = first.len() as int;
    lemma_find_char(first, '/');
    if find_char(first, '/') < n {
        assert(in_identifiers(first[find_char(first, '/')]));
    }
    lemma_media_parts(first, Seq::empty());
    assert(first + "/"@ + Seq::<char>::empty() =~= first + "/"@);
    let tail = second + "/"@ + second;
    lemma_media_parts(first, tail);
    assert(first + "/"@ + tail =~= first + "/"@ + second + "/"@ + second);
    assert(tail[second.len() as int] == '/');
    assert(!media_character('/'));
    assert(!media_token(tail));
    let broken = first + " "@;
    let whole = broken + "/"@ + second;
    assert forall|i: int| 0 <= i < broken.len() implies #[trigger] broken[i] != '/' by {
        if i < n {
            assert(in_identifiers(first[i]));
        }
    }
    lemma_slash_at(broken, second);
    assert(whole.take(broken.len() as int) =~= broken);
    assert(broken[n] == ' ');
    assert(!media_character(' '));
    assert(!media_token(broken));
}

proof fn lemma_slash_at(front: Seq<char>, back: Seq<char>)
    requires
        forall|i: int| 0 <= i < front.len() ==> #[trigger] front[i] != '/',
    ensures
        find_char(front + "/"@ + back, '/') == front.len(),
{
    reveal_strlit("/");
    let whole = front + "/"@ + back;
    assert forall|j: int| 0 <= j < front.len() implies whole[j] != '/' by {
        assert(whole[j] == front[j]);
    }
    lemma_find_char_is(whole, '/', front.len() as int);
}

proof fn lemma_media_parts(first: Seq<char>, second: Seq<char>)
    requires
        is_identifier(first),
        lacks(first, ':'),
    ensures
        valid_media_type(first + "/"@ + second) <==> media_token(second),
        is_identifier(second) && lacks(second, ':') ==> media_token(second),
{
    reveal_strlit("/");
    let whole = first + "/"@ + second;
    let n = first.len() as int;
    assert forall|i: int| 0 <= i < n implies #[trigger] first[i] != '/' by {
        assert(in_identifiers(first[i]));
    }
    lemma_slash_at(first, second);
    assert(whole.take(n) =~= first);
    assert(whole.skip(n + 1) =~= second);
    assert forall|i: int| 0 <= i < n implies media_character(#[trigger] first[i]) by {
        assert(in_identifiers(first[i]));
    }
    if is_identifier(second) && lacks(second, ':') {
        assert forall|i: int| 0 <= i < second.len() implies media_character(#[trigger] second[i]) by {
            assert(in_identifiers(second[i]));
        }
    }
}

/// Inputs of a version are accepted where each is an identifier of a version that is there and none
/// is named twice; one that is no identifier is refused.
pub proof fn law_inputs_are_versions(s: StoreState, inputs: Seq<Seq<char>>, i: int)
    ensures
        (forall|k: int|
            0 <= k < inputs.len() ==> is_identifier(#[trigger] inputs[k]) && version_at(s, inputs[k])
                is Some) && (forall|j: int, k: int|
            0 <= j < k < inputs.len() ==> #[trigger] inputs[j] != #[trigger] inputs[k])
            ==> inputs_trouble(s, inputs, 0) is None,
        0 <= i < inputs.len() && !is_identifier(inputs[i]) ==> inputs_trouble(s, inputs, 0) is Some,
{
    lemma_inputs_from(s, inputs, 0, i);
}

proof fn lemma_inputs_from(s: StoreState, inputs: Seq<Seq<char>>, index: int, i: int)
    requires
        0 <= index <= inputs.len(),
    ensures
        (forall|k: int|
            0 <= k < inputs.len() ==> is_identifier(#[trigger] inputs[k]) && version_at(s, inputs[k])
                is Some) && (forall|j: int, k: int|
            0 <= j < k < inputs.len() ==> #[trigger] inputs[j] != #[trigger] inputs[k])
            ==> inputs_trouble(s, inputs, index) is None,
        index <= i < inputs.len() && !is_identifier(inputs[i]) ==> inputs_trouble(s, inputs, index)
            is Some,
    decreases inputs.len() - index,
{
    if index < inputs.len() {
        lemma_is_identifier(inputs[index]);
        lemma_inputs_from(s, inputs, index + 1, i);
        if inputs.take(index).contains(inputs[index]) {
            let j = inputs.take(index).index_of(inputs[index]);
            assert(inputs.take(index)[j] == inputs[index]);
            assert(inputs[j] == inputs[index]);
        }
    }
}

} // verus!
