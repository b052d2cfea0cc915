//! Bounded filesystem storage for owner-scoped runtime snapshots.
//!
//! This store is intentionally a local durability primitive. It keeps the
//! serialized snapshot behind a caller-selected directory so the server can
//! use a mounted persistent volume without making the VM runtime depend on a
//! cloud SDK. A future object-store adapter can implement the same boundary.

use vstd::prelude::*;

use crate::session_snapshot::SessionSnapshot;
#[allow(unused_imports)]
use crate::session_snapshot::SessionState;
use crate::runtime_error::labelled;
#[allow(unused_imports)]
use crate::snapshot::{id_char, valid_vm_id};
use crate::snapshot::valid_id_text;
#[allow(unused_imports)]
use crate::text::decimal;
use crate::text::{decimal_text, same_text};

verus! {

pub const MAX_SERIALIZED_SNAPSHOT_BYTES: u64 = 96 * 1024 * 1024;

#[derive(Debug, PartialEq, Eq)]
pub struct StoredSessionSnapshot {
    pub last_seen_at: u64,
    pub snapshot: SessionSnapshot,
}

#[derive(Debug, PartialEq, Eq)]
pub struct SessionSnapshotStore {
    directory: String,
}

impl View for SessionSnapshotStore {
    type V = Seq<char>;

    closed spec fn view(&self) -> Seq<char> {
        self.directory@
    }
}

#[derive(Debug, PartialEq, Eq)]
pub enum SessionSnapshotStoreError {
    InvalidIdentity { field: &'static str },
    TooLarge { bytes: u64, maximum: u64 },
    Io { operation: &'static str, path: String, message: String },
    Decode { path: String, message: String },
    IdentityMismatch { path: String },
}

/// The message of a [`SessionSnapshotStoreError`].
pub open spec fn store_error_text(error: SessionSnapshotStoreError) -> Seq<char> {
    match error {
        SessionSnapshotStoreError::InvalidIdentity { field } => "invalid snapshot "@ + field@,
        SessionSnapshotStoreError::TooLarge { bytes, maximum } =>
            "snapshot is too large: bytes="@ + decimal(bytes as nat) + " maximum="@ + decimal(
                maximum as nat,
            ),
        SessionSnapshotStoreError::Io { operation, path, message } => "cannot "@ + operation@
            + " '"@ + path@ + "': "@ + message@,
        SessionSnapshotStoreError::Decode { path, message } => "cannot decode snapshot '"@ + path@
            + "': "@ + message@,
        SessionSnapshotStoreError::IdentityMismatch { path } =>
            "snapshot identity does not match its storage key: "@ + path@,
    }
}

impl SessionSnapshotStoreError {
    pub fn to_text(&self) -> (r: String)
        ensures
            r@ == store_error_text(*self),
    {
        match self {
            SessionSnapshotStoreError::InvalidIdentity { field } => labelled(
                "invalid snapshot ",
                field,
            ),
            SessionSnapshotStoreError::TooLarge { bytes, maximum } => {
                let mut r = "snapshot is too large: bytes=".to_owned();
                r.push_str(decimal_text(*bytes).as_str());
                r.push_str(" maximum=");
                r.push_str(decimal_text(*maximum).as_str());
                r
            },
            SessionSnapshotStoreError::Io { operation, path, message } => {
                let mut r = "cannot ".to_owned();
                r.push_str(operation);
                r.push_str(" '");
                r.push_str(path.as_str());
                r.push_str("': ");
                r.push_str(message.as_str());
                r
            },
            SessionSnapshotStoreError::Decode { path, message } => {
                let mut r = "cannot decode snapshot '".to_owned();
                r.push_str(path.as_str());
                r.push_str("': ");
                r.push_str(message.as_str());
                r
            },
            SessionSnapshotStoreError::IdentityMismatch { path } => labelled(
                "snapshot identity does not match its storage key: ",
                path.as_str(),
            ),
        }
    }
}

/// Whether a text names a directory of its own: an identity that is not the directory itself or the
/// one above it.
pub open spec fn names_directory(owner: Seq<char>) -> bool {
    valid_vm_id(owner) && owner != "."@ && owner != ".."@
}

/// The file of a snapshot below the directory of its owner.
pub open spec fn snapshot_file(session_id: Seq<char>) -> Seq<char> {
    session_id + ".json"@
}

/// The file that a snapshot is written to before it takes its place.
pub open spec fn temporary_snapshot(session_id: Seq<char>, process: nat, sequence: nat) -> Seq<
    char,
> {
    "."@ + session_id + "."@ + decimal(process) + "."@ + decimal(sequence) + ".tmp"@
}

/// Where a snapshot is kept: a directory, a file in it, and a file to write first.
#[derive(Debug, PartialEq, Eq)]
pub struct SnapshotPlace {
    pub owner_directory: String,
    pub file: String,
}

/// Checks that a snapshot is not too large.
pub fn ensure_size(bytes: u64) -> (r: Result<(), SessionSnapshotStoreError>)
    ensures
        match r {
            Ok(_) => bytes <= MAX_SERIALIZED_SNAPSHOT_BYTES,
            Err(error) => bytes > MAX_SERIALIZED_SNAPSHOT_BYTES && error
                == (SessionSnapshotStoreError::TooLarge {
                bytes,
                maximum: MAX_SERIALIZED_SNAPSHOT_BYTES,
            }),
        },
{
    if bytes > MAX_SERIALIZED_SNAPSHOT_BYTES {
        return Err(
            SessionSnapshotStoreError::TooLarge { bytes, maximum: MAX_SERIALIZED_SNAPSHOT_BYTES },
        );
    }
    Ok(())
}

impl SessionSnapshotStore {
    pub fn new(directory: &str) -> (r: Self)
        ensures
            r@ == directory@,
    {
        SessionSnapshotStore { directory: directory.to_owned() }
    }

    pub fn directory(&self) -> (r: &str)
        ensures
            r@ == self@,
    {
        self.directory.as_str()
    }

    /// Where the snapshot of a session is kept.
    pub fn place(&self, owner: &str, session_id: &str) -> (r: Result<
        SnapshotPlace,
        SessionSnapshotStoreError,
    >)
        ensures
            match r {
                Ok(place) => {
                    &&& names_directory(owner@)
                    &&& valid_vm_id(session_id@)
                    &&& place.owner_directory@ == owner@
                    &&& place.file@ == snapshot_file(session_id@)
                },
                Err(error) => if !names_directory(owner@) {
                    error == (SessionSnapshotStoreError::InvalidIdentity { field: "owner" })
                } else {
                    !valid_vm_id(session_id@) && error
                        == (SessionSnapshotStoreError::InvalidIdentity { field: "id" })
                },
            },
    {
        if !valid_id_text(owner) || same_text(owner, ".") || same_text(owner, "..") {
            return Err(SessionSnapshotStoreError::InvalidIdentity { field: "owner" });
        }
        if !valid_id_text(session_id) {
            return Err(SessionSnapshotStoreError::InvalidIdentity { field: "id" });
        }
        let mut file = session_id.to_owned();
        file.push_str(".json");
        Ok(SnapshotPlace { owner_directory: owner.to_owned(), file })
    }

    /// The file to write first, by a process and under a number that no other save of the process
    /// has.
    pub fn temporary(&self, session_id: &str, process: u32, sequence: u64) -> (r: String)
        ensures
            r@ == temporary_snapshot(session_id@, process as nat, sequence as nat),
    {
        let mut r = ".".to_owned();
        r.push_str(session_id);
        r.push_str(".");
        r.push_str(decimal_text(process as u64).as_str());
        r.push_str(".");
        r.push_str(decimal_text(sequence).as_str());
        r.push_str(".tmp");
        r
    }

    /// Checks that what was read from `path` is what was asked for.
    pub fn check_loaded(
        &self,
        owner: &str,
        session_id: &str,
        stored: StoredSessionSnapshot,
        path: &str,
    ) -> (r: Result<StoredSessionSnapshot, SessionSnapshotStoreError>)
        ensures
            match r {
                Ok(same) => same == stored && stored.snapshot@.owner == owner@
                    && stored.snapshot@.session_id == session_id@,
                Err(error) => (stored.snapshot@.owner != owner@ || stored.snapshot@.session_id
                    != session_id@) && (error matches SessionSnapshotStoreError::IdentityMismatch {
                    path: p,
                } && p@ == path@),
            },
    {
        if !same_text(stored.snapshot.owner.as_str(), owner) || !same_text(
            stored.snapshot.session_id.as_str(),
            session_id,
        ) {
            return Err(SessionSnapshotStoreError::IdentityMismatch { path: path.to_owned() });
        }
        Ok(stored)
    }
}

/// Snapshots are kept below a directory of their owner, whose name leads nowhere else, in files that
/// are told apart by the session.
pub proof fn law_snapshot_places_are_told_apart(owner: Seq<char>, a: Seq<char>, b: Seq<char>, i: int)
    ensures
        names_directory(owner) ==> 1 <= owner.len() <= 128 && owner != seq!['.'] && owner != seq![
            '.',
            '.',
        ] && (0 <= i < owner.len() ==> owner[i] != '/' && owner[i] != '\\'),
        snapshot_file(a) == snapshot_file(b) <==> a == b,
{
    reveal_strlit(".");
    reveal_strlit("..");
    assert("."@ =~= seq!['.']);
    assert(".."@ =~= seq!['.', '.']);
    if names_directory(owner) && 0 <= i < owner.len() {
        assert(id_char(owner[i]));
    }
    if snapshot_file(a) == snapshot_file(b) {
        let n = ".json"@.len();
        assert(snapshot_file(a).len() == a.len() + n && snapshot_file(b).len() == b.len() + n);
        assert(a =~= snapshot_file(a).take(a.len() as int));
        assert(b =~= snapshot_file(b).take(b.len() as int));
    }
}

} // verus!
