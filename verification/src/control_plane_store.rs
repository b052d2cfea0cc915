//! Crash-safe local persistence for control-plane metadata.

use vstd::prelude::*;

use crate::control_plane::{ControlPlane, ControlPlaneError, ControlPlaneSnapshot};
#[allow(unused_imports)]
use crate::control_plane::{PlaneImage, PlaneState, empty_plane, plane_restored, plane_trouble_text};
use crate::runtime::ResourceLimits;
use crate::runtime_error::labelled;
#[allow(unused_imports)]
use crate::text::{decimal, ends};
use crate::text::decimal_text;

verus! {

#[derive(Debug)]
pub struct ControlPlaneStore {
    path: String,
    max_workspaces: usize,
    runtime_limits: ResourceLimits,
}

/// What a [`ControlPlaneStore`] was made with.
#[verifier::ext_equal]
pub struct StoreModel {
    pub path: Seq<char>,
    pub max_workspaces: usize,
    pub runtime_limits: ResourceLimits,
}

impl View for ControlPlaneStore {
    type V = StoreModel;

    closed spec fn view(&self) -> StoreModel {
        StoreModel {
            path: self.path@,
            max_workspaces: self.max_workspaces,
            runtime_limits: self.runtime_limits,
        }
    }
}

#[derive(Debug, PartialEq, Eq)]
pub struct StoreError {
    message: String,
}

impl View for StoreError {
    type V = Seq<char>;

    closed spec fn view(&self) -> Seq<char> {
        self.message@
    }
}

impl StoreError {
    fn new(message: String) -> (r: Self)
        ensures
            r@ == message@,
    {
        StoreError { message }
    }

    pub fn to_text(&self) -> (r: String)
        ensures
            r@ == self@,
    {
        self.message.clone()
    }
}

/// What the file of the control plane held.
#[derive(Debug)]
pub enum StateFile {
    Missing,
    Unreadable(String),
    Undecodable(String),
    Snapshot(ControlPlaneSnapshot),
}

/// What a [`StateFile`] holds.
#[verifier::ext_equal]
pub enum StateModel {
    Missing,
    Unreadable(Seq<char>),
    Undecodable(Seq<char>),
    Snapshot(PlaneImage),
}

impl View for StateFile {
    type V = StateModel;

    open spec fn view(&self) -> StateModel {
        match self {
            StateFile::Missing => StateModel::Missing,
            StateFile::Unreadable(message) => StateModel::Unreadable(message@),
            StateFile::Undecodable(message) => StateModel::Undecodable(message@),
            StateFile::Snapshot(snapshot) => StateModel::Snapshot(snapshot@),
        }
    }
}

/// The control plane that a file gives.
pub open spec fn plane_loaded(store: StoreModel, file: StateModel) -> Result<
    PlaneState,
    Seq<char>,
> {
    match file {
        StateModel::Missing => Ok(empty_plane(store.max_workspaces, store.runtime_limits)),
        StateModel::Unreadable(message) => Err(
            "cannot read '"@ + store.path + "': "@ + message,
        ),
        StateModel::Undecodable(message) => Err(
            "cannot decode '"@ + store.path + "': "@ + message,
        ),
        StateModel::Snapshot(image) => match plane_restored(
            image,
            store.max_workspaces,
            store.runtime_limits,
        ) {
            Ok(plane) => Ok(plane),
            Err(trouble) => Err(plane_trouble_text(trouble)),
        },
    }
}

/// The steps of saving the control plane that can fail.
#[derive(Debug, Clone, Copy, PartialEq, Eq, Structural)]
pub enum StoreStep {
    Parent,
    Create,
    Encode,
    Write,
    Commit,
}

/// The message for a step that failed at a path.
pub open spec fn store_failure(step: StoreStep, path: Seq<char>, message: Seq<char>) -> Seq<char> {
    match step {
        StoreStep::Parent => "control-plane path has no parent"@,
        StoreStep::Create => "cannot create '"@ + path + "': "@ + message,
        StoreStep::Encode => "cannot encode control-plane state: "@ + message,
        StoreStep::Write => "cannot write '"@ + path + "': "@ + message,
        StoreStep::Commit => "cannot commit '"@ + path + "': "@ + message,
    }
}

fn at_path(label: &str, path: &str, message: &str) -> (r: String)
    ensures
        r@ == label@ + path@ + "': "@ + message@,
{
    let mut r = label.to_owned();
    r.push_str(path);
    r.push_str("': ");
    r.push_str(message);
    r
}

impl ControlPlaneStore {
    pub fn new(path: &str, max_workspaces: usize, runtime_limits: ResourceLimits) -> (r: Self)
        ensures
            r@ == (StoreModel { path: path@, max_workspaces, runtime_limits }),
    {
        ControlPlaneStore { path: path.to_owned(), max_workspaces, runtime_limits }
    }

    pub fn path(&self) -> (r: &str)
        ensures
            r@ == self@.path,
    {
        self.path.as_str()
    }

    /// The control plane that a file gives.
    pub fn load(&self, file: StateFile) -> (r: Result<ControlPlane, StoreError>)
        ensures
            match r {
                Ok(plane) => plane_loaded(self@, file@) == Ok::<PlaneState, Seq<char>>(plane@),
                Err(error) => plane_loaded(self@, file@) == Err::<PlaneState, Seq<char>>(error@),
            },
    {
        match file {
            StateFile::Missing => Ok(ControlPlane::new(self.max_workspaces, self.runtime_limits)),
            StateFile::Unreadable(message) => Err(
                StoreError::new(at_path("cannot read '", self.path.as_str(), message.as_str())),
            ),
            StateFile::Undecodable(message) => Err(
                StoreError::new(at_path("cannot decode '", self.path.as_str(), message.as_str())),
            ),
            StateFile::Snapshot(snapshot) => match ControlPlane::restore(
                snapshot,
                self.max_workspaces,
                self.runtime_limits,
            ) {
                Ok(plane) => Ok(plane),
                Err(error) => Err(StoreError::new(error.to_text())),
            },
        }
    }

    /// The name of the file that is written before it takes its place.
    pub fn temporary(&self, process: u32) -> (r: String)
        ensures
            r@ == ".control-plane."@ + decimal(process as nat) + ".tmp"@,
    {
        let mut r = ".control-plane.".to_owned();
        r.push_str(decimal_text(process as u64).as_str());
        r.push_str(".tmp");
        r
    }

    /// The error of a step of saving that failed.
    pub fn save_error(&self, step: StoreStep, path: &str, message: &str) -> (r: StoreError)
        ensures
            r@ == store_failure(step, path@, message@),
    {
        StoreError::new(
            match step {
                StoreStep::Parent => "control-plane path has no parent".to_owned(),
                StoreStep::Create => at_path("cannot create '", path, message),
                StoreStep::Encode => labelled("cannot encode control-plane state: ", message),
                StoreStep::Write => at_path("cannot write '", path, message),
                StoreStep::Commit => at_path("cannot commit '", path, message),
            },
        )
    }
}

/// A store without a file gives an empty plane within the limits of the store; a file that cannot be
/// read or understood is an error that names it, never an empty plane.
pub proof fn law_stores_load_what_was_saved(store: StoreModel, message: Seq<char>, image: PlaneImage)
    ensures
        plane_loaded(store, StateModel::Missing) == Ok::<PlaneState, Seq<char>>(
            empty_plane(store.max_workspaces, store.runtime_limits),
        ),
        plane_loaded(store, StateModel::Unreadable(message)) matches Err(text) && ends(
            text,
            "'"@ + store.path + "': "@ + message,
        ),
        plane_loaded(store, StateModel::Undecodable(message)) matches Err(text) && ends(
            text,
            "'"@ + store.path + "': "@ + message,
        ),
        match plane_restored(image, store.max_workspaces, store.runtime_limits) {
            Ok(plane) => plane_loaded(store, StateModel::Snapshot(image)) == Ok::<
                PlaneState,
                Seq<char>,
            >(plane),
            Err(_) => plane_loaded(store, StateModel::Snapshot(image)) is Err,
        },
{
    reveal_strlit("cannot read '");
    reveal_strlit("cannot decode '");
    reveal_strlit("'");
    let last = "'"@ + store.path + "': "@ + message;
    let a = plane_loaded(store, StateModel::Unreadable(message))->Err_0;
    let b = plane_loaded(store, StateModel::Undecodable(message))->Err_0;
    assert(a.skip(a.len() - last.len()) =~= last);
    assert(b.skip(b.len() - last.len()) =~= last);
}

} // verus!
