//! Versioned durable state for one owner-scoped guest session.
//!
//! A snapshot contains only state that can be resumed safely. Guest process
//! queues and pending approval waits are live execution state and are not
//! serialized; in-flight jobs are closed as failed during restoration.

use vstd::prelude::*;

#[allow(unused_imports)]
use crate::filesystem::sound_fs;
use crate::jobs::{JobStore, JobStoreSnapshot};
#[allow(unused_imports)]
use crate::jobs::{
    JobModel, JobsModel, MAX_JOB_SNAPSHOT_RECORDS, job_models, law_snapshots_restore_finished_jobs,
    restarted, restore_jobs, sound_jobs,
};
use crate::runtime::{RuntimeError, VmInstance};
#[allow(unused_imports)]
use crate::runtime::InstanceState;
use crate::runtime_error::labelled;
#[allow(unused_imports)]
use crate::runtime_error::{Trouble, trouble_text};
use crate::snapshot::{VmSnapshot, valid_id_text};
#[allow(unused_imports)]
use crate::snapshot::{
    SnapshotModel, bounds_trouble, law_snapshots_read_back, restored, snapshot_of, valid_vm_id,
};
#[allow(unused_imports)]
use crate::text::decimal;
use crate::text::{decimal_text, same_text};

verus! {

pub const SESSION_SNAPSHOT_SCHEMA_VERSION: u32 = 1;

#[derive(Debug, PartialEq, Eq)]
pub struct SessionSnapshot {
    pub schema_version: u32,
    pub owner: String,
    pub session_id: String,
    pub vm: VmSnapshot,
    pub jobs: JobStoreSnapshot,
}

/// What a [`SessionSnapshot`] says.
#[verifier::ext_equal]
pub struct SessionState {
    pub schema_version: u32,
    pub owner: Seq<char>,
    pub session_id: Seq<char>,
    pub vm: SnapshotModel,
    pub jobs: JobsModel,
}

impl View for SessionSnapshot {
    type V = SessionState;

    open spec fn view(&self) -> SessionState {
        SessionState {
            schema_version: self.schema_version,
            owner: self.owner@,
            session_id: self.session_id@,
            vm: self.vm@,
            jobs: self.jobs@,
        }
    }
}

#[derive(Debug)]
pub struct RestoredSession {
    pub owner: String,
    pub session_id: String,
    pub vm: VmInstance,
    pub jobs: JobStore,
}

/// What a [`RestoredSession`] holds.
#[verifier::ext_equal]
pub struct LiveSession {
    pub owner: Seq<char>,
    pub session_id: Seq<char>,
    pub vm: InstanceState,
    pub jobs: JobsModel,
}

impl View for RestoredSession {
    type V = LiveSession;

    open spec fn view(&self) -> LiveSession {
        LiveSession {
            owner: self.owner@,
            session_id: self.session_id@,
            vm: self.vm@,
            jobs: self.jobs@,
        }
    }
}

#[derive(Debug, PartialEq, Eq)]
pub enum SessionSnapshotError {
    UnsupportedSchema { expected: u32, actual: u32 },
    InvalidIdentity { kind: &'static str },
    MismatchedVmId,
    ForeignJob { job_id: String },
    Runtime(RuntimeError),
    Jobs(String),
}

/// What a [`SessionSnapshotError`] says.
#[verifier::ext_equal]
pub enum SnapshotTrouble {
    UnsupportedSchema { expected: u32, actual: u32 },
    InvalidIdentity { kind: Seq<char> },
    MismatchedVmId,
    ForeignJob { job_id: Seq<char> },
    Runtime(Trouble),
    Jobs(Seq<char>),
}

impl View for SessionSnapshotError {
    type V = SnapshotTrouble;

    open spec fn view(&self) -> SnapshotTrouble {
        match self {
            SessionSnapshotError::UnsupportedSchema { expected, actual } =>
                SnapshotTrouble::UnsupportedSchema { expected: *expected, actual: *actual },
            SessionSnapshotError::InvalidIdentity { kind } => SnapshotTrouble::InvalidIdentity {
                kind: kind@,
            },
            SessionSnapshotError::MismatchedVmId => SnapshotTrouble::MismatchedVmId,
            SessionSnapshotError::ForeignJob { job_id } => SnapshotTrouble::ForeignJob {
                job_id: job_id@,
            },
            SessionSnapshotError::Runtime(error) => SnapshotTrouble::Runtime(error@),
            SessionSnapshotError::Jobs(message) => SnapshotTrouble::Jobs(message@),
        }
    }
}

pub open spec fn snapshot_trouble_text(trouble: SnapshotTrouble) -> Seq<char> {
    match trouble {
        SnapshotTrouble::UnsupportedSchema { expected, actual } =>
            "unsupported session snapshot schema: expected "@ + decimal(expected as nat) + " got "@
            + decimal(actual as nat),
        SnapshotTrouble::InvalidIdentity { kind } => "invalid session "@ + kind,
        SnapshotTrouble::MismatchedVmId => "session snapshot VM id does not match session id"@,
        SnapshotTrouble::ForeignJob { job_id } =>
            "session snapshot contains a job owned by another identity: "@ + job_id,
        SnapshotTrouble::Runtime(trouble) => "cannot restore VM snapshot: "@ + trouble_text(
            trouble,
        ),
        SnapshotTrouble::Jobs(message) => "cannot restore job snapshot: "@ + message,
    }
}

impl SessionSnapshotError {
    pub fn to_text(&self) -> (r: String)
        ensures
            r@ == snapshot_trouble_text(self@),
    {
        match self {
            SessionSnapshotError::UnsupportedSchema { expected, actual } => {
                let mut r = "unsupported session snapshot schema: expected ".to_owned();
                r.push_str(decimal_text(*expected as u64).as_str());
                r.push_str(" got ");
                r.push_str(decimal_text(*actual as u64).as_str());
                r
            },
            SessionSnapshotError::InvalidIdentity { kind } => labelled("invalid session ", kind),
            SessionSnapshotError::MismatchedVmId => {
                "session snapshot VM id does not match session id".to_owned()
            },
            SessionSnapshotError::ForeignJob { job_id } => labelled(
                "session snapshot contains a job owned by another identity: ",
                job_id.as_str(),
            ),
            SessionSnapshotError::Runtime(error) => labelled(
                "cannot restore VM snapshot: ",
                error.to_text().as_str(),
            ),
            SessionSnapshotError::Jobs(message) => labelled(
                "cannot restore job snapshot: ",
                message.as_str(),
            ),
        }
    }
}

/// What is wrong with the identity of a session.
pub open spec fn identity_trouble(owner: Seq<char>, session_id: Seq<char>) -> Option<
    SnapshotTrouble,
> {
    if !valid_vm_id(owner) {
        Some(SnapshotTrouble::InvalidIdentity { kind: "owner"@ })
    } else if !valid_vm_id(session_id) {
        Some(SnapshotTrouble::InvalidIdentity { kind: "id"@ })
    } else {
        None
    }
}

/// The snapshot of a session, or why there is none.
pub open spec fn capture_of(
    owner: Seq<char>,
    session_id: Seq<char>,
    vm: InstanceState,
    jobs: JobsModel,
) -> Result<SessionState, SnapshotTrouble> {
    if identity_trouble(owner, session_id) is Some {
        Err(identity_trouble(owner, session_id)->0)
    } else if vm.id != session_id {
        Err(SnapshotTrouble::MismatchedVmId)
    } else {
        Ok(
            SessionState {
                schema_version: SESSION_SNAPSHOT_SCHEMA_VERSION,
                owner,
                session_id,
                vm: snapshot_of(vm),
                jobs,
            },
        )
    }
}

/// The first job from `index` on that is not `owner`'s.
pub open spec fn foreign_job(jobs: Seq<JobModel>, owner: Seq<char>, index: int) -> Option<int>
    decreases jobs.len() - index,
{
    if !(0 <= index < jobs.len()) {
        None
    } else if jobs[index].owner != owner {
        Some(index)
    } else {
        foreign_job(jobs, owner, index + 1)
    }
}

/// What a snapshot is restored to, or why it is not.
pub open spec fn restore_of(s: SessionState) -> Result<LiveSession, SnapshotTrouble> {
    if s.schema_version != SESSION_SNAPSHOT_SCHEMA_VERSION {
        Err(
            SnapshotTrouble::UnsupportedSchema {
                expected: SESSION_SNAPSHOT_SCHEMA_VERSION,
                actual: s.schema_version,
            },
        )
    } else if identity_trouble(s.owner, s.session_id) is Some {
        Err(identity_trouble(s.owner, s.session_id)->0)
    } else if s.vm.id != s.session_id {
        Err(SnapshotTrouble::MismatchedVmId)
    } else {
        match foreign_job(s.jobs.jobs, s.owner, 0) {
            Some(index) => Err(SnapshotTrouble::ForeignJob { job_id: s.jobs.jobs[index].id }),
            None => match restored(s.vm) {
                Err(trouble) => Err(SnapshotTrouble::Runtime(trouble)),
                Ok(vm) => match restore_jobs(s.jobs) {
                    Err(message) => Err(SnapshotTrouble::Jobs(message)),
                    Ok(jobs) => Ok(
                        LiveSession { owner: s.owner, session_id: s.session_id, vm, jobs },
                    ),
                },
            },
        }
    }
}

fn validate_identity(owner: &str, session_id: &str) -> (r: Result<(), SessionSnapshotError>)
    ensures
        match r {
            Ok(_) => identity_trouble(owner@, session_id@) is None,
            Err(error) => identity_trouble(owner@, session_id@) == Some(error@),
        },
{
    if !valid_id_text(owner) {
        return Err(SessionSnapshotError::InvalidIdentity { kind: "owner" });
    }
    if !valid_id_text(session_id) {
        return Err(SessionSnapshotError::InvalidIdentity { kind: "id" });
    }
    Ok(())
}

impl SessionSnapshot {
    pub fn capture(owner: &str, session_id: &str, vm: &VmInstance, jobs: &JobStore) -> (r: Result<
        Self,
        SessionSnapshotError,
    >)
        ensures
            match r {
                Ok(snapshot) => capture_of(owner@, session_id@, vm@, jobs@) == Ok::<
                    SessionState,
                    SnapshotTrouble,
                >(snapshot@),
                Err(error) => capture_of(owner@, session_id@, vm@, jobs@) == Err::<
                    SessionState,
                    SnapshotTrouble,
                >(error@),
            },
    {
        match validate_identity(owner, session_id) {
            Err(error) => return Err(error),
            Ok(_) => {},
        }
        if !same_text(vm.id(), session_id) {
            return Err(SessionSnapshotError::MismatchedVmId);
        }
        Ok(
            SessionSnapshot {
                schema_version: SESSION_SNAPSHOT_SCHEMA_VERSION,
                owner: owner.to_owned(),
                session_id: session_id.to_owned(),
                vm: vm.snapshot(),
                jobs: jobs.snapshot(),
            },
        )
    }

    pub fn restore(self) -> (r: Result<RestoredSession, SessionSnapshotError>)
        ensures
            match r {
                Ok(session) => restore_of(self@) == Ok::<LiveSession, SnapshotTrouble>(session@),
                Err(error) => restore_of(self@) == Err::<LiveSession, SnapshotTrouble>(error@),
            },
    {
        if self.schema_version != SESSION_SNAPSHOT_SCHEMA_VERSION {
            return Err(
                SessionSnapshotError::UnsupportedSchema {
                    expected: SESSION_SNAPSHOT_SCHEMA_VERSION,
                    actual: self.schema_version,
                },
            );
        }
        match validate_identity(self.owner.as_str(), self.session_id.as_str()) {
            Err(error) => return Err(error),
            Ok(_) => {},
        }
        if !same_text(self.vm.id.as_str(), self.session_id.as_str()) {
            return Err(SessionSnapshotError::MismatchedVmId);
        }
        let ghost all = self@.jobs.jobs;
        let mut i: usize = 0;
        while i < self.jobs.jobs.len()
            invariant
                i <= self.jobs.jobs@.len(),
                all == job_models(self.jobs.jobs@),
                all == self@.jobs.jobs,
                foreign_job(all, self@.owner, 0) == foreign_job(all, self@.owner, i as int),
                self@.schema_version == SESSION_SNAPSHOT_SCHEMA_VERSION,
                identity_trouble(self@.owner, self@.session_id) is None,
                self@.vm.id == self@.session_id,
            decreases self.jobs.jobs@.len() - i,
        {
            let job = &self.jobs.jobs[i];
            assert(all[i as int] == job@);
            if !same_text(job.owner.as_str(), self.owner.as_str()) {
                return Err(SessionSnapshotError::ForeignJob { job_id: job.id.clone() });
            }
            i += 1;
        }
        let vm = match VmInstance::from_snapshot(self.vm) {
            Err(error) => return Err(SessionSnapshotError::Runtime(error)),
            Ok(vm) => vm,
        };
        let jobs = match JobStore::from_snapshot(self.jobs) {
            Err(message) => return Err(SessionSnapshotError::Jobs(message)),
            Ok(jobs) => jobs,
        };
        Ok(RestoredSession { owner: self.owner, session_id: self.session_id, vm, jobs })
    }
}

proof fn lemma_no_foreign_jobs(jobs: Seq<JobModel>, owner: Seq<char>, index: int)
    requires
        0 <= index <= jobs.len(),
        forall|i: int| 0 <= i < jobs.len() ==> (#[trigger] jobs[i]).owner == owner,
    ensures
        foreign_job(jobs, owner, index) is None,
    decreases jobs.len() - index,
{
    if index < jobs.len() {
        lemma_no_foreign_jobs(jobs, owner, index + 1);
    }
}

/// A captured session comes back: the guest with its files and without processes, and the jobs
/// with those that were still to be done failed.
pub proof fn law_captured_sessions_are_restored(
    owner: Seq<char>,
    session_id: Seq<char>,
    vm: InstanceState,
    jobs: JobsModel,
)
    requires
        capture_of(owner, session_id, vm, jobs) is Ok,
        sound_fs(vm.fs),
        bounds_trouble(snapshot_of(vm)) is None,
        sound_jobs(jobs),
        jobs.jobs.len() <= MAX_JOB_SNAPSHOT_RECORDS,
        forall|i: int| 0 <= i < jobs.jobs.len() ==> (#[trigger] jobs.jobs[i]).owner == owner,
    ensures
        restore_of(capture_of(owner, session_id, vm, jobs)->Ok_0) == Ok::<
            LiveSession,
            SnapshotTrouble,
        >(
            LiveSession {
                owner,
                session_id,
                vm: InstanceState {
                    processes: Seq::empty(),
                    runnable: Seq::empty(),
                    ticks: 0,
                    ..vm
                },
                jobs: JobsModel {
                    next_id: jobs.next_id,
                    jobs: Seq::new(jobs.jobs.len(), |i: int| restarted(jobs.jobs[i])),
                },
            },
        ),
{
    law_snapshots_read_back(vm);
    law_snapshots_restore_finished_jobs(jobs);
    lemma_no_foreign_jobs(jobs.jobs, owner, 0);
}

} // verus!
