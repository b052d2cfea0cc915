//! Artifact-oriented jobs for safe, deterministic guest data processing.
//!
//! This is deliberately a control-plane primitive, not a host command runner.
//! Jobs read named guest artifacts and write declared guest artifacts. The first
//! executor is a bounded CSV/TSV tabulator; future WASI and Linux executors can
//! use the same ownership, lifecycle, and artifact contract.

use vstd::prelude::*;

#[allow(unused_imports)]
use crate::filesystem::{FsState, file_at};
use crate::runtime::VmInstance;
pub use crate::tables::ColumnSummary;
pub use crate::tabulation::{
    PdfSummary, TableSummary, inspect_uploaded_pdf, tabulate_uploaded_file,
};
#[allow(unused_imports)]
use crate::text::{begins, decimal, law_decimal_reads_back, parse_natural, text_option};
use crate::text::{copy_text_option, decimal_text, parse_u64, same_text, size_text, strip_prefix};

verus! {

pub const MAX_JOB_SNAPSHOT_RECORDS: usize = 4_096;

// ---------------------------------------------------------------------------
// Jobs
// ---------------------------------------------------------------------------

#[derive(Debug, Clone, Copy, PartialEq, Eq, Structural)]
pub enum JobState {
    Queued,
    Running,
    Succeeded,
    Failed,
}

#[derive(Debug, PartialEq, Eq)]
pub struct JobRecord {
    pub id: String,
    pub owner: String,
    pub executor: String,
    pub input_path: String,
    pub output_path: Option<String>,
    pub state: JobState,
    pub error: Option<String>,
}

/// What a [`JobRecord`] says.
#[verifier::ext_equal]
pub struct JobModel {
    pub id: Seq<char>,
    pub owner: Seq<char>,
    pub executor: Seq<char>,
    pub input_path: Seq<char>,
    pub output_path: Option<Seq<char>>,
    pub state: JobState,
    pub error: Option<Seq<char>>,
}

impl View for JobRecord {
    type V = JobModel;

    open spec fn view(&self) -> JobModel {
        JobModel {
            id: self.id@,
            owner: self.owner@,
            executor: self.executor@,
            input_path: self.input_path@,
            output_path: text_option(self.output_path),
            state: self.state,
            error: text_option(self.error),
        }
    }
}

impl Clone for JobRecord {
    fn clone(&self) -> (r: Self)
        ensures
            r@ == self@,
    {
        JobRecord {
            id: self.id.clone(),
            owner: self.owner.clone(),
            executor: self.executor.clone(),
            input_path: self.input_path.clone(),
            output_path: copy_text_option(&self.output_path),
            state: self.state,
            error: copy_text_option(&self.error),
        }
    }
}

pub open spec fn job_models(jobs: Seq<JobRecord>) -> Seq<JobModel> {
    Seq::new(jobs.len(), |i: int| jobs[i]@)
}

/// In-memory job control plane for one server process.
#[derive(Debug)]
pub struct JobStore {
    next_id: u64,
    jobs: Vec<JobRecord>,
}

/// What a [`JobStore`] holds: the last number that it gave out, and the jobs.
#[verifier::ext_equal]
pub struct JobsModel {
    pub next_id: u64,
    pub jobs: Seq<JobModel>,
}

impl View for JobStore {
    type V = JobsModel;

    closed spec fn view(&self) -> JobsModel {
        JobsModel { next_id: self.next_id, jobs: job_models(self.jobs@) }
    }
}

#[derive(Debug, PartialEq, Eq)]
pub struct JobStoreSnapshot {
    pub next_id: u64,
    pub jobs: Vec<JobRecord>,
}

impl View for JobStoreSnapshot {
    type V = JobsModel;

    open spec fn view(&self) -> JobsModel {
        JobsModel { next_id: self.next_id, jobs: job_models(self.jobs@) }
    }
}

pub open spec fn no_jobs() -> JobsModel {
    JobsModel { next_id: 0, jobs: Seq::empty() }
}

/// Whether a job is still to be done.
pub open spec fn active(job: JobModel) -> bool {
    job.state == JobState::Queued || job.state == JobState::Running
}

/// The number in a job's id: `job-` and a number that is not zero.
pub open spec fn job_number(id: Seq<char>) -> Option<nat> {
    if begins(id, "job-"@) {
        match parse_natural(id.skip("job-"@.len() as int), u64::MAX as nat) {
            Some(number) => if number == 0 {
                None
            } else {
                Some(number)
            },
            None => None,
        }
    } else {
        None
    }
}

/// A job as it is after a restart: one that was still to be done has failed.
pub open spec fn restarted(job: JobModel) -> JobModel {
    if active(job) {
        JobModel {
            state: JobState::Failed,
            error: Some("job interrupted by service restart"@),
            output_path: None,
            ..job
        }
    } else {
        job
    }
}

/// Whether an earlier job has the id of the job at `index`.
pub open spec fn id_taken(jobs: Seq<JobModel>, index: int) -> bool {
    exists|k: int| 0 <= k < index && (#[trigger] jobs[k]).id == jobs[index].id
}

/// What is wrong with the jobs of a snapshot, from `index` on.
pub open spec fn jobs_trouble(jobs: Seq<JobModel>, index: int) -> Option<Seq<char>>
    decreases jobs.len() - index,
{
    if !(0 <= index < jobs.len()) {
        None
    } else if id_taken(jobs, index) {
        Some("duplicate job id in snapshot: "@ + jobs[index].id)
    } else if job_number(jobs[index].id) is None {
        Some("invalid job id in snapshot: "@ + jobs[index].id)
    } else {
        jobs_trouble(jobs, index + 1)
    }
}

/// The highest number among the first `n` jobs.
pub open spec fn highest_number(jobs: Seq<JobModel>, n: int) -> nat
    decreases n,
{
    if n <= 0 {
        0
    } else {
        let before = highest_number(jobs, n - 1);
        match job_number(jobs[n - 1].id) {
            Some(number) => if number > before {
                number
            } else {
                before
            },
            None => before,
        }
    }
}

/// What a store restores from a snapshot, or why it does not.
pub open spec fn restore_jobs(s: JobsModel) -> Result<JobsModel, Seq<char>> {
    if s.jobs.len() > MAX_JOB_SNAPSHOT_RECORDS {
        Err("too many jobs in snapshot: maximum is "@ + decimal(MAX_JOB_SNAPSHOT_RECORDS as nat))
    } else if jobs_trouble(s.jobs, 0) is Some {
        Err(jobs_trouble(s.jobs, 0)->0)
    } else if s.next_id < highest_number(s.jobs, s.jobs.len() as int) {
        Err("job counter is behind a stored job"@)
    } else {
        Ok(JobsModel { jobs: Seq::new(s.jobs.len(), |i: int| restarted(s.jobs[i])), ..s })
    }
}

/// A job whose output cannot be read any more has failed.
pub open spec fn reconciled(job: JobModel, fs: FsState) -> JobModel {
    if job.state == JobState::Succeeded && (match job.output_path {
        Some(path) => file_at(fs, path) is Err,
        None => true,
    }) {
        JobModel {
            state: JobState::Failed,
            output_path: None,
            error: Some("job output missing after service restart"@),
            ..job
        }
    } else {
        job
    }
}

pub open spec fn reconcile_jobs(s: JobsModel, fs: FsState) -> JobsModel {
    JobsModel { jobs: Seq::new(s.jobs.len(), |i: int| reconciled(s.jobs[i], fs)), ..s }
}

/// The job that is started next.
pub open spec fn new_job(
    number: nat,
    owner: Seq<char>,
    executor: Seq<char>,
    input_path: Seq<char>,
) -> JobModel {
    JobModel {
        id: "job-"@ + decimal(number),
        owner,
        executor,
        input_path,
        output_path: None,
        state: JobState::Queued,
        error: None,
    }
}

/// Starts a job: the store after it, and the job.
pub open spec fn start_in(
    s: JobsModel,
    owner: Seq<char>,
    executor: Seq<char>,
    input_path: Seq<char>,
) -> (JobsModel, Result<JobModel, Seq<char>>) {
    if s.next_id == u64::MAX {
        (s, Err("job id counter exhausted"@))
    } else {
        let number = (s.next_id + 1) as u64;
        let job = new_job(number as nat, owner, executor, input_path);
        (JobsModel { next_id: number, jobs: s.jobs.push(job) }, Ok(job))
    }
}

/// The number of jobs of `owner` among the first `n`; with `only_active`, of those still to be
/// done.
pub open spec fn count_jobs(
    jobs: Seq<JobModel>,
    owner: Seq<char>,
    only_active: bool,
    n: int,
) -> nat
    decreases n,
{
    if n <= 0 {
        0
    } else {
        count_jobs(jobs, owner, only_active, n - 1) + if jobs[n - 1].owner == owner && (
        !only_active || active(jobs[n - 1])) {
            1nat
        } else {
            0nat
        }
    }
}

/// The number of jobs of `owner`.
pub open spec fn owned_count(s: JobsModel, owner: Seq<char>) -> nat {
    count_jobs(s.jobs, owner, false, s.jobs.len() as int)
}

/// The number of jobs of `owner` that are still to be done.
pub open spec fn active_count(s: JobsModel, owner: Seq<char>) -> nat {
    count_jobs(s.jobs, owner, true, s.jobs.len() as int)
}

/// The oldest finished job of `owner`, from `index` on.
pub open spec fn oldest_finished(jobs: Seq<JobModel>, owner: Seq<char>, index: int) -> Option<int>
    decreases jobs.len() - index,
{
    if !(0 <= index < jobs.len()) {
        None
    } else if jobs[index].owner == owner && !active(jobs[index]) {
        Some(index)
    } else {
        oldest_finished(jobs, owner, index + 1)
    }
}

/// Starts a job when `owner` has room for it: with `max_jobs` jobs still to be done there is none,
/// and with `max_jobs` jobs in all the oldest finished one makes room.
pub open spec fn try_start_in(
    s: JobsModel,
    owner: Seq<char>,
    executor: Seq<char>,
    input_path: Seq<char>,
    max_jobs: nat,
) -> (JobsModel, Option<JobModel>) {
    if s.next_id == u64::MAX || active_count(s, owner) >= max_jobs {
        (s, None)
    } else if owned_count(s, owner) >= max_jobs {
        match oldest_finished(s.jobs, owner, 0) {
            None => (s, None),
            Some(index) => {
                let roomy = JobsModel { jobs: s.jobs.remove(index), ..s };
                let (after, started) = start_in(roomy, owner, executor, input_path);
                (after, Some(started->Ok_0))
            },
        }
    } else {
        let (after, started) = start_in(s, owner, executor, input_path);
        (after, Some(started->Ok_0))
    }
}

/// The first job with this id, from `index` on; with `queued`, the first that waits.
pub open spec fn find_job(jobs: Seq<JobModel>, id: Seq<char>, queued: bool, index: int) -> Option<
    int,
>
    decreases jobs.len() - index,
{
    if !(0 <= index < jobs.len()) {
        None
    } else if jobs[index].id == id && (!queued || jobs[index].state == JobState::Queued) {
        Some(index)
    } else {
        find_job(jobs, id, queued, index + 1)
    }
}

/// Marks the first waiting job with this id as running; whether there was one.
pub open spec fn run_in(s: JobsModel, id: Seq<char>) -> (JobsModel, bool) {
    match find_job(s.jobs, id, true, 0) {
        Some(index) => (
            JobsModel {
                jobs: s.jobs.update(
                    index,
                    JobModel { state: JobState::Running, ..s.jobs[index] },
                ),
                ..s
            },
            true,
        ),
        None => (s, false),
    }
}

/// A job with its result.
pub open spec fn finished(job: JobModel, result: Result<Seq<char>, Seq<char>>) -> JobModel {
    match result {
        Ok(path) => JobModel {
            state: JobState::Succeeded,
            output_path: Some(path),
            error: None,
            ..job
        },
        Err(error) => JobModel {
            state: JobState::Failed,
            output_path: None,
            error: Some(error),
            ..job
        },
    }
}

/// Gives the first job with this id its result, if it is running.
pub open spec fn finish_in(s: JobsModel, id: Seq<char>, result: Result<Seq<char>, Seq<char>>) -> (
    JobsModel,
    Option<JobModel>,
) {
    match find_job(s.jobs, id, false, 0) {
        Some(index) => if s.jobs[index].state == JobState::Running {
            let job = finished(s.jobs[index], result);
            (JobsModel { jobs: s.jobs.update(index, job), ..s }, Some(job))
        } else {
            (s, None)
        },
        None => (s, None),
    }
}

/// The jobs of `owner`, in order.
pub open spec fn jobs_of(jobs: Seq<JobModel>, owner: Seq<char>) -> Seq<JobModel>
    decreases jobs.len(),
{
    if jobs.len() == 0 {
        Seq::empty()
    } else if jobs.last().owner == owner {
        jobs_of(jobs.drop_last(), owner).push(jobs.last())
    } else {
        jobs_of(jobs.drop_last(), owner)
    }
}

/// What a call says of the job that it started.
pub open spec fn started(r: Result<JobRecord, String>) -> Result<JobModel, Seq<char>> {
    match r {
        Ok(job) => Ok(job@),
        Err(message) => Err(message@),
    }
}

/// What a call says of a job, if there is one.
pub open spec fn maybe_job(r: Option<JobRecord>) -> Option<JobModel> {
    match r {
        Some(job) => Some(job@),
        None => None,
    }
}

fn copy_jobs(jobs: &Vec<JobRecord>) -> (r: Vec<JobRecord>)
    ensures
        job_models(r@) == job_models(jobs@),
{
    let mut r: Vec<JobRecord> = Vec::new();
    let mut i: usize = 0;
    while i < jobs.len()
        invariant
            i <= jobs@.len(),
            job_models(r@) == job_models(jobs@).take(i as int),
        decreases jobs@.len() - i,
    {
        let job = jobs[i].clone();
        let ghost before = r@;
        r.push(job);
        assert(job_models(r@) =~= job_models(before).push(job@));
        assert(job_models(jobs@).take(i + 1) =~= job_models(jobs@).take(i as int).push(
            jobs@[i as int]@,
        ));
        i += 1;
    }
    assert(job_models(jobs@).take(jobs@.len() as int) =~= job_models(jobs@));
    r
}

fn is_active(state: JobState) -> (r: bool)
    ensures
        r == (state == JobState::Queued || state == JobState::Running),
{
    match state {
        JobState::Queued | JobState::Running => true,
        _ => false,
    }
}

/// The number in a job's id.
pub fn parse_job_number(id: &str) -> (r: Option<u64>)
    ensures
        match r {
            Some(number) => job_number(id@) == Some(number as nat),
            None => job_number(id@) is None,
        },
{
    match strip_prefix(id, "job-") {
        None => None,
        Some(rest) => match parse_u64(rest.as_str(), u64::MAX) {
            None => None,
            Some(number) => if number == 0 {
                None
            } else {
                Some(number)
            },
        },
    }
}

fn with_id(prefix: &str, id: &str) -> (r: String)
    ensures
        r@ == prefix@ + id@,
{
    let mut r = prefix.to_owned();
    r.push_str(id);
    r
}

impl JobStore {
    pub fn new() -> (r: Self)
        ensures
            r@ == no_jobs(),
    {
        let r = JobStore { next_id: 0, jobs: Vec::new() };
        assert(job_models(r.jobs@) =~= Seq::<JobModel>::empty());
        r
    }

    pub fn snapshot(&self) -> (r: JobStoreSnapshot)
        ensures
            r@ == self@,
    {
        JobStoreSnapshot { next_id: self.next_id, jobs: copy_jobs(&self.jobs) }
    }

    /// Restores a store. Jobs that were still to be done have failed.
    pub fn from_snapshot(snapshot: JobStoreSnapshot) -> (r: Result<Self, String>)
        ensures
            match r {
                Ok(store) => restore_jobs(snapshot@) == Ok::<JobsModel, Seq<char>>(store@),
                Err(message) => restore_jobs(snapshot@) == Err::<JobsModel, Seq<char>>(message@),
            },
    {
        let ghost all = snapshot@.jobs;
        if snapshot.jobs.len() > MAX_JOB_SNAPSHOT_RECORDS {
            return Err(
                with_id(
                    "too many jobs in snapshot: maximum is ",
                    size_text(MAX_JOB_SNAPSHOT_RECORDS).as_str(),
                ),
            );
        }
        let mut jobs: Vec<JobRecord> = Vec::new();
        let mut highest: u64 = 0;
        let mut i: usize = 0;
        while i < snapshot.jobs.len()
            invariant
                i <= snapshot.jobs@.len(),
                all == job_models(snapshot.jobs@),
                jobs_trouble(all, 0) == jobs_trouble(all, i as int),
                highest == highest_number(all, i as int),
                job_models(jobs@) == Seq::new(i as nat, |k: int| restarted(all[k])),
                snapshot.jobs@.len() <= MAX_JOB_SNAPSHOT_RECORDS,
                snapshot@.jobs == all,
            decreases snapshot.jobs@.len() - i,
        {
            let job = &snapshot.jobs[i];
            assert(all[i as int] == job@);
            let mut k: usize = 0;
            while k < i
                invariant
                    k <= i < snapshot.jobs@.len(),
                    all == job_models(snapshot.jobs@),
                    *job == snapshot.jobs@[i as int],
                    forall|x: int| 0 <= x < k ==> (#[trigger] all[x]).id != all[i as int].id,
                    jobs_trouble(all, 0) == jobs_trouble(all, i as int),
                    snapshot.jobs@.len() <= MAX_JOB_SNAPSHOT_RECORDS,
                    snapshot@.jobs == all,
                decreases i - k,
            {
                assert(all[k as int] == snapshot.jobs@[k as int]@);
                assert(all[i as int] == snapshot.jobs@[i as int]@);
                if same_text(snapshot.jobs[k].id.as_str(), job.id.as_str()) {
                    assert(id_taken(all, i as int));
                    return Err(with_id("duplicate job id in snapshot: ", job.id.as_str()));
                }
                k += 1;
            }
            assert(!id_taken(all, i as int));
            match parse_job_number(job.id.as_str()) {
                None => {
                    return Err(with_id("invalid job id in snapshot: ", job.id.as_str()));
                },
                Some(number) => {
                    if number > highest {
                        highest = number;
                    }
                },
            }
            let mut kept = job.clone();
            if is_active(kept.state) {
                kept.state = JobState::Failed;
                kept.error = Some("job interrupted by service restart".to_owned());
                kept.output_path = None;
            }
            let ghost before = jobs@;
            jobs.push(kept);
            assert(kept@ =~= restarted(all[i as int]));
            assert(job_models(jobs@) =~= job_models(before).push(kept@));
            assert(Seq::new((i + 1) as nat, |k: int| restarted(all[k])) =~= Seq::new(
                i as nat,
                |k: int| restarted(all[k]),
            ).push(restarted(all[i as int])));
            i += 1;
        }
        if snapshot.next_id < highest {
            return Err("job counter is behind a stored job".to_owned());
        }
        let r = JobStore { next_id: snapshot.next_id, jobs };
        assert(r@ =~= JobsModel {
            jobs: Seq::new(all.len(), |i: int| restarted(all[i])),
            next_id: snapshot.next_id,
        });
        Ok(r)
    }

    /// Fails the jobs whose output cannot be read in `vm` any more.
    pub fn reconcile_output_paths(&mut self, vm: &VmInstance)
        ensures
            final(self)@ == reconcile_jobs(old(self)@, vm@.fs),
    {
        let ghost all = self@.jobs;
        let ghost number = self@.next_id;
        let n: usize = self.jobs.len();
        let mut i: usize = 0;
        while i < n
            invariant
                i <= n,
                n == self.jobs@.len(),
                n == all.len(),
                self.next_id == number,
                all == old(self)@.jobs,
                number == old(self)@.next_id,
                forall|k: int|
                    0 <= k < n ==> #[trigger] self.jobs@[k]@ == (if k < i {
                        reconciled(all[k], vm@.fs)
                    } else {
                        all[k]
                    }),
            decreases n - i,
        {
            assert(self.jobs@[i as int]@ == all[i as int]);
            if let JobState::Succeeded = self.jobs[i].state {
                let lost = match &self.jobs[i].output_path {
                    Some(path) => match vm.read_file(path.as_str()) {
                        Ok(_) => false,
                        Err(_) => true,
                    },
                    None => true,
                };
                if lost {
                    let mut job = self.jobs[i].clone();
                    job.state = JobState::Failed;
                    job.output_path = None;
                    job.error = Some("job output missing after service restart".to_owned());
                    assert(job@ =~= reconciled(all[i as int], vm@.fs));
                    self.jobs.set(i, job);
                }
            }
            i += 1;
        }
        assert(self@ =~= reconcile_jobs(old(self)@, vm@.fs));
    }

    pub fn start_tabulation(&mut self, owner: &str, input_path: &str) -> (r: Result<
        JobRecord,
        String,
    >)
        ensures
            (final(self)@, started(r)) == start_in(
                old(self)@,
                owner@,
                "builtin.tabulate.v1"@,
                input_path@,
            ),
    {
        self.start(owner, "builtin.tabulate.v1", input_path)
    }

    pub fn try_start_tabulation(&mut self, owner: &str, input_path: &str, max_jobs: usize) -> (r:
        Option<JobRecord>)
        ensures
            (final(self)@, maybe_job(r)) == try_start_in(
                old(self)@,
                owner@,
                "builtin.tabulate.v1"@,
                input_path@,
                max_jobs as nat,
            ),
    {
        self.try_start(owner, "builtin.tabulate.v1", input_path, max_jobs)
    }

    pub fn start_pdf_inspection(&mut self, owner: &str, input_path: &str) -> (r: Result<
        JobRecord,
        String,
    >)
        ensures
            (final(self)@, started(r)) == start_in(
                old(self)@,
                owner@,
                "builtin.pdf_inspect.v1"@,
                input_path@,
            ),
    {
        self.start(owner, "builtin.pdf_inspect.v1", input_path)
    }

    pub fn try_start_pdf_inspection(
        &mut self,
        owner: &str,
        input_path: &str,
        max_jobs: usize,
    ) -> (r: Option<JobRecord>)
        ensures
            (final(self)@, maybe_job(r)) == try_start_in(
                old(self)@,
                owner@,
                "builtin.pdf_inspect.v1"@,
                input_path@,
                max_jobs as nat,
            ),
    {
        self.try_start(owner, "builtin.pdf_inspect.v1", input_path, max_jobs)
    }

    pub fn try_start_builtin_app(
        &mut self,
        owner: &str,
        app: &str,
        input_path: &str,
        max_jobs: usize,
    ) -> (r: Option<JobRecord>)
        ensures
            (final(self)@, maybe_job(r)) == try_start_in(
                old(self)@,
                owner@,
                "builtin."@ + app@ + ".v1"@,
                input_path@,
                max_jobs as nat,
            ),
    {
        let mut executor = "builtin.".to_owned();
        executor.push_str(app);
        executor.push_str(".v1");
        self.try_start(owner, executor.as_str(), input_path, max_jobs)
    }

    fn start(&mut self, owner: &str, executor: &str, input_path: &str) -> (r: Result<
        JobRecord,
        String,
    >)
        ensures
            (final(self)@, started(r)) == start_in(old(self)@, owner@, executor@, input_path@),
    {
        if self.next_id == u64::MAX {
            return Err("job id counter exhausted".to_owned());
        }
        self.next_id = self.next_id + 1;
        let mut id = "job-".to_owned();
        id.push_str(decimal_text(self.next_id).as_str());
        let job = JobRecord {
            id,
            owner: owner.to_owned(),
            executor: executor.to_owned(),
            input_path: input_path.to_owned(),
            output_path: None,
            state: JobState::Queued,
            error: None,
        };
        let ghost before = self.jobs@;
        self.jobs.push(job.clone());
        proof {
            let last = self.jobs@[before.len() as int];
            assert(job_models(self.jobs@) =~= job_models(before).push(last@));
        }
        Ok(job)
    }

    fn count(&self, owner: &str, only_active: bool) -> (r: usize)
        ensures
            r == count_jobs(self@.jobs, owner@, only_active, self@.jobs.len() as int),
    {
        let ghost all = self@.jobs;
        let mut count: usize = 0;
        let mut i: usize = 0;
        while i < self.jobs.len()
            invariant
                i <= self.jobs@.len(),
                all == job_models(self.jobs@),
                count <= i,
                count == count_jobs(all, owner@, only_active, i as int),
            decreases self.jobs@.len() - i,
        {
            assert(all[i as int] == self.jobs@[i as int]@);
            if same_text(self.jobs[i].owner.as_str(), owner) && (!only_active || is_active(
                self.jobs[i].state,
            )) {
                count += 1;
            }
            i += 1;
        }
        count
    }

    fn position_finished(&self, owner: &str) -> (r: Option<usize>)
        ensures
            match r {
                Some(index) => index < self@.jobs.len() && oldest_finished(self@.jobs, owner@, 0)
                    == Some(index as int),
                None => oldest_finished(self@.jobs, owner@, 0) is None,
            },
    {
        let ghost all = self@.jobs;
        let mut i: usize = 0;
        while i < self.jobs.len()
            invariant
                i <= self.jobs@.len(),
                all == job_models(self.jobs@),
                self@.jobs == all,
                oldest_finished(all, owner@, 0) == oldest_finished(all, owner@, i as int),
            decreases self.jobs@.len() - i,
        {
            assert(all[i as int] == self.jobs@[i as int]@);
            if same_text(self.jobs[i].owner.as_str(), owner) && !is_active(self.jobs[i].state) {
                return Some(i);
            }
            i += 1;
        }
        None
    }

    fn try_start(&mut self, owner: &str, executor: &str, input_path: &str, max_jobs: usize) -> (r:
        Option<JobRecord>)
        ensures
            (final(self)@, maybe_job(r)) == try_start_in(
                old(self)@,
                owner@,
                executor@,
                input_path@,
                max_jobs as nat,
            ),
    {
        if self.next_id == u64::MAX {
            return None;
        }
        if self.count(owner, true) >= max_jobs {
            return None;
        }
        if self.count(owner, false) >= max_jobs {
            match self.position_finished(owner) {
                None => return None,
                Some(index) => {
                    let ghost before = self.jobs@;
                    let _ = self.jobs.remove(index);
                    assert(job_models(self.jobs@) =~= job_models(before).remove(index as int));
                },
            }
        }
        match self.start(owner, executor, input_path) {
            Ok(job) => Some(job),
            Err(_) => None,
        }
    }

    fn position(&self, id: &str, queued: bool) -> (r: Option<usize>)
        ensures
            match r {
                Some(index) => index < self@.jobs.len() && find_job(self@.jobs, id@, queued, 0)
                    == Some(index as int),
                None => find_job(self@.jobs, id@, queued, 0) is None,
            },
    {
        let ghost all = self@.jobs;
        let mut i: usize = 0;
        while i < self.jobs.len()
            invariant
                i <= self.jobs@.len(),
                all == job_models(self.jobs@),
                self@.jobs == all,
                find_job(all, id@, queued, 0) == find_job(all, id@, queued, i as int),
            decreases self.jobs@.len() - i,
        {
            assert(all[i as int] == self.jobs@[i as int]@);
            if same_text(self.jobs[i].id.as_str(), id) && (!queued || self.jobs[i].state
                == JobState::Queued) {
                return Some(i);
            }
            i += 1;
        }
        None
    }

    pub fn mark_running(&mut self, id: &str) -> (r: bool)
        ensures
            (final(self)@, r) == run_in(old(self)@, id@),
    {
        match self.position(id, true) {
            None => false,
            Some(index) => {
                let ghost before = self.jobs@;
                let mut job = self.jobs[index].clone();
                job.state = JobState::Running;
                self.jobs.set(index, job);
                assert(job_models(self.jobs@) =~= job_models(before).update(index as int, job@));
                true
            },
        }
    }

    pub fn finish(&mut self, id: &str, result: Result<&str, &str>) -> (r: Option<JobRecord>)
        ensures
            (final(self)@, maybe_job(r)) == finish_in(
                old(self)@,
                id@,
                match result {
                    Ok(path) => Ok(path@),
                    Err(error) => Err(error@),
                },
            ),
    {
        match self.position(id, false) {
            None => None,
            Some(index) => {
                if self.jobs[index].state != JobState::Running {
                    return None;
                }
                let ghost before = self.jobs@;
                let mut job = self.jobs[index].clone();
                match result {
                    Ok(path) => {
                        job.state = JobState::Succeeded;
                        job.output_path = Some(path.to_owned());
                        job.error = None;
                    },
                    Err(error) => {
                        job.state = JobState::Failed;
                        job.output_path = None;
                        job.error = Some(error.to_owned());
                    },
                }
                let copy = job.clone();
                self.jobs.set(index, job);
                assert(job_models(self.jobs@) =~= job_models(before).update(index as int, job@));
                Some(copy)
            },
        }
    }

    pub fn list(&self, owner: &str) -> (r: Vec<JobRecord>)
        ensures
            job_models(r@) == jobs_of(self@.jobs, owner@),
    {
        let ghost all = self@.jobs;
        let mut r: Vec<JobRecord> = Vec::new();
        let mut i: usize = 0;
        assert(all.take(0) =~= Seq::<JobModel>::empty());
        assert(job_models(r@) =~= Seq::<JobModel>::empty());
        while i < self.jobs.len()
            invariant
                i <= self.jobs@.len(),
                all == job_models(self.jobs@),
                job_models(r@) == jobs_of(all.take(i as int), owner@),
            decreases self.jobs@.len() - i,
        {
            assert(all[i as int] == self.jobs@[i as int]@);
            assert(all.take(i + 1).drop_last() =~= all.take(i as int));
            assert(all.take(i + 1).last() == all[i as int]);
            if same_text(self.jobs[i].owner.as_str(), owner) {
                let job = self.jobs[i].clone();
                let ghost before = r@;
                r.push(job);
                assert(job_models(r@) =~= job_models(before).push(job@));
            }
            i += 1;
        }
        assert(all.take(all.len() as int) =~= all);
        r
    }
}

impl Default for JobStore {
    fn default() -> (r: Self)
        ensures
            r@ == no_jobs(),
    {
        JobStore::new()
    }
}


// ---------------------------------------------------------------------------
// Laws of the store
// ---------------------------------------------------------------------------

/// Every job has a number that was given out, and no two have the same id.
pub open spec fn sound_jobs(s: JobsModel) -> bool {
    &&& forall|i: int|
        0 <= i < s.jobs.len() ==> (job_number((#[trigger] s.jobs[i]).id) matches Some(number)
            && number <= s.next_id)
    &&& forall|i: int, j: int|
        0 <= i < j < s.jobs.len() ==> (#[trigger] s.jobs[i]).id != (#[trigger] s.jobs[j]).id
}

proof fn lemma_new_number(number: nat)
    requires
        0 < number <= u64::MAX,
    ensures
        job_number("job-"@ + decimal(number)) == Some(number),
{
    let id = "job-"@ + decimal(number);
    assert(id.take("job-"@.len() as int) =~= "job-"@);
    assert(id.skip("job-"@.len() as int) =~= decimal(number));
    law_decimal_reads_back(number, u64::MAX as nat);
}

/// A job that is started gets an id that no job of the store has, and the store stays sound.
pub proof fn law_started_jobs_have_new_ids(
    s: JobsModel,
    owner: Seq<char>,
    executor: Seq<char>,
    input_path: Seq<char>,
)
    requires
        sound_jobs(s),
    ensures
        sound_jobs(start_in(s, owner, executor, input_path).0),
        start_in(s, owner, executor, input_path).1 matches Ok(job) ==> forall|i: int|
            0 <= i < s.jobs.len() ==> (#[trigger] s.jobs[i]).id != job.id,
{
    if s.next_id < u64::MAX {
        lemma_new_number((s.next_id + 1) as nat);
    }
}

pub proof fn lemma_removed_jobs(s: JobsModel, index: int)
    requires
        sound_jobs(s),
        0 <= index < s.jobs.len(),
    ensures
        sound_jobs(JobsModel { jobs: s.jobs.remove(index), ..s }),
{
    let rest = s.jobs.remove(index);
    assert forall|i: int| 0 <= i < rest.len() implies rest[i] == s.jobs[if i < index {
        i
    } else {
        i + 1
    }] by {}
    assert forall|i: int, j: int| 0 <= i < j < rest.len() implies (#[trigger] rest[i]).id != (
    #[trigger] rest[j]).id by {
        let a = if i < index { i } else { i + 1 };
        let b = if j < index { j } else { j + 1 };
        assert(s.jobs[a].id != s.jobs[b].id);
    }
}

pub proof fn lemma_oldest_finished(jobs: Seq<JobModel>, owner: Seq<char>, index: int)
    requires
        0 <= index,
    ensures
        oldest_finished(jobs, owner, index) matches Some(i) ==> index <= i < jobs.len()
            && jobs[i].owner == owner && !active(jobs[i]),
    decreases jobs.len() - index,
{
    if index < jobs.len() {
        lemma_oldest_finished(jobs, owner, index + 1);
    }
}

proof fn lemma_find_job(jobs: Seq<JobModel>, id: Seq<char>, queued: bool, index: int)
    requires
        0 <= index,
    ensures
        find_job(jobs, id, queued, index) matches Some(i) ==> index <= i < jobs.len()
            && jobs[i].id == id && (queued ==> jobs[i].state == JobState::Queued),
    decreases jobs.len() - index,
{
    if index < jobs.len() {
        lemma_find_job(jobs, id, queued, index + 1);
    }
}

/// Every operation keeps a store sound.
pub proof fn law_stores_stay_sound(
    s: JobsModel,
    id: Seq<char>,
    result: Result<Seq<char>, Seq<char>>,
    owner: Seq<char>,
    executor: Seq<char>,
    input_path: Seq<char>,
    max_jobs: nat,
    fs: FsState,
)
    requires
        sound_jobs(s),
    ensures
        sound_jobs(no_jobs()),
        sound_jobs(try_start_in(s, owner, executor, input_path, max_jobs).0),
        sound_jobs(run_in(s, id).0),
        sound_jobs(finish_in(s, id, result).0),
        sound_jobs(reconcile_jobs(s, fs)),
{
    lemma_oldest_finished(s.jobs, owner, 0);
    if let Some(index) = oldest_finished(s.jobs, owner, 0) {
        lemma_removed_jobs(s, index);
        law_started_jobs_have_new_ids(
            JobsModel { jobs: s.jobs.remove(index), ..s },
            owner,
            executor,
            input_path,
        );
    }
    law_started_jobs_have_new_ids(s, owner, executor, input_path);
    lemma_find_job(s.jobs, id, true, 0);
    lemma_find_job(s.jobs, id, false, 0);
    let r = reconcile_jobs(s, fs);
    assert forall|i: int| 0 <= i < r.jobs.len() implies (#[trigger] r.jobs[i]).id == s.jobs[i].id by {}
}

/// A job that has succeeded or failed never changes again by being run or finished.
pub proof fn law_finished_jobs_stay_finished(
    s: JobsModel,
    index: int,
    id: Seq<char>,
    result: Result<Seq<char>, Seq<char>>,
)
    requires
        0 <= index < s.jobs.len(),
        !active(s.jobs[index]),
    ensures
        run_in(s, id).0.jobs[index] == s.jobs[index],
        finish_in(s, id, result).0.jobs[index] == s.jobs[index],
{
    lemma_find_job(s.jobs, id, true, 0);
    lemma_find_job(s.jobs, id, false, 0);
}

proof fn lemma_count_prefix(
    a: Seq<JobModel>,
    b: Seq<JobModel>,
    owner: Seq<char>,
    only_active: bool,
    n: int,
)
    requires
        n <= a.len(),
        n <= b.len(),
        forall|i: int| 0 <= i < n ==> a[i] == b[i],
    ensures
        count_jobs(a, owner, only_active, n) == count_jobs(b, owner, only_active, n),
    decreases n,
{
    if n > 0 {
        lemma_count_prefix(a, b, owner, only_active, n - 1);
    }
}

proof fn lemma_count_removed(jobs: Seq<JobModel>, owner: Seq<char>, index: int, n: int)
    requires
        0 <= index < n <= jobs.len(),
        jobs[index].owner == owner,
    ensures
        count_jobs(jobs.remove(index), owner, false, n - 1) + 1 == count_jobs(
            jobs,
            owner,
            false,
            n,
        ),
    decreases n,
{
    if n - 1 == index {
        lemma_count_prefix(jobs.remove(index), jobs, owner, false, n - 1);
    } else {
        lemma_count_removed(jobs, owner, index, n - 1);
        assert(jobs.remove(index)[n - 2] == jobs[n - 1]);
    }
}

proof fn lemma_jobs_of_removed(jobs: Seq<JobModel>, owner: Seq<char>, index: int)
    requires
        0 <= index < jobs.len(),
        jobs[index].owner != owner,
    ensures
        jobs_of(jobs.remove(index), owner) == jobs_of(jobs, owner),
    decreases jobs.len(),
{
    if index == jobs.len() - 1 {
        assert(jobs.remove(index) =~= jobs.drop_last());
    } else {
        lemma_jobs_of_removed(jobs.drop_last(), owner, index);
        assert(jobs.remove(index).drop_last() =~= jobs.drop_last().remove(index));
        assert(jobs.remove(index).last() == jobs.last());
    }
}

/// An owner within a bound stays within it, and the jobs of other owners are left alone.
pub proof fn law_owners_stay_within_their_bound(
    s: JobsModel,
    owner: Seq<char>,
    executor: Seq<char>,
    input_path: Seq<char>,
    max_jobs: nat,
    other: Seq<char>,
)
    requires
        owned_count(s, owner) <= max_jobs,
    ensures
        owned_count(try_start_in(s, owner, executor, input_path, max_jobs).0, owner) <= max_jobs,
        other != owner ==> jobs_of(
            try_start_in(s, owner, executor, input_path, max_jobs).0.jobs,
            other,
        ) == jobs_of(s.jobs, other),
{
    let (after, job) = try_start_in(s, owner, executor, input_path, max_jobs);
    if let Some(job) = job {
        let roomy = if owned_count(s, owner) >= max_jobs {
            let index = oldest_finished(s.jobs, owner, 0)->0;
            lemma_oldest_finished(s.jobs, owner, 0);
            lemma_count_removed(s.jobs, owner, index, s.jobs.len() as int);
            if other != owner {
                lemma_jobs_of_removed(s.jobs, other, index);
            }
            s.jobs.remove(index)
        } else {
            s.jobs
        };
        assert(after.jobs == roomy.push(job));
        lemma_count_prefix(roomy, after.jobs, owner, false, roomy.len() as int);
        assert(after.jobs.drop_last() =~= roomy);
    }
}

proof fn lemma_sound_jobs_have_no_trouble(s: JobsModel, index: int)
    requires
        sound_jobs(s),
        0 <= index <= s.jobs.len(),
    ensures
        jobs_trouble(s.jobs, index) is None,
        highest_number(s.jobs, index) <= s.next_id,
    decreases s.jobs.len() - index,
{
    lemma_highest_number(s, index);
    if index < s.jobs.len() {
        lemma_sound_jobs_have_no_trouble(s, index + 1);
        assert(job_number(s.jobs[index].id) is Some);
    }
}

proof fn lemma_highest_number(s: JobsModel, n: int)
    requires
        sound_jobs(s),
        0 <= n <= s.jobs.len(),
    ensures
        highest_number(s.jobs, n) <= s.next_id,
    decreases n,
{
    if n > 0 {
        lemma_highest_number(s, n - 1);
        assert(job_number(s.jobs[n - 1].id) is Some);
    }
}

proof fn lemma_no_trouble(jobs: Seq<JobModel>, index: int, i: int)
    requires
        0 <= index <= i < jobs.len(),
        jobs_trouble(jobs, index) is None,
    ensures
        job_number(jobs[i].id) is Some,
        !id_taken(jobs, i),
    decreases i - index,
{
    if index < i {
        lemma_no_trouble(jobs, index + 1, i);
    }
}

proof fn lemma_number_is_below_highest(jobs: Seq<JobModel>, n: int, i: int)
    requires
        0 <= i < n <= jobs.len(),
        job_number(jobs[i].id) is Some,
    ensures
        job_number(jobs[i].id)->0 <= highest_number(jobs, n),
    decreases n,
{
    if i < n - 1 {
        lemma_number_is_below_highest(jobs, n - 1, i);
    }
}

/// A sound store comes back from its snapshot: what was finished is as it was, and what was still
/// to be done has failed.
pub proof fn law_snapshots_restore_finished_jobs(s: JobsModel)
    requires
        sound_jobs(s),
        s.jobs.len() <= MAX_JOB_SNAPSHOT_RECORDS,
    ensures
        restore_jobs(s) == Ok::<JobsModel, Seq<char>>(
            JobsModel {
                next_id: s.next_id,
                jobs: Seq::new(s.jobs.len(), |i: int| restarted(s.jobs[i])),
            },
        ),
{
    lemma_sound_jobs_have_no_trouble(s, 0);
    lemma_highest_number(s, s.jobs.len() as int);
}

/// Whatever a store is restored from, it is sound and nothing in it is still to be done.
pub proof fn law_restored_stores_are_sound_and_idle(s: JobsModel, index: int)
    requires
        restore_jobs(s) is Ok,
        0 <= index < restore_jobs(s)->Ok_0.jobs.len(),
    ensures
        sound_jobs(restore_jobs(s)->Ok_0),
        !active(restore_jobs(s)->Ok_0.jobs[index]),
{
    let r = restore_jobs(s)->Ok_0;
    assert forall|i: int| 0 <= i < r.jobs.len() implies (job_number((#[trigger] r.jobs[i]).id)
        matches Some(number) && number <= r.next_id) by {
        lemma_no_trouble(s.jobs, 0, i);
        lemma_number_is_below_highest(s.jobs, s.jobs.len() as int, i);
    }
    assert forall|i: int, j: int| 0 <= i < j < r.jobs.len() implies (#[trigger] r.jobs[i]).id != (
    #[trigger] r.jobs[j]).id by {
        lemma_no_trouble(s.jobs, 0, j);
        assert(s.jobs[i].id == r.jobs[i].id);
        assert(s.jobs[j].id == r.jobs[j].id);
    }
}

proof fn lemma_find_job_at(jobs: Seq<JobModel>, queued: bool, k: int, index: int)
    requires
        0 <= index <= k < jobs.len(),
        forall|i: int, j: int|
            0 <= i < j < jobs.len() ==> (#[trigger] jobs[i]).id != (#[trigger] jobs[j]).id,
    ensures
        !queued || jobs[k].state == JobState::Queued ==> find_job(jobs, jobs[k].id, queued, index)
            == Some(k),
        queued && jobs[k].state != JobState::Queued ==> find_job(
            jobs,
            jobs[k].id,
            queued,
            index,
        ) is None,
    decreases jobs.len() - index,
{
    if index < k {
        assert(jobs[index].id != jobs[k].id);
        lemma_find_job_at(jobs, queued, k, index + 1);
    } else if queued && jobs[k].state != JobState::Queued {
        lemma_find_job_behind(jobs, queued, k, index + 1);
    }
}

proof fn lemma_find_job_behind(jobs: Seq<JobModel>, queued: bool, k: int, index: int)
    requires
        0 <= k < index,
        k < jobs.len(),
        forall|i: int, j: int|
            0 <= i < j < jobs.len() ==> (#[trigger] jobs[i]).id != (#[trigger] jobs[j]).id,
    ensures
        find_job(jobs, jobs[k].id, queued, index) is None,
    decreases jobs.len() - index,
{
    if index < jobs.len() {
        assert(jobs[k].id != jobs[index].id);
        lemma_find_job_behind(jobs, queued, k, index + 1);
    }
}

/// A job that waits can be set to run, once. A running job is finished by its result: it has
/// succeeded with the path of its output, or failed with the error. A job that is not running is not
/// finished. All else about the job, and all other jobs, stay as they were.
pub proof fn law_jobs_wait_run_and_finish(
    s: JobsModel,
    k: int,
    result: Result<Seq<char>, Seq<char>>,
    other: int,
)
    requires
        sound_jobs(s),
        0 <= k < s.jobs.len(),
    ensures
        ({
            let job = s.jobs[k];
            let (running, ran) = run_in(s, job.id);
            let (after, done) = finish_in(s, job.id, result);
            &&& ran <==> job.state == JobState::Queued
            &&& !ran ==> running == s
            &&& ran ==> running.jobs[k] == (JobModel { state: JobState::Running, ..job })
            &&& done is Some <==> job.state == JobState::Running
            &&& done is None ==> after == s
            &&& done matches Some(done) ==> {
                &&& after.jobs[k] == done
                &&& done.id == job.id && done.owner == job.owner && done.executor == job.executor
                    && done.input_path == job.input_path
                &&& match result {
                    Ok(path) => done.state == JobState::Succeeded && done.output_path == Some(path)
                        && done.error is None,
                    Err(error) => done.state == JobState::Failed && done.output_path is None
                        && done.error == Some(error),
                }
            }
            &&& running.jobs.len() == s.jobs.len() && after.jobs.len() == s.jobs.len()
            &&& 0 <= other < s.jobs.len() && other != k ==> running.jobs[other] == s.jobs[other]
                && after.jobs[other] == s.jobs[other]
        }),
{
    lemma_find_job_at(s.jobs, true, k, 0);
    lemma_find_job_at(s.jobs, false, k, 0);
}

/// A job that is started waits, for the owner and with the executor and the input that were given,
/// behind all others. Its id is `job-` and the next number.
pub proof fn law_started_jobs_wait(
    s: JobsModel,
    owner: Seq<char>,
    executor: Seq<char>,
    input_path: Seq<char>,
)
    requires
        s.next_id < u64::MAX,
    ensures
        ({
            let (after, started) = start_in(s, owner, executor, input_path);
            &&& started matches Ok(job) && {
                &&& job.id == "job-"@ + decimal((s.next_id + 1) as nat)
                &&& job.owner == owner
                &&& job.executor == executor
                &&& job.input_path == input_path
                &&& job.state == JobState::Queued
                &&& job.output_path is None
                &&& job.error is None
                &&& after.jobs == s.jobs.push(job)
            }
            &&& after.next_id == s.next_id + 1
        }),
{
}

/// An owner with room for a job starts it, and one whose jobs are all still to be done does not. An
/// owner with as many jobs as may be gives up the oldest that is finished for it, and no job of
/// anybody else.
pub proof fn law_jobs_start_where_there_is_room(
    s: JobsModel,
    owner: Seq<char>,
    executor: Seq<char>,
    input_path: Seq<char>,
    max_jobs: nat,
    k: int,
)
    requires
        s.next_id < u64::MAX,
    ensures
        ({
            let (after, started) = try_start_in(s, owner, executor, input_path, max_jobs);
            &&& started is None ==> after == s
            &&& active_count(s, owner) >= max_jobs ==> started is None
            &&& owned_count(s, owner) < max_jobs && active_count(s, owner) < max_jobs ==> (
            started matches Some(job) && after.jobs == s.jobs.push(job))
            &&& started matches Some(job) ==> {
                &&& job.owner == owner && job.executor == executor && job.input_path == input_path
                &&& job.state == JobState::Queued
                &&& job.id == "job-"@ + decimal((s.next_id + 1) as nat)
                &&& after.jobs.last() == job
                &&& after.jobs.len() <= s.jobs.len() ==> exists|i: int|
                    0 <= i < s.jobs.len() && #[trigger] s.jobs[i].owner == owner && s.jobs[i].state
                        != JobState::Queued && s.jobs[i].state != JobState::Running
                        && after.jobs.drop_last() == s.jobs.remove(i) && (0 <= k < i
                        && s.jobs[k].owner == owner ==> s.jobs[k].state == JobState::Queued
                        || s.jobs[k].state == JobState::Running)
            }
        }),
{
    let (after, started) = try_start_in(s, owner, executor, input_path, max_jobs);
    lemma_first_finished(s.jobs, owner, 0, k);
    if started is Some && owned_count(s, owner) >= max_jobs {
        let i = oldest_finished(s.jobs, owner, 0)->0;
        assert(after.jobs.drop_last() =~= s.jobs.remove(i));
        assert(s.jobs[i].owner == owner);
    }
}

proof fn lemma_first_finished(jobs: Seq<JobModel>, owner: Seq<char>, index: int, k: int)
    requires
        0 <= index,
    ensures
        oldest_finished(jobs, owner, index) matches Some(i) ==> {
            &&& index <= i < jobs.len()
            &&& jobs[i].owner == owner
            &&& jobs[i].state != JobState::Queued && jobs[i].state != JobState::Running
            &&& index <= k < i && jobs[k].owner == owner ==> jobs[k].state == JobState::Queued
                || jobs[k].state == JobState::Running
        },
    decreases jobs.len() - index,
{
    if index < jobs.len() {
        lemma_first_finished(jobs, owner, index + 1, k);
    }
}

/// The numbers that bound the jobs of an owner count them one by one: all of them, and those that
/// are still to be done.
pub proof fn law_jobs_are_counted(jobs: Seq<JobModel>, job: JobModel, owner: Seq<char>, next_id: u64)
    ensures
        ({
            let less = JobsModel { next_id, jobs };
            let more = JobsModel { next_id, jobs: jobs.push(job) };
            &&& owned_count(more, owner) == owned_count(less, owner) + (if job.owner == owner {
                1int
            } else {
                0int
            })
            &&& active_count(more, owner) == active_count(less, owner) + (if job.owner == owner && (
            job.state == JobState::Queued || job.state == JobState::Running) {
                1int
            } else {
                0int
            })
            &&& jobs.len() == 0 ==> owned_count(less, owner) == 0 && active_count(less, owner) == 0
        }),
{
    let n = jobs.len() as int;
    lemma_count_prefix(jobs.push(job), jobs, owner, false, n);
    lemma_count_prefix(jobs.push(job), jobs, owner, true, n);
}

/// A listing shows the jobs of its owner in their order, and no others.
pub proof fn law_owners_list_their_jobs(jobs: Seq<JobModel>, owner: Seq<char>, job: JobModel)
    ensures
        jobs_of(jobs, owner).contains(job) <==> jobs.contains(job) && job.owner == owner,
        jobs_of(jobs.push(job), owner) == if job.owner == owner {
            jobs_of(jobs, owner).push(job)
        } else {
            jobs_of(jobs, owner)
        },
    decreases jobs.len(),
{
    assert(jobs.push(job).drop_last() =~= jobs);
    if jobs.len() > 0 {
        let front = jobs.drop_last();
        law_owners_list_their_jobs(front, owner, job);
        let some = jobs_of(front, owner);
        let all = jobs_of(jobs, owner);
        if jobs.last().owner == owner {
            assert(all.last() == jobs.last());
            assert forall|k: int| 0 <= k < some.len() implies all[k] == some[k] by {}
            if some.contains(job) {
                let k = choose|k: int| 0 <= k < some.len() && some[k] == job;
                assert(all[k] == job);
            }
            if all.contains(job) {
                let k = choose|k: int| 0 <= k < all.len() && all[k] == job;
                if k < some.len() {
                    assert(some[k] == job);
                }
            }
        }
        if front.contains(job) {
            let k = choose|k: int| 0 <= k < front.len() && front[k] == job;
            assert(jobs[k] == job);
        }
        if jobs.contains(job) {
            let k = choose|k: int| 0 <= k < jobs.len() && jobs[k] == job;
            if k < front.len() {
                assert(front[k] == job);
            }
        }
        if jobs.last() == job {
            assert(jobs[jobs.len() - 1] == job);
            if job.owner == owner {
                assert(all[all.len() - 1] == job);
            }
        }
    }
}

/// After a restart a job that was waiting or running has failed, and so has one that had succeeded
/// but whose output cannot be read. Every other job is as it was.
pub proof fn law_interrupted_jobs_have_failed(s: JobsModel, fs: FsState, k: int)
    requires
        0 <= k < s.jobs.len(),
    ensures
        restore_jobs(s) matches Ok(after) ==> {
            let waiting = s.jobs[k].state == JobState::Queued || s.jobs[k].state
                == JobState::Running;
            &&& after.jobs.len() == s.jobs.len()
            &&& after.next_id == s.next_id
            &&& waiting ==> after.jobs[k].state == JobState::Failed && after.jobs[k].output_path
                is None && after.jobs[k].error is Some
            &&& !waiting ==> after.jobs[k] == s.jobs[k]
            &&& after.jobs[k].id == s.jobs[k].id && after.jobs[k].owner == s.jobs[k].owner
        },
        ({
            let after = reconcile_jobs(s, fs).jobs[k];
            let lost = s.jobs[k].state == JobState::Succeeded && !(
            s.jobs[k].output_path matches Some(path) && file_at(fs, path) is Ok);
            &&& lost ==> after.state == JobState::Failed && after.output_path is None && after.error
                is Some && after.id == s.jobs[k].id && after.owner == s.jobs[k].owner
            &&& !lost ==> after == s.jobs[k]
        }),
{
}

} // verus!
