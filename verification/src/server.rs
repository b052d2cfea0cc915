//! What the browser host does for a session: uploads, apps, jobs and approvals.

use vstd::prelude::*;

use crate::agent_messages::DEFAULT_SYSTEM_PROMPT;
#[allow(unused_imports)]
use crate::approvals::{Approvals, all_cancelled, replied};
pub use crate::approvals::{ApprovalReply, ApprovalStore};
use crate::approvals::parse_decision;
#[allow(unused_imports)]
use crate::apps::{
    DocumentModel, MetadataModel, SheetModel, append_in, document_in, document_seen, import_in,
    import_records_in, metadata_json, metadata_model, open_docs_in, open_sheets_in, plain_metadata,
    replace_in, sheet_seen, summarize_worksheet,
};
use crate::apps::{
    AppId, DOCS_DOCUMENT_PATH, Document, SHEETS_INPUT_PATH, SheetFormat, SheetSummary,
    append_document, import_sheet, import_sheet_records, open_docs, open_sheets, read_document,
    replace_document, replace_document_with_metadata,
};
use crate::filesystem::{DirectoryEntry, EntryKind};
#[allow(unused_imports)]
use crate::filesystem::{
    FsState, Listed, Names, display, file_at, law_mkdir_makes_a_directory,
    law_normalize_undoes_display, law_normalized_paths_are_proper, law_write_then_read, list_at,
    listed_entries, mkdir_at, normalize, proper, proper_name, sound_fs, total_bytes, write_at,
};
#[allow(unused_imports)]
use crate::format_readers::{ReadingModel, document_content, read_by_host, spreadsheet_content};
use crate::format_readers::{
    WorkbookReading, is_read_by_host, read_document as read_document_upload, read_spreadsheet,
};
use crate::jobs::{JobRecord, JobStore};
#[allow(unused_imports)]
use crate::jobs::{
    JobModel, JobState, JobsModel, find_job, finish_in, finished, law_started_jobs_have_new_ids,
    lemma_oldest_finished, lemma_removed_jobs, oldest_finished, owned_count, run_in, sound_jobs,
    start_in, try_start_in,
};
#[allow(unused_imports)]
use crate::json::{field_models, json_layout, json_string, object_text, truth_text};
use crate::json::{field, quoted, write_object, write_truth};
use crate::protocol::{FeatureStatus, SystemFeatures, SystemInfo};
#[allow(unused_imports)]
use crate::protocol::{API_VERSION, PRODUCT, VERSION, current_features};
use crate::runtime::VmInstance;
#[allow(unused_imports)]
use crate::runtime::{InstanceState, with_fs};
use crate::runtime_error::{ResourceLimits, labelled};
#[allow(unused_imports)]
use crate::runtime_error::{Trouble, default_limits, trouble_text};
#[allow(unused_imports)]
use crate::tabulation::{PdfModel, TableModel, inspect_pdf, tabulate};
use crate::tabulation::{
    PdfSummary, TableSummary, inspect_uploaded_pdf, tabulate_uploaded_file,
};
use crate::text::{
    ascii_lower, byte_count, char_count, chars_of, contains_char, decimal_text, is_blank,
    is_control, parse_u64, same_text, size_text, starts_with, trimmed,
};
#[allow(unused_imports)]
use crate::text::{
    all_white, begins, blank, byte_len, control, decimal, ends, joined, law_blank_texts_are_white,
    law_decimal_reads_back, lower_text, parse_natural, text_option, trim,
};

verus! {

pub const MAX_UPLOAD_BYTES: usize = 1024 * 1024;

pub const MAX_PROMPT_CHARS: usize = 8 * 1024;

pub const MAX_FILES_PER_SESSION: usize = 32;

pub const MAX_TOTAL_BYTES_PER_SESSION: usize = 8 * 1024 * 1024;

pub const MAX_JOBS_PER_SESSION: usize = 64;

pub const AGENT_TTL_STEP_LIMIT: usize = 8;

pub const UPLOADS: &'static str = "/workspace/uploads";

/// A response that refuses a request.
#[derive(Debug, PartialEq, Eq)]
pub struct Refusal {
    pub status: u16,
    pub message: String,
}

impl View for Refusal {
    type V = (u16, Seq<char>);

    open spec fn view(&self) -> (u16, Seq<char>) {
        (self.status, self.message@)
    }
}

fn refuse(status: u16, message: &str) -> (r: Refusal)
    ensures
        r@ == (status, message@),
{
    Refusal { status, message: message.to_owned() }
}

// ---------------------------------------------------------------------------
// Prompts
// ---------------------------------------------------------------------------

/// Checks the prompt of an agent request.
pub fn check_prompt(prompt: &str) -> (r: Result<(), Refusal>)
    ensures
        match r {
            Ok(_) => !blank(prompt@) && prompt@.len() <= MAX_PROMPT_CHARS,
            Err(refusal) => if blank(prompt@) {
                refusal@ == (400u16, "prompt is empty"@)
            } else {
                prompt@.len() > MAX_PROMPT_CHARS && refusal@ == (400u16, "prompt exceeds limit"@)
            },
        },
{
    if is_blank(prompt) {
        return Err(refuse(400, "prompt is empty"));
    }
    if char_count(prompt) > MAX_PROMPT_CHARS {
        return Err(refuse(400, "prompt exceeds limit"));
    }
    Ok(())
}

/// The lines of a prompt for the files among the first `n` entries.
pub open spec fn file_lines(entries: Seq<Listed>, n: int) -> Seq<char>
    decreases n,
{
    if n <= 0 {
        Seq::empty()
    } else {
        let before = file_lines(entries, n - 1);
        let entry = entries[n - 1];
        if entry.kind == EntryKind::File {
            before + "\n- /workspace/uploads/"@ + entry.name + " ("@ + decimal(entry.size)
                + " bytes)"@
        } else {
            before
        }
    }
}

pub const GUEST_NOTE: &'static str = "\n\nYou are operating inside an isolated guest VM. Use guest-prefixed tools for all files and processes. Guest files are not host files; do not claim host workspace changes.";

pub const UPLOADS_NOTE: &'static str = "\n\nUploaded guest files currently available (use guest_read_file with the exact path when asked about their contents):";

/// The system prompt of an agent that works in a guest with these files.
pub open spec fn guest_prompt(fs: FsState) -> Seq<char> {
    let prompt = DEFAULT_SYSTEM_PROMPT@ + GUEST_NOTE@;
    match list_at(fs, UPLOADS@) {
        Ok(entries) => if entries.len() > 0 {
            prompt + UPLOADS_NOTE@ + file_lines(entries, entries.len() as int)
        } else {
            prompt
        },
        Err(_) => prompt,
    }
}

pub fn guest_system_prompt(vm: &VmInstance) -> (r: String)
    ensures
        r@ == guest_prompt(vm@.fs),
{
    let mut prompt = DEFAULT_SYSTEM_PROMPT.to_owned();
    prompt.push_str(GUEST_NOTE);
    let entries = match vm.list_dir(UPLOADS) {
        Err(_) => return prompt,
        Ok(entries) => entries,
    };
    if entries.len() == 0 {
        return prompt;
    }
    prompt.push_str(UPLOADS_NOTE);
    let ghost start = prompt@;
    let ghost all = listed_entries(entries@);
    let mut i: usize = 0;
    assert(prompt@ =~= start + file_lines(all, 0));
    while i < entries.len()
        invariant
            i <= entries@.len(),
            all == listed_entries(entries@),
            prompt@ == start + file_lines(all, i as int),
        decreases entries@.len() - i,
    {
        let entry = &entries[i];
        assert(all[i as int] == entry@);
        match entry.kind {
            EntryKind::File => {
                prompt.push_str("\n- /workspace/uploads/");
                prompt.push_str(entry.name.as_str());
                prompt.push_str(" (");
                prompt.push_str(size_text(entry.size).as_str());
                prompt.push_str(" bytes)");
            },
            EntryKind::Directory => {},
        }
        assert(prompt@ =~= start + file_lines(all, i + 1));
        i += 1;
    }
    prompt
}

// ---------------------------------------------------------------------------
// Uploads
// ---------------------------------------------------------------------------

/// Whether a text holds a control character.
pub open spec fn holds_control(s: Seq<char>) -> bool {
    exists|i: int| 0 <= i < s.len() && control(#[trigger] s[i])
}

/// The path of an uploaded file, or what is wrong with its name.
pub open spec fn upload_path_of(name: Seq<char>) -> Result<Seq<char>, Seq<char>> {
    if blank(name) {
        Err("file name is empty"@)
    } else if byte_len(name) > 255 {
        Err("file name is too long"@)
    } else if name == "."@ || name == ".."@ || name.contains('/') || name.contains('\\') {
        Err("file name must be a single path component"@)
    } else if holds_control(name) {
        Err("file name contains a control character"@)
    } else {
        Ok("/workspace/uploads/"@ + name)
    }
}

pub fn guest_upload_path(name: &str) -> (r: Result<String, String>)
    ensures
        match r {
            Ok(path) => upload_path_of(name@) == Ok::<Seq<char>, Seq<char>>(path@),
            Err(message) => upload_path_of(name@) == Err::<Seq<char>, Seq<char>>(message@),
        },
{
    if is_blank(name) {
        return Err("file name is empty".to_owned());
    }
    if byte_count(name) > 255 {
        return Err("file name is too long".to_owned());
    }
    if same_text(name, ".") || same_text(name, "..") || contains_char(name, '/') || contains_char(
        name,
        '\\',
    ) {
        return Err("file name must be a single path component".to_owned());
    }
    let chars = chars_of(name);
    let mut i: usize = 0;
    while i < chars.len()
        invariant
            i <= chars@.len(),
            chars@ == name@,
            forall|j: int| 0 <= j < i ==> !control(#[trigger] name@[j]),
            !blank(name@),
            byte_len(name@) <= 255,
            name@ != "."@,
            name@ != ".."@,
            !name@.contains('/'),
            !name@.contains('\\'),
        decreases chars@.len() - i,
    {
        if is_control(chars[i]) {
            assert(control(name@[i as int]));
            assert(holds_control(name@));
            return Err("file name contains a control character".to_owned());
        }
        i += 1;
    }
    assert(!holds_control(name@));
    Ok(labelled("/workspace/uploads/", name))
}

/// The number of files among the first `n` entries.
pub open spec fn count_files(entries: Seq<Listed>, n: int) -> nat
    decreases n,
{
    if n <= 0 {
        0
    } else {
        count_files(entries, n - 1) + (if entries[n - 1].kind == EntryKind::File {
            1nat
        } else {
            0nat
        })
    }
}

/// The uploads of a guest.
pub open spec fn uploads_in(fs: FsState) -> Seq<Listed> {
    match list_at(fs, UPLOADS@) {
        Ok(entries) => entries,
        Err(_) => Seq::empty(),
    }
}

/// How large a file is, where there is one.
pub open spec fn size_at(fs: FsState, path: Seq<char>) -> nat {
    match file_at(fs, path) {
        Ok(content) => content.len(),
        Err(_) => 0,
    }
}

/// What storing an upload does: the path and the size of what was stored, or the refusal.
pub open spec fn uploaded(fs: FsState, name: Seq<char>, bytes: Seq<u8>) -> (
    FsState,
    Result<(Seq<char>, nat), (u16, Seq<char>)>,
) {
    if bytes.len() > MAX_UPLOAD_BYTES {
        (fs, Err((400, "upload exceeds limit"@)))
    } else {
        match upload_path_of(name) {
            Err(message) => (fs, Err((400, message))),
            Ok(path) => {
                let files = uploads_in(fs);
                let kept = total_bytes(fs.entries) - size_at(fs, path);
                if count_files(files, files.len() as int) >= MAX_FILES_PER_SESSION && file_at(
                    fs,
                    path,
                ) is Err {
                    (fs, Err((400, "file limit exceeded"@)))
                } else if kept < 0 || kept + bytes.len() > MAX_TOTAL_BYTES_PER_SESSION {
                    (fs, Err((400, "session storage limit exceeded"@)))
                } else {
                    let (made, outcome) = mkdir_at(fs, UPLOADS@, true);
                    match outcome {
                        Err(_) => (made, Err((400, "failed to store upload"@))),
                        Ok(_) => {
                            let (written, outcome) = write_at(made, path, bytes);
                            match outcome {
                                Err(_) => (written, Err((400, "failed to store upload"@))),
                                Ok(_) => (written, Ok((path, bytes.len()))),
                            }
                        },
                    }
                }
            },
        }
    }
}

#[derive(Debug, PartialEq, Eq)]
pub struct GuestFile {
    pub path: String,
    pub bytes: usize,
}

impl View for GuestFile {
    type V = (Seq<char>, nat);

    open spec fn view(&self) -> (Seq<char>, nat) {
        (self.path@, self.bytes as nat)
    }
}

fn files_among(entries: &Vec<DirectoryEntry>) -> (r: usize)
    ensures
        r == count_files(listed_entries(entries@), entries@.len() as int),
{
    let ghost all = listed_entries(entries@);
    let mut r: usize = 0;
    let mut i: usize = 0;
    while i < entries.len()
        invariant
            i <= entries@.len(),
            all == listed_entries(entries@),
            r == count_files(all, i as int),
            r <= i,
        decreases entries@.len() - i,
    {
        assert(all[i as int] == entries@[i as int]@);
        match entries[i].kind {
            EntryKind::File => {
                r += 1;
            },
            EntryKind::Directory => {},
        }
        i += 1;
    }
    r
}

/// Stores an uploaded file in the guest of a session.
pub fn store_upload(vm: &mut VmInstance, name: &str, bytes: &Vec<u8>) -> (r: Result<
    GuestFile,
    Refusal,
>)
    ensures
        final(vm)@ == with_fs(old(vm)@, uploaded(old(vm)@.fs, name@, bytes@).0),
        match r {
            Ok(file) => uploaded(old(vm)@.fs, name@, bytes@).1 == Ok::<
                (Seq<char>, nat),
                (u16, Seq<char>),
            >(file@),
            Err(refusal) => uploaded(old(vm)@.fs, name@, bytes@).1 == Err::<
                (Seq<char>, nat),
                (u16, Seq<char>),
            >(refusal@),
        },
{
    if bytes.len() > MAX_UPLOAD_BYTES {
        return Err(refuse(400, "upload exceeds limit"));
    }
    let path = match guest_upload_path(name) {
        Err(message) => return Err(refuse(400, message.as_str())),
        Ok(path) => path,
    };
    let existing: usize = match vm.list_dir(UPLOADS) {
        Err(_) => 0,
        Ok(entries) => files_among(&entries),
    };
    let previous: Option<usize> = match vm.read_file(path.as_str()) {
        Err(_) => None,
        Ok(content) => Some(content.len()),
    };
    if existing >= MAX_FILES_PER_SESSION && previous.is_none() {
        return Err(refuse(400, "file limit exceeded"));
    }
    let replaced: usize = match previous {
        None => 0,
        Some(size) => size,
    };
    let held: usize = vm.filesystem().byte_count();
    if held < replaced || held - replaced > MAX_TOTAL_BYTES_PER_SESSION || (held - replaced)
        + bytes.len() > MAX_TOTAL_BYTES_PER_SESSION {
        return Err(refuse(400, "session storage limit exceeded"));
    }
    match vm.mkdir(UPLOADS, true) {
        Err(_) => return Err(refuse(400, "failed to store upload")),
        Ok(_) => {},
    }
    match vm.write_file(path.as_str(), bytes.as_slice()) {
        Err(_) => return Err(refuse(400, "failed to store upload")),
        Ok(_) => {},
    }
    Ok(GuestFile { path, bytes: bytes.len() })
}

/// The files among the first `n` entries, by their paths.
pub open spec fn guest_files(entries: Seq<Listed>, n: int) -> Seq<(Seq<char>, nat)>
    decreases n,
{
    if n <= 0 {
        Seq::empty()
    } else if entries[n - 1].kind == EntryKind::File {
        guest_files(entries, n - 1).push(
            ("/workspace/uploads/"@ + entries[n - 1].name, entries[n - 1].size),
        )
    } else {
        guest_files(entries, n - 1)
    }
}

pub open spec fn file_models(files: Seq<GuestFile>) -> Seq<(Seq<char>, nat)> {
    Seq::new(files.len(), |i: int| files[i]@)
}

/// The files that were uploaded to the guest of a session.
pub fn list_uploads(vm: &VmInstance) -> (r: Vec<GuestFile>)
    ensures
        file_models(r@) == guest_files(uploads_in(vm@.fs), uploads_in(vm@.fs).len() as int),
{
    let mut files: Vec<GuestFile> = Vec::new();
    assert(file_models(files@) =~= Seq::<(Seq<char>, nat)>::empty());
    let entries = match vm.list_dir(UPLOADS) {
        Err(_) => return files,
        Ok(entries) => entries,
    };
    let ghost all = listed_entries(entries@);
    let mut i: usize = 0;
    while i < entries.len()
        invariant
            i <= entries@.len(),
            all == listed_entries(entries@),
            file_models(files@) == guest_files(all, i as int),
        decreases entries@.len() - i,
    {
        let entry = &entries[i];
        assert(all[i as int] == entry@);
        match entry.kind {
            EntryKind::File => {
                let file = GuestFile {
                    path: labelled("/workspace/uploads/", entry.name.as_str()),
                    bytes: entry.size,
                };
                let ghost before = files@;
                let ghost added = file@;
                files.push(file);
                assert(file_models(files@) =~= file_models(before).push(added));
            },
            EntryKind::Directory => {},
        }
        i += 1;
    }
    files
}

// ---------------------------------------------------------------------------
// Approvals
// ---------------------------------------------------------------------------

/// Gives the browser's decision to a request of the agent.
pub fn decide_approval(approvals: &mut ApprovalStore, id: String, decision: &str) -> (r: Result<
    (),
    Refusal,
>)
    ensures
        ({
            let reply = if decision@ == "allow"@ {
                ApprovalReply::Allow
            } else {
                ApprovalReply::Deny
            };
            if decision@ != "allow"@ && decision@ != "deny"@ {
                &&& final(approvals)@ == old(approvals)@
                &&& r matches Err(refusal)
                &&& refusal@ == (400u16, "decision must be 'allow' or 'deny'"@)
            } else {
                &&& final(approvals)@ == replied(old(approvals)@, id@, reply).0
                &&& match replied(old(approvals)@, id@, reply).1 {
                    Ok(_) => r is Ok,
                    Err(message) => r matches Err(refusal) && refusal@ == (409u16, message),
                }
            }
        }),
{
    match parse_decision(decision) {
        None => Err(refuse(400, "decision must be 'allow' or 'deny'")),
        Some(reply) => match approvals.resolve(id, reply) {
            Ok(_) => Ok(()),
            Err(message) => Err(refuse(409, message.as_str())),
        },
    }
}

/// Cancels what a running agent waits for.
pub fn cancel_agent(running: bool, approvals: &mut ApprovalStore) -> (r: Result<(), Refusal>)
    ensures
        if running {
            r is Ok && final(approvals)@ == all_cancelled(old(approvals)@)
        } else {
            &&& final(approvals)@ == old(approvals)@
            &&& r matches Err(refusal)
            &&& refusal@ == (409u16, "agent is not running"@)
        },
{
    if !running {
        return Err(refuse(409, "agent is not running"));
    }
    approvals.cancel_pending();
    Ok(())
}

// ---------------------------------------------------------------------------
// Jobs
// ---------------------------------------------------------------------------

/// A job that was started and marked as running, or nothing where there is no room.
pub open spec fn begun(s: JobsModel, owner: Seq<char>, executor: Seq<char>, input: Seq<char>) -> (
    JobsModel,
    Option<JobModel>,
) {
    let (after, job) = try_start_in(s, owner, executor, input, MAX_JOBS_PER_SESSION as nat);
    match job {
        None => (after, None),
        Some(job) => (run_in(after, job.id).0, Some(job)),
    }
}

/// A job as one that ran to its end: the jobs afterwards, and the finished job or the refusal.
pub open spec fn served(
    s: JobsModel,
    owner: Seq<char>,
    executor: Seq<char>,
    input: Seq<char>,
    result: Result<Seq<char>, Seq<char>>,
) -> (JobsModel, Result<JobModel, (u16, Seq<char>)>) {
    let (running, job) = begun(s, owner, executor, input);
    match job {
        None => (running, Err((400, "job limit exceeded"@))),
        Some(job) => {
            let (after, done) = finish_in(running, job.id, result);
            match result {
                Err(message) => (after, Err((400, message))),
                Ok(_) => match done {
                    Some(done) => (after, Ok(done)),
                    None => (after, Err((500, "internal error"@))),
                },
            }
        },
    }
}

fn conclude(jobs: &mut JobStore, id: &str, result: Result<&str, String>) -> (r: Result<
    JobRecord,
    Refusal,
>)
    ensures
        ({
            let given = match result {
                Ok(path) => Ok(path@),
                Err(message) => Err(message@),
            };
            let (after, done) = finish_in(old(jobs)@, id@, given);
            &&& final(jobs)@ == after
            &&& match given {
                Err(message) => r matches Err(refusal) && refusal@ == (400u16, message),
                Ok(_) => match done {
                    Some(job) => r matches Ok(record) && record@ == job,
                    None => r matches Err(refusal) && refusal@ == (500u16, "internal error"@),
                },
            }
        }),
{
    match result {
        Err(message) => {
            let _ = jobs.finish(id, Err(message.as_str()));
            Err(refuse(400, message.as_str()))
        },
        Ok(path) => match jobs.finish(id, Ok(path)) {
            Some(job) => Ok(job),
            None => Err(refuse(500, "internal error")),
        },
    }
}

/// A finished job with what it made.
#[derive(Debug, PartialEq, Eq)]
pub struct TabulateResponse {
    pub job: JobRecord,
    pub table: TableSummary,
}

/// A finished job with what it made.
#[derive(Debug, PartialEq, Eq)]
pub struct PdfInspectionResponse {
    pub job: JobRecord,
    pub pdf: PdfSummary,
}

/// What tabulating does to the jobs and the guest.
pub open spec fn tabulation_served(s: JobsModel, fs: FsState, owner: Seq<char>, path: Seq<char>) -> (
    JobsModel,
    FsState,
    Result<(JobModel, TableModel), (u16, Seq<char>)>,
) {
    let executor = "builtin.tabulate.v1"@;
    if blank(path) {
        (s, fs, Err((400, "path is empty"@)))
    } else if begun(s, owner, executor, path).1 is None {
        (begun(s, owner, executor, path).0, fs, Err((400, "job limit exceeded"@)))
    } else {
        let (after, table) = tabulate(fs, path);
        let given = match table {
            Ok(table) => Ok(table.output_path),
            Err(message) => Err(message),
        };
        let (jobs, done) = served(s, owner, executor, path, given);
        match done {
            Ok(job) => (jobs, after, Ok((job, table->Ok_0))),
            Err(refusal) => (jobs, after, Err(refusal)),
        }
    }
}

/// Tabulates an uploaded file as a job of a session.
pub fn handle_tabulate(jobs: &mut JobStore, vm: &mut VmInstance, owner: &str, path: &str) -> (r:
    Result<TabulateResponse, Refusal>)
    ensures
        ({
            let (after, fs, answer) = tabulation_served(old(jobs)@, old(vm)@.fs, owner@, path@);
            &&& final(jobs)@ == after
            &&& final(vm)@ == with_fs(old(vm)@, fs)
            &&& match r {
                Ok(response) => answer == Ok::<(JobModel, TableModel), (u16, Seq<char>)>(
                    (response.job@, response.table@),
                ),
                Err(refusal) => answer == Err::<(JobModel, TableModel), (u16, Seq<char>)>(refusal@),
            }
        }),
{
    if is_blank(path) {
        return Err(refuse(400, "path is empty"));
    }
    let job = match jobs.try_start_tabulation(owner, path, MAX_JOBS_PER_SESSION) {
        None => return Err(refuse(400, "job limit exceeded")),
        Some(job) => job,
    };
    let _ = jobs.mark_running(job.id.as_str());
    match tabulate_uploaded_file(vm, path) {
        Err(message) => match conclude(jobs, job.id.as_str(), Err(message)) {
            Err(refusal) => Err(refusal),
            Ok(_) => Err(refuse(500, "internal error")),
        },
        Ok(table) => match conclude(jobs, job.id.as_str(), Ok(table.output_path.as_str())) {
            Err(refusal) => Err(refusal),
            Ok(job) => Ok(TabulateResponse { job, table }),
        },
    }
}

/// What inspecting a PDF does to the jobs and the guest.
pub open spec fn inspection_served(s: JobsModel, fs: FsState, owner: Seq<char>, path: Seq<char>) -> (
    JobsModel,
    FsState,
    Result<(JobModel, PdfModel), (u16, Seq<char>)>,
) {
    let executor = "builtin.pdf_inspect.v1"@;
    if blank(path) {
        (s, fs, Err((400, "path is empty"@)))
    } else if begun(s, owner, executor, path).1 is None {
        (begun(s, owner, executor, path).0, fs, Err((400, "job limit exceeded"@)))
    } else {
        let (after, pdf) = inspect_pdf(fs, path);
        let given = match pdf {
            Ok(pdf) => Ok(pdf.output_path),
            Err(message) => Err(message),
        };
        let (jobs, done) = served(s, owner, executor, path, given);
        match done {
            Ok(job) => (jobs, after, Ok((job, pdf->Ok_0))),
            Err(refusal) => (jobs, after, Err(refusal)),
        }
    }
}

/// Inspects an uploaded PDF as a job of a session.
pub fn handle_pdf_inspection(jobs: &mut JobStore, vm: &mut VmInstance, owner: &str, path: &str) -> (
    r: Result<PdfInspectionResponse, Refusal>)
    ensures
        ({
            let (after, fs, answer) = inspection_served(old(jobs)@, old(vm)@.fs, owner@, path@);
            &&& final(jobs)@ == after
            &&& final(vm)@ == with_fs(old(vm)@, fs)
            &&& match r {
                Ok(response) => answer == Ok::<(JobModel, PdfModel), (u16, Seq<char>)>(
                    (response.job@, response.pdf@),
                ),
                Err(refusal) => answer == Err::<(JobModel, PdfModel), (u16, Seq<char>)>(refusal@),
            }
        }),
{
    if is_blank(path) {
        return Err(refuse(400, "path is empty"));
    }
    let job = match jobs.try_start_pdf_inspection(owner, path, MAX_JOBS_PER_SESSION) {
        None => return Err(refuse(400, "job limit exceeded")),
        Some(job) => job,
    };
    let _ = jobs.mark_running(job.id.as_str());
    match inspect_uploaded_pdf(vm, path) {
        Err(message) => match conclude(jobs, job.id.as_str(), Err(message)) {
            Err(refusal) => Err(refusal),
            Ok(_) => Err(refuse(500, "internal error")),
        },
        Ok(pdf) => match conclude(jobs, job.id.as_str(), Ok(pdf.output_path.as_str())) {
            Err(refusal) => Err(refusal),
            Ok(job) => Ok(PdfInspectionResponse { job, pdf }),
        },
    }
}

// ---------------------------------------------------------------------------
// Apps
// ---------------------------------------------------------------------------

/// Importing an uploaded document.
pub open spec fn document_imported(fs: FsState, name: Seq<char>) -> (
    FsState,
    Result<DocumentModel, Seq<char>>,
) {
    match upload_path_of(name) {
        Err(message) => (fs, Err(message)),
        Ok(path) => match file_at(fs, path) {
            Err(trouble) => (fs, Err(trouble_text(trouble))),
            Ok(bytes) => match document_content(name, bytes) {
                Err(message) => (fs, Err(message)),
                Ok(content) => replace_in(
                    fs,
                    content.text,
                    json_layout(
                        metadata_json(
                            MetadataModel {
                                format: content.format,
                                source_name: Some(name),
                                warnings: content.warnings,
                            },
                        ),
                    ),
                ),
            },
        },
    }
}

pub fn import_uploaded_document(vm: &mut VmInstance, name: &str) -> (r: Result<Document, String>)
    ensures
        final(vm)@ == with_fs(old(vm)@, document_imported(old(vm)@.fs, name@).0),
        document_seen(r) == document_imported(old(vm)@.fs, name@).1,
{
    let path = match guest_upload_path(name) {
        Err(message) => return Err(message),
        Ok(path) => path,
    };
    let bytes = match vm.read_file(path.as_str()) {
        Err(error) => return Err(error.to_text()),
        Ok(bytes) => bytes,
    };
    let content = match read_document_upload(name, bytes.as_slice()) {
        Err(message) => return Err(message),
        Ok(content) => content,
    };
    replace_document_with_metadata(
        vm,
        content.text.as_str(),
        (content.format, Some(name.to_owned()), content.warnings),
    )
}

/// Importing an uploaded spreadsheet; `reading` is what the host has read in it, when it is a
/// workbook.
pub open spec fn sheet_imported(fs: FsState, name: Seq<char>, reading: ReadingModel) -> (
    FsState,
    Result<SheetModel, Seq<char>>,
) {
    match upload_path_of(name) {
        Err(message) => (fs, Err(message)),
        Ok(path) => match file_at(fs, path) {
            Err(trouble) => (fs, Err(trouble_text(trouble))),
            Ok(bytes) => match spreadsheet_content(name, bytes, reading) {
                Err(message) => (fs, Err(message)),
                Ok(content) => import_records_in(
                    fs,
                    summarize_worksheet(
                        content.headers,
                        content.rows,
                        content.format,
                        content.sheet_name,
                        content.warnings,
                        path,
                    ),
                ),
            },
        },
    }
}

/// Imports an uploaded spreadsheet; `reading` is what the host has read in it, when it is a workbook.
pub fn import_uploaded_sheet(vm: &mut VmInstance, name: &str, reading: WorkbookReading) -> (r: Result<
    SheetSummary,
    String,
>)
    ensures
        final(vm)@ == with_fs(old(vm)@, sheet_imported(old(vm)@.fs, name@, reading@).0),
        sheet_seen(r) == sheet_imported(old(vm)@.fs, name@, reading@).1,
{
    let path = match guest_upload_path(name) {
        Err(message) => return Err(message),
        Ok(path) => path,
    };
    let bytes = match vm.read_file(path.as_str()) {
        Err(error) => return Err(error.to_text()),
        Ok(bytes) => bytes,
    };
    let content = match read_spreadsheet(name, bytes.as_slice(), reading) {
        Err(message) => return Err(message),
        Ok(content) => content,
    };
    import_sheet_records(
        vm,
        content.headers,
        content.rows,
        content.format.as_str(),
        content.sheet_name,
        content.warnings,
        path.as_str(),
    )
}

/// A request to one of the built-in apps.
#[derive(Debug, PartialEq, Eq)]
pub struct AppOperationRequest {
    pub app: AppId,
    pub operation: String,
    pub text: Option<String>,
    pub format: Option<SheetFormat>,
    pub file: Option<String>,
}

/// What an [`AppOperationRequest`] asks for.
#[verifier::ext_equal]
pub struct OperationModel {
    pub app: AppId,
    pub operation: Seq<char>,
    pub text: Option<Seq<char>>,
    pub format: Option<SheetFormat>,
    pub file: Option<Seq<char>>,
}

impl View for AppOperationRequest {
    type V = OperationModel;

    open spec fn view(&self) -> OperationModel {
        OperationModel {
            app: self.app,
            operation: self.operation@,
            text: text_option(self.text),
            format: self.format,
            file: text_option(self.file),
        }
    }
}

/// What an app gives back.
#[derive(Debug, PartialEq, Eq)]
pub enum AppOutput {
    Document(Document),
    Sheet(SheetSummary),
}

/// What an [`AppOutput`] says.
#[verifier::ext_equal]
pub enum OutputModel {
    Document(DocumentModel),
    Sheet(SheetModel),
}

impl View for AppOutput {
    type V = OutputModel;

    open spec fn view(&self) -> OutputModel {
        match self {
            AppOutput::Document(document) => OutputModel::Document(document@),
            AppOutput::Sheet(sheet) => OutputModel::Sheet(sheet@),
        }
    }
}

/// Where an app put what it gives back.
pub open spec fn output_path(output: OutputModel) -> Seq<char> {
    match output {
        OutputModel::Document(document) => document.path,
        OutputModel::Sheet(sheet) => sheet.output_path,
    }
}

pub open spec fn as_document(r: Result<DocumentModel, Seq<char>>) -> Result<OutputModel, Seq<char>> {
    match r {
        Ok(document) => Ok(OutputModel::Document(document)),
        Err(message) => Err(message),
    }
}

pub open spec fn as_sheet(r: Result<SheetModel, Seq<char>>) -> Result<OutputModel, Seq<char>> {
    match r {
        Ok(sheet) => Ok(OutputModel::Sheet(sheet)),
        Err(message) => Err(message),
    }
}

/// An operation on the document; `operation` is in lower case.
pub open spec fn docs_operated(fs: FsState, operation: Seq<char>, request: OperationModel) -> (
    FsState,
    Result<OutputModel, Seq<char>>,
) {
    if operation == "open_upload"@ {
        match request.file {
            None => (fs, Err("uploaded document name is required"@)),
            Some(file) => {
                let (after, r) = document_imported(fs, file);
                (after, as_document(r))
            },
        }
    } else if operation == "open"@ {
        let (after, r) = open_docs_in(fs);
        (after, as_document(r))
    } else if operation == "read"@ {
        (fs, as_document(document_in(fs)))
    } else if operation == "replace"@ {
        match request.text {
            None => (fs, Err("document text is required"@)),
            Some(text) => {
                let (after, r) = replace_in(
                    fs,
                    text,
                    json_layout(metadata_json(plain_metadata())),
                );
                (after, as_document(r))
            },
        }
    } else if operation == "append"@ {
        match request.text {
            None => (fs, Err("document text is required"@)),
            Some(text) => {
                let (after, r) = append_in(fs, text);
                (after, as_document(r))
            },
        }
    } else {
        (fs, Err("unsupported Docs operation"@))
    }
}

/// An operation on the sheet; `operation` is in lower case.
pub open spec fn sheets_operated(
    fs: FsState,
    operation: Seq<char>,
    request: OperationModel,
    reading: ReadingModel,
) -> (FsState, Result<OutputModel, Seq<char>>) {
    if operation == "open_upload"@ {
        match request.file {
            None => (fs, Err("uploaded spreadsheet name is required"@)),
            Some(file) => {
                let (after, r) = sheet_imported(fs, file, reading);
                (after, as_sheet(r))
            },
        }
    } else if operation == "open"@ {
        let (after, r) = open_sheets_in(fs);
        (after, as_sheet(r))
    } else if operation == "import"@ {
        match (request.text, request.format) {
            (Some(text), Some(format)) => {
                let (after, r) = import_in(fs, text, format);
                (after, as_sheet(r))
            },
            (None, _) => (fs, Err("sheet text is required"@)),
            (_, None) => (fs, Err("sheet format must be 'csv' or 'tsv'"@)),
        }
    } else {
        (fs, Err("unsupported Sheets operation"@))
    }
}

/// An operation on one of the apps.
pub open spec fn operated(fs: FsState, request: OperationModel, reading: ReadingModel) -> (
    FsState,
    Result<OutputModel, Seq<char>>,
) {
    let operation = lower_text(request.operation);
    match request.app {
        AppId::Docs => docs_operated(fs, operation, request),
        AppId::Sheets => sheets_operated(fs, operation, request, reading),
    }
}

/// What an operation gave, as the contracts see it.
pub open spec fn output_seen(r: Result<AppOutput, String>) -> Result<OutputModel, Seq<char>> {
    match r {
        Ok(output) => Ok(output@),
        Err(message) => Err(message@),
    }
}

fn given_document(r: Result<Document, String>) -> (out: Result<AppOutput, String>)
    ensures
        output_seen(out) == as_document(document_seen(r)),
{
    match r {
        Ok(document) => Ok(AppOutput::Document(document)),
        Err(message) => Err(message),
    }
}

fn given_sheet(r: Result<SheetSummary, String>) -> (out: Result<AppOutput, String>)
    ensures
        output_seen(out) == as_sheet(sheet_seen(r)),
{
    match r {
        Ok(sheet) => Ok(AppOutput::Sheet(sheet)),
        Err(message) => Err(message),
    }
}

fn operate_docs(vm: &mut VmInstance, operation: &str, request: &AppOperationRequest) -> (r: Result<
    AppOutput,
    String,
>)
    ensures
        final(vm)@ == with_fs(old(vm)@, docs_operated(old(vm)@.fs, operation@, request@).0),
        output_seen(r) == docs_operated(old(vm)@.fs, operation@, request@).1,
{
    if same_text(operation, "open_upload") {
        match &request.file {
            None => Err("uploaded document name is required".to_owned()),
            Some(file) => given_document(import_uploaded_document(vm, file.as_str())),
        }
    } else if same_text(operation, "open") {
        given_document(open_docs(vm))
    } else if same_text(operation, "read") {
        given_document(read_document(vm))
    } else if same_text(operation, "replace") {
        match &request.text {
            None => Err("document text is required".to_owned()),
            Some(text) => given_document(replace_document(vm, text.as_str())),
        }
    } else if same_text(operation, "append") {
        match &request.text {
            None => Err("document text is required".to_owned()),
            Some(text) => given_document(append_document(vm, text.as_str())),
        }
    } else {
        Err("unsupported Docs operation".to_owned())
    }
}

fn operate_sheets(
    vm: &mut VmInstance,
    operation: &str,
    request: &AppOperationRequest,
    reading: WorkbookReading,
) -> (r: Result<AppOutput, String>)
    ensures
        final(vm)@ == with_fs(
            old(vm)@,
            sheets_operated(old(vm)@.fs, operation@, request@, reading@).0,
        ),
        output_seen(r) == sheets_operated(old(vm)@.fs, operation@, request@, reading@).1,
{
    if same_text(operation, "open_upload") {
        match &request.file {
            None => Err("uploaded spreadsheet name is required".to_owned()),
            Some(file) => given_sheet(import_uploaded_sheet(vm, file.as_str(), reading)),
        }
    } else if same_text(operation, "open") {
        given_sheet(open_sheets(vm))
    } else if same_text(operation, "import") {
        match (&request.text, request.format) {
            (Some(text), Some(format)) => given_sheet(import_sheet(vm, text.as_str(), format)),
            (None, _) => Err("sheet text is required".to_owned()),
            (_, None) => Err("sheet format must be 'csv' or 'tsv'".to_owned()),
        }
    } else {
        Err("unsupported Sheets operation".to_owned())
    }
}

/// A finished job with what an app gave back.
#[derive(Debug, PartialEq, Eq)]
pub struct AppOperationResponse {
    pub job: JobRecord,
    pub app: AppId,
    pub operation: String,
    pub output: AppOutput,
}

/// The executor and the input of an app's jobs.
pub open spec fn app_job(app: AppId) -> (Seq<char>, Seq<char>) {
    match app {
        AppId::Docs => ("builtin."@ + "docs"@ + ".v1"@, DOCS_DOCUMENT_PATH@),
        AppId::Sheets => ("builtin."@ + "sheets"@ + ".v1"@, SHEETS_INPUT_PATH@),
    }
}

/// What an operation on an app does to the jobs and the guest.
pub open spec fn operation_served(
    s: JobsModel,
    fs: FsState,
    owner: Seq<char>,
    request: OperationModel,
    reading: ReadingModel,
) -> (JobsModel, FsState, Result<(JobModel, OutputModel), (u16, Seq<char>)>) {
    let (executor, input) = app_job(request.app);
    if blank(request.operation) {
        (s, fs, Err((400, "invalid app operation"@)))
    } else if begun(s, owner, executor, input).1 is None {
        (begun(s, owner, executor, input).0, fs, Err((400, "job limit exceeded"@)))
    } else {
        let (after, output) = operated(fs, request, reading);
        let given = match output {
            Ok(output) => Ok(output_path(output)),
            Err(message) => Err(message),
        };
        let (jobs, done) = served(s, owner, executor, input, given);
        match done {
            Ok(job) => (jobs, after, Ok((job, output->Ok_0))),
            Err(refusal) => (jobs, after, Err(refusal)),
        }
    }
}

/// The bytes of the upload that an operation opens, when it is a workbook that the host reads.
pub open spec fn host_upload(fs: FsState, request: OperationModel) -> Option<Seq<u8>> {
    if request.app is Sheets && lower_text(request.operation) == "open_upload"@ {
        match request.file {
            None => None,
            Some(name) => match upload_path_of(name) {
                Err(_) => None,
                Ok(path) => match file_at(fs, path) {
                    Ok(bytes) => if read_by_host(name, bytes) {
                        Some(bytes)
                    } else {
                        None
                    },
                    Err(_) => None,
                },
            },
        }
    } else {
        None
    }
}

/// The bytes of the upload that an operation opens, when it is a workbook that the host reads:
/// the host reads it before the operation is performed.
pub fn upload_for_host(vm: &VmInstance, request: &AppOperationRequest) -> (r: Option<Vec<u8>>)
    ensures
        match r {
            Some(bytes) => host_upload(vm@.fs, request@) == Some(bytes@),
            None => host_upload(vm@.fs, request@) is None,
        },
{
    let operation = ascii_lower(request.operation.as_str());
    match request.app {
        AppId::Docs => None,
        AppId::Sheets => {
            if !same_text(operation.as_str(), "open_upload") {
                return None;
            }
            match &request.file {
                None => None,
                Some(name) => match guest_upload_path(name.as_str()) {
                    Err(_) => None,
                    Ok(path) => match vm.read_file(path.as_str()) {
                        Err(_) => None,
                        Ok(bytes) => if is_read_by_host(name.as_str(), bytes.as_slice()) {
                            Some(bytes)
                        } else {
                            None
                        },
                    },
                },
            }
        },
    }
}

/// Performs an operation on an app as a job of a session; `reading` is what the host has read in the
/// upload that it opens, when that is a workbook.
pub fn handle_app_operation(
    jobs: &mut JobStore,
    vm: &mut VmInstance,
    owner: &str,
    request: &AppOperationRequest,
    reading: WorkbookReading,
) -> (r: Result<AppOperationResponse, Refusal>)
    ensures
        ({
            let (after, fs, answer) = operation_served(
                old(jobs)@,
                old(vm)@.fs,
                owner@,
                request@,
                reading@,
            );
            &&& final(jobs)@ == after
            &&& final(vm)@ == with_fs(old(vm)@, fs)
            &&& match r {
                Ok(response) => {
                    &&& answer == Ok::<(JobModel, OutputModel), (u16, Seq<char>)>(
                        (response.job@, response.output@),
                    )
                    &&& response.app == request.app
                    &&& response.operation@ == lower_text(request.operation@)
                },
                Err(refusal) => answer == Err::<(JobModel, OutputModel), (u16, Seq<char>)>(
                    refusal@,
                ),
            }
        }),
{
    if is_blank(request.operation.as_str()) {
        return Err(refuse(400, "invalid app operation"));
    }
    let operation = ascii_lower(request.operation.as_str());
    let (executor, input_path) = match request.app {
        AppId::Docs => ("docs", DOCS_DOCUMENT_PATH),
        AppId::Sheets => ("sheets", SHEETS_INPUT_PATH),
    };
    let job = match jobs.try_start_builtin_app(owner, executor, input_path, MAX_JOBS_PER_SESSION) {
        None => return Err(refuse(400, "job limit exceeded")),
        Some(job) => job,
    };
    let _ = jobs.mark_running(job.id.as_str());
    let result = match request.app {
        AppId::Docs => operate_docs(vm, operation.as_str(), request),
        AppId::Sheets => operate_sheets(vm, operation.as_str(), request, reading),
    };
    match result {
        Err(message) => match conclude(jobs, job.id.as_str(), Err(message)) {
            Err(refusal) => Err(refusal),
            Ok(_) => Err(refuse(500, "internal error")),
        },
        Ok(output) => {
            let path = match &output {
                AppOutput::Document(document) => document.path,
                AppOutput::Sheet(sheet) => sheet.output_path,
            };
            match conclude(jobs, job.id.as_str(), Ok(path)) {
                Err(refusal) => Err(refusal),
                Ok(job) => Ok(AppOperationResponse { job, app: request.app, operation, output }),
            }
        },
    }
}

// ---------------------------------------------------------------------------
// Settings
// ---------------------------------------------------------------------------

/// What the host is told by its environment.
#[derive(Debug, PartialEq, Eq)]
pub struct HostVariables {
    pub port: Option<String>,
    pub allowed_origin: Option<String>,
    pub secure_cookies: Option<String>,
}

/// How the host runs.
#[derive(Debug, PartialEq, Eq)]
pub struct HostSettings {
    pub port: u16,
    pub allowed_origin: String,
    pub secure_cookie: bool,
}

/// The port of the host: the one that is given, where it is one.
pub open spec fn port_of(given: Option<Seq<char>>) -> nat {
    match given {
        None => 8080,
        Some(text) => match parse_natural(text, 65535) {
            Some(port) => port,
            None => 8080,
        },
    }
}

/// The origin that may change anything: the one that is given, else the host itself.
pub open spec fn origin_of(given: Option<Seq<char>>, port: nat) -> Seq<char> {
    match given {
        Some(origin) => if blank(origin) {
            "http://127.0.0.1:"@ + decimal(port)
        } else {
            origin
        },
        None => "http://127.0.0.1:"@ + decimal(port),
    }
}

/// Whether cookies are for secure connections alone: as it is given, else where the origin is
/// secure.
pub open spec fn secure_of(given: Option<Seq<char>>, origin: Seq<char>) -> bool {
    match given {
        Some(text) => {
            let word = trim(text);
            word == "1"@ || word == "true"@ || word == "TRUE"@ || word == "yes"@ || word == "YES"@
        },
        None => begins(origin, "https://"@),
    }
}

impl HostSettings {
    /// The settings that the environment asks for.
    pub fn from_env(variables: &HostVariables) -> (r: Self)
        ensures
            r.port == port_of(text_option(variables.port)),
            r.allowed_origin@ == origin_of(text_option(variables.allowed_origin), r.port as nat),
            r.secure_cookie == secure_of(
                text_option(variables.secure_cookies),
                r.allowed_origin@,
            ),
    {
        let port: u16 = match &variables.port {
            None => 8080,
            Some(text) => match parse_u64(text.as_str(), 65535) {
                Some(port) => port as u16,
                None => 8080,
            },
        };
        let own = labelled("http://127.0.0.1:", decimal_text(port as u64).as_str());
        let allowed_origin = match &variables.allowed_origin {
            Some(origin) => if is_blank(origin.as_str()) {
                own
            } else {
                origin.clone()
            },
            None => own,
        };
        let secure_cookie = match &variables.secure_cookies {
            Some(text) => {
                let word = trimmed(text.as_str());
                same_text(word.as_str(), "1") || same_text(word.as_str(), "true") || same_text(
                    word.as_str(),
                    "TRUE",
                ) || same_text(word.as_str(), "yes") || same_text(word.as_str(), "YES")
            },
            None => starts_with(allowed_origin.as_str(), "https://"),
        };
        HostSettings { port, allowed_origin, secure_cookie }
    }
}

// ---------------------------------------------------------------------------
// What the host says of itself
// ---------------------------------------------------------------------------

pub open spec fn status_json(status: FeatureStatus) -> Seq<char> {
    object_text(
        seq![
            ("available"@, truth_text(status.available)),
            ("durable"@, truth_text(status.durable)),
        ],
    )
}

fn write_status(status: FeatureStatus) -> (r: String)
    ensures
        r@ == status_json(status),
{
    let fields = vec![
        field("available", write_truth(status.available)),
        field("durable", write_truth(status.durable)),
    ];
    assert(field_models(fields@) =~= seq![
        ("available"@, truth_text(status.available)),
        ("durable"@, truth_text(status.durable)),
    ]);
    write_object(&fields)
}

pub open spec fn features_json(f: SystemFeatures) -> Seq<char> {
    object_text(
        seq![
            ("bytecode_executor"@, status_json(f.bytecode_executor)),
            ("capability_gatekeepers"@, status_json(f.capability_gatekeepers)),
            ("native_sandbox_executor"@, status_json(f.native_sandbox_executor)),
            ("sessions"@, status_json(f.sessions)),
            ("wasm_executor"@, status_json(f.wasm_executor)),
            ("workflows"@, status_json(f.workflows)),
            ("workspaces"@, status_json(f.workspaces)),
        ],
    )
}

fn write_features(f: &SystemFeatures) -> (r: String)
    ensures
        r@ == features_json(*f),
{
    let fields = vec![
        field("bytecode_executor", write_status(f.bytecode_executor)),
        field("capability_gatekeepers", write_status(f.capability_gatekeepers)),
        field("native_sandbox_executor", write_status(f.native_sandbox_executor)),
        field("sessions", write_status(f.sessions)),
        field("wasm_executor", write_status(f.wasm_executor)),
        field("workflows", write_status(f.workflows)),
        field("workspaces", write_status(f.workspaces)),
    ];
    assert(field_models(fields@) =~= seq![
        ("bytecode_executor"@, status_json(f.bytecode_executor)),
        ("capability_gatekeepers"@, status_json(f.capability_gatekeepers)),
        ("native_sandbox_executor"@, status_json(f.native_sandbox_executor)),
        ("sessions"@, status_json(f.sessions)),
        ("wasm_executor"@, status_json(f.wasm_executor)),
        ("workflows"@, status_json(f.workflows)),
        ("workspaces"@, status_json(f.workspaces)),
    ]);
    write_object(&fields)
}

pub open spec fn limits_json(limits: ResourceLimits) -> Seq<char> {
    object_text(
        seq![
            ("max_bytes"@, decimal(limits.max_bytes as nat)),
            ("max_inodes"@, decimal(limits.max_inodes as nat)),
            ("max_processes"@, decimal(limits.max_processes as nat)),
            ("max_steps"@, decimal(limits.max_steps as nat)),
        ],
    )
}

fn write_limits(limits: &ResourceLimits) -> (r: String)
    ensures
        r@ == limits_json(*limits),
{
    let fields = vec![
        field("max_bytes", size_text(limits.max_bytes)),
        field("max_inodes", size_text(limits.max_inodes)),
        field("max_processes", size_text(limits.max_processes)),
        field("max_steps", size_text(limits.max_steps)),
    ];
    assert(field_models(fields@) =~= seq![
        ("max_bytes"@, decimal(limits.max_bytes as nat)),
        ("max_inodes"@, decimal(limits.max_inodes as nat)),
        ("max_processes"@, decimal(limits.max_processes as nat)),
        ("max_steps"@, decimal(limits.max_steps as nat)),
    ]);
    write_object(&fields)
}

/// What the host says of itself: nothing of the model but whether there is one.
pub open spec fn system_json(model_configured: bool) -> Seq<char> {
    object_text(
        seq![
            ("api_version"@, json_string(API_VERSION@)),
            ("features"@, features_json(current_features())),
            (
                "model_gateway"@,
                object_text(seq![("configured"@, truth_text(model_configured))]),
            ),
            ("product"@, json_string(PRODUCT@)),
            ("runtime_limits"@, limits_json(default_limits())),
            ("version"@, json_string(VERSION@)),
        ],
    )
}

/// What the host says of itself, as JSON with the keys in order.
pub fn system_info_payload(model_configured: bool) -> (r: String)
    ensures
        r@ == system_json(model_configured),
{
    let info = SystemInfo::current();
    let gateway = vec![field("configured", write_truth(model_configured))];
    assert(field_models(gateway@) =~= seq![("configured"@, truth_text(model_configured))]);
    let fields = vec![
        field("api_version", quoted(info.api_version.as_str())),
        field("features", write_features(&info.features)),
        field("model_gateway", write_object(&gateway)),
        field("product", quoted(info.product.as_str())),
        field("runtime_limits", write_limits(&info.runtime_limits)),
        field("version", quoted(info.version.as_str())),
    ];
    assert(field_models(fields@) =~= seq![
        ("api_version"@, json_string(API_VERSION@)),
        ("features"@, features_json(current_features())),
        ("model_gateway"@, object_text(seq![("configured"@, truth_text(model_configured))])),
        ("product"@, json_string(PRODUCT@)),
        ("runtime_limits"@, limits_json(default_limits())),
        ("version"@, json_string(VERSION@)),
    ]);
    write_object(&fields)
}

// ---------------------------------------------------------------------------
// Laws
// ---------------------------------------------------------------------------

/// An upload is stored directly below the upload directory, whatever its name.
pub proof fn law_uploads_stay_in_their_directory(name: Seq<char>)
    requires
        upload_path_of(name) is Ok,
    ensures
        normalize(upload_path_of(name)->Ok_0, "/"@) == Ok::<Names, Trouble>(
            seq!["workspace"@, "uploads"@, name],
        ),
{
    let names = seq!["workspace"@, "uploads"@, name];
    reveal_strlit("");
    reveal_strlit(".");
    reveal_strlit("..");
    reveal_strlit("/");
    reveal_strlit("workspace");
    reveal_strlit("uploads");
    reveal_strlit("/workspace/uploads/");
    assert(names.drop_last() =~= seq!["workspace"@, "uploads"@]);
    assert(names.drop_last().drop_last() =~= seq!["workspace"@]);
    reveal_with_fuel(joined, 4);
    assert(display(names) =~= "/workspace/uploads/"@ + name);
    assert(proper_name("workspace"@));
    assert(proper_name("uploads"@));
    assert(proper_name(name)) by {
        if name.len() == 0 {
            assert(blank(name));
        }
        assert forall|i: int| 0 <= i < name.len() implies name[i] != '/' by {
            if name[i] == '/' {
                assert(name.contains('/'));
            }
        }
        assert forall|i: int| 0 <= i < name.len() implies name[i] != '\0' by {
            if name[i] == '\0' {
                assert(control(name[i]));
                assert(holds_control(name));
            }
        }
    }
    assert(proper(names)) by {
        assert forall|i: int| 0 <= i < names.len() implies proper_name(#[trigger] names[i]) by {
            if i == 0 {
                assert(names[i] == "workspace"@);
            } else if i == 1 {
                assert(names[i] == "uploads"@);
            } else {
                assert(names[i] == name);
            }
        }
    }
    law_normalize_undoes_display(names, "/"@);
}

/// A job that is begun runs to its end: it is finished with the result that it is given.
pub proof fn law_begun_jobs_finish(
    s: JobsModel,
    owner: Seq<char>,
    executor: Seq<char>,
    input: Seq<char>,
    result: Result<Seq<char>, Seq<char>>,
)
    requires
        sound_jobs(s),
        begun(s, owner, executor, input).1 is Some,
    ensures
        ({
            let (running, job) = begun(s, owner, executor, input);
            finish_in(running, job->0.id, result).1 == Some(
                finished(JobModel { state: JobState::Running, ..job->0 }, result),
            )
        }),
{
    let (after, job) = try_start_in(s, owner, executor, input, MAX_JOBS_PER_SESSION as nat);
    let job = job->0;
    let last = after.jobs.len() - 1;
    let roomy = if owned_count(s, owner) >= MAX_JOBS_PER_SESSION {
        let index = oldest_finished(s.jobs, owner, 0)->0;
        lemma_oldest_finished(s.jobs, owner, 0);
        lemma_removed_jobs(s, index);
        JobsModel { jobs: s.jobs.remove(index), ..s }
    } else {
        s
    };
    law_started_jobs_have_new_ids(roomy, owner, executor, input);
    assert(after == start_in(roomy, owner, executor, input).0);
    lemma_find_last(after.jobs, job.id, true, 0);
    let running = run_in(after, job.id).0;
    assert forall|i: int| 0 <= i < last implies (#[trigger] running.jobs[i]).id != job.id by {
        assert(running.jobs[i] == roomy.jobs[i]);
    }
    lemma_find_last(running.jobs, job.id, false, 0);
}

/// An id that only the last job has is found there.
proof fn lemma_find_last(jobs: Seq<JobModel>, id: Seq<char>, queued: bool, index: int)
    requires
        0 <= index < jobs.len(),
        jobs.last().id == id,
        queued ==> jobs.last().state == JobState::Queued,
        forall|i: int| 0 <= i < jobs.len() - 1 ==> (#[trigger] jobs[i]).id != id,
    ensures
        find_job(jobs, id, queued, index) == Some(jobs.len() - 1),
    decreases jobs.len() - index,
{
    if index < jobs.len() - 1 {
        lemma_find_last(jobs, id, queued, index + 1);
    }
}

/// An upload that is stored is read back byte for byte under its name in the directory of uploads,
/// and no other file changes. More than a megabyte is refused, and what is refused changes nothing
/// but for that directory.
pub proof fn law_uploads_are_read_back(fs: FsState, name: Seq<char>, bytes: Seq<u8>, other: Seq<char>)
    requires
        sound_fs(fs),
    ensures
        ({
            let (after, outcome) = uploaded(fs, name, bytes);
            &&& sound_fs(after)
            &&& bytes.len() > 1_048_576 ==> outcome is Err && after == fs
            &&& outcome matches Ok((path, size)) ==> {
                &&& path == "/workspace/uploads/"@ + name
                &&& size == bytes.len()
                &&& file_at(after, path) == Ok::<Seq<u8>, Trouble>(bytes)
            }
            &&& file_at(fs, other) is Ok && normalize(other, "/"@) != normalize(
                "/workspace/uploads/"@ + name,
                "/"@,
            ) ==> file_at(after, other) == file_at(fs, other)
            &&& outcome is Err && file_at(fs, other) is Ok ==> file_at(after, other) == file_at(
                fs,
                other,
            )
        }),
{
    let made = mkdir_at(fs, UPLOADS@, true).0;
    lemma_uploads_directory(fs, other);
    if let Ok(path) = upload_path_of(name) {
        law_write_then_read(made, path, bytes, path);
        law_write_then_read(made, path, bytes, other);
    }
}

proof fn lemma_uploads_directory(fs: FsState, other: Seq<char>)
    requires
        sound_fs(fs),
    ensures
        sound_fs(mkdir_at(fs, UPLOADS@, true).0),
        file_at(fs, other) is Ok ==> file_at(mkdir_at(fs, UPLOADS@, true).0, other) == file_at(
            fs,
            other,
        ),
{
    if let Ok(names) = normalize(UPLOADS@, "/"@) {
        reveal_strlit("/");
        law_normalized_paths_are_proper(UPLOADS@, "/"@);
        law_mkdir_makes_a_directory(fs, names, true, names);
        if let Ok(others) = normalize(other, "/"@) {
            law_mkdir_makes_a_directory(fs, names, true, others);
        }
    }
}

/// The name of an upload is a single name that shows something, of at most 255 bytes, without a slash,
/// a backslash or a control character; and it is neither `.` nor `..`.
pub proof fn law_uploads_have_single_names(name: Seq<char>, i: int)
    ensures
        upload_path_of(name) matches Ok(path) ==> {
            &&& path == "/workspace/uploads/"@ + name
            &&& !all_white(name)
            &&& byte_len(name) <= 255
            &&& name != "."@ && name != ".."@
            &&& 0 <= i < name.len() ==> name[i] != '/' && name[i] != '\\' && name[i] as u32 > 0x1f
        },
        !all_white(name) && byte_len(name) <= 255 && (forall|k: int|
            0 <= k < name.len() ==> ('a' <= #[trigger] name[k] <= 'z' || 'A' <= name[k] <= 'Z' || '0'
                <= name[k] <= '9' || name[k] == '-' || name[k] == '_')) ==> upload_path_of(name) is Ok,
{
    law_blank_texts_are_white(name, ' ');
    if let Ok(path) = upload_path_of(name) {
        if 0 <= i < name.len() {
            if name[i] == '/' {
                assert(name.contains('/'));
            }
            if name[i] == '\\' {
                assert(name.contains('\\'));
            }
            if name[i] as u32 <= 0x1f {
                assert(control(name[i]));
                assert(holds_control(name));
            }
        }
    }
    if forall|k: int|
        0 <= k < name.len() ==> ('a' <= #[trigger] name[k] <= 'z' || 'A' <= name[k] <= 'Z' || '0'
            <= name[k] <= '9' || name[k] == '-' || name[k] == '_') {
        reveal_strlit(".");
        reveal_strlit("..");
        if name == "."@ || name == ".."@ {
            assert(name[0] == '.');
        }
        assert forall|k: int| 0 <= k < name.len() implies name[k] != '/' && name[k] != '\\'
            && !control(#[trigger] name[k]) by {}
    }
}

/// The listing of uploads shows every file among them with its path and its size, and nothing else.
pub proof fn law_uploads_are_listed(entries: Seq<Listed>, n: int, path: Seq<char>, size: nat)
    requires
        0 <= n <= entries.len(),
    ensures
        guest_files(entries, n).contains((path, size)) <==> exists|i: int|
            0 <= i < n && (#[trigger] entries[i]).kind == EntryKind::File && entries[i].size == size
                && path == "/workspace/uploads/"@ + entries[i].name,
    decreases n,
{
    if n > 0 {
        law_uploads_are_listed(entries, n - 1, path, size);
        let before = guest_files(entries, n - 1);
        let all = guest_files(entries, n);
        let last = ("/workspace/uploads/"@ + entries[n - 1].name, entries[n - 1].size);
        if entries[n - 1].kind == EntryKind::File {
            assert(all.last() == last);
            if before.contains((path, size)) {
                let k = choose|k: int| 0 <= k < before.len() && before[k] == (path, size);
                assert(all[k] == (path, size));
            }
            if all.contains((path, size)) {
                let k = choose|k: int| 0 <= k < all.len() && all[k] == (path, size);
                if k < before.len() {
                    assert(before[k] == (path, size));
                } else {
                    assert(entries[n - 1].size == size);
                }
            }
            if last == (path, size) {
                assert(all[all.len() - 1] == (path, size));
            }
        }
        if exists|i: int|
            0 <= i < n && (#[trigger] entries[i]).kind == EntryKind::File && entries[i].size == size
                && path == "/workspace/uploads/"@ + entries[i].name {
            let i = choose|i: int|
                0 <= i < n && (#[trigger] entries[i]).kind == EntryKind::File && entries[i].size
                    == size && path == "/workspace/uploads/"@ + entries[i].name;
            if i < n - 1 {
                assert(entries[i].kind == EntryKind::File);
            }
        }
    }
}

/// A prompt shows something and has at most 8192 characters.
pub proof fn law_prompts_are_bounded(prompt: &str, r: Result<(), Refusal>)
    requires
        call_ensures(check_prompt, (prompt,), r),
    ensures
        r is Ok <==> !all_white(prompt@) && prompt@.len() <= 8192,
        r matches Err(refusal) ==> refusal.status == 400,
{
    law_blank_texts_are_white(prompt@, ' ');
}

/// A job that is served ends with the result of its work: it has succeeded with the path of the
/// output, or failed with the error, which is what is answered.
pub proof fn law_served_jobs_end_with_their_result(
    s: JobsModel,
    owner: Seq<char>,
    executor: Seq<char>,
    input: Seq<char>,
    result: Result<Seq<char>, Seq<char>>,
)
    requires
        sound_jobs(s),
    ensures
        ({
            let (after, done) = served(s, owner, executor, input, result);
            let started = begun(s, owner, executor, input).1;
            &&& started is None ==> done is Err && after == s
            &&& started is Some ==> match result {
                Ok(path) => done matches Ok(job) && job.state == JobState::Succeeded
                    && job.output_path == Some(path) && job.owner == owner && job.executor
                    == executor && job.input_path == input && job.error is None,
                Err(message) => done == Err::<JobModel, (u16, Seq<char>)>((400, message)),
            }
        }),
{
    if begun(s, owner, executor, input).1 is Some {
        law_begun_jobs_finish(s, owner, executor, input, result);
    } else {
        lemma_nothing_is_begun(s, owner, executor, input);
    }
}

proof fn lemma_nothing_is_begun(s: JobsModel, owner: Seq<char>, executor: Seq<char>, input: Seq<char>)
    requires
        begun(s, owner, executor, input).1 is None,
    ensures
        begun(s, owner, executor, input).0 == s,
{
}

/// Where the server listens and how it is reached: a port that can be read, else 8080; an origin that
/// was given, else this machine; and cookies that are kept to secure connections where that was
/// asked for, or else where the origin is secure.
pub proof fn law_servers_are_configured(
    port: u16,
    origin: Seq<char>,
    rest: Seq<char>,
    word: Seq<char>,
    text: Seq<char>,
)
    ensures
        port_of(None) == 8080,
        port_of(Some(decimal(port as nat))) == port,
        parse_natural(text, 65535) is None ==> port_of(Some(text)) == 8080,
        !all_white(origin) ==> origin_of(Some(origin), port as nat) == origin,
        all_white(origin) ==> origin_of(Some(origin), port as nat) == origin_of(None, port as nat),
        ends(origin_of(None, port as nat), ":"@ + decimal(port as nat)),
        !secure_of(None, origin_of(None, port as nat)),
        secure_of(None, "https://"@ + rest),
        !secure_of(None, "http://"@ + rest),
        trim(word) == "true"@ || trim(word) == "yes"@ || trim(word) == "1"@ ==> secure_of(
            Some(word),
            origin,
        ),
        trim(word) == "false"@ || trim(word) == "no"@ || trim(word) == "0"@ || all_white(word)
            ==> !secure_of(Some(word), origin),
{
    law_decimal_reads_back(port as nat, 65535);
    law_blank_texts_are_white(origin, ' ');
    law_blank_texts_are_white(word, ' ');
    reveal_strlit("http://127.0.0.1:");
    reveal_strlit(":");
    reveal_strlit("https://");
    reveal_strlit("http://");
    reveal_strlit("1");
    reveal_strlit("0");
    reveal_strlit("true");
    reveal_strlit("TRUE");
    reveal_strlit("yes");
    reveal_strlit("YES");
    reveal_strlit("no");
    reveal_strlit("false");
    let usual = origin_of(None, port as nat);
    let last = ":"@ + decimal(port as nat);
    assert(usual.skip(usual.len() - last.len()) =~= last);
    assert(usual[4] == ':' && "https://"@[4] == 's');
    if begins(usual, "https://"@) {
        assert(usual.take(8)[4] == usual[4]);
    }
    let safe = "https://"@ + rest;
    assert(safe.take(8) =~= "https://"@);
    let open = "http://"@ + rest;
    assert(open[4] == ':');
    if begins(open, "https://"@) {
        assert(open.take(8)[4] == open[4]);
    }
    assert("false"@.len() == 5 && "no"@.len() == 2 && "0"@[0] == '0' && "1"@[0] == '1' && "1"@.len()
        == 1 && "true"@.len() == 4 && "TRUE"@.len() == 4 && "yes"@.len() == 3 && "YES"@.len() == 3);
}

/// What an operation of an app does: `read` changes nothing, what needs a text or a file is refused
/// without it, and an operation that the app does not have is refused.
pub proof fn law_operations_of_apps(
    fs: FsState,
    request: OperationModel,
    reading: ReadingModel,
    text: Seq<char>,
)
    ensures
        docs_operated(fs, "read"@, request) == (fs, as_document(document_in(fs))),
        request.text == Some(text) ==> docs_operated(fs, "append"@, request).0 == append_in(
            fs,
            text,
        ).0 && docs_operated(fs, "append"@, request).1 == as_document(append_in(fs, text).1),
        request.text is None ==> docs_operated(fs, "append"@, request).1 is Err && docs_operated(
            fs,
            "append"@,
            request,
        ).0 == fs && docs_operated(fs, "replace"@, request).1 is Err && docs_operated(
            fs,
            "replace"@,
            request,
        ).0 == fs && sheets_operated(fs, "import"@, request, reading).1 is Err && sheets_operated(
            fs,
            "import"@,
            request,
            reading,
        ).0 == fs,
        request.format is None ==> sheets_operated(fs, "import"@, request, reading).1 is Err,
        request.text == Some(text) && request.format is Some ==> sheets_operated(
            fs,
            "import"@,
            request,
            reading,
        ).0 == import_in(fs, text, request.format->0).0,
        request.file is None ==> docs_operated(fs, "open_upload"@, request).1 is Err
            && sheets_operated(fs, "open_upload"@, request, reading).1 is Err,
        docs_operated(fs, "import"@, request).1 is Err && docs_operated(fs, "import"@, request).0
            == fs,
        sheets_operated(fs, "append"@, request, reading).1 is Err && sheets_operated(
            fs,
            "append"@,
            request,
            reading,
        ).0 == fs,
{
    reveal_strlit("open_upload");
    reveal_strlit("open");
    reveal_strlit("read");
    reveal_strlit("replace");
    reveal_strlit("append");
    reveal_strlit("import");
    assert("open_upload"@.len() == 11 && "open"@.len() == 4 && "read"@.len() == 4
        && "replace"@.len() == 7 && "append"@.len() == 6 && "import"@.len() == 6);
    assert("open"@[0] == 'o' && "read"@[0] == 'r' && "append"@[0] == 'a' && "import"@[0] == 'i');
}

/// A served operation is a job of its owner: it is refused where nothing was asked for or the owner
/// has too many jobs, and otherwise ends as the operation did, with the file that it wrote.
pub proof fn law_operations_are_jobs(
    s: JobsModel,
    fs: FsState,
    owner: Seq<char>,
    request: OperationModel,
    reading: ReadingModel,
    path: Seq<char>,
)
    requires
        sound_jobs(s),
    ensures
        ({
            let (jobs, after, done) = operation_served(s, fs, owner, request, reading);
            &&& all_white(request.operation) ==> done is Err && jobs == s && after == fs
            &&& done matches Ok((job, output)) ==> operated(fs, request, reading).1 == Ok::<
                OutputModel,
                Seq<char>,
            >(output) && after == operated(fs, request, reading).0 && job.owner == owner
                && job.state == JobState::Succeeded && job.output_path == Some(output_path(output))
            &&& operated(fs, request, reading).1 is Err ==> done is Err
        }),
        ({
            let (jobs, after, done) = tabulation_served(s, fs, owner, path);
            &&& all_white(path) ==> done is Err && jobs == s && after == fs
            &&& done matches Ok((job, table)) ==> tabulate(fs, path).1 == Ok::<
                TableModel,
                Seq<char>,
            >(table) && after == tabulate(fs, path).0 && job.owner == owner && job.input_path
                == path && job.output_path == Some(table.output_path)
            &&& tabulate(fs, path).1 is Err ==> done is Err
        }),
        ({
            let (jobs, after, done) = inspection_served(s, fs, owner, path);
            &&& all_white(path) ==> done is Err && jobs == s && after == fs
            &&& done matches Ok((job, pdf)) ==> inspect_pdf(fs, path).1 == Ok::<
                PdfModel,
                Seq<char>,
            >(pdf) && after == inspect_pdf(fs, path).0 && job.owner == owner && job.input_path
                == path && job.output_path == Some(pdf.output_path)
            &&& inspect_pdf(fs, path).1 is Err ==> done is Err
        }),
{
    law_blank_texts_are_white(request.operation, ' ');
    law_blank_texts_are_white(path, ' ');
    let (executor, input) = app_job(request.app);
    let given = match operated(fs, request, reading).1 {
        Ok(output) => Ok(output_path(output)),
        Err(message) => Err(message),
    };
    law_served_jobs_end_with_their_result(s, owner, executor, input, given);
    let tabulated = match tabulate(fs, path).1 {
        Ok(table) => Ok(table.output_path),
        Err(message) => Err(message),
    };
    law_served_jobs_end_with_their_result(s, owner, "builtin.tabulate.v1"@, path, tabulated);
    let inspected = match inspect_pdf(fs, path).1 {
        Ok(pdf) => Ok(pdf.output_path),
        Err(message) => Err(message),
    };
    law_served_jobs_end_with_their_result(s, owner, "builtin.pdf_inspect.v1"@, path, inspected);
}

} // verus!
