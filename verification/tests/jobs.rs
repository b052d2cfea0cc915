//! Jobs and what they make of uploaded files.

use a_rust_vm::jobs::{
    JobRecord, JobState, JobStore, JobStoreSnapshot, MAX_JOB_SNAPSHOT_RECORDS, inspect_uploaded_pdf, tabulate_uploaded_file,
};
use a_rust_vm::runtime::VmInstance;
use a_rust_vm::tables::{CellFlaw, parse_delimited};

#[test]
fn tabulates_csv_into_a_guest_output_artifact() {
    let mut vm = VmInstance::new("tabulation");
    vm.mkdir("/workspace/uploads", true).unwrap();
    vm.write_file(
        "/workspace/uploads/sales.csv",
        b"region,amount\nEast,12\nWest,18\n",
    )
    .unwrap();

    let summary = tabulate_uploaded_file(&mut vm, "/workspace/uploads/sales.csv").unwrap();

    assert_eq!(summary.rows, 2);
    assert_eq!(summary.columns[1].numeric, 2);
    assert_eq!(
        summary.output_path,
        "/workspace/output/sales.csv.table.json"
    );
    assert!(vm.read_text(&summary.output_path).unwrap().contains("East"));
}

#[test]
fn rejects_non_upload_inputs_and_irregular_rows() {
    let mut vm = VmInstance::new("tabulation");
    assert!(tabulate_uploaded_file(&mut vm, "/tmp/nope.csv").is_err());
    vm.mkdir("/workspace/uploads", true).unwrap();
    vm.write_file("/workspace/uploads/bad.csv", b"a,b\n1\n")
        .unwrap();
    assert!(tabulate_uploaded_file(&mut vm, "/workspace/uploads/bad.csv").is_err());
}

#[test]
fn jobs_track_success_and_failure() {
    let mut store = JobStore::default();
    let job = store
        .start_tabulation("local", "/workspace/uploads/a.csv")
        .unwrap();
    store.mark_running(&job.id);
    let completed = store
        .finish(&job.id, Ok("/workspace/output/a.json"))
        .unwrap();
    assert_eq!(completed.state, JobState::Succeeded);
    assert_eq!(store.list("local").len(), 1);
}

#[test]
fn try_start_enforces_the_owner_limit_before_inserting() {
    let mut store = JobStore::default();

    assert!(
        store
            .try_start_tabulation("local", "/workspace/uploads/a.csv", 1)
            .is_some()
    );
    assert!(
        store
            .try_start_pdf_inspection("local", "/workspace/uploads/b.pdf", 1)
            .is_none()
    );
    assert_eq!(store.list("local").len(), 1);
}

#[test]
fn restoring_jobs_fails_in_flight_work_closed() {
    let mut store = JobStore::default();
    let job = store
        .try_start_tabulation("alice", "/workspace/uploads/a.csv", 4)
        .unwrap();
    store.mark_running(&job.id);

    let restored = JobStore::from_snapshot(store.snapshot()).unwrap();
    let jobs = restored.list("alice");
    assert_eq!(jobs.len(), 1);
    let job = &jobs[0];

    assert_eq!(job.state, JobState::Failed);
    assert_eq!(
        job.error.as_deref(),
        Some("job interrupted by service restart")
    );
    assert!(
        JobStore::from_snapshot(JobStoreSnapshot {
            next_id: 1,
            jobs: vec![job.clone(), job.clone()],
        })
        .is_err()
    );
}

#[test]
fn completed_jobs_release_capacity_without_unbounded_history() {
    let mut store = JobStore::default();
    let first = store
        .try_start_tabulation("alice", "/workspace/uploads/a.csv", 2)
        .unwrap();
    assert!(store.mark_running(&first.id));
    assert!(
        store
            .finish(&first.id, Ok("/workspace/output/a.json"))
            .is_some()
    );

    let second = store
        .try_start_pdf_inspection("alice", "/workspace/uploads/b.pdf", 2)
        .unwrap();
    assert!(store.mark_running(&second.id));
    assert!(store.finish(&second.id, Err("bad pdf")).is_some());

    let third = store
        .try_start_tabulation("alice", "/workspace/uploads/c.csv", 2)
        .unwrap();
    assert_eq!(store.list("alice").len(), 2);
    assert!(store.list("alice").iter().all(|job| job.id != first.id));
    assert!(store.list("alice").iter().any(|job| job.id == third.id));
}

#[test]
fn exhausted_job_ids_fail_without_mutating_the_store() {
    let mut store = JobStore::from_snapshot(JobStoreSnapshot {
        next_id: u64::MAX,
        jobs: Vec::new(),
    })
    .unwrap();

    assert!(
        store
            .start_tabulation("alice", "/workspace/uploads/a.csv")
            .is_err()
    );
    assert!(
        store
            .try_start_tabulation("alice", "/workspace/uploads/a.csv", 1)
            .is_none()
    );
    assert!(store.list("alice").is_empty());
}

#[test]
fn restoring_jobs_rejects_unbounded_history() {
    let jobs = (1..=MAX_JOB_SNAPSHOT_RECORDS as u64 + 1)
        .map(|id| JobRecord {
            id: format!("job-{id}"),
            owner: "alice".to_owned(),
            executor: "builtin.tabulate.v1".to_owned(),
            input_path: "/workspace/uploads/input.csv".to_owned(),
            output_path: None,
            state: JobState::Failed,
            error: Some("test".to_owned()),
        })
        .collect();
    assert!(
        JobStore::from_snapshot(JobStoreSnapshot {
            next_id: MAX_JOB_SNAPSHOT_RECORDS as u64 + 1,
            jobs,
        })
        .is_err()
    );
}

#[test]
fn restoring_jobs_fails_when_a_success_output_is_missing() {
    let mut store = JobStore::default();
    let job = store
        .try_start_tabulation("alice", "/workspace/uploads/input.csv", 1)
        .unwrap();
    assert!(store.mark_running(&job.id));
    assert!(
        store
            .finish(&job.id, Ok("/workspace/output/missing.json"))
            .is_some()
    );

    let mut restored = JobStore::from_snapshot(store.snapshot()).unwrap();
    restored.reconcile_output_paths(&VmInstance::new("session"));

    let job = &restored.list("alice")[0];
    assert_eq!(job.state, JobState::Failed);
    assert_eq!(job.output_path, None);
    assert_eq!(
        job.error.as_deref(),
        Some("job output missing after service restart")
    );
}

#[test]
fn inspects_a_pdf_without_parsing_its_content_streams() {
    let mut vm = VmInstance::new("pdf");
    vm.mkdir("/workspace/uploads", true).unwrap();
    vm.write_file(
        "/workspace/uploads/guide.pdf",
        b"%PDF-1.7\n1 0 obj << /Type /Page >> endobj\n2 0 obj << /Type /Pages >> endobj",
    )
    .unwrap();

    let summary = inspect_uploaded_pdf(&mut vm, "/workspace/uploads/guide.pdf").unwrap();

    assert_eq!(summary.version, "1.7");
    assert_eq!(summary.page_objects_estimate, 1);
    assert!(
        vm.read_text(&summary.output_path)
            .unwrap()
            .contains("guide.pdf")
    );
}

#[test]
fn rejects_a_non_pdf_upload() {
    let mut vm = VmInstance::new("pdf");
    vm.mkdir("/workspace/uploads", true).unwrap();
    vm.write_file("/workspace/uploads/notes.txt", b"not a PDF")
        .unwrap();
    assert!(inspect_uploaded_pdf(&mut vm, "/workspace/uploads/notes.txt").is_err());
}

#[test]
fn tabulated_files_are_kept_as_json() {
    let mut vm = VmInstance::new("tabulation");
    vm.mkdir("/workspace/uploads", true).unwrap();
    vm.write_file("/workspace/uploads/quoted.csv", b"name,note\n\"a,b\",\"say \"\"hi\"\"\"\n")
        .unwrap();
    let summary = tabulate_uploaded_file(&mut vm, "/workspace/uploads/quoted.csv").unwrap();
    assert_eq!(summary.delimiter, "csv");
    assert_eq!(summary.preview, vec![vec!["a,b".to_owned(), "say \"hi\"".to_owned()]]);
    let kept = vm.read_text(&summary.output_path).unwrap();
    assert!(kept.starts_with("{\n  \"source_path\": \"/workspace/uploads/quoted.csv\""));
    assert!(kept.contains("say \\\"hi\\\""));
}

#[test]
fn quoted_tables_read_back() {
    let rows = vec![
        vec!["a,\"b\"".to_owned(), "line\nend".to_owned(), String::new()],
        vec!["plain".to_owned(), "\"".to_owned(), "\r\n".to_owned()],
    ];
    let lines: Vec<String> = rows
        .iter()
        .map(|row| {
            let cells: Vec<String> =
                row.iter().map(|cell| format!("\"{}\"", cell.replace('"', "\"\""))).collect();
            cells.join(",")
        })
        .collect();
    for between in ["\n", "\r\n", "\n\n", "\r\n\n\r\n"] {
        for end in ["", "\n", "\r\n", "\n\r\n"] {
            let text = lines.join(between) + end;
            assert_eq!(parse_delimited(&text, ','), Ok(rows.clone()));
        }
        let whole = lines.join(between);
        assert_eq!(
            parse_delimited(&whole[..whole.len() - 1], ','),
            Err(CellFlaw::Unterminated)
        );
    }
}
