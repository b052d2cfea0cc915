//! The rules of the browser host.

use std::cell::RefCell;
use std::io::{Cursor, Write};
use std::rc::Rc;

use a_rust_vm::agent::PermissionDecision;
use a_rust_vm::anon_session::{
    check_origin, cookie_header, extract_sid, generate_sid, is_valid_sid_format,
};
use a_rust_vm::anon_store::{
    AnonStore, MAX_GLOBAL_SESSIONS, SESSION_TTL_NANOS, SessionData,
};
use a_rust_vm::apps::AppId;
use a_rust_vm::http::{
    Admission, AgentRefusal, RateWindow, Route, admit_event, append_security_headers, consider,
    error_body, parse_head, release, reserve, response_head, route, sanitize_error, start_agent,
    take_header_line, wasm_candidates,
};
use a_rust_vm::format_readers::{WorkbookReading, read_spreadsheet};
use a_rust_vm::jobs::JobStore;
use a_rust_vm::ordered::OrderedMap;
use a_rust_vm::runtime::VmInstance;
use a_rust_vm::server::{
    AGENT_TTL_STEP_LIMIT, AppOperationRequest, AppOutput, ApprovalReply, ApprovalStore, HostSettings,
    HostVariables,
    MAX_FILES_PER_SESSION, MAX_JOBS_PER_SESSION, MAX_PROMPT_CHARS, MAX_UPLOAD_BYTES, cancel_agent,
    check_prompt, decide_approval, guest_system_prompt, guest_upload_path, handle_app_operation,
    handle_tabulate, import_uploaded_document, import_uploaded_sheet, list_uploads, store_upload,
    upload_for_host,
    system_info_payload,
};
use zip::{ZipWriter, write::SimpleFileOptions};

/// Bytes that differ from call to call.
fn random(seed: &mut u8) -> Option<[u8; 32]> {
    *seed += 1;
    Some([*seed; 32])
}

fn archive(entries: &[(&str, &str)]) -> Vec<u8> {
    let mut writer = ZipWriter::new(Cursor::new(Vec::new()));
    for (name, content) in entries {
        writer
            .start_file(*name, SimpleFileOptions::default())
            .unwrap();
        writer.write_all(content.as_bytes()).unwrap();
    }
    writer.finish().unwrap().into_inner()
}

#[test]
fn approval_store_releases_a_waiting_agent() {
    let mut store = ApprovalStore::default();
    assert_eq!(store.wait("permission-1", false), None);
    store
        .resolve("permission-1".to_owned(), ApprovalReply::Allow)
        .unwrap();
    assert_eq!(
        store.look("permission-1", false),
        Some(PermissionDecision::Allow)
    );
    assert!(!store.knows("permission-1"));
}

#[test]
fn approval_store_accepts_a_decision_that_races_registration() {
    let mut store = ApprovalStore::default();
    store
        .resolve("permission-2".to_owned(), ApprovalReply::Deny)
        .unwrap();
    assert_eq!(
        store.wait("permission-2", false),
        Some(PermissionDecision::Deny {
            reason: "approval denied in browser".to_owned()
        })
    );
}

#[test]
fn approval_store_releases_a_waiting_agent_when_cancelled() {
    let mut store = ApprovalStore::default();
    assert_eq!(store.wait("permission-cancel", false), None);
    store.cancel_pending();
    assert_eq!(
        store.look("permission-cancel", true),
        Some(PermissionDecision::Deny {
            reason: "approval cancelled".to_owned()
        })
    );
}

#[test]
fn approvals_are_decided_once_and_can_time_out() {
    let mut store = ApprovalStore::default();
    assert_eq!(store.wait("a", false), None);
    assert!(store.resolve("a".to_owned(), ApprovalReply::Allow).is_ok());
    assert!(store.resolve("a".to_owned(), ApprovalReply::Deny).is_err());
    assert_eq!(store.wait("b", false), None);
    assert_eq!(
        store.time_out("b"),
        PermissionDecision::Deny {
            reason: "approval timed out".to_owned()
        }
    );
    assert!(decide_approval(&mut store, "c".to_owned(), "allow").is_ok());
    assert_eq!(
        decide_approval(&mut store, "d".to_owned(), "maybe").unwrap_err().status,
        400
    );
    assert_eq!(cancel_agent(false, &mut store).unwrap_err().status, 409);
    assert!(cancel_agent(true, &mut store).is_ok());
}

#[test]
fn upload_names_are_contained_in_the_guest_upload_directory() {
    assert_eq!(
        guest_upload_path("notes.txt").unwrap(),
        "/workspace/uploads/notes.txt"
    );
    assert!(guest_upload_path("../notes.txt").is_err());
    assert!(guest_upload_path("nested/notes.txt").is_err());
    assert!(guest_upload_path("\\notes.txt").is_err());
}

#[test]
fn guest_prompt_names_uploaded_files_without_exposing_host_paths() {
    let mut vm = VmInstance::new("prompt");
    vm.mkdir("/workspace/uploads", true).unwrap();
    vm.write_file("/workspace/uploads/rag_review.md", &[b'x'; 3])
        .unwrap();
    let prompt = guest_system_prompt(&vm);
    assert!(prompt.contains("/workspace/uploads/rag_review.md (3 bytes)"));
    assert!(!prompt.contains("/home/"));
}

#[test]
fn uploaded_office_files_are_read_outside_the_guest_vm_as_bounded_artifacts() {
    let mut session = SessionData::begin("session");
    let docx = archive(&[(
        "word/document.xml",
        "<w:document><w:body><w:p><w:r><w:t>Imported plan</w:t></w:r></w:p></w:body></w:document>",
    )]);
    let vm = &mut session.vm;
    vm.mkdir("/workspace/uploads", true).unwrap();
    vm.write_file("/workspace/uploads/plan.docx", &docx).unwrap();
    vm.write_file("/workspace/uploads/sales.csv", b"name,amount\nAda,12\n")
        .unwrap();
    let document = import_uploaded_document(vm, "plan.docx").unwrap();
    assert_eq!(document.text, "Imported plan");
    assert_eq!(document.source_name.as_deref(), Some("plan.docx"));
    let sheet = import_uploaded_sheet(vm, "sales.csv", nothing_read()).unwrap();
    assert_eq!(sheet.format, "csv");
    assert_eq!(sheet.columns[1].numeric, 1);
    assert!(import_uploaded_document(vm, "../plan.docx").is_err());
}

#[test]
fn sanitize_error_hides_paths() {
    assert_eq!(
        sanitize_error("failed at /home/user/secret"),
        "request failed"
    );
}

#[test]
fn sid_format_validation() {
    assert!(is_valid_sid_format(&"a".repeat(64)));
    assert!(!is_valid_sid_format("short"));
    assert_eq!(
        extract_sid("arvm_anon=abc; other=1"),
        Some("abc".to_owned())
    );
}

#[test]
fn origin_check_rejects_cross_origin() {
    let mut headers: OrderedMap<String, String> = OrderedMap::new();
    assert!(!check_origin(
        &headers,
        "https://asiliano.online"
    ));
    headers.insert("origin".to_owned(), "https://evil.com".to_owned());
    assert!(!check_origin(
        &headers,
        "https://asiliano.online"
    ));
    headers.insert("origin".to_owned(), "https://asiliano.online".to_owned());
    assert!(check_origin(
        &headers,
        "https://asiliano.online"
    ));
}

#[test]
fn production_cookie_can_be_marked_secure() {
    let secure = cookie_header("a", true);
    let local = cookie_header("a", false);
    assert!(secure.contains("; Secure"));
    assert!(!local.contains("; Secure"));
    assert!(secure.contains("SameSite=Strict"));
}

#[test]
fn anonymous_sessions_are_isolated() {
    let mut seed = 0;
    let mut store: AnonStore<Rc<RefCell<SessionData>>> = AnonStore::new();
    let mut resolve = |store: &mut AnonStore<Rc<RefCell<SessionData>>>, cookie: Option<&str>| {
        match store.recall(cookie, 0) {
            Some(id) => (id, None),
            None => {
                let id = generate_sid(random(&mut seed)).unwrap();
                let session = Rc::new(RefCell::new(SessionData::begin(&id)));
                let cookie = store.start(&id, session, 0);
                (id, Some(cookie))
            }
        }
    };
    let (a, cookie_a) = resolve(&mut store, None);
    let cookie_a = cookie_a.expect("first session should set cookie");
    let sid_a = extract_sid(&cookie_a).unwrap();
    {
        let mut session = store.session(&a).unwrap().borrow_mut();
        session.vm.mkdir("/workspace/uploads", true).unwrap();
        session
            .vm
            .write_file("/workspace/uploads/a.txt", b"secret-a")
            .unwrap();
        let id = session.id.clone();
        session
            .jobs
            .start_tabulation(&id, "/workspace/uploads/a.txt")
            .unwrap();
        session
            .approvals
            .resolve("perm-a".to_owned(), ApprovalReply::Allow)
            .unwrap();
    }

    let (b, cookie_b) = resolve(&mut store, None);
    let cookie_b = cookie_b.expect("second session should set cookie");
    let sid_b = extract_sid(&cookie_b).unwrap();
    assert_ne!(sid_a, sid_b);
    {
        let mut session = store.session(&b).unwrap().borrow_mut();
        assert!(session.vm.read_file("/workspace/uploads/a.txt").is_err());
        assert!(session.jobs.list(&b).is_empty());
        assert!(
            session
                .approvals
                .resolve("perm-a".to_owned(), ApprovalReply::Allow)
                .is_ok()
        );
    }

    let (a2, no_cookie) = resolve(&mut store, Some(&cookie_a));
    assert!(no_cookie.is_none());
    assert_eq!(a2, a);
    assert_eq!(
        store
            .session(&a2)
            .unwrap()
            .borrow()
            .vm
            .read_text("/workspace/uploads/a.txt")
            .unwrap(),
        "secret-a"
    );
}

#[test]
fn tampered_cookie_is_rotated() {
    let mut seed = 0;
    let mut store: AnonStore<SessionData> = AnonStore::new();
    let (a, cookie_a) = store.resolve(None, 0, random(&mut seed)).unwrap();
    let sid_a = extract_sid(&cookie_a.unwrap()).unwrap();
    let tampered = format!("arvm_anon={}x; other=1", &sid_a[..63]);
    let (b, cookie_b) = store
        .resolve(Some(&tampered), 0, random(&mut seed))
        .unwrap();
    assert!(cookie_b.is_some());
    let sid_b = extract_sid(&cookie_b.unwrap()).unwrap();
    assert_ne!(sid_a, sid_b);
    assert_ne!(a, b);
    let (c, none) = store
        .resolve(Some(&format!("arvm_anon={sid_a}")), 0, random(&mut seed))
        .unwrap();
    assert!(none.is_none());
    assert_eq!(c, a);
}

#[test]
fn invalid_sid_formats_are_rotated() {
    let mut seed = 0;
    let mut store: AnonStore<SessionData> = AnonStore::new();
    for bad in [
        "short",
        "",
        "zzzzzzzzzzzzzzzzzzzzzzzzzzzzzzzzzzzzzzzzzzzzzzzzzzzzzzzzzzzzzzzz",
        "a/b..",
    ] {
        let (_s, cookie) = store
            .resolve(Some(&format!("arvm_anon={bad}")), 0, random(&mut seed))
            .unwrap();
        assert!(cookie.is_some(), "bad sid {bad} should rotate");
        let sid = extract_sid(&cookie.unwrap()).unwrap();
        assert!(is_valid_sid_format(&sid));
    }
}

#[test]
fn sessions_expire_and_stay_within_their_bound() {
    let mut seed = 0;
    let mut store: AnonStore<SessionData> = AnonStore::new();
    let (a, cookie) = store.resolve(None, 0, random(&mut seed)).unwrap();
    let cookie = cookie.unwrap();
    let (again, none) = store
        .resolve(Some(&cookie), SESSION_TTL_NANOS, random(&mut seed))
        .unwrap();
    assert_eq!(again, a);
    assert!(none.is_none());
    let (later, renewed) = store
        .resolve(Some(&cookie), 2 * SESSION_TTL_NANOS + 1, random(&mut seed))
        .unwrap();
    assert_ne!(later, a);
    assert!(renewed.is_some());
    assert_eq!(store.len(), 1);
    assert!(store.resolve(None, 0, None).is_err());
    for _ in 0..200 {
        store
            .resolve(None, 2 * SESSION_TTL_NANOS + 1, random(&mut seed))
            .unwrap();
    }
    assert_eq!(store.len(), MAX_GLOBAL_SESSIONS);
    assert_eq!(generate_sid(Some([0xab; 32])), Some("ab".repeat(32)));
    assert_eq!(generate_sid(None), None);
}

#[test]
fn limits_are_enforced() {
    assert_eq!(MAX_PROMPT_CHARS, 8192);
    assert_eq!(MAX_UPLOAD_BYTES, 1024 * 1024);
    assert_eq!(MAX_FILES_PER_SESSION, 32);
    assert_eq!(MAX_JOBS_PER_SESSION, 64);
    assert_eq!(AGENT_TTL_STEP_LIMIT, 8);
    assert_eq!(MAX_GLOBAL_SESSIONS, 128);
}

#[test]
fn security_headers_present() {
    let mut header = String::new();
    append_security_headers(&mut header);
    assert!(header.contains("X-Content-Type-Options: nosniff"));
    assert!(header.contains("X-Frame-Options: DENY"));
    assert!(header.contains("Content-Security-Policy:"));
    assert!(header.contains("img-src 'self' data:"));
    assert!(header.contains("Cross-Origin-Opener-Policy: same-origin"));
}

#[test]
fn system_info_reports_model_configuration_without_secrets() {
    let configured = system_info_payload(true);
    let unavailable = system_info_payload(false);
    assert!(configured.contains(r#""model_gateway":{"configured":true}"#));
    assert!(unavailable.contains(r#""model_gateway":{"configured":false}"#));
    assert!(!configured.contains("OPENROUTER_API_KEY"));
}

#[test]
fn wasm_route_prefers_release_artifact() {
    assert_eq!(
        wasm_candidates(),
        [
            "target/wasm32-unknown-unknown/release/a_rust_vm.wasm",
            "target/wasm32-unknown-unknown/debug/a_rust_vm.wasm"
        ]
    );
}

#[test]
fn heads_are_read_line_by_line() {
    let mut head = Vec::new();
    assert_eq!(
        take_header_line(&mut head, &b"POST /api/agent?x=1 HTTP/1.1\r\n".to_vec()),
        Ok(false)
    );
    assert_eq!(
        take_header_line(&mut head, &b"Content-Length: 12\r\n".to_vec()),
        Ok(false)
    );
    assert_eq!(take_header_line(&mut head, &b"\r\n".to_vec()), Ok(true));
    let head = parse_head(&head).unwrap();
    assert_eq!(head.method, "POST");
    assert_eq!(head.path, "/api/agent");
    assert_eq!(head.content_length, 12);
    assert_eq!(consider(&head, "http://127.0.0.1:8080"), Admission::ForeignOrigin);
    assert!(take_header_line(&mut Vec::new(), &Vec::new()).is_err());
    assert!(parse_head(&b"GET\r\n\r\n".to_vec()).is_err());
    assert!(parse_head(&b"GET / HTTP/1.1\r\ncontent-length: x\r\n\r\n".to_vec()).is_err());
}

#[test]
fn changes_need_an_origin_and_a_session() {
    let sid = "a".repeat(64);
    let with = |lines: &str| parse_head(&format!("POST /api/upload HTTP/1.1\r\n{lines}\r\n").into_bytes()).unwrap();
    let origin = "https://asiliano.online";
    assert_eq!(
        consider(&with("Origin: https://asiliano.online\r\n"), origin),
        Admission::SessionRequired
    );
    assert_eq!(
        consider(
            &with(&format!("Origin: {origin}\r\nCookie: arvm_anon={sid}\r\n")),
            origin
        ),
        Admission::Admitted
    );
    let health = parse_head(&b"GET /healthz HTTP/1.1\r\n\r\n".to_vec()).unwrap();
    assert_eq!(consider(&health, origin), Admission::Health);
    assert_eq!(route("GET", "/web/"), Route::Page);
    assert_eq!(route("POST", "/web/"), Route::Unknown);
}

#[test]
fn rates_and_places_are_limited() {
    let mut window = RateWindow::new(0);
    for _ in 0..60 {
        assert!(!window.hit(1));
    }
    assert!(window.hit(1));
    assert!(!window.hit(60_000_000_001));
    assert_eq!(reserve(1, 2), Some(2));
    assert_eq!(reserve(2, 2), None);
    assert_eq!(release(0), 0);
    assert_eq!(start_agent(true, 0), Err(AgentRefusal::AlreadyRunning));
    assert_eq!(start_agent(false, 32), Err(AgentRefusal::TooMany));
    assert_eq!(start_agent(false, 0), Ok(1));
    assert_eq!(admit_event(10, 5), Some(16));
    assert_eq!(admit_event(256 * 1024 + 1, 0), None);
    assert_eq!(admit_event(10, 2 * 1024 * 1024), None);
}

#[test]
fn responses_carry_their_length_and_no_host_paths() {
    let head = response_head(200, "text/plain", 3, Some("arvm_anon=x"));
    assert!(head.starts_with("HTTP/1.1 200 OK\r\n"));
    assert!(head.contains("Content-Length: 3\r\n"));
    assert!(head.contains("Set-Cookie: arvm_anon=x\r\n"));
    assert!(head.ends_with("\r\n\r\n"));
    assert_eq!(error_body("bad"), r#"{"error":"bad"}"#);
    assert_eq!(error_body("at /home/user"), r#"{"error":"request failed"}"#);
}

#[test]
fn uploads_are_stored_and_listed() {
    let mut vm = VmInstance::new("uploads");
    let file = store_upload(&mut vm, "notes.txt", &b"hello".to_vec()).unwrap();
    assert_eq!(file.path, "/workspace/uploads/notes.txt");
    assert_eq!(file.bytes, 5);
    assert_eq!(list_uploads(&vm), vec![file]);
    assert_eq!(
        store_upload(&mut vm, "../notes.txt", &b"hello".to_vec())
            .unwrap_err()
            .status,
        400
    );
    assert_eq!(
        store_upload(&mut vm, "big.txt", &vec![0; MAX_UPLOAD_BYTES + 1])
            .unwrap_err()
            .message,
        "upload exceeds limit"
    );
    for i in 0..40 {
        let _ = store_upload(&mut vm, &format!("{i}.txt"), &b"x".to_vec());
    }
    assert_eq!(list_uploads(&vm).len(), MAX_FILES_PER_SESSION);
}

#[test]
fn jobs_of_the_host_finish() {
    let mut vm = VmInstance::new("jobs");
    let mut jobs = JobStore::default();
    store_upload(&mut vm, "sales.csv", &b"name,amount\nAda,12\n".to_vec()).unwrap();
    let response =
        handle_tabulate(&mut jobs, &mut vm, "alice", "/workspace/uploads/sales.csv").unwrap();
    assert_eq!(response.table.rows, 1);
    assert_eq!(jobs.list("alice").len(), 1);
    assert_eq!(
        handle_tabulate(&mut jobs, &mut vm, "alice", " ").unwrap_err().message,
        "path is empty"
    );
    let response = handle_app_operation(
        &mut jobs,
        &mut vm,
        "alice",
        &AppOperationRequest {
            app: AppId::Docs,
            operation: "Replace".to_owned(),
            text: Some("hello".to_owned()),
            format: None,
            file: None,
        },
        nothing_read(),
    )
    .unwrap();
    assert_eq!(response.operation, "replace");
    assert!(matches!(response.output, AppOutput::Document(document) if document.text == "hello"));
    let refusal = handle_app_operation(
        &mut jobs,
        &mut vm,
        "alice",
        &AppOperationRequest {
            app: AppId::Sheets,
            operation: "explode".to_owned(),
            text: None,
            format: None,
            file: None,
        },
        nothing_read(),
    )
    .unwrap_err();
    assert_eq!(refusal.message, "unsupported Sheets operation");
    assert!(check_prompt("hello").is_ok());
    assert_eq!(check_prompt("  ").unwrap_err().message, "prompt is empty");
    assert_eq!(
        check_prompt(&"x".repeat(MAX_PROMPT_CHARS + 1)).unwrap_err().message,
        "prompt exceeds limit"
    );
}

fn nothing_read() -> WorkbookReading {
    WorkbookReading { names: Ok(Vec::new()), cells: Ok(Vec::new()) }
}

#[test]
fn workbooks_are_read_by_the_host() {
    let mut vm = VmInstance::new("workbooks");
    let mut jobs = JobStore::default();
    let mark: Vec<u8> = vec![208, 207, 17, 224, 161, 177, 26, 225, 0, 0];
    store_upload(&mut vm, "old.xls", &mark).unwrap();
    let request = AppOperationRequest {
        app: AppId::Sheets,
        operation: "Open_Upload".to_owned(),
        text: None,
        format: None,
        file: Some("old.xls".to_owned()),
    };
    assert_eq!(upload_for_host(&vm, &request), Some(mark.clone()));
    let refusal =
        handle_app_operation(&mut jobs, &mut vm, "alice", &request, nothing_read()).unwrap_err();
    assert_eq!(
        refusal.message,
        "workbook has no worksheets"
    );
    let reading = WorkbookReading {
        names: Ok(vec!["Data".to_owned()]),
        cells: Ok(vec![
            vec!["name".to_owned(), "amount".to_owned()],
            vec!["Ada".to_owned(), "12".to_owned()],
        ]),
    };
    let response =
        handle_app_operation(&mut jobs, &mut vm, "alice", &request, reading).unwrap();
    assert!(matches!(
        response.output,
        AppOutput::Sheet(sheet) if sheet.rows == 1 && sheet.columns.len() == 2
    ));
    let unnamed = WorkbookReading { names: Ok(Vec::new()), cells: Ok(Vec::new()) };
    assert_eq!(
        read_spreadsheet("old.xls", &mark, unnamed).unwrap_err(),
        "workbook has no worksheets"
    );
    let unreadable = WorkbookReading { names: Err("no marks".to_owned()), cells: Ok(Vec::new()) };
    assert_eq!(
        read_spreadsheet("old.xls", &mark, unreadable).unwrap_err(),
        "unable to read xls workbook: no marks"
    );
    let broken = WorkbookReading {
        names: Ok(vec!["Data".to_owned()]),
        cells: Err("it broke".to_owned()),
    };
    assert_eq!(
        read_spreadsheet("old.xls", &mark, broken).unwrap_err(),
        "unable to read worksheet 'Data': it broke"
    );
    store_upload(&mut vm, "sales.csv", &b"name,amount\nAda,12\n".to_vec()).unwrap();
    let plain = AppOperationRequest { file: Some("sales.csv".to_owned()), ..request };
    assert_eq!(upload_for_host(&vm, &plain), None);
}

#[test]
fn hosts_are_set_up_from_their_variables() {
    let bare = HostSettings::from_env(&HostVariables {
        port: None,
        allowed_origin: None,
        secure_cookies: None,
    });
    assert_eq!(bare.port, 8080);
    assert_eq!(bare.allowed_origin, "http://127.0.0.1:8080");
    assert!(!bare.secure_cookie);
    let set = HostSettings::from_env(&HostVariables {
        port: Some("9000".to_owned()),
        allowed_origin: Some("https://example.com".to_owned()),
        secure_cookies: None,
    });
    assert_eq!(set.port, 9000);
    assert_eq!(set.allowed_origin, "https://example.com");
    assert!(set.secure_cookie);
    let told = HostSettings::from_env(&HostVariables {
        port: Some("65536".to_owned()),
        allowed_origin: Some("  ".to_owned()),
        secure_cookies: Some(" yes ".to_owned()),
    });
    assert_eq!(told.port, 8080);
    assert_eq!(told.allowed_origin, "http://127.0.0.1:8080");
    assert!(told.secure_cookie);
}
