//! The built-in apps.

use a_rust_vm::apps::{
    AppId, DOCS_DOCUMENT_PATH, SHEETS_INPUT_PATH, SHEETS_SUMMARY_PATH, SheetFormat,
    app_descriptors, append_document, import_sheet, open_docs, open_sheets, read_document,
    replace_document,
};
use a_rust_vm::runtime::{ResourceLimits, VmInstance};

#[test]
fn descriptors_expose_only_builtin_apps() {
    let descriptors = app_descriptors();
    assert_eq!(descriptors[0].id, AppId::Docs);
    assert_eq!(descriptors[1].id, AppId::Sheets);
    assert!(!descriptors[0].operations.contains(&"exec"));
}

#[test]
fn docs_are_guest_files_with_bounded_text_operations() {
    let mut vm = VmInstance::new("docs");
    assert_eq!(open_docs(&mut vm).unwrap().path, DOCS_DOCUMENT_PATH);
    replace_document(&mut vm, "A/RVM\n").unwrap();
    let document = append_document(&mut vm, "guest document").unwrap();
    assert_eq!(document.text, "A/RVM\nguest document");
    assert_eq!(read_document(&vm).unwrap().lines, 2);
    assert!(vm.read_text(DOCS_DOCUMENT_PATH).is_ok());
}

#[test]
fn sheets_create_a_json_artifact_from_tsv() {
    let mut vm = VmInstance::new("sheets");
    let summary = import_sheet(&mut vm, "name\tamount\nAda\t12\n", SheetFormat::Tsv).unwrap();
    assert_eq!(summary.rows, 1);
    assert_eq!(summary.columns[1].numeric, 1);
    assert_eq!(
        vm.read_text(SHEETS_INPUT_PATH).unwrap(),
        "name\tamount\nAda\t12\n"
    );
    assert!(
        vm.read_text(SHEETS_SUMMARY_PATH)
            .unwrap()
            .contains("amount")
    );
    assert_eq!(open_sheets(&mut vm).unwrap().rows, 1);
}

#[test]
fn sheets_reject_irregular_rows_and_unsupported_shape() {
    let mut vm = VmInstance::new("bad-sheets");
    assert!(import_sheet(&mut vm, "a,b\n1\n", SheetFormat::Csv).is_err());
    assert!(import_sheet(&mut vm, "only\nvalue\n", SheetFormat::Csv).is_err());
}

#[test]
fn app_operations_report_guest_quota_failures() {
    let limits = ResourceLimits {
        max_bytes: 8,
        ..ResourceLimits::default()
    };
    let mut vm = VmInstance::with_limits("quota", limits).unwrap();
    assert!(replace_document(&mut vm, "more than eight bytes").is_err());
}

#[test]
fn documents_read_back_as_they_were_written() {
    let mut vm = VmInstance::new("docs");
    replace_document(&mut vm, "first").unwrap();
    append_document(&mut vm, " and second").unwrap();
    let document = read_document(&vm).unwrap();
    assert_eq!(document.text, "first and second");
    assert_eq!(document.bytes, 16);
    assert_eq!(document.lines, 1);
    assert_eq!(document.format, "plain_text");
    assert_eq!(document.source_name, None);
}

#[test]
fn sheets_count_numbers_and_refuse_too_many_columns() {
    let mut vm = VmInstance::new("sheets");
    let wide = vec!["a"; 257].join(",") + "\n" + &vec!["1"; 257].join(",") + "\n";
    assert!(import_sheet(&mut vm, &wide, SheetFormat::Csv).is_err());
    let summary = import_sheet(&mut vm, "a,b\n1,x\n-2.5,\n", SheetFormat::Csv).unwrap();
    assert_eq!(summary.rows, 2);
    assert_eq!(summary.columns[0].numeric, 2);
    assert_eq!(summary.columns[1].non_empty, 1);
    assert_eq!(summary.columns[1].numeric, 0);
}

#[test]
fn appending_leaves_other_files_alone() {
    let mut vm = VmInstance::new("append");
    vm.write_file("/workspace/other.txt", b"other").unwrap();
    let document = append_document(&mut vm, "first").unwrap();
    assert_eq!(document.text, "first");
    let document = append_document(&mut vm, " second").unwrap();
    assert_eq!(document.text, "first second");
    assert_eq!(vm.read_text("/workspace/other.txt").unwrap(), "other");
}

#[test]
fn appending_is_bounded_in_bytes() {
    let mut vm = VmInstance::new("bounds");
    open_docs(&mut vm).unwrap();
    let held = "\u{e9}".repeat(262_143);
    replace_document(&mut vm, &held).unwrap();
    let before = read_document(&vm).unwrap();
    assert_eq!(before.bytes, 524_286);
    assert!(append_document(&mut vm, "abc").is_err());
    assert_eq!(vm.read_text(DOCS_DOCUMENT_PATH).unwrap(), held);
    let document = append_document(&mut vm, "\u{e9}").unwrap();
    assert_eq!(document.bytes, 524_288);
    assert_eq!(document.text, vm.read_text(DOCS_DOCUMENT_PATH).unwrap());
    assert_eq!(document.text.chars().count(), 262_144);
    assert!(append_document(&mut vm, "a").is_err());
    assert_eq!(open_docs(&mut vm).unwrap().text, document.text);
}
