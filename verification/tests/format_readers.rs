//! Documents and spreadsheets of other programs.

use std::io::{Cursor, Write};

use calamine::Reader;
use zip::{ZipWriter, write::SimpleFileOptions};

use a_rust_vm::format_readers::{
    WorkbookReading, bounded_archive, extension, is_read_by_host, read_document, read_spreadsheet,
};

fn reading(bytes: &[u8]) -> WorkbookReading {
    let mut workbook = match calamine::open_workbook_auto_from_rs(Cursor::new(bytes)) {
        Ok(workbook) => workbook,
        Err(error) => {
            return WorkbookReading { names: Err(error.to_string()), cells: Ok(Vec::new()) };
        }
    };
    let names = workbook.sheet_names();
    let cells = workbook
        .worksheet_range(&names[0])
        .map(|range| {
            range
                .rows()
                .map(|row| row.iter().map(ToString::to_string).collect())
                .collect()
        })
        .map_err(|error| error.to_string());
    WorkbookReading { names: Ok(names), cells }
}

fn nothing_read() -> WorkbookReading {
    WorkbookReading { names: Ok(Vec::new()), cells: Ok(Vec::new()) }
}

fn archive(entries: &[(&str, &str)]) -> Vec<u8> {
    let mut writer = ZipWriter::new(Cursor::new(Vec::new()));
    for (name, content) in entries {
        writer
            .start_file(*name, SimpleFileOptions::default())
            .unwrap();
        writer.write_all(content.as_bytes()).unwrap();
    }
    writer.finish().unwrap().into_inner()
}

#[test]
fn reads_visible_docx_text_and_ignores_macro_payloads() {
    let bytes = archive(&[
        (
            "word/document.xml",
            r#"<w:document><w:body><w:p><w:r><w:t>Hello &amp; welcome</w:t></w:r></w:p><w:p><w:r><w:t>Guest VM</w:t></w:r></w:p></w:body></w:document>"#,
        ),
        ("word/vbaProject.bin", "inert macro bytes"),
    ]);
    let document = read_document("notes.docm", &bytes).unwrap();
    assert_eq!(document.format, "docx");
    assert_eq!(document.text, "Hello & welcome\nGuest VM");
    assert!(document.warnings[0].contains("ignored"));
}

#[test]
fn reads_odt_and_rtf_as_text_without_interpreting_objects() {
    let odt = archive(&[(
        "content.xml",
        r#"<office:document-content><office:body><office:text><text:p>Open <text:span>document</text:span></text:p><text:p>Guest VM</text:p></office:text></office:body></office:document-content>"#,
    )]);
    assert_eq!(
        read_document("notes.odt", &odt).unwrap().text,
        "Open document\nGuest VM"
    );
    assert_eq!(
        read_document("notes.rtf", br#"{\rtf1 Hello\par Guest\tab VM}"#)
            .unwrap()
            .text,
        "Hello\nGuest\tVM"
    );
}

#[test]
fn reads_ods_and_excel_family_workbooks_as_values_not_execution() {
    let bytes = archive(&[
        (
            "[Content_Types].xml",
            r#"<Types xmlns="http://schemas.openxmlformats.org/package/2006/content-types"><Default Extension="rels" ContentType="application/vnd.openxmlformats-package.relationships+xml"/><Default Extension="xml" ContentType="application/xml"/><Override PartName="/xl/workbook.xml" ContentType="application/vnd.openxmlformats-officedocument.spreadsheetml.sheet.main+xml"/><Override PartName="/xl/worksheets/sheet1.xml" ContentType="application/vnd.openxmlformats-officedocument.spreadsheetml.worksheet+xml"/></Types>"#,
        ),
        (
            "_rels/.rels",
            r#"<Relationships xmlns="http://schemas.openxmlformats.org/package/2006/relationships"><Relationship Id="rId1" Type="http://schemas.openxmlformats.org/officeDocument/2006/relationships/officeDocument" Target="xl/workbook.xml"/></Relationships>"#,
        ),
        (
            "xl/workbook.xml",
            r#"<workbook xmlns="http://schemas.openxmlformats.org/spreadsheetml/2006/main" xmlns:r="http://schemas.openxmlformats.org/officeDocument/2006/relationships"><sheets><sheet name="Sheet1" sheetId="1" r:id="rId1"/></sheets></workbook>"#,
        ),
        (
            "xl/_rels/workbook.xml.rels",
            r#"<Relationships xmlns="http://schemas.openxmlformats.org/package/2006/relationships"><Relationship Id="rId1" Type="http://schemas.openxmlformats.org/officeDocument/2006/relationships/worksheet" Target="worksheets/sheet1.xml"/></Relationships>"#,
        ),
        (
            "xl/worksheets/sheet1.xml",
            r#"<worksheet xmlns="http://schemas.openxmlformats.org/spreadsheetml/2006/main"><sheetData><row r="1"><c r="A1" t="inlineStr"><is><t>name</t></is></c><c r="B1" t="inlineStr"><is><t>amount</t></is></c></row><row r="2"><c r="A2" t="inlineStr"><is><t>Ada</t></is></c><c r="B2"><v>12</v></c></row></sheetData></worksheet>"#,
        ),
    ]);
    let sheet = read_spreadsheet("sales.xlsx", &bytes, reading(&bytes)).unwrap();
    assert_eq!(sheet.format, "xlsx");
    assert_eq!(sheet.sheet_name, "Sheet1");
    assert_eq!(sheet.headers, vec!["name", "amount"]);
    assert_eq!(sheet.rows, vec![vec!["Ada", "12"]]);
}

#[test]
fn rejects_unsafe_archive_paths_and_legacy_doc_without_a_parser() {
    let bytes = archive(&[
        ("../outside", "nope"),
        ("word/document.xml", "<w:document/>"),
    ]);
    assert!(read_document("unsafe.docx", &bytes).is_err());
    assert!(read_document("legacy.doc", b"not a CFB document").is_err());
}

#[test]
fn reads_csv_and_refuses_unknown_formats() {
    let sheet = read_spreadsheet("sales.csv", b"name,amount\nAda,12\n", nothing_read()).unwrap();
    assert_eq!(sheet.format, "csv");
    assert_eq!(sheet.rows, vec![vec!["Ada", "12"]]);
    assert!(read_spreadsheet("sales.bin", b"name,amount\nAda,12\n", nothing_read()).is_err());
    assert!(read_document("sales.bin", b"text").is_err());
    assert!(is_read_by_host("broken.xlsx", b"not a workbook"));
    assert!(!is_read_by_host("sales.csv", b"name,amount\nAda,12\n"));
    let broken = reading(b"not a workbook");
    assert!(
        read_spreadsheet("broken.xlsx", b"not a workbook", broken)
            .unwrap_err()
            .starts_with("unable to read xlsx workbook: ")
    );
    assert_eq!(extension("Notes.DOCX"), Ok("docx".to_owned()));
    assert!(extension("notes").is_err());
}

#[test]
fn archives_are_bounded() {
    assert_eq!(bounded_archive(&archive(&[("a.txt", "hello")])), Ok(()));
    assert!(bounded_archive(b"no archive").is_err());
    let large = "a".repeat(2 * 1024 * 1024 + 1);
    assert!(bounded_archive(&archive(&[("a.txt", &large)])).is_err());
    let names = (0..257).map(|i| format!("{i}.txt")).collect::<Vec<_>>();
    let many = names.iter().map(|name| (name.as_str(), "x")).collect::<Vec<_>>();
    assert!(bounded_archive(&archive(&many)).is_err());
}
