//! The executors of jobs: table summaries and PDF metadata, each kept as a JSON artifact.

use vstd::prelude::*;

#[allow(unused_imports)]
use crate::filesystem::{
    FsState, file_at, law_mkdir_makes_a_directory, law_normalized_paths_are_proper,
    law_write_then_read, mkdir_at, normalize, seen, sound_fs, text_at, write_at,
};
use crate::json::{field, laid_out, quoted, write_object};
#[allow(unused_imports)]
use crate::json::{field_models, json_layout, json_string, object_text};
use crate::runtime::VmInstance;
#[allow(unused_imports)]
use crate::runtime::{InstanceState, with_fs};
use crate::runtime_error::labelled;
#[allow(unused_imports)]
use crate::runtime_error::{Trouble, trouble_text};
use crate::tables::ColumnSummary;
#[allow(unused_imports)]
use crate::tables::{
    CellFlaw, ColumnModel, Rows, column_models, columns_json, distinct, first_irregular,
    first_shown, flaw_text, irregular_text, law_irregular_rows_are_found, occurrences, parse_table,
    preview_rows, rectangular,
    row_models, rows_json, summarize_columns,
};
use crate::tables::{
    are_distinct, check_widths, columns_of, count_char, first_shown_line, flaw_message, has_blank,
    parse_delimited, preview, write_columns, write_rows,
};
#[allow(unused_imports)]
use crate::text::{all_white, begins, blank, decimal, lacks, law_blank_texts_are_white, lines_of, texts};
use crate::text::{contains_char, size_text, strip_prefix};

verus! {

pub const MAX_TABLE_ROWS: usize = 50_000;

pub const MAX_TABLE_COLUMNS: usize = 256;

pub const PREVIEW_ROWS: usize = 10;

// ---------------------------------------------------------------------------
// Artifacts
// ---------------------------------------------------------------------------

/// Keeps an encoded artifact in a guest file, in a directory that is made for it: the filesystem
/// after it, and the message when it fails. `what` names the artifact where the encoding failed.
pub open spec fn keep_artifact(
    fs: FsState,
    directory: Seq<char>,
    path: Seq<char>,
    encoded: Result<Seq<u8>, Seq<char>>,
    what: Seq<char>,
) -> (FsState, Option<Seq<char>>) {
    match encoded {
        Err(message) => (fs, Some("failed to encode "@ + what + ": "@ + message)),
        Ok(bytes) => {
            let (made, outcome) = mkdir_at(fs, directory, true);
            match outcome {
                Err(trouble) => (made, Some(trouble_text(trouble))),
                Ok(_) => {
                    let (written, outcome) = write_at(made, path, bytes);
                    match outcome {
                        Err(trouble) => (written, Some(trouble_text(trouble))),
                        Ok(_) => (written, None),
                    }
                },
            }
        },
    }
}

/// An artifact that is kept can be read back: its file holds the encoded bytes.
#[verifier::rlimit(40)]
pub proof fn law_kept_artifacts_read_back(
    fs: FsState,
    directory: Seq<char>,
    path: Seq<char>,
    bytes: Seq<u8>,
    what: Seq<char>,
)
    requires
        sound_fs(fs),
    ensures
        ({
            let (after, failure) = keep_artifact(fs, directory, path, Ok(bytes), what);
            &&& sound_fs(after)
            &&& failure is None ==> file_at(after, path) == Ok::<Seq<u8>, Trouble>(bytes)
        }),
{
    if let Ok(names) = normalize(directory, "/"@) {
        reveal_strlit("/");
        law_normalized_paths_are_proper(directory, "/"@);
        law_mkdir_makes_a_directory(fs, names, true, names);
    }
    law_write_then_read(mkdir_at(fs, directory, true).0, path, bytes, path);
}

/// What an encoder returned, as a model.
pub open spec fn encoding(r: Result<Vec<u8>, String>) -> Result<Seq<u8>, Seq<char>> {
    match r {
        Ok(bytes) => Ok(bytes@),
        Err(message) => Err(message@),
    }
}

/// The message for an encoding that failed.
pub fn encode_failure(what: &str, message: &str) -> (r: String)
    ensures
        r@ == "failed to encode "@ + what@ + ": "@ + message@,
{
    let mut r = "failed to encode ".to_owned();
    r.push_str(what);
    r.push_str(": ");
    r.push_str(message);
    r
}

/// Keeps an encoded artifact in a guest file, in a directory that is made for it.
pub fn store_artifact(
    vm: &mut VmInstance,
    directory: &str,
    path: &str,
    encoded: Result<Vec<u8>, String>,
    what: &str,
) -> (r: Result<(), String>)
    ensures
        final(vm)@ == with_fs(
            old(vm)@,
            keep_artifact(old(vm)@.fs, directory@, path@, encoding(encoded), what@).0,
        ),
        match r {
            Ok(_) => keep_artifact(
                old(vm)@.fs,
                directory@,
                path@,
                encoding(encoded),
                what@,
            ).1 is None,
            Err(message) => keep_artifact(
                old(vm)@.fs,
                directory@,
                path@,
                encoding(encoded),
                what@,
            ).1 == Some(message@),
        },
{
    match encoded {
        Err(message) => Err(encode_failure(what, message.as_str())),
        Ok(bytes) => {
            match vm.mkdir(directory, true) {
                Err(error) => Err(error.to_text()),
                Ok(_) => match vm.write_file(path, bytes.as_slice()) {
                    Err(error) => Err(error.to_text()),
                    Ok(_) => Ok(()),
                },
            }
        },
    }
}

// ---------------------------------------------------------------------------
// Uploads
// ---------------------------------------------------------------------------

/// The name of an uploaded file, or why the path names none.
pub open spec fn upload_name(path: Seq<char>) -> Result<Seq<char>, Seq<char>> {
    let root = "/workspace/uploads/"@;
    if !begins(path, root) {
        Err("tabulation input must be an uploaded file"@)
    } else {
        let name = path.skip(root.len() as int);
        if name.len() == 0 || !lacks(name, '/') || !lacks(name, '\\') {
            Err("tabulation input must name one uploaded file"@)
        } else {
            Ok(name)
        }
    }
}

/// The name of an uploaded file.
pub fn upload_filename(path: &str) -> (r: Result<String, String>)
    ensures
        match r {
            Ok(name) => upload_name(path@) == Ok::<Seq<char>, Seq<char>>(name@),
            Err(message) => upload_name(path@) == Err::<Seq<char>, Seq<char>>(message@),
        },
{
    match strip_prefix(path, "/workspace/uploads/") {
        None => Err("tabulation input must be an uploaded file".to_owned()),
        Some(name) => {
            if name.as_str().is_empty() || contains_char(name.as_str(), '/') || contains_char(
                name.as_str(),
                '\\',
            ) {
                Err("tabulation input must name one uploaded file".to_owned())
            } else {
                Ok(name)
            }
        },
    }
}

/// The path of an artifact that stands for an uploaded file.
pub open spec fn artifact_path(name: Seq<char>, suffix: Seq<char>) -> Seq<char> {
    "/workspace/output/"@ + name + suffix
}

fn output_for(name: &str, suffix: &str) -> (r: String)
    ensures
        r@ == artifact_path(name@, suffix@),
{
    let mut r = "/workspace/output/".to_owned();
    r.push_str(name);
    r.push_str(suffix);
    r
}

// ---------------------------------------------------------------------------
// Tables
// ---------------------------------------------------------------------------

#[derive(Debug, PartialEq, Eq)]
pub struct TableSummary {
    pub source_path: String,
    pub delimiter: String,
    pub rows: usize,
    pub columns: Vec<ColumnSummary>,
    pub preview: Vec<Vec<String>>,
    pub output_path: String,
}

/// What a [`TableSummary`] says.
#[verifier::ext_equal]
pub struct TableModel {
    pub source_path: Seq<char>,
    pub delimiter: Seq<char>,
    pub rows: nat,
    pub columns: Seq<ColumnModel>,
    pub preview: Rows,
    pub output_path: Seq<char>,
}

impl View for TableSummary {
    type V = TableModel;

    open spec fn view(&self) -> TableModel {
        TableModel {
            source_path: self.source_path@,
            delimiter: self.delimiter@,
            rows: self.rows as nat,
            columns: column_models(self.columns@),
            preview: row_models(self.preview@),
            output_path: self.output_path@,
        }
    }
}

/// The delimiter of a table: a tab when the first line that shows something has more tabs than
/// commas, a comma otherwise.
pub open spec fn table_delimiter(text: Seq<char>) -> char {
    match first_shown(lines_of(text), 0) {
        Some(line) => if occurrences(line, '\t') > occurrences(line, ',') {
            '\t'
        } else {
            ','
        },
        None => ',',
    }
}

/// What is wrong with the column names of a table.
pub open spec fn header_trouble(headers: Seq<Seq<char>>) -> Option<Seq<char>> {
    if headers.len() == 0 || exists|i: int|
        0 <= i < headers.len() && blank(#[trigger] headers[i]) {
        Some("table must have non-empty column names"@)
    } else if !distinct(headers) {
        Some("table column names must be unique"@)
    } else {
        None
    }
}

/// The summary of a table in the uploaded file `name`, or why there is none.
pub open spec fn summarize_table(path: Seq<char>, name: Seq<char>, text: Seq<char>) -> Result<
    TableModel,
    Seq<char>,
> {
    let delimiter = table_delimiter(text);
    match parse_table(text, delimiter) {
        Err(flaw) => Err(flaw_text(flaw, "table"@)),
        Ok(records) => if records.len() == 0 {
            Err("table is empty"@)
        } else {
            let headers = records[0];
            let rows = records.skip(1);
            if header_trouble(headers) is Some {
                Err(header_trouble(headers)->0)
            } else if headers.len() > MAX_TABLE_COLUMNS {
                Err("table has more than "@ + decimal(MAX_TABLE_COLUMNS as nat) + " columns"@)
            } else if rows.len() > MAX_TABLE_ROWS {
                Err("table has more than "@ + decimal(MAX_TABLE_ROWS as nat) + " data rows"@)
            } else {
                match first_irregular(rows, headers.len(), 0) {
                    Some(index) => Err(irregular_text(rows, headers.len(), index)),
                    None => Ok(
                        TableModel {
                            source_path: path,
                            delimiter: if delimiter == '\t' {
                                "tsv"@
                            } else {
                                "csv"@
                            },
                            rows: rows.len(),
                            columns: summarize_columns(headers, rows),
                            preview: preview_rows(rows, PREVIEW_ROWS as nat),
                            output_path: artifact_path(name, ".table.json"@),
                        },
                    ),
                }
            }
        },
    }
}

/// A table summary as JSON.
pub open spec fn table_json(m: TableModel) -> Seq<char> {
    object_text(
        seq![
            ("source_path"@, json_string(m.source_path)),
            ("delimiter"@, json_string(m.delimiter)),
            ("rows"@, decimal(m.rows)),
            ("columns"@, columns_json(m.columns)),
            ("preview"@, rows_json(m.preview)),
            ("output_path"@, json_string(m.output_path)),
        ],
    )
}

/// Tabulating an uploaded file: the filesystem after it, and the summary.
pub open spec fn tabulate(fs: FsState, path: Seq<char>) -> (
    FsState,
    Result<TableModel, Seq<char>>,
) {
    match upload_name(path) {
        Err(message) => (fs, Err(message)),
        Ok(name) => match text_at(fs, path) {
            Err(trouble) => (fs, Err(trouble_text(trouble))),
            Ok(text) => match summarize_table(path, name, text) {
                Err(message) => (fs, Err(message)),
                Ok(summary) => {
                    let (after, failure) = keep_artifact(
                        fs,
                        "/workspace/output"@,
                        summary.output_path,
                        json_layout(table_json(summary)),
                        "table output"@,
                    );
                    match failure {
                        Some(message) => (after, Err(message)),
                        None => (after, Ok(summary)),
                    }
                },
            },
        },
    }
}

/// The delimiter of a table.
pub fn detect_delimiter(text: &str) -> (r: char)
    ensures
        r == table_delimiter(text@),
{
    match first_shown_line(text) {
        Some(line) => if count_char(line.as_str(), '\t') > count_char(line.as_str(), ',') {
            '\t'
        } else {
            ','
        },
        None => ',',
    }
}

fn validate_headers(headers: &Vec<String>) -> (r: Result<(), String>)
    ensures
        match r {
            Ok(_) => header_trouble(texts(headers@)) is None,
            Err(message) => header_trouble(texts(headers@)) == Some(message@),
        },
{
    if headers.len() == 0 || has_blank(headers) {
        return Err("table must have non-empty column names".to_owned());
    }
    if !are_distinct(headers) {
        return Err("table column names must be unique".to_owned());
    }
    Ok(())
}

fn over_limit(limit: usize, what: &str) -> (r: String)
    ensures
        r@ == "table has more than "@ + decimal(limit as nat) + what@,
{
    let mut r = "table has more than ".to_owned();
    r.push_str(size_text(limit).as_str());
    r.push_str(what);
    r
}

/// The summary of a table in the uploaded file `name`.
pub fn table_summary(path: &str, name: &str, text: &str) -> (r: Result<TableSummary, String>)
    ensures
        match r {
            Ok(summary) => summarize_table(path@, name@, text@) == Ok::<TableModel, Seq<char>>(
                summary@,
            ),
            Err(message) => summarize_table(path@, name@, text@) == Err::<TableModel, Seq<char>>(
                message@,
            ),
        },
{
    let delimiter = detect_delimiter(text);
    let records = match parse_delimited(text, delimiter) {
        Err(flaw) => return Err(flaw_message(flaw, "table")),
        Ok(records) => records,
    };
    if records.len() == 0 {
        return Err("table is empty".to_owned());
    }
    let headers = &records[0];
    let rows = vstd::slice::slice_subrange(records.as_slice(), 1, records.len());
    proof {
        let all = row_models(records@);
        assert(all[0] == texts(headers@));
        assert(row_models(rows@) =~= all.skip(1));
    }
    match validate_headers(headers) {
        Err(message) => return Err(message),
        Ok(_) => {},
    }
    if headers.len() > MAX_TABLE_COLUMNS {
        return Err(over_limit(MAX_TABLE_COLUMNS, " columns"));
    }
    if rows.len() > MAX_TABLE_ROWS {
        return Err(over_limit(MAX_TABLE_ROWS, " data rows"));
    }
    match check_widths(rows, headers.len()) {
        Err(message) => return Err(message),
        Ok(_) => {},
    }
    let columns = columns_of(headers, rows);
    Ok(
        TableSummary {
            source_path: path.to_owned(),
            delimiter: if delimiter == '\t' {
                "tsv".to_owned()
            } else {
                "csv".to_owned()
            },
            rows: rows.len(),
            columns,
            preview: preview(rows, PREVIEW_ROWS),
            output_path: output_for(name, ".table.json"),
        },
    )
}

pub fn write_table(summary: &TableSummary) -> (r: String)
    ensures
        r@ == table_json(summary@),
{
    let fields = vec![
        field("source_path", quoted(summary.source_path.as_str())),
        field("delimiter", quoted(summary.delimiter.as_str())),
        field("rows", size_text(summary.rows)),
        field("columns", write_columns(&summary.columns)),
        field("preview", write_rows(&summary.preview)),
        field("output_path", quoted(summary.output_path.as_str())),
    ];
    let ghost m = summary@;
    assert(field_models(fields@) =~= seq![
        ("source_path"@, json_string(m.source_path)),
        ("delimiter"@, json_string(m.delimiter)),
        ("rows"@, decimal(m.rows)),
        ("columns"@, columns_json(m.columns)),
        ("preview"@, rows_json(m.preview)),
        ("output_path"@, json_string(m.output_path)),
    ]);
    write_object(&fields)
}

/// Tabulate a UTF-8 CSV or TSV input and persist a bounded JSON summary under
/// `/workspace/output`. Input is restricted to uploads so a browser request
/// cannot use this data path to inspect arbitrary guest files.
pub fn tabulate_uploaded_file(vm: &mut VmInstance, path: &str) -> (r: Result<TableSummary, String>)
    ensures
        final(vm)@ == with_fs(old(vm)@, tabulate(old(vm)@.fs, path@).0),
        match r {
            Ok(summary) => tabulate(old(vm)@.fs, path@).1 == Ok::<TableModel, Seq<char>>(summary@),
            Err(message) => tabulate(old(vm)@.fs, path@).1 == Err::<TableModel, Seq<char>>(
                message@,
            ),
        },
{
    let name = match upload_filename(path) {
        Err(message) => return Err(message),
        Ok(name) => name,
    };
    let text = match vm.read_text(path) {
        Err(error) => return Err(error.to_text()),
        Ok(text) => text,
    };
    let summary = match table_summary(path, name.as_str(), text.as_str()) {
        Err(message) => return Err(message),
        Ok(summary) => summary,
    };
    let encoded = laid_out(write_table(&summary).as_str());
    match store_artifact(
        vm,
        "/workspace/output",
        summary.output_path.as_str(),
        encoded,
        "table output",
    ) {
        Err(message) => Err(message),
        Ok(_) => Ok(summary),
    }
}

// ---------------------------------------------------------------------------
// PDF metadata
// ---------------------------------------------------------------------------

/// Metadata collected from a PDF without invoking a PDF parser in the browser
/// host. Page count is an estimate based on page dictionaries, not a promise
/// about rendered pages; text extraction belongs in a dedicated parser sandbox.
#[derive(Debug, PartialEq, Eq)]
pub struct PdfSummary {
    pub source_path: String,
    pub bytes: usize,
    pub version: String,
    pub page_objects_estimate: usize,
    pub output_path: String,
}

/// What a [`PdfSummary`] says.
#[verifier::ext_equal]
pub struct PdfModel {
    pub source_path: Seq<char>,
    pub bytes: nat,
    pub version: Seq<char>,
    pub page_objects_estimate: nat,
    pub output_path: Seq<char>,
}

impl View for PdfSummary {
    type V = PdfModel;

    open spec fn view(&self) -> PdfModel {
        PdfModel {
            source_path: self.source_path@,
            bytes: self.bytes as nat,
            version: self.version@,
            page_objects_estimate: self.page_objects_estimate as nat,
            output_path: self.output_path@,
        }
    }
}

pub open spec fn byte_digit(b: u8) -> bool {
    48 <= b <= 57
}

pub open spec fn byte_letter(b: u8) -> bool {
    65 <= b <= 90 || 97 <= b <= 122
}

/// Space, tab, line feed, form feed and carriage return.
pub open spec fn byte_space(b: u8) -> bool {
    b == 32 || b == 9 || b == 10 || b == 12 || b == 13
}

/// Whether `part` stands at index `i`.
pub open spec fn bytes_at(bytes: Seq<u8>, i: int, part: Seq<u8>) -> bool {
    0 <= i && i + part.len() <= bytes.len() && bytes.subrange(i, i + part.len()) == part
}

/// `%PDF-`
pub open spec fn pdf_mark() -> Seq<u8> {
    seq![37u8, 80u8, 68u8, 70u8, 45u8]
}

/// `/Type`
pub open spec fn type_mark() -> Seq<u8> {
    seq![47u8, 84u8, 121u8, 112u8, 101u8]
}

/// `/Page`
pub open spec fn page_mark() -> Seq<u8> {
    seq![47u8, 80u8, 97u8, 103u8, 101u8]
}

/// The version in the header of a PDF: a digit, a point and a digit.
pub open spec fn version_of(bytes: Seq<u8>) -> Result<Seq<char>, Seq<char>> {
    if bytes_at(bytes, 0, pdf_mark()) && bytes.len() >= 8 && byte_digit(bytes[5]) && bytes[6] == 46
        && byte_digit(bytes[7]) {
        Ok(seq![bytes[5] as char, '.', bytes[7] as char])
    } else {
        Err("upload is not a supported PDF header"@)
    }
}

/// The index behind the white space that stands at `i`.
pub open spec fn past_space(bytes: Seq<u8>, i: int) -> int
    decreases bytes.len() - i,
{
    if 0 <= i < bytes.len() && byte_space(bytes[i]) {
        past_space(bytes, i + 1)
    } else {
        i
    }
}

/// Whether a page dictionary's type stands at `i`: `/Type`, perhaps white space, and `/Page`
/// without a letter behind it.
pub open spec fn page_at(bytes: Seq<u8>, i: int) -> bool {
    bytes_at(bytes, i, type_mark()) && {
        let value = past_space(bytes, i + 5);
        bytes_at(bytes, value, page_mark()) && !(value + 5 < bytes.len() && byte_letter(
            bytes[value + 5],
        ))
    }
}

/// The number of page types that stand before index `n`.
pub open spec fn count_pages(bytes: Seq<u8>, n: int) -> nat
    decreases n,
{
    if n <= 0 {
        0
    } else {
        count_pages(bytes, n - 1) + if page_at(bytes, n - 1) {
            1nat
        } else {
            0nat
        }
    }
}

/// A PDF summary as JSON.
pub open spec fn pdf_json(m: PdfModel) -> Seq<char> {
    object_text(
        seq![
            ("source_path"@, json_string(m.source_path)),
            ("bytes"@, decimal(m.bytes)),
            ("version"@, json_string(m.version)),
            ("page_objects_estimate"@, decimal(m.page_objects_estimate)),
            ("output_path"@, json_string(m.output_path)),
        ],
    )
}

/// What is known of an uploaded PDF, or why it is none.
pub open spec fn summarize_pdf(path: Seq<char>, name: Seq<char>, bytes: Seq<u8>) -> Result<
    PdfModel,
    Seq<char>,
> {
    match version_of(bytes) {
        Err(message) => Err(message),
        Ok(version) => Ok(
            PdfModel {
                source_path: path,
                bytes: bytes.len(),
                version,
                page_objects_estimate: count_pages(bytes, bytes.len() as int),
                output_path: artifact_path(name, ".pdf.json"@),
            },
        ),
    }
}

/// Inspecting an uploaded PDF: the filesystem after it, and the summary.
pub open spec fn inspect_pdf(fs: FsState, path: Seq<char>) -> (FsState, Result<PdfModel, Seq<char>>) {
    match upload_name(path) {
        Err(message) => (fs, Err(message)),
        Ok(name) => match file_at(fs, path) {
            Err(trouble) => (fs, Err(trouble_text(trouble))),
            Ok(bytes) => match summarize_pdf(path, name, bytes) {
                Err(message) => (fs, Err(message)),
                Ok(summary) => {
                    let (after, failure) = keep_artifact(
                        fs,
                        "/workspace/output"@,
                        summary.output_path,
                        json_layout(pdf_json(summary)),
                        "PDF output"@,
                    );
                    match failure {
                        Some(message) => (after, Err(message)),
                        None => (after, Ok(summary)),
                    }
                },
            },
        },
    }
}

pub fn has_bytes(bytes: &[u8], i: usize, part: &Vec<u8>) -> (r: bool)
    ensures
        r == bytes_at(bytes@, i as int, part@),
{
    if i > bytes.len() || part.len() > bytes.len() - i {
        return false;
    }
    let n: usize = bytes.len();
    let ghost here = bytes@.subrange(i as int, i + part@.len());
    let mut k: usize = 0;
    while k < part.len()
        invariant
            k <= part@.len(),
            i + part@.len() <= n,
            n == bytes@.len(),
            here == bytes@.subrange(i as int, i + part@.len()),
            forall|x: int| 0 <= x < k ==> #[trigger] here[x] == part@[x],
        decreases part@.len() - k,
    {
        assert(here[k as int] == bytes@[i + k]);
        if bytes[i + k] != part[k] {
            return false;
        }
        k += 1;
    }
    assert(here =~= part@);
    true
}

fn is_space(b: u8) -> (r: bool)
    ensures
        r == byte_space(b),
{
    b == 32 || b == 9 || b == 10 || b == 12 || b == 13
}

fn skip_space(bytes: &[u8], from: usize) -> (r: usize)
    requires
        from <= bytes@.len(),
    ensures
        r == past_space(bytes@, from as int),
        from <= r <= bytes@.len(),
{
    let mut i: usize = from;
    while i < bytes.len() && is_space(bytes[i])
        invariant
            from <= i <= bytes@.len(),
            past_space(bytes@, from as int) == past_space(bytes@, i as int),
        decreases bytes@.len() - i,
    {
        i += 1;
    }
    i
}

/// The version in the header of a PDF.
pub fn pdf_version(bytes: &[u8]) -> (r: Result<String, String>)
    ensures
        match r {
            Ok(version) => version_of(bytes@) == Ok::<Seq<char>, Seq<char>>(version@),
            Err(message) => version_of(bytes@) == Err::<Seq<char>, Seq<char>>(message@),
        },
{
    let mark: Vec<u8> = vec![37, 80, 68, 70, 45];
    assert(mark@ =~= pdf_mark());
    if has_bytes(bytes, 0, &mark) && bytes.len() >= 8 && 48 <= bytes[5] && bytes[5] <= 57
        && bytes[6] == 46 && 48 <= bytes[7] && bytes[7] <= 57 {
        let mut version = String::new();
        version.push(bytes[5] as char);
        version.push('.');
        version.push(bytes[7] as char);
        assert(version@ =~= seq![bytes@[5] as char, '.', bytes@[7] as char]);
        Ok(version)
    } else {
        Err("upload is not a supported PDF header".to_owned())
    }
}

/// The number of page types in a PDF.
pub fn page_object_count(bytes: &[u8]) -> (r: usize)
    ensures
        r == count_pages(bytes@, bytes@.len() as int),
{
    let mark: Vec<u8> = vec![47, 84, 121, 112, 101];
    let page: Vec<u8> = vec![47, 80, 97, 103, 101];
    assert(mark@ =~= type_mark());
    assert(page@ =~= page_mark());
    let mut count: usize = 0;
    let mut i: usize = 0;
    while i < bytes.len()
        invariant
            i <= bytes@.len(),
            count <= i,
            count == count_pages(bytes@, i as int),
            mark@ == type_mark(),
            page@ == page_mark(),
        decreases bytes@.len() - i,
    {
        if has_bytes(bytes, i, &mark) {
            let value = skip_space(bytes, i + 5);
            if has_bytes(bytes, value, &page) {
                let letter = value + 5 < bytes.len() && ((65 <= bytes[value + 5] && bytes[value + 5]
                    <= 90) || (97 <= bytes[value + 5] && bytes[value + 5] <= 122));
                if !letter {
                    count += 1;
                }
            }
        }
        i += 1;
    }
    count
}

/// What is known of an uploaded PDF.
pub fn pdf_summary(path: &str, name: &str, bytes: &[u8]) -> (r: Result<PdfSummary, String>)
    ensures
        match r {
            Ok(summary) => summarize_pdf(path@, name@, bytes@) == Ok::<PdfModel, Seq<char>>(
                summary@,
            ),
            Err(message) => summarize_pdf(path@, name@, bytes@) == Err::<PdfModel, Seq<char>>(
                message@,
            ),
        },
{
    match pdf_version(bytes) {
        Err(message) => Err(message),
        Ok(version) => Ok(
            PdfSummary {
                source_path: path.to_owned(),
                bytes: bytes.len(),
                version,
                page_objects_estimate: page_object_count(bytes),
                output_path: output_for(name, ".pdf.json"),
            },
        ),
    }
}

pub fn write_pdf(summary: &PdfSummary) -> (r: String)
    ensures
        r@ == pdf_json(summary@),
{
    let fields = vec![
        field("source_path", quoted(summary.source_path.as_str())),
        field("bytes", size_text(summary.bytes)),
        field("version", quoted(summary.version.as_str())),
        field("page_objects_estimate", size_text(summary.page_objects_estimate)),
        field("output_path", quoted(summary.output_path.as_str())),
    ];
    let ghost m = summary@;
    assert(field_models(fields@) =~= seq![
        ("source_path"@, json_string(m.source_path)),
        ("bytes"@, decimal(m.bytes)),
        ("version"@, json_string(m.version)),
        ("page_objects_estimate"@, decimal(m.page_objects_estimate)),
        ("output_path"@, json_string(m.output_path)),
    ]);
    write_object(&fields)
}

/// Validate an uploaded PDF and persist a metadata artifact. This intentionally
/// does not parse page streams or execute embedded content in the web server.
pub fn inspect_uploaded_pdf(vm: &mut VmInstance, path: &str) -> (r: Result<PdfSummary, String>)
    ensures
        final(vm)@ == with_fs(old(vm)@, inspect_pdf(old(vm)@.fs, path@).0),
        match r {
            Ok(summary) => inspect_pdf(old(vm)@.fs, path@).1 == Ok::<PdfModel, Seq<char>>(summary@),
            Err(message) => inspect_pdf(old(vm)@.fs, path@).1 == Err::<PdfModel, Seq<char>>(
                message@,
            ),
        },
{
    let name = match upload_filename(path) {
        Err(message) => return Err(message),
        Ok(name) => name,
    };
    let bytes = match vm.read_file(path) {
        Err(error) => return Err(error.to_text()),
        Ok(bytes) => bytes,
    };
    let summary = match pdf_summary(path, name.as_str(), bytes.as_slice()) {
        Err(message) => return Err(message),
        Ok(summary) => summary,
    };
    let encoded = laid_out(write_pdf(&summary).as_str());
    match store_artifact(
        vm,
        "/workspace/output",
        summary.output_path.as_str(),
        encoded,
        "PDF output",
    ) {
        Err(message) => Err(message),
        Ok(_) => Ok(summary),
    }
}

/// A table that is summarized has a header of distinct names that show something, at most 256 of them,
/// and at most 50000 rows, each as wide as the header. The summary counts these rows and describes
/// these columns, and its output stands under the name of the upload.
pub proof fn law_summaries_describe_their_table(path: Seq<char>, name: Seq<char>, text: Seq<char>)
    ensures
        summarize_table(path, name, text) matches Ok(summary) ==> {
            let delimiter = table_delimiter(text);
            parse_table(text, delimiter) matches Ok(records) && {
                &&& records.len() > 0
                &&& summary.rows == records.len() - 1
                &&& summary.rows <= 50_000
                &&& summary.columns == summarize_columns(records[0], records.skip(1))
                &&& summary.columns.len() == records[0].len() <= 256
                &&& summary.preview == preview_rows(records.skip(1), 10)
                &&& summary.source_path == path
                &&& summary.output_path == "/workspace/output/"@ + name + ".table.json"@
                &&& summary.delimiter == if delimiter == '\t' {
                    "tsv"@
                } else {
                    "csv"@
                }
                &&& forall|i: int| 0 <= i < records.len() ==> (#[trigger] records[i]).len()
                    == records[0].len()
                &&& forall|i: int, j: int|
                    0 <= i < j < records[0].len() ==> #[trigger] records[0][i]
                        != #[trigger] records[0][j]
                &&& forall|i: int|
                    0 <= i < records[0].len() ==> !all_white(#[trigger] records[0][i])
            }
        },
{
    if let Ok(summary) = summarize_table(path, name, text) {
        let records = parse_table(text, table_delimiter(text))->Ok_0;
        let headers = records[0];
        law_irregular_rows_are_found(records.skip(1), headers.len(), 0);
        assert forall|i: int| 0 <= i < records.len() implies (#[trigger] records[i]).len()
            == headers.len() by {
            if i > 0 {
                assert(records.skip(1)[i - 1] == records[i]);
            }
        }
        assert forall|i: int| 0 <= i < headers.len() implies !all_white(#[trigger] headers[i]) by {
            assert(!blank(headers[i]));
            law_blank_texts_are_white(headers[i], ' ');
        }
    }
}

/// A table is cut at tabs where its first line that shows something has more tabs than commas, and at
/// commas otherwise.
pub proof fn law_delimiters_are_told_by_the_first_line(text: Seq<char>, k: int)
    requires
        0 <= k < lines_of(text).len(),
        !all_white(lines_of(text)[k]),
        forall|i: int| 0 <= i < k ==> all_white(#[trigger] lines_of(text)[i]),
    ensures
        table_delimiter(text) == if occurrences(lines_of(text)[k], '\t') > occurrences(
            lines_of(text)[k],
            ',',
        ) {
            '\t'
        } else {
            ','
        },
{
    lemma_first_shown(lines_of(text), k, 0);
}

proof fn lemma_first_shown(lines: Seq<Seq<char>>, k: int, index: int)
    requires
        0 <= index <= k < lines.len(),
        !all_white(lines[k]),
        forall|i: int| 0 <= i < k ==> all_white(#[trigger] lines[i]),
    ensures
        first_shown(lines, index) == Some(lines[k]),
    decreases k - index,
{
    law_blank_texts_are_white(lines[index], ' ');
    if index < k {
        assert(all_white(lines[index]));
        lemma_first_shown(lines, k, index + 1);
    }
}

/// A PDF begins with `%PDF-`, a digit, a point and a digit, which are its version. Its pages are
/// counted by the places where `/Type`, perhaps white space, and `/Page` without a letter behind it
/// stand.
pub proof fn law_pdfs_are_described(path: Seq<char>, name: Seq<char>, bytes: Seq<u8>, i: int)
    ensures
        summarize_pdf(path, name, bytes) matches Ok(summary) ==> {
            &&& bytes.len() >= 8
            &&& bytes[0] == 37 && bytes[1] == 80 && bytes[2] == 68 && bytes[3] == 70 && bytes[4]
                == 45
            &&& 48 <= bytes[5] <= 57 && bytes[6] == 46 && 48 <= bytes[7] <= 57
            &&& summary.version.len() == 3
            &&& summary.version[0] as int == bytes[5] && summary.version[1] == '.'
                && summary.version[2] as int == bytes[7]
            &&& summary.bytes == bytes.len()
            &&& summary.source_path == path
            &&& summary.output_path == "/workspace/output/"@ + name + ".pdf.json"@
            &&& summary.page_objects_estimate == count_pages(bytes, bytes.len() as int)
        },
        0 <= i < bytes.len() ==> count_pages(bytes, i + 1) == count_pages(bytes, i) + (if page_at(
            bytes,
            i,
        ) {
            1int
        } else {
            0int
        }),
        count_pages(bytes, 0) == 0,
        page_at(bytes, i) ==> bytes[i] == 47 && bytes[i + 1] == 84 && bytes[i + 2] == 121 && bytes[i
            + 3] == 112 && bytes[i + 4] == 101,
{
    if summarize_pdf(path, name, bytes) is Ok {
        let mark = bytes.subrange(0, 5);
        assert(mark == pdf_mark());
        assert(mark[0] == bytes[0] && mark[1] == bytes[1] && mark[2] == bytes[2] && mark[3]
            == bytes[3] && mark[4] == bytes[4]);
    }
    if page_at(bytes, i) {
        let mark = bytes.subrange(i, i + 5);
        assert(mark == type_mark());
        assert(mark[0] == bytes[i] && mark[1] == bytes[i + 1] && mark[2] == bytes[i + 2] && mark[3]
            == bytes[i + 3] && mark[4] == bytes[i + 4]);
    }
}

} // verus!
