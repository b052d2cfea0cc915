//! Built-in deterministic application runtimes for one guest VM.
//!
//! These apps deliberately operate on fixed guest paths. They do not accept
//! executable paths, host paths, command lines, or ambient capabilities.

use vstd::prelude::*;
#[allow(unused_imports)]
use vstd::utf8::{decode_utf8, encode_utf8, encode_utf8_decode_utf8, encode_utf8_valid_utf8, valid_utf8};

#[allow(unused_imports)]
use crate::filesystem::{
    FsNode, FsState, display, file_at, law_directories_can_be_made_again,
    law_mkdir_makes_a_directory, law_normalize_undoes_display, law_normalized_paths_are_proper,
    law_paths_lead_step_by_step, law_write_then_read, mkdir_at, node_at, normalize, proper_name, sound_fs, text_at, write_at,
};
use crate::json::{
    Json, field, laid_out, quoted, read_json, read_optional_name, read_texts, write_array,
    write_object, write_strings,
};
#[allow(unused_imports)]
use crate::json::{
    JsonModel, field_models, get_member, get_text, get_value, item_texts, json_layout, json_reading,
    json_string, object_text, optional_name, optional_text, strings_text,
};
#[allow(unused_imports)]
use crate::ordered::law_put_then_get;
use crate::runtime::VmInstance;
#[allow(unused_imports)]
use crate::runtime::{InstanceState, with_fs};
#[allow(unused_imports)]
use crate::runtime_error::{Trouble, trouble_text};
#[allow(unused_imports)]
use crate::tables::{
    CellFlaw, ColumnModel, Rows, column_json, column_models, columns_json, distinct, first_irregular, first_shown,
    flaw_text, irregular_text, law_irregular_rows_are_found, occurrences, parse_table, preview_rows, rectangular, row_models,
    rows_json, summarize_columns,
};
use crate::tables::{
    ColumnSummary, are_distinct, check_widths, columns_of, count_char, first_shown_line,
    flaw_message, has_blank, parse_delimited, preview, write_column, write_rows,
};
use crate::tabulation::{encode_failure, store_artifact};
#[allow(unused_imports)]
use crate::tabulation::{encoding, keep_artifact};
#[allow(unused_imports)]
use crate::text::{
    all_white, blank, byte_len, decimal, ends, find_char, joined, law_blank_texts_are_white,
    law_texts_hold_their_parts, lemma_bytes_add_up, lemma_chars_within_bytes, lemma_find_char,
    lemma_lines_within_chars, lines_of,
    text_option, texts,
};
use crate::text::{byte_count, ends_with, lines, size_text};

verus! {

pub const DOCS_ROOT: &'static str = "/workspace/apps/docs";

pub const DOCS_DOCUMENT_PATH: &'static str = "/workspace/apps/docs/document.txt";

pub const DOCS_METADATA_PATH: &'static str = "/workspace/apps/docs/document.json";

pub const SHEETS_ROOT: &'static str = "/workspace/apps/sheets";

pub const SHEETS_INPUT_PATH: &'static str = "/workspace/apps/sheets/sheet.txt";

pub const SHEETS_SUMMARY_PATH: &'static str = "/workspace/apps/sheets/summary.json";

pub const MAX_DOCUMENT_BYTES: usize = 512 * 1024;

pub const MAX_SHEET_BYTES: usize = 512 * 1024;

pub const MAX_SHEET_ROWS: usize = 50_000;

pub const MAX_SHEET_COLUMNS: usize = 256;

pub const MAX_SHEET_CELLS: usize = 100_000;

pub const PREVIEW_ROWS: usize = 12;

#[derive(Debug, Clone, Copy, PartialEq, Eq, Structural)]
pub enum AppId {
    Docs,
    Sheets,
}

pub open spec fn app_label(id: AppId) -> Seq<char> {
    match id {
        AppId::Docs => "Docs"@,
        AppId::Sheets => "Sheets"@,
    }
}

impl AppId {
    pub fn label(self) -> (r: &'static str)
        ensures
            r@ == app_label(self),
    {
        match self {
            AppId::Docs => "Docs",
            AppId::Sheets => "Sheets",
        }
    }
}

#[derive(Debug, PartialEq, Eq)]
pub struct AppDescriptor {
    pub id: AppId,
    pub label: &'static str,
    pub root: &'static str,
    pub operations: Vec<&'static str>,
}

/// The operations that an app offers.
pub open spec fn app_operations(id: AppId) -> Seq<&'static str> {
    match id {
        AppId::Docs => seq!["open", "open_upload", "read", "replace", "append"],
        AppId::Sheets => seq!["open", "open_upload", "import"],
    }
}

/// What a descriptor says of an app.
pub open spec fn describes(descriptor: AppDescriptor, id: AppId) -> bool {
    &&& descriptor.id == id
    &&& descriptor.label@ == app_label(id)
    &&& descriptor.root@ == (match id {
        AppId::Docs => DOCS_ROOT@,
        AppId::Sheets => SHEETS_ROOT@,
    })
    &&& descriptor.operations@ == app_operations(id)
}

pub fn app_descriptors() -> (r: [AppDescriptor; 2])
    ensures
        describes(r@[0], AppId::Docs),
        describes(r@[1], AppId::Sheets),
{
    let docs = vec!["open", "open_upload", "read", "replace", "append"];
    let sheets = vec!["open", "open_upload", "import"];
    assert(docs@ =~= app_operations(AppId::Docs));
    assert(sheets@ =~= app_operations(AppId::Sheets));
    [
        AppDescriptor {
            id: AppId::Docs,
            label: AppId::Docs.label(),
            root: DOCS_ROOT,
            operations: docs,
        },
        AppDescriptor {
            id: AppId::Sheets,
            label: AppId::Sheets.label(),
            root: SHEETS_ROOT,
            operations: sheets,
        },
    ]
}

// ---------------------------------------------------------------------------
// Documents
// ---------------------------------------------------------------------------

#[derive(Debug, PartialEq, Eq)]
pub struct Document {
    pub path: &'static str,
    pub bytes: usize,
    pub lines: usize,
    pub text: String,
    pub format: String,
    pub source_name: Option<String>,
    pub warnings: Vec<String>,
}

/// What a [`Document`] says.
#[verifier::ext_equal]
pub struct DocumentModel {
    pub path: Seq<char>,
    pub bytes: nat,
    pub lines: nat,
    pub text: Seq<char>,
    pub metadata: MetadataModel,
}

/// What is noted beside the text of a document.
#[verifier::ext_equal]
pub struct MetadataModel {
    pub format: Seq<char>,
    pub source_name: Option<Seq<char>>,
    pub warnings: Seq<Seq<char>>,
}

impl View for Document {
    type V = DocumentModel;

    open spec fn view(&self) -> DocumentModel {
        DocumentModel {
            path: self.path@,
            bytes: self.bytes as nat,
            lines: self.lines as nat,
            text: self.text@,
            metadata: MetadataModel {
                format: self.format@,
                source_name: text_option(self.source_name),
                warnings: texts(self.warnings@),
            },
        }
    }
}

/// A document's format, source name and warnings.
pub type Metadata = (String, Option<String>, Vec<String>);

pub open spec fn metadata_model(m: Metadata) -> MetadataModel {
    MetadataModel { format: m.0@, source_name: text_option(m.1), warnings: texts(m.2@) }
}

/// What is noted of a document that nothing is known of.
pub open spec fn plain_metadata() -> MetadataModel {
    MetadataModel { format: "plain_text"@, source_name: None, warnings: Seq::empty() }
}

/// The metadata that three JSON texts denote. The source name may be left out.
pub open spec fn metadata_fields(
    format: Option<Seq<char>>,
    source_name: Option<Seq<char>>,
    warnings: Option<Seq<char>>,
) -> Option<MetadataModel> {
    match (format, warnings) {
        (Some(format), Some(warnings)) => match (json_reading(format), json_reading(warnings)) {
            (Ok(JsonModel::Text(format)), Ok(JsonModel::List(items))) => match (
                item_texts(items, items.len() as int),
                optional_name(source_name),
            ) {
                (Some(warnings), Some(source_name)) => Some(
                    MetadataModel { format, source_name, warnings },
                ),
                _ => None,
            },
            _ => None,
        },
        _ => None,
    }
}

/// The metadata that a JSON value denotes: an object with these fields, or their list.
pub open spec fn metadata_of(json: JsonModel) -> Option<MetadataModel> {
    match json {
        JsonModel::List(items) => if items.len() == 3 {
            metadata_fields(Some(items[0]), Some(items[1]), Some(items[2]))
        } else {
            None
        },
        JsonModel::Object(fields) => metadata_fields(
            get_member(json, "format"@),
            get_member(json, "source_name"@),
            get_member(json, "warnings"@),
        ),
        _ => None,
    }
}

/// What is noted of a document: what its metadata file says, or nothing.
pub open spec fn noted_metadata(encoded: Result<Seq<char>, Trouble>) -> MetadataModel {
    match encoded {
        Ok(text) => match json_reading(text) {
            Ok(json) => match metadata_of(json) {
                Some(metadata) => metadata,
                None => plain_metadata(),
            },
            Err(_) => plain_metadata(),
        },
        Err(_) => plain_metadata(),
    }
}

/// Metadata as JSON.
pub open spec fn metadata_json(m: MetadataModel) -> Seq<char> {
    object_text(
        seq![
            ("format"@, json_string(m.format)),
            ("source_name"@, optional_text(m.source_name)),
            ("warnings"@, strings_text(m.warnings)),
        ],
    )
}

/// The number of lines of a document; an ended last line counts as two.
pub open spec fn document_lines(text: Seq<char>) -> nat {
    if text.len() == 0 {
        0
    } else {
        lines_of(text).len() + if ends(text, "\n"@) {
            1nat
        } else {
            0nat
        }
    }
}

/// The message for a document that is too large.
pub open spec fn oversized_document() -> Seq<char> {
    "document exceeds "@ + decimal(MAX_DOCUMENT_BYTES as nat) + " bytes"@
}

/// A document with this text and metadata.
pub open spec fn document_of(text: Seq<char>, metadata: MetadataModel) -> Result<
    DocumentModel,
    Seq<char>,
> {
    if byte_len(text) > MAX_DOCUMENT_BYTES {
        Err(oversized_document())
    } else {
        Ok(
            DocumentModel {
                path: DOCS_DOCUMENT_PATH@,
                bytes: byte_len(text),
                lines: document_lines(text),
                text,
                metadata,
            },
        )
    }
}

/// Reading the document.
pub open spec fn document_in(fs: FsState) -> Result<DocumentModel, Seq<char>> {
    match text_at(fs, DOCS_DOCUMENT_PATH@) {
        Err(trouble) => Err(trouble_text(trouble)),
        Ok(text) => document_of(text, noted_metadata(text_at(fs, DOCS_METADATA_PATH@))),
    }
}

/// Opening the document: an empty one is written where there is none.
pub open spec fn open_docs_in(fs: FsState) -> (FsState, Result<DocumentModel, Seq<char>>) {
    let (made, outcome) = mkdir_at(fs, DOCS_ROOT@, true);
    match outcome {
        Err(trouble) => (made, Err(trouble_text(trouble))),
        Ok(_) => if file_at(made, DOCS_DOCUMENT_PATH@) is Err {
            let (written, outcome) = write_at(made, DOCS_DOCUMENT_PATH@, Seq::empty());
            match outcome {
                Err(trouble) => (written, Err(trouble_text(trouble))),
                Ok(_) => (written, document_in(written)),
            }
        } else {
            (made, document_in(made))
        },
    }
}

/// Replacing the document, given what its metadata is encoded as.
pub open spec fn replace_in(
    fs: FsState,
    text: Seq<char>,
    encoded: Result<Seq<u8>, Seq<char>>,
) -> (FsState, Result<DocumentModel, Seq<char>>) {
    if byte_len(text) > MAX_DOCUMENT_BYTES {
        (fs, Err(oversized_document()))
    } else {
        let (made, outcome) = mkdir_at(fs, DOCS_ROOT@, true);
        match outcome {
            Err(trouble) => (made, Err(trouble_text(trouble))),
            Ok(_) => {
                let (written, outcome) = write_at(made, DOCS_DOCUMENT_PATH@, encode_utf8(text));
                match outcome {
                    Err(trouble) => (written, Err(trouble_text(trouble))),
                    Ok(_) => match encoded {
                        Err(message) => (
                            written,
                            Err("failed to encode "@ + "document metadata"@ + ": "@ + message),
                        ),
                        Ok(bytes) => {
                            let (noted, outcome) = write_at(written, DOCS_METADATA_PATH@, bytes);
                            match outcome {
                                Err(trouble) => (noted, Err(trouble_text(trouble))),
                                Ok(_) => (noted, document_in(noted)),
                            }
                        },
                    },
                }
            },
        }
    }
}

/// Appending to the document.
pub open spec fn append_in(fs: FsState, text: Seq<char>) -> (
    FsState,
    Result<DocumentModel, Seq<char>>,
) {
    if byte_len(text) > MAX_DOCUMENT_BYTES {
        (fs, Err(oversized_document()))
    } else {
        let (opened, document) = open_docs_in(fs);
        match document {
            Err(message) => (opened, Err(message)),
            Ok(document) => {
                let whole = document.text + text;
                if byte_len(whole) > MAX_DOCUMENT_BYTES {
                    (opened, Err(oversized_document()))
                } else {
                    let (written, outcome) = write_at(
                        opened,
                        DOCS_DOCUMENT_PATH@,
                        encode_utf8(whole),
                    );
                    match outcome {
                        Err(trouble) => (written, Err(trouble_text(trouble))),
                        Ok(_) => (written, document_in(written)),
                    }
                }
            },
        }
    }
}

/// What a call says of a document.
pub open spec fn document_seen(r: Result<Document, String>) -> Result<DocumentModel, Seq<char>> {
    match r {
        Ok(document) => Ok(document@),
        Err(message) => Err(message@),
    }
}

fn document_too_large() -> (r: String)
    ensures
        r@ == oversized_document(),
{
    let mut r = "document exceeds ".to_owned();
    r.push_str(size_text(MAX_DOCUMENT_BYTES).as_str());
    r.push_str(" bytes");
    r
}

fn plain_document_metadata() -> (r: Metadata)
    ensures
        metadata_model(r) == plain_metadata(),
{
    let r: Metadata = ("plain_text".to_owned(), None, Vec::new());
    assert(texts(r.2@) =~= Seq::<Seq<char>>::empty());
    r
}

fn read_metadata_fields(
    format: Option<String>,
    source_name: Option<String>,
    warnings: Option<String>,
) -> (r: Option<Metadata>)
    ensures
        match r {
            Some(m) => metadata_fields(
                text_option(format),
                text_option(source_name),
                text_option(warnings),
            ) == Some(metadata_model(m)),
            None => metadata_fields(
                text_option(format),
                text_option(source_name),
                text_option(warnings),
            ) is None,
        },
{
    let (format, warnings) = match (format, warnings) {
        (Some(format), Some(warnings)) => (format, warnings),
        _ => return None,
    };
    let format = match read_json(format.as_str()) {
        Ok(Json::Text(format)) => format,
        _ => return None,
    };
    let warnings = match read_json(warnings.as_str()) {
        Ok(Json::List(items)) => match read_texts(&items) {
            Some(warnings) => warnings,
            None => return None,
        },
        _ => return None,
    };
    let source_name = match read_optional_name(source_name) {
        None => return None,
        Some(source_name) => source_name,
    };
    Some((format, source_name, warnings))
}

/// The metadata that a JSON value denotes.
pub fn read_metadata(json: &Json) -> (r: Option<Metadata>)
    ensures
        match r {
            Some(m) => metadata_of(json@) == Some(metadata_model(m)),
            None => metadata_of(json@) is None,
        },
{
    match json {
        Json::List(items) => {
            assert(texts(items@).len() == items@.len());
            if items.len() == 3 {
                read_metadata_fields(
                    Some(items[0].clone()),
                    Some(items[1].clone()),
                    Some(items[2].clone()),
                )
            } else {
                None
            }
        },
        Json::Object(_) => read_metadata_fields(
            json.get("format"),
            json.get("source_name"),
            json.get("warnings"),
        ),
        _ => None,
    }
}

fn write_metadata(m: &Metadata) -> (r: String)
    ensures
        r@ == metadata_json(metadata_model(*m)),
{
    let name = match &m.1 {
        Some(name) => quoted(name.as_str()),
        None => "null".to_owned(),
    };
    let fields = vec![
        field("format", quoted(m.0.as_str())),
        field("source_name", name),
        field("warnings", write_strings(&m.2)),
    ];
    let ghost model = metadata_model(*m);
    assert(field_models(fields@) =~= seq![
        ("format"@, json_string(model.format)),
        ("source_name"@, optional_text(model.source_name)),
        ("warnings"@, strings_text(model.warnings)),
    ]);
    write_object(&fields)
}

fn line_count(text: &str) -> (r: usize)
    requires
        byte_len(text@) <= MAX_DOCUMENT_BYTES,
    ensures
        r == document_lines(text@),
{
    proof {
        lemma_chars_within_bytes(text@);
        lemma_lines_within_chars(text@);
    }
    if text.is_empty() {
        0
    } else {
        let all = lines(text);
        assert(texts(all@).len() == all@.len());
        if ends_with(text, "\n") {
            all.len() + 1
        } else {
            all.len()
        }
    }
}

/// A document with this text and metadata.
pub fn make_document(text: String, metadata: Metadata) -> (r: Result<Document, String>)
    ensures
        document_seen(r) == document_of(text@, metadata_model(metadata)),
{
    if byte_count(text.as_str()) > MAX_DOCUMENT_BYTES {
        return Err(document_too_large());
    }
    Ok(
        Document {
            path: DOCS_DOCUMENT_PATH,
            bytes: byte_count(text.as_str()),
            lines: line_count(text.as_str()),
            text,
            format: metadata.0,
            source_name: metadata.1,
            warnings: metadata.2,
        },
    )
}

pub fn read_document(vm: &VmInstance) -> (r: Result<Document, String>)
    ensures
        document_seen(r) == document_in(vm@.fs),
{
    let text = match vm.read_text(DOCS_DOCUMENT_PATH) {
        Err(error) => return Err(error.to_text()),
        Ok(text) => text,
    };
    let metadata = match vm.read_text(DOCS_METADATA_PATH) {
        Err(_) => plain_document_metadata(),
        Ok(encoded) => match read_json(encoded.as_str()) {
            Err(_) => plain_document_metadata(),
            Ok(json) => match read_metadata(&json) {
                None => plain_document_metadata(),
                Some(metadata) => metadata,
            },
        },
    };
    make_document(text, metadata)
}

pub fn open_docs(vm: &mut VmInstance) -> (r: Result<Document, String>)
    ensures
        final(vm)@ == with_fs(old(vm)@, open_docs_in(old(vm)@.fs).0),
        document_seen(r) == open_docs_in(old(vm)@.fs).1,
{
    match vm.mkdir(DOCS_ROOT, true) {
        Err(error) => return Err(error.to_text()),
        Ok(_) => {},
    }
    match vm.read_file(DOCS_DOCUMENT_PATH) {
        Ok(_) => {},
        Err(_) => {
            let empty: Vec<u8> = Vec::new();
            assert(empty@ =~= Seq::<u8>::empty());
            match vm.write_file(DOCS_DOCUMENT_PATH, empty.as_slice()) {
                Err(error) => return Err(error.to_text()),
                Ok(_) => {},
            }
        },
    }
    read_document(vm)
}

pub fn replace_document(vm: &mut VmInstance, text: &str) -> (r: Result<Document, String>)
    ensures
        final(vm)@ == with_fs(
            old(vm)@,
            replace_in(old(vm)@.fs, text@, json_layout(metadata_json(plain_metadata()))).0,
        ),
        document_seen(r) == replace_in(
            old(vm)@.fs,
            text@,
            json_layout(metadata_json(plain_metadata())),
        ).1,
{
    let metadata = plain_document_metadata();
    replace_document_with_metadata(vm, text, metadata)
}

/// Persist normalized text extracted by a format reader. The reader has already
/// consumed copied guest bytes outside the VM lock; this function only writes
/// bounded guest artifacts.
pub fn replace_document_with_metadata(
    vm: &mut VmInstance,
    text: &str,
    metadata: (String, Option<String>, Vec<String>),
) -> (r: Result<Document, String>)
    ensures
        final(vm)@ == with_fs(
            old(vm)@,
            replace_in(
                old(vm)@.fs,
                text@,
                json_layout(metadata_json(metadata_model(metadata))),
            ).0,
        ),
        document_seen(r) == replace_in(
            old(vm)@.fs,
            text@,
            json_layout(metadata_json(metadata_model(metadata))),
        ).1,
{
    let encoded = laid_out(write_metadata(&metadata).as_str());
    replace_document_encoded(vm, text, encoded)
}

/// Replaces the document, given what its metadata is encoded as.
pub fn replace_document_encoded(
    vm: &mut VmInstance,
    text: &str,
    encoded: Result<Vec<u8>, String>,
) -> (r: Result<Document, String>)
    ensures
        final(vm)@ == with_fs(
            old(vm)@,
            replace_in(old(vm)@.fs, text@, encoding(encoded)).0,
        ),
        document_seen(r) == replace_in(old(vm)@.fs, text@, encoding(encoded)).1,
{
    if byte_count(text) > MAX_DOCUMENT_BYTES {
        return Err(document_too_large());
    }
    match vm.mkdir(DOCS_ROOT, true) {
        Err(error) => return Err(error.to_text()),
        Ok(_) => {},
    }
    match vm.write_file(DOCS_DOCUMENT_PATH, text.as_bytes()) {
        Err(error) => return Err(error.to_text()),
        Ok(_) => {},
    }
    let bytes = match encoded {
        Err(message) => return Err(encode_failure("document metadata", message.as_str())),
        Ok(bytes) => bytes,
    };
    match vm.write_file(DOCS_METADATA_PATH, bytes.as_slice()) {
        Err(error) => return Err(error.to_text()),
        Ok(_) => {},
    }
    read_document(vm)
}

pub fn append_document(vm: &mut VmInstance, text: &str) -> (r: Result<Document, String>)
    ensures
        final(vm)@ == with_fs(old(vm)@, append_in(old(vm)@.fs, text@).0),
        document_seen(r) == append_in(old(vm)@.fs, text@).1,
{
    if byte_count(text) > MAX_DOCUMENT_BYTES {
        return Err(document_too_large());
    }
    let mut whole = match open_docs(vm) {
        Err(message) => return Err(message),
        Ok(document) => document.text,
    };
    whole.push_str(text);
    if byte_count(whole.as_str()) > MAX_DOCUMENT_BYTES {
        return Err(document_too_large());
    }
    match vm.write_file(DOCS_DOCUMENT_PATH, whole.as_str().as_bytes()) {
        Err(error) => return Err(error.to_text()),
        Ok(_) => {},
    }
    read_document(vm)
}

// ---------------------------------------------------------------------------
// Sheets
// ---------------------------------------------------------------------------

#[derive(Debug, Clone, Copy, PartialEq, Eq, Structural)]
pub enum SheetFormat {
    Csv,
    Tsv,
}

pub open spec fn format_delimiter(format: SheetFormat) -> char {
    match format {
        SheetFormat::Csv => ',',
        SheetFormat::Tsv => '\t',
    }
}

pub open spec fn format_name(format: SheetFormat) -> Seq<char> {
    match format {
        SheetFormat::Csv => "csv"@,
        SheetFormat::Tsv => "tsv"@,
    }
}

impl SheetFormat {
    fn delimiter(self) -> (r: char)
        ensures
            r == format_delimiter(self),
    {
        match self {
            SheetFormat::Csv => ',',
            SheetFormat::Tsv => '\t',
        }
    }

    fn name(self) -> (r: &'static str)
        ensures
            r@ == format_name(self),
    {
        match self {
            SheetFormat::Csv => "csv",
            SheetFormat::Tsv => "tsv",
        }
    }
}

#[derive(Debug, PartialEq, Eq)]
pub struct SheetColumn {
    pub name: String,
    pub non_empty: usize,
    pub numeric: usize,
}

impl View for SheetColumn {
    type V = ColumnModel;

    open spec fn view(&self) -> ColumnModel {
        ColumnModel {
            name: self.name@,
            non_empty: self.non_empty as nat,
            numeric: self.numeric as nat,
        }
    }
}

pub open spec fn sheet_column_models(columns: Seq<SheetColumn>) -> Seq<ColumnModel> {
    Seq::new(columns.len(), |i: int| columns[i]@)
}

#[derive(Debug, PartialEq, Eq)]
pub struct SheetSummary {
    pub input_path: String,
    pub output_path: &'static str,
    pub format: String,
    pub sheet_name: String,
    pub rows: usize,
    pub columns: Vec<SheetColumn>,
    pub preview: Vec<Vec<String>>,
    pub warnings: Vec<String>,
}

/// What a [`SheetSummary`] says.
#[verifier::ext_equal]
pub struct SheetModel {
    pub input_path: Seq<char>,
    pub output_path: Seq<char>,
    pub format: Seq<char>,
    pub sheet_name: Seq<char>,
    pub rows: nat,
    pub columns: Seq<ColumnModel>,
    pub preview: Rows,
    pub warnings: Seq<Seq<char>>,
}

impl View for SheetSummary {
    type V = SheetModel;

    open spec fn view(&self) -> SheetModel {
        SheetModel {
            input_path: self.input_path@,
            output_path: self.output_path@,
            format: self.format@,
            sheet_name: self.sheet_name@,
            rows: self.rows as nat,
            columns: sheet_column_models(self.columns@),
            preview: row_models(self.preview@),
            warnings: texts(self.warnings@),
        }
    }
}

/// What a call says of a sheet.
pub open spec fn sheet_seen(r: Result<SheetSummary, String>) -> Result<SheetModel, Seq<char>> {
    match r {
        Ok(summary) => Ok(summary@),
        Err(message) => Err(message@),
    }
}

/// What is wrong with the column names of a sheet.
pub open spec fn sheet_header_trouble(headers: Seq<Seq<char>>) -> Option<Seq<char>> {
    if headers.len() < 2 {
        Some("sheet must have at least two non-empty column names"@)
    } else if exists|i: int| 0 <= i < headers.len() && blank(#[trigger] headers[i]) {
        Some("sheet must have non-empty column names"@)
    } else if !distinct(headers) {
        Some("sheet column names must be unique"@)
    } else {
        None
    }
}

/// The number of cells of the header and the first `n` rows.
pub open spec fn cell_count(width: nat, rows: Rows, n: int) -> nat
    decreases n,
{
    if n <= 0 {
        width
    } else {
        cell_count(width, rows, n - 1) + rows[n - 1].len()
    }
}

/// The message for a sheet over a limit.
pub open spec fn over_limit_text(limit: usize, what: Seq<char>) -> Seq<char> {
    "sheet has more than "@ + decimal(limit as nat) + what
}

/// The summary of a worksheet, or why there is none.
pub open spec fn summarize_worksheet(
    headers: Seq<Seq<char>>,
    rows: Rows,
    format: Seq<char>,
    sheet_name: Seq<char>,
    warnings: Seq<Seq<char>>,
    source_path: Seq<char>,
) -> Result<SheetModel, Seq<char>> {
    let cells = cell_count(headers.len(), rows, rows.len() as int);
    if sheet_header_trouble(headers) is Some {
        Err(sheet_header_trouble(headers)->0)
    } else if headers.len() > MAX_SHEET_COLUMNS {
        Err(over_limit_text(MAX_SHEET_COLUMNS, " columns"@))
    } else if rows.len() > MAX_SHEET_ROWS {
        Err(over_limit_text(MAX_SHEET_ROWS, " data rows"@))
    } else if cells > usize::MAX {
        Err("sheet cell count overflowed"@)
    } else if cells > MAX_SHEET_CELLS {
        Err(over_limit_text(MAX_SHEET_CELLS, " cells"@))
    } else {
        match first_irregular(rows, headers.len(), 0) {
            Some(index) => Err(irregular_text(rows, headers.len(), index)),
            None => Ok(
                SheetModel {
                    input_path: source_path,
                    output_path: SHEETS_SUMMARY_PATH@,
                    format,
                    sheet_name,
                    rows: rows.len(),
                    columns: summarize_columns(headers, rows),
                    preview: preview_rows(rows, PREVIEW_ROWS as nat),
                    warnings,
                },
            ),
        }
    }
}

/// The summary of a delimited sheet, or why there is none.
pub open spec fn summarize_source(source: Seq<char>, format: SheetFormat) -> Result<
    SheetModel,
    Seq<char>,
> {
    match parse_table(source, format_delimiter(format)) {
        Err(flaw) => Err(flaw_text(flaw, "sheet"@)),
        Ok(records) => if records.len() == 0 {
            Err("sheet is empty"@)
        } else {
            summarize_worksheet(
                records[0],
                records.skip(1),
                format_name(format),
                "Sheet1"@,
                Seq::empty(),
                SHEETS_INPUT_PATH@,
            )
        },
    }
}

/// The format of a sheet: which of the two delimiters its first row has more of.
pub open spec fn sheet_format(source: Seq<char>) -> Result<SheetFormat, Seq<char>> {
    match first_shown(lines_of(source), 0) {
        None => Err("sheet is empty"@),
        Some(line) => {
            let tabs = occurrences(line, '\t');
            let commas = occurrences(line, ',');
            if tabs == 0 && commas == 0 {
                Err("sheet must be CSV or TSV with at least two columns"@)
            } else if tabs > commas {
                Ok(SheetFormat::Tsv)
            } else {
                Ok(SheetFormat::Csv)
            }
        },
    }
}

/// A sheet summary as JSON.
pub open spec fn sheet_json(m: SheetModel) -> Seq<char> {
    object_text(
        seq![
            ("input_path"@, json_string(m.input_path)),
            ("output_path"@, json_string(m.output_path)),
            ("format"@, json_string(m.format)),
            ("sheet_name"@, json_string(m.sheet_name)),
            ("rows"@, decimal(m.rows)),
            ("columns"@, columns_json(m.columns)),
            ("preview"@, rows_json(m.preview)),
            ("warnings"@, strings_text(m.warnings)),
        ],
    )
}

/// The message for a sheet that is too large.
pub open spec fn oversized_sheet() -> Seq<char> {
    "sheet exceeds "@ + decimal(MAX_SHEET_BYTES as nat) + " bytes"@
}

/// Keeping a sheet and its summary, given what the summary is encoded as.
pub open spec fn keep_sheet(
    fs: FsState,
    source: Seq<char>,
    summary: SheetModel,
    encoded: Result<Seq<u8>, Seq<char>>,
) -> (FsState, Result<SheetModel, Seq<char>>) {
    match encoded {
        Err(message) => (fs, Err("failed to encode "@ + "sheet summary"@ + ": "@ + message)),
        Ok(bytes) => {
            let (made, outcome) = mkdir_at(fs, SHEETS_ROOT@, true);
            match outcome {
                Err(trouble) => (made, Err(trouble_text(trouble))),
                Ok(_) => {
                    let (kept, outcome) = write_at(made, SHEETS_INPUT_PATH@, encode_utf8(source));
                    match outcome {
                        Err(trouble) => (kept, Err(trouble_text(trouble))),
                        Ok(_) => {
                            let (noted, outcome) = write_at(kept, SHEETS_SUMMARY_PATH@, bytes);
                            match outcome {
                                Err(trouble) => (noted, Err(trouble_text(trouble))),
                                Ok(_) => (noted, Ok(summary)),
                            }
                        },
                    }
                },
            }
        },
    }
}

/// Importing a delimited sheet.
pub open spec fn import_in(fs: FsState, source: Seq<char>, format: SheetFormat) -> (
    FsState,
    Result<SheetModel, Seq<char>>,
) {
    if byte_len(source) > MAX_SHEET_BYTES {
        (fs, Err(oversized_sheet()))
    } else {
        match summarize_source(source, format) {
            Err(message) => (fs, Err(message)),
            Ok(summary) => keep_sheet(fs, source, summary, json_layout(sheet_json(summary))),
        }
    }
}

/// Summarising the sheet that is there.
pub open spec fn summarize_in(fs: FsState) -> (FsState, Result<SheetModel, Seq<char>>) {
    match text_at(fs, SHEETS_INPUT_PATH@) {
        Err(trouble) => (fs, Err(trouble_text(trouble))),
        Ok(source) => if byte_len(source) > MAX_SHEET_BYTES {
            (fs, Err(oversized_sheet()))
        } else {
            match sheet_format(source) {
                Err(message) => (fs, Err(message)),
                Ok(format) => match summarize_source(source, format) {
                    Err(message) => (fs, Err(message)),
                    Ok(summary) => keep_summary(fs, summary, json_layout(sheet_json(summary))),
                },
            }
        },
    }
}

/// Keeping a summary alone, given what it is encoded as.
pub open spec fn keep_summary(
    fs: FsState,
    summary: SheetModel,
    encoded: Result<Seq<u8>, Seq<char>>,
) -> (FsState, Result<SheetModel, Seq<char>>) {
    match encoded {
        Err(message) => (fs, Err("failed to encode "@ + "sheet summary"@ + ": "@ + message)),
        Ok(bytes) => {
            let (noted, outcome) = write_at(fs, SHEETS_SUMMARY_PATH@, bytes);
            match outcome {
                Err(trouble) => (noted, Err(trouble_text(trouble))),
                Ok(_) => (noted, Ok(summary)),
            }
        },
    }
}

/// Opening the sheet: an example is imported where there is none.
pub open spec fn open_sheets_in(fs: FsState) -> (FsState, Result<SheetModel, Seq<char>>) {
    let (made, outcome) = mkdir_at(fs, SHEETS_ROOT@, true);
    match outcome {
        Err(trouble) => (made, Err(trouble_text(trouble))),
        Ok(_) => if file_at(made, SHEETS_INPUT_PATH@) is Err {
            import_in(made, "item\tquantity\nexample\t1\n"@, SheetFormat::Tsv)
        } else {
            summarize_in(made)
        },
    }
}

/// Keeping a worksheet that was already read.
pub open spec fn import_records_in(
    fs: FsState,
    summary: Result<SheetModel, Seq<char>>,
) -> (FsState, Result<SheetModel, Seq<char>>) {
    match summary {
        Err(message) => (fs, Err(message)),
        Ok(summary) => {
            let (after, failure) = keep_artifact(
                fs,
                SHEETS_ROOT@,
                SHEETS_SUMMARY_PATH@,
                json_layout(sheet_json(summary)),
                "sheet summary"@,
            );
            match failure {
                Some(message) => (after, Err(message)),
                None => (after, Ok(summary)),
            }
        },
    }
}

fn validate_headers(headers: &Vec<String>) -> (r: Result<(), String>)
    ensures
        match r {
            Ok(_) => sheet_header_trouble(texts(headers@)) is None,
            Err(message) => sheet_header_trouble(texts(headers@)) == Some(message@),
        },
{
    if headers.len() < 2 {
        return Err("sheet must have at least two non-empty column names".to_owned());
    }
    if has_blank(headers) {
        return Err("sheet must have non-empty column names".to_owned());
    }
    if !are_distinct(headers) {
        return Err("sheet column names must be unique".to_owned());
    }
    Ok(())
}

fn over_limit(limit: usize, what: &str) -> (r: String)
    ensures
        r@ == over_limit_text(limit, what@),
{
    let mut r = "sheet has more than ".to_owned();
    r.push_str(size_text(limit).as_str());
    r.push_str(what);
    r
}

proof fn lemma_cell_count_grows(width: nat, rows: Rows, i: int, n: int)
    requires
        0 <= i <= n,
    ensures
        cell_count(width, rows, i) <= cell_count(width, rows, n),
    decreases n - i,
{
    if i < n {
        lemma_cell_count_grows(width, rows, i, n - 1);
    }
}

/// The number of cells of a sheet, when it fits.
pub fn count_cells(width: usize, rows: &[Vec<String>]) -> (r: Option<usize>)
    ensures
        match r {
            Some(cells) => cells == cell_count(
                width as nat,
                row_models(rows@),
                rows@.len() as int,
            ),
            None => cell_count(width as nat, row_models(rows@), rows@.len() as int) > usize::MAX,
        },
{
    let ghost all = row_models(rows@);
    let mut cells: usize = width;
    let mut i: usize = 0;
    while i < rows.len()
        invariant
            i <= rows@.len(),
            all == row_models(rows@),
            cells == cell_count(width as nat, all, i as int),
        decreases rows@.len() - i,
    {
        assert(all[i as int] == texts(rows@[i as int]@));
        match cells.checked_add(rows[i].len()) {
            Some(sum) => {
                cells = sum;
            },
            None => {
                proof {
                    lemma_cell_count_grows(width as nat, all, i + 1, all.len() as int);
                }
                return None;
            },
        }
        i += 1;
    }
    Some(cells)
}

fn sheet_columns(columns: Vec<ColumnSummary>) -> (r: Vec<SheetColumn>)
    ensures
        sheet_column_models(r@) == column_models(columns@),
{
    let mut r: Vec<SheetColumn> = Vec::new();
    let mut i: usize = 0;
    while i < columns.len()
        invariant
            i <= columns@.len(),
            sheet_column_models(r@) == column_models(columns@).take(i as int),
        decreases columns@.len() - i,
    {
        let column = SheetColumn {
            name: columns[i].name.clone(),
            non_empty: columns[i].non_empty,
            numeric: columns[i].numeric,
        };
        let ghost before = r@;
        r.push(column);
        assert(sheet_column_models(r@) =~= sheet_column_models(before).push(column@));
        assert(column_models(columns@).take(i + 1)
            =~= column_models(columns@).take(i as int).push(columns@[i as int]@));
        i += 1;
    }
    assert(column_models(columns@).take(columns@.len() as int)
        =~= column_models(columns@));
    r
}

/// The summary of a worksheet.
pub fn summarize_records(
    headers: &Vec<String>,
    rows: &[Vec<String>],
    format: &str,
    sheet_name: String,
    warnings: Vec<String>,
    source_path: &str,
) -> (r: Result<SheetSummary, String>)
    ensures
        sheet_seen(r) == summarize_worksheet(
            texts(headers@),
            row_models(rows@),
            format@,
            sheet_name@,
            texts(warnings@),
            source_path@,
        ),
{
    match validate_headers(headers) {
        Err(message) => return Err(message),
        Ok(_) => {},
    }
    if headers.len() > MAX_SHEET_COLUMNS {
        return Err(over_limit(MAX_SHEET_COLUMNS, " columns"));
    }
    if rows.len() > MAX_SHEET_ROWS {
        return Err(over_limit(MAX_SHEET_ROWS, " data rows"));
    }
    match count_cells(headers.len(), rows) {
        None => return Err("sheet cell count overflowed".to_owned()),
        Some(cells) => {
            if cells > MAX_SHEET_CELLS {
                return Err(over_limit(MAX_SHEET_CELLS, " cells"));
            }
        },
    }
    match check_widths(rows, headers.len()) {
        Err(message) => return Err(message),
        Ok(_) => {},
    }
    Ok(
        SheetSummary {
            input_path: source_path.to_owned(),
            output_path: SHEETS_SUMMARY_PATH,
            format: format.to_owned(),
            sheet_name,
            rows: rows.len(),
            columns: sheet_columns(columns_of(headers, rows)),
            preview: preview(rows, PREVIEW_ROWS),
            warnings,
        },
    )
}

/// The summary of a delimited sheet.
pub fn summarize_sheet(source: &str, format: SheetFormat) -> (r: Result<SheetSummary, String>)
    ensures
        sheet_seen(r) == summarize_source(source@, format),
{
    let records = match parse_delimited(source, format.delimiter()) {
        Err(flaw) => return Err(flaw_message(flaw, "sheet")),
        Ok(records) => records,
    };
    if records.len() == 0 {
        return Err("sheet is empty".to_owned());
    }
    let headers = &records[0];
    let rows = vstd::slice::slice_subrange(records.as_slice(), 1, records.len());
    let none: Vec<String> = Vec::new();
    proof {
        let all = row_models(records@);
        assert(all[0] == texts(headers@));
        assert(row_models(rows@) =~= all.skip(1));
        assert(texts(none@) =~= Seq::<Seq<char>>::empty());
    }
    summarize_records(
        headers,
        rows,
        format.name(),
        "Sheet1".to_owned(),
        none,
        SHEETS_INPUT_PATH,
    )
}

/// The format of a sheet.
pub fn detect_format(source: &str) -> (r: Result<SheetFormat, String>)
    ensures
        match r {
            Ok(format) => sheet_format(source@) == Ok::<SheetFormat, Seq<char>>(format),
            Err(message) => sheet_format(source@) == Err::<SheetFormat, Seq<char>>(message@),
        },
{
    match first_shown_line(source) {
        None => Err("sheet is empty".to_owned()),
        Some(line) => {
            let tabs = count_char(line.as_str(), '\t');
            let commas = count_char(line.as_str(), ',');
            if tabs == 0 && commas == 0 {
                Err("sheet must be CSV or TSV with at least two columns".to_owned())
            } else if tabs > commas {
                Ok(SheetFormat::Tsv)
            } else {
                Ok(SheetFormat::Csv)
            }
        },
    }
}

fn write_sheet_columns(columns: &Vec<SheetColumn>) -> (r: String)
    ensures
        r@ == columns_json(sheet_column_models(columns@)),
{
    let ghost all = Seq::new(columns@.len(), |i: int| column_json(sheet_column_models(columns@)[i]));
    let mut parts: Vec<String> = Vec::new();
    let mut i: usize = 0;
    while i < columns.len()
        invariant
            i <= columns@.len(),
            all == Seq::new(
                columns@.len(),
                |i: int| column_json(sheet_column_models(columns@)[i]),
            ),
            texts(parts@) == all.take(i as int),
        decreases columns@.len() - i,
    {
        let part = write_column(columns[i].name.as_str(), columns[i].non_empty, columns[i].numeric);
        assert(sheet_column_models(columns@)[i as int] == columns@[i as int]@);
        let ghost before = parts@;
        parts.push(part);
        assert(texts(parts@) =~= texts(before).push(part@));
        assert(all.take(i + 1) =~= all.take(i as int).push(all[i as int]));
        i += 1;
    }
    assert(all.take(all.len() as int) =~= all);
    assert(all =~= Seq::new(
        sheet_column_models(columns@).len(),
        |i: int| column_json(sheet_column_models(columns@)[i]),
    ));
    write_array(&parts)
}

fn write_summary(summary: &SheetSummary) -> (r: String)
    ensures
        r@ == sheet_json(summary@),
{
    let fields = vec![
        field("input_path", quoted(summary.input_path.as_str())),
        field("output_path", quoted(summary.output_path)),
        field("format", quoted(summary.format.as_str())),
        field("sheet_name", quoted(summary.sheet_name.as_str())),
        field("rows", size_text(summary.rows)),
        field("columns", write_sheet_columns(&summary.columns)),
        field("preview", write_rows(&summary.preview)),
        field("warnings", write_strings(&summary.warnings)),
    ];
    let ghost m = summary@;
    assert(field_models(fields@) =~= seq![
        ("input_path"@, json_string(m.input_path)),
        ("output_path"@, json_string(m.output_path)),
        ("format"@, json_string(m.format)),
        ("sheet_name"@, json_string(m.sheet_name)),
        ("rows"@, decimal(m.rows)),
        ("columns"@, columns_json(m.columns)),
        ("preview"@, rows_json(m.preview)),
        ("warnings"@, strings_text(m.warnings)),
    ]);
    write_object(&fields)
}

fn sheet_too_large() -> (r: String)
    ensures
        r@ == oversized_sheet(),
{
    let mut r = "sheet exceeds ".to_owned();
    r.push_str(size_text(MAX_SHEET_BYTES).as_str());
    r.push_str(" bytes");
    r
}

/// Keeps a sheet and its summary, given what the summary is encoded as.
pub fn store_sheet(
    vm: &mut VmInstance,
    source: &str,
    summary: SheetSummary,
    encoded: Result<Vec<u8>, String>,
) -> (r: Result<SheetSummary, String>)
    ensures
        final(vm)@ == with_fs(
            old(vm)@,
            keep_sheet(old(vm)@.fs, source@, summary@, encoding(encoded)).0,
        ),
        sheet_seen(r) == keep_sheet(old(vm)@.fs, source@, summary@, encoding(encoded)).1,
{
    let bytes = match encoded {
        Err(message) => return Err(encode_failure("sheet summary", message.as_str())),
        Ok(bytes) => bytes,
    };
    match vm.mkdir(SHEETS_ROOT, true) {
        Err(error) => return Err(error.to_text()),
        Ok(_) => {},
    }
    match vm.write_file(SHEETS_INPUT_PATH, source.as_bytes()) {
        Err(error) => return Err(error.to_text()),
        Ok(_) => {},
    }
    match vm.write_file(SHEETS_SUMMARY_PATH, bytes.as_slice()) {
        Err(error) => return Err(error.to_text()),
        Ok(_) => {},
    }
    Ok(summary)
}

/// Keeps a summary alone, given what it is encoded as.
pub fn store_summary(
    vm: &mut VmInstance,
    summary: SheetSummary,
    encoded: Result<Vec<u8>, String>,
) -> (r: Result<SheetSummary, String>)
    ensures
        final(vm)@ == with_fs(
            old(vm)@,
            keep_summary(old(vm)@.fs, summary@, encoding(encoded)).0,
        ),
        sheet_seen(r) == keep_summary(old(vm)@.fs, summary@, encoding(encoded)).1,
{
    let bytes = match encoded {
        Err(message) => return Err(encode_failure("sheet summary", message.as_str())),
        Ok(bytes) => bytes,
    };
    match vm.write_file(SHEETS_SUMMARY_PATH, bytes.as_slice()) {
        Err(error) => return Err(error.to_text()),
        Ok(_) => {},
    }
    Ok(summary)
}

pub fn import_sheet(vm: &mut VmInstance, source: &str, format: SheetFormat) -> (r: Result<
    SheetSummary,
    String,
>)
    ensures
        final(vm)@ == with_fs(old(vm)@, import_in(old(vm)@.fs, source@, format).0),
        sheet_seen(r) == import_in(old(vm)@.fs, source@, format).1,
{
    if byte_count(source) > MAX_SHEET_BYTES {
        return Err(sheet_too_large());
    }
    let summary = match summarize_sheet(source, format) {
        Err(message) => return Err(message),
        Ok(summary) => summary,
    };
    let encoded = laid_out(write_summary(&summary).as_str());
    store_sheet(vm, source, summary, encoded)
}

pub fn summarize_existing_sheet(vm: &mut VmInstance) -> (r: Result<SheetSummary, String>)
    ensures
        final(vm)@ == with_fs(old(vm)@, summarize_in(old(vm)@.fs).0),
        sheet_seen(r) == summarize_in(old(vm)@.fs).1,
{
    let source = match vm.read_text(SHEETS_INPUT_PATH) {
        Err(error) => return Err(error.to_text()),
        Ok(source) => source,
    };
    if byte_count(source.as_str()) > MAX_SHEET_BYTES {
        return Err(sheet_too_large());
    }
    let format = match detect_format(source.as_str()) {
        Err(message) => return Err(message),
        Ok(format) => format,
    };
    let summary = match summarize_sheet(source.as_str(), format) {
        Err(message) => return Err(message),
        Ok(summary) => summary,
    };
    let encoded = laid_out(write_summary(&summary).as_str());
    store_summary(vm, summary, encoded)
}

pub fn open_sheets(vm: &mut VmInstance) -> (r: Result<SheetSummary, String>)
    ensures
        final(vm)@ == with_fs(old(vm)@, open_sheets_in(old(vm)@.fs).0),
        sheet_seen(r) == open_sheets_in(old(vm)@.fs).1,
{
    match vm.mkdir(SHEETS_ROOT, true) {
        Err(error) => return Err(error.to_text()),
        Ok(_) => {},
    }
    match vm.read_file(SHEETS_INPUT_PATH) {
        Err(_) => import_sheet(vm, "item\tquantity\nexample\t1\n", SheetFormat::Tsv),
        Ok(_) => summarize_existing_sheet(vm),
    }
}

/// Store an already parsed worksheet from a host-only format reader.
pub fn import_sheet_records(
    vm: &mut VmInstance,
    headers: Vec<String>,
    rows: Vec<Vec<String>>,
    format: &str,
    sheet_name: String,
    warnings: Vec<String>,
    source_path: &str,
) -> (r: Result<SheetSummary, String>)
    ensures
        final(vm)@ == with_fs(
            old(vm)@,
            import_records_in(
                old(vm)@.fs,
                summarize_worksheet(
                    texts(headers@),
                    row_models(rows@),
                    format@,
                    sheet_name@,
                    texts(warnings@),
                    source_path@,
                ),
            ).0,
        ),
        sheet_seen(r) == import_records_in(
            old(vm)@.fs,
            summarize_worksheet(
                texts(headers@),
                row_models(rows@),
                format@,
                sheet_name@,
                texts(warnings@),
                source_path@,
            ),
        ).1,
{
    let summary = match summarize_records(
        &headers,
        rows.as_slice(),
        format,
        sheet_name,
        warnings,
        source_path,
    ) {
        Err(message) => return Err(message),
        Ok(summary) => summary,
    };
    let encoded = laid_out(write_summary(&summary).as_str());
    match store_artifact(vm, SHEETS_ROOT, SHEETS_SUMMARY_PATH, encoded, "sheet summary") {
        Err(message) => Err(message),
        Ok(_) => Ok(summary),
    }
}

// ---------------------------------------------------------------------------
// Laws
// ---------------------------------------------------------------------------

proof fn lemma_document_paths()
    ensures
        normalize(DOCS_DOCUMENT_PATH@, "/"@) != normalize(DOCS_METADATA_PATH@, "/"@),
{
    let head = seq!["workspace"@, "apps"@, "docs"@];
    let document = head.push("document.txt"@);
    let metadata = head.push("document.json"@);
    lemma_docs_path("document.txt"@);
    lemma_docs_path("document.json"@);
    reveal_strlit("/workspace/apps/docs/document.txt");
    reveal_strlit("/workspace/apps/docs/document.json");
    reveal_strlit("/workspace/apps/docs/");
    reveal_strlit("document.txt");
    reveal_strlit("document.json");
    assert("/workspace/apps/docs/"@ + "document.txt"@ =~= DOCS_DOCUMENT_PATH@);
    assert("/workspace/apps/docs/"@ + "document.json"@ =~= DOCS_METADATA_PATH@);
    assert("document.txt"@.len() != "document.json"@.len());
    assert(document[3] != metadata[3]);
}

proof fn lemma_docs_path(name: Seq<char>)
    requires
        name == "document.txt"@ || name == "document.json"@,
    ensures
        normalize("/workspace/apps/docs/"@ + name, "/"@) == Ok::<Seq<Seq<char>>, Trouble>(
            seq!["workspace"@, "apps"@, "docs"@].push(name),
        ),
{
    let names = seq!["workspace"@, "apps"@, "docs"@].push(name);
    reveal_strlit("workspace");
    reveal_strlit("apps");
    reveal_strlit("docs");
    reveal_strlit("document.txt");
    reveal_strlit("document.json");
    reveal_strlit("/workspace/apps/docs/");
    reveal_strlit("/");
    reveal_strlit("");
    reveal_strlit(".");
    reveal_strlit("..");
    reveal_with_fuel(joined, 5);
    assert(names.skip(1) =~= seq!["apps"@, "docs"@, name]);
    assert(display(names) =~= "/workspace/apps/docs/"@ + name);
    assert forall|i: int| 0 <= i < names.len() implies proper_name(#[trigger] names[i]) by {
        assert(names[0] == "workspace"@);
        assert(names[1] == "apps"@);
        assert(names[2] == "docs"@);
        assert(names[3] == name);
    }
    law_normalize_undoes_display(names, "/"@);
}

/// A document that was replaced reads back as the text it was replaced with.
pub proof fn law_replaced_documents_read_back(
    fs: FsState,
    text: Seq<char>,
    encoded: Result<Seq<u8>, Seq<char>>,
)
    requires
        sound_fs(fs),
    ensures
        replace_in(fs, text, encoded).1 matches Ok(document) ==> document.text == text,
        sound_fs(replace_in(fs, text, encoded).0),
{
    lemma_docs_root(fs);
    let made = mkdir_at(fs, DOCS_ROOT@, true).0;
    law_write_then_read(made, DOCS_DOCUMENT_PATH@, encode_utf8(text), DOCS_DOCUMENT_PATH@);
    let written = write_at(made, DOCS_DOCUMENT_PATH@, encode_utf8(text)).0;
    if let Ok(bytes) = encoded {
        law_write_then_read(written, DOCS_METADATA_PATH@, bytes, DOCS_DOCUMENT_PATH@);
    }
    lemma_document_paths();
    encode_utf8_valid_utf8(text);
    encode_utf8_decode_utf8(text);
}

proof fn lemma_docs_root(fs: FsState)
    requires
        sound_fs(fs),
    ensures
        sound_fs(mkdir_at(fs, DOCS_ROOT@, true).0),
{
    if let Ok(names) = normalize(DOCS_ROOT@, "/"@) {
        reveal_strlit("/");
        law_normalized_paths_are_proper(DOCS_ROOT@, "/"@);
        law_mkdir_makes_a_directory(fs, names, true, names);
    }
}

/// Appending puts the text behind what the document held.
pub proof fn law_appended_documents_read_back(fs: FsState, text: Seq<char>)
    requires
        sound_fs(fs),
    ensures
        append_in(fs, text).1 matches Ok(document) ==> open_docs_in(fs).1 matches Ok(before)
            && document.text == before.text + text,
        sound_fs(append_in(fs, text).0),
{
    lemma_docs_root(fs);
    let made = mkdir_at(fs, DOCS_ROOT@, true).0;
    law_write_then_read(made, DOCS_DOCUMENT_PATH@, Seq::empty(), DOCS_DOCUMENT_PATH@);
    let (opened, document) = open_docs_in(fs);
    if let Ok(before) = document {
        let whole = before.text + text;
        law_write_then_read(opened, DOCS_DOCUMENT_PATH@, encode_utf8(whole), DOCS_DOCUMENT_PATH@);
        encode_utf8_valid_utf8(whole);
        encode_utf8_decode_utf8(whole);
    }
}

/// Appending succeeds when the document can be opened and written, and stays within its bound; its
/// metadata stays as it was.
pub proof fn law_appending_succeeds_within_the_bound(fs: FsState, text: Seq<char>)
    requires
        sound_fs(fs),
        byte_len(text) <= MAX_DOCUMENT_BYTES,
        open_docs_in(fs).1 matches Ok(before) && byte_len(before.text + text)
            <= MAX_DOCUMENT_BYTES && write_at(
            open_docs_in(fs).0,
            DOCS_DOCUMENT_PATH@,
            encode_utf8(before.text + text),
        ).1 is Ok,
    ensures
        append_in(fs, text).1 matches Ok(document) && open_docs_in(fs).1 matches Ok(before)
            && document.text == before.text + text && document.metadata == before.metadata,
{
    lemma_docs_root(fs);
    lemma_document_paths();
    let made = mkdir_at(fs, DOCS_ROOT@, true).0;
    law_write_then_read(made, DOCS_DOCUMENT_PATH@, Seq::empty(), DOCS_METADATA_PATH@);
    let (opened, document) = open_docs_in(fs);
    let whole = document->Ok_0.text + text;
    law_write_then_read(opened, DOCS_DOCUMENT_PATH@, encode_utf8(whole), DOCS_METADATA_PATH@);
    encode_utf8_valid_utf8(whole);
    encode_utf8_decode_utf8(whole);
}

proof fn lemma_docs_root_keeps_files(fs: FsState, other: Seq<char>)
    requires
        sound_fs(fs),
        file_at(fs, other) is Ok,
    ensures
        file_at(mkdir_at(fs, DOCS_ROOT@, true).0, other) == file_at(fs, other),
{
    if let Ok(names) = normalize(DOCS_ROOT@, "/"@) {
        reveal_strlit("/");
        law_normalized_paths_are_proper(DOCS_ROOT@, "/"@);
        law_mkdir_makes_a_directory(fs, names, true, normalize(other, "/"@)->Ok_0);
    }
}

/// Appending touches no file but the document.
pub proof fn law_appending_leaves_other_files_alone(fs: FsState, text: Seq<char>, other: Seq<char>)
    requires
        sound_fs(fs),
        normalize(other, "/"@) != normalize(DOCS_DOCUMENT_PATH@, "/"@),
        file_at(fs, other) is Ok,
    ensures
        file_at(append_in(fs, text).0, other) == file_at(fs, other),
{
    lemma_docs_root(fs);
    lemma_docs_root_keeps_files(fs, other);
    let made = mkdir_at(fs, DOCS_ROOT@, true).0;
    law_write_then_read(made, DOCS_DOCUMENT_PATH@, Seq::empty(), other);
    let (opened, document) = open_docs_in(fs);
    if let Ok(before) = document {
        law_write_then_read(
            opened,
            DOCS_DOCUMENT_PATH@,
            encode_utf8(before.text + text),
            other,
        );
    }
}

proof fn lemma_docs_root_path()
    ensures
        normalize(DOCS_ROOT@, "/"@) == Ok::<Seq<Seq<char>>, Trouble>(
            seq!["workspace"@, "apps"@, "docs"@],
        ),
{
    let names = seq!["workspace"@, "apps"@, "docs"@];
    reveal_strlit("workspace");
    reveal_strlit("apps");
    reveal_strlit("docs");
    reveal_strlit("/workspace/apps/docs");
    reveal_strlit("/");
    reveal_strlit("");
    reveal_strlit(".");
    reveal_strlit("..");
    reveal_with_fuel(joined, 4);
    assert(names.skip(1) =~= seq!["apps"@, "docs"@]);
    assert(display(names) =~= DOCS_ROOT@);
    assert forall|i: int| 0 <= i < names.len() implies proper_name(#[trigger] names[i]) by {
        assert(names[0] == "workspace"@);
        assert(names[1] == "apps"@);
        assert(names[2] == "docs"@);
    }
    law_normalize_undoes_display(names, "/"@);
}

/// A document that was opened is opened again with nothing changed.
pub proof fn law_documents_can_be_opened_again(fs: FsState)
    requires
        sound_fs(fs),
        open_docs_in(fs).1 is Ok,
    ensures
        open_docs_in(open_docs_in(fs).0) == open_docs_in(fs),
        sound_fs(open_docs_in(fs).0),
{
    let root = seq!["workspace"@, "apps"@, "docs"@];
    let path = root.push("document.txt"@);
    reveal_strlit("/");
    reveal_strlit("/workspace/apps/docs/");
    reveal_strlit("document.txt");
    reveal_strlit("/workspace/apps/docs/document.txt");
    lemma_docs_root_path();
    lemma_docs_path("document.txt"@);
    assert("/workspace/apps/docs/"@ + "document.txt"@ =~= DOCS_DOCUMENT_PATH@);
    law_normalized_paths_are_proper(DOCS_ROOT@, "/"@);
    law_mkdir_makes_a_directory(fs, root, true, root);
    let made = mkdir_at(fs, DOCS_ROOT@, true).0;
    law_write_then_read(made, DOCS_DOCUMENT_PATH@, Seq::empty(), DOCS_DOCUMENT_PATH@);
    law_put_then_get::<Vec<String>, FsNode>(
        made.entries,
        path,
        FsNode::File(Seq::empty()),
        root,
    );
    let opened = open_docs_in(fs).0;
    assert(root.len() != path.len());
    assert(node_at(opened.entries, root) == Some(FsNode::Directory));
    law_directories_can_be_made_again(opened, root, true);
}

/// Appending to a document that was opened, where the guest leaves room for it: within the bound
/// the document then reads as what it was with the text behind it, its metadata stays as it was,
/// and no other file is touched. Beyond the bound it is refused and the document stays as it was.
pub proof fn law_appending_to_open_documents(fs: FsState, text: Seq<char>, other: Seq<char>)
    requires
        sound_fs(fs),
        open_docs_in(fs).1 is Ok,
        ({
            let (opened, before) = open_docs_in(fs);
            let whole = before->Ok_0.text + text;
            byte_len(whole) <= MAX_DOCUMENT_BYTES ==> write_at(
                opened,
                DOCS_DOCUMENT_PATH@,
                encode_utf8(whole),
            ).1 is Ok
        }),
        normalize(other, "/"@) != normalize(DOCS_DOCUMENT_PATH@, "/"@),
    ensures
        ({
            let (opened, before) = open_docs_in(fs);
            let held = before->Ok_0;
            let (after, appended) = append_in(opened, text);
            if byte_len(held.text) + byte_len(text) <= MAX_DOCUMENT_BYTES {
                &&& appended matches Ok(document) && {
                    &&& document.text == held.text + text
                    &&& document.bytes == byte_len(held.text) + byte_len(text)
                    &&& document.metadata == held.metadata
                    &&& text_at(after, DOCS_DOCUMENT_PATH@) == Ok::<Seq<char>, Trouble>(
                        document.text,
                    )
                }
                &&& file_at(after, other) == file_at(opened, other)
            } else {
                &&& appended == Err::<DocumentModel, Seq<char>>(oversized_document())
                &&& after == opened
                &&& text_at(after, DOCS_DOCUMENT_PATH@) == Ok::<Seq<char>, Trouble>(held.text)
            }
        }),
{
    let (opened, before) = open_docs_in(fs);
    let held = before->Ok_0;
    let whole = held.text + text;
    law_documents_can_be_opened_again(fs);
    lemma_bytes_add_up(held.text, text);
    lemma_document_paths();
    if byte_len(whole) <= MAX_DOCUMENT_BYTES {
        law_write_then_read(opened, DOCS_DOCUMENT_PATH@, encode_utf8(whole), DOCS_METADATA_PATH@);
        law_write_then_read(opened, DOCS_DOCUMENT_PATH@, encode_utf8(whole), other);
        encode_utf8_valid_utf8(whole);
        encode_utf8_decode_utf8(whole);
    }
}

/// A document has one line more than it has line ends, and an empty one has none.
pub proof fn law_documents_count_their_lines(text: Seq<char>)
    ensures
        text.len() == 0 ==> document_lines(text) == 0,
        text.len() > 0 ==> document_lines(text) == occurrences(text, '\n') + 1,
{
    reveal_strlit("\n");
    lemma_lines_and_ends(text);
    if text.len() > 0 {
        law_texts_hold_their_parts(text, "\n"@);
        if text.last() == '\n' {
            assert(text.skip(text.len() - 1) =~= "\n"@);
        } else if ends(text, "\n"@) {
            assert(text.skip(text.len() - 1)[0] == '\n');
        }
    }
}

proof fn lemma_lines_and_ends(text: Seq<char>)
    ensures
        lines_of(text).len() == occurrences(text, '\n') + (if text.len() > 0 && text.last() != '\n' {
            1int
        } else {
            0int
        }),
    decreases text.len(),
{
    if text.len() > 0 {
        lemma_find_char(text, '\n');
        let i = find_char(text, '\n');
        if i < text.len() {
            let front = text.take(i + 1);
            let rest = text.skip(i + 1);
            lemma_lines_and_ends(rest);
            assert(text =~= front + rest);
            lemma_occurrences_add_up(front, rest, '\n');
            assert(front.drop_last() =~= text.take(i));
            lemma_no_occurrences(text.take(i), '\n');
            if rest.len() > 0 {
                assert(rest.last() == text.last());
            } else {
                assert(text.last() == text[i]);
            }
        } else {
            lemma_no_occurrences(text, '\n');
        }
    }
}

proof fn lemma_no_occurrences(s: Seq<char>, c: char)
    requires
        forall|j: int| 0 <= j < s.len() ==> s[j] != c,
    ensures
        occurrences(s, c) == 0,
    decreases s.len(),
{
    if s.len() > 0 {
        assert forall|j: int| 0 <= j < s.drop_last().len() implies s.drop_last()[j] != c by {
            assert(s.drop_last()[j] == s[j]);
        }
        lemma_no_occurrences(s.drop_last(), c);
    }
}

proof fn lemma_occurrences_add_up(x: Seq<char>, y: Seq<char>, c: char)
    ensures
        occurrences(x + y, c) == occurrences(x, c) + occurrences(y, c),
    decreases y.len(),
{
    if y.len() == 0 {
        assert(x + y =~= x);
    } else {
        assert((x + y).drop_last() =~= x + y.drop_last());
        lemma_occurrences_add_up(x, y.drop_last(), c);
    }
}

/// A sheet that is summarized has at least two columns, with distinct names that show something, at
/// most 256 of them, at most 50000 rows and 100000 cells, and each row is as wide as the header. The
/// summary counts these rows and describes these columns.
pub proof fn law_sheets_are_described(
    headers: Seq<Seq<char>>,
    rows: Rows,
    format: Seq<char>,
    sheet_name: Seq<char>,
    warnings: Seq<Seq<char>>,
    source_path: Seq<char>,
)
    ensures
        summarize_worksheet(headers, rows, format, sheet_name, warnings, source_path) matches Ok(
            sheet,
        ) ==> {
            &&& 2 <= headers.len() <= 256
            &&& rows.len() <= 50_000
            &&& headers.len() + rows.len() * headers.len() <= 100_000
            &&& forall|i: int| 0 <= i < headers.len() ==> !all_white(#[trigger] headers[i])
            &&& forall|i: int, j: int|
                0 <= i < j < headers.len() ==> #[trigger] headers[i] != #[trigger] headers[j]
            &&& forall|i: int| 0 <= i < rows.len() ==> (#[trigger] rows[i]).len() == headers.len()
            &&& sheet.rows == rows.len()
            &&& sheet.columns == summarize_columns(headers, rows)
            &&& sheet.preview == preview_rows(rows, 12)
            &&& sheet.format == format
            &&& sheet.sheet_name == sheet_name
            &&& sheet.warnings == warnings
            &&& sheet.input_path == source_path
        },
{
    if summarize_worksheet(headers, rows, format, sheet_name, warnings, source_path) is Ok {
        law_irregular_rows_are_found(rows, headers.len(), 0);
        lemma_cells_of_a_rectangle(headers.len(), rows, rows.len() as int);
        assert forall|i: int| 0 <= i < headers.len() implies !all_white(#[trigger] headers[i]) by {
            assert(!blank(headers[i]));
            law_blank_texts_are_white(headers[i], ' ');
        }
    }
}

proof fn lemma_cells_of_a_rectangle(width: nat, rows: Rows, n: int)
    requires
        0 <= n <= rows.len(),
        forall|i: int| 0 <= i < rows.len() ==> (#[trigger] rows[i]).len() == width,
    ensures
        cell_count(width, rows, n) == width + n * width,
    decreases n,
{
    if n > 0 {
        lemma_cells_of_a_rectangle(width, rows, n - 1);
        assert(rows[n - 1].len() == width);
        assert(n * width == (n - 1) * width + width) by (nonlinear_arith);
    } else {
        assert(0 * width == 0) by (nonlinear_arith);
    }
}

/// A sheet in CSV is cut at commas and one in TSV at tabs; which of the two a text is, its first line
/// that shows something tells by which of them it has more of.
pub proof fn law_sheet_formats(source: Seq<char>)
    ensures
        format_delimiter(SheetFormat::Csv) == ',',
        format_delimiter(SheetFormat::Tsv) == '\t',
        first_shown(lines_of(source), 0) matches Some(line) ==> {
            let tabs = occurrences(line, '\t');
            let commas = occurrences(line, ',');
            &&& tabs > commas ==> sheet_format(source) == Ok::<SheetFormat, Seq<char>>(
                SheetFormat::Tsv,
            )
            &&& commas >= tabs && commas > 0 ==> sheet_format(source) == Ok::<
                SheetFormat,
                Seq<char>,
            >(SheetFormat::Csv)
            &&& tabs == 0 && commas == 0 ==> sheet_format(source) is Err
        },
{
}

proof fn lemma_sheet_paths()
    ensures
        match normalize(SHEETS_ROOT@, "/"@) {
            Ok(_) => normalize(SHEETS_INPUT_PATH@, "/"@) != normalize(SHEETS_SUMMARY_PATH@, "/"@),
            Err(_) => true,
        },
{
    reveal_strlit("/workspace/apps/sheets");
    reveal_strlit("/workspace/apps/sheets/sheet.txt");
    reveal_strlit("/workspace/apps/sheets/summary.json");
    reveal_strlit("/");
    reveal_strlit("");
    reveal_strlit(".");
    reveal_strlit("..");
    reveal_strlit("sheet.txt");
    reveal_strlit("summary.json");
    law_paths_lead_step_by_step(SHEETS_ROOT@, "sheet.txt"@, "/"@);
    law_paths_lead_step_by_step(SHEETS_ROOT@, "summary.json"@, "/"@);
    assert(SHEETS_ROOT@ + "/"@ + "sheet.txt"@ =~= SHEETS_INPUT_PATH@);
    assert(SHEETS_ROOT@ + "/"@ + "summary.json"@ =~= SHEETS_SUMMARY_PATH@);
    assert("sheet.txt"@.len() == 9 && "summary.json"@.len() == 12 && ""@.len() == 0 && "."@.len()
        == 1 && ".."@.len() == 2);
    if let Ok(names) = normalize(SHEETS_ROOT@, "/"@) {
        assert(names.push("sheet.txt"@).last() == "sheet.txt"@);
        assert(names.push("summary.json"@).last() == "summary.json"@);
    }
}

/// A sheet that was imported is kept as it was given; one that is too long or that cannot be read as
/// a table changes nothing.
pub proof fn law_imported_sheets_are_kept(fs: FsState, source: Seq<char>, format: SheetFormat)
    requires
        sound_fs(fs),
    ensures
        import_in(fs, source, format).1 is Ok ==> file_at(
            import_in(fs, source, format).0,
            "/workspace/apps/sheets/sheet.txt"@,
        ) == Ok::<Seq<u8>, Trouble>(encode_utf8(source)),
        byte_len(source) > 524_288 ==> import_in(fs, source, format).1 is Err && import_in(
            fs,
            source,
            format,
        ).0 == fs,
        summarize_source(source, format) is Err ==> import_in(fs, source, format).1 is Err
            && import_in(fs, source, format).0 == fs,
        import_in(fs, source, format).1 matches Ok(summary) ==> summarize_source(source, format)
            == Ok::<SheetModel, Seq<char>>(summary),
{
    if let Ok(names) = normalize(SHEETS_ROOT@, "/"@) {
        reveal_strlit("/");
        law_normalized_paths_are_proper(SHEETS_ROOT@, "/"@);
        law_mkdir_makes_a_directory(fs, names, true, names);
    }
    lemma_sheet_paths();
    if let Ok(summary) = summarize_source(source, format) {
        if let Ok(bytes) = json_layout(sheet_json(summary)) {
            let made = mkdir_at(fs, SHEETS_ROOT@, true).0;
            law_write_then_read(made, SHEETS_INPUT_PATH@, encode_utf8(source), SHEETS_INPUT_PATH@);
            let kept = write_at(made, SHEETS_INPUT_PATH@, encode_utf8(source)).0;
            law_write_then_read(kept, SHEETS_SUMMARY_PATH@, bytes, SHEETS_INPUT_PATH@);
        }
    }
}

/// The first row of a table names its columns and the rest are its rows; the cells stand between
/// commas in one format and between tabs in the other. A table without rows is refused.
pub proof fn law_sheets_are_read_in_their_format(source: Seq<char>, records: Rows)
    ensures
        parse_table(source, ',') == Ok::<Rows, CellFlaw>(records) && records.len() > 0
            ==> summarize_source(source, SheetFormat::Csv) == summarize_worksheet(
            records[0],
            records.skip(1),
            "csv"@,
            "Sheet1"@,
            Seq::empty(),
            "/workspace/apps/sheets/sheet.txt"@,
        ),
        parse_table(source, '\t') == Ok::<Rows, CellFlaw>(records) && records.len() > 0
            ==> summarize_source(source, SheetFormat::Tsv) == summarize_worksheet(
            records[0],
            records.skip(1),
            "tsv"@,
            "Sheet1"@,
            Seq::empty(),
            "/workspace/apps/sheets/sheet.txt"@,
        ),
        parse_table(source, ',') == Ok::<Rows, CellFlaw>(Seq::empty()) || parse_table(source, ',')
            is Err ==> summarize_source(source, SheetFormat::Csv) is Err,
        parse_table(source, '\t') == Ok::<Rows, CellFlaw>(Seq::empty()) || parse_table(source, '\t')
            is Err ==> summarize_source(source, SheetFormat::Tsv) is Err,
{
}

} // verus!
