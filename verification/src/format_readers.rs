//! Host-only, read-only format readers for bounded guest upload bytes.
//!
//! Readers receive copied bytes from the guest filesystem and return normalized
//! artifacts. They never receive a host path, a VM handle, a capability, or an
//! executable payload. Macros, formulas, external links, and embedded objects
//! are deliberately inert: visible cached values and document text are all
//! this module exposes.

use vstd::prelude::*;
#[allow(unused_imports)]
use vstd::utf8::{decode_utf8, valid_utf8};

use crate::archives::{
    archive_entry, archive_holds, archive_len, archive_part_bytes, archive_part_size,
};
#[allow(unused_imports)]
use crate::archives::{
    zip_entry, zip_entry_count, zip_holds, zip_part_bytes, zip_part_size,
};
use crate::apps::count_cells;
#[allow(unused_imports)]
use crate::apps::{cell_count, over_limit_text};
use crate::runtime_error::labelled;
use crate::tabulation::has_bytes;
#[allow(unused_imports)]
use crate::tabulation::bytes_at;
#[allow(unused_imports)]
use crate::tables::{
    CellFlaw, Rows, first_irregular, flaw_text, irregular_text, law_irregular_rows_are_found,
    parse_table, row_models,
};
use crate::tables::{check_widths, copy_row, flaw_message, has_blank, parse_delimited};
#[allow(unused_imports)]
use crate::text::{
    ascii_alphanumeric, begins, blank, byte_len, decimal, ends, find_char, find_last, find_text,
    holds_text, joined, lacks, law_last_places, law_lines_undo_join, lemma_find_char,
    lemma_find_char_is, lemma_find_text, lemma_trim_solid, lines_of, lower_text, replaced, split_on, texts,
    trim, trim_end, trim_start, upper_text, white,
};
use crate::text::{
    after_last, ascii_lower, ascii_upper, byte_count, chars_of, contains_char, contains_text,
    decimal_text, ends_with, find_from, is_ascii_alphanumeric, is_whitespace, join, lines,
    replace_text, same_text, size_text, split, starts_with, substring, trimmed, trimmed_end,
    trimmed_start, utf8_text,
};

verus! {

pub const MAX_ARCHIVE_ENTRIES: usize = 256;

pub const MAX_ARCHIVE_ENTRY_BYTES: u64 = 2 * 1024 * 1024;

pub const MAX_ARCHIVE_TOTAL_BYTES: u64 = 8 * 1024 * 1024;

pub const MAX_EXTRACTED_TEXT_BYTES: usize = 512 * 1024;

pub const MAX_SHEET_ROWS: usize = 50_000;

pub const MAX_SHEET_COLUMNS: usize = 256;

pub const MAX_SHEET_CELLS: usize = 100_000;

#[derive(Debug, PartialEq, Eq)]
pub struct DocumentContent {
    pub format: String,
    pub text: String,
    pub warnings: Vec<String>,
}

/// What a [`DocumentContent`] says.
#[verifier::ext_equal]
pub struct ContentModel {
    pub format: Seq<char>,
    pub text: Seq<char>,
    pub warnings: Seq<Seq<char>>,
}

impl View for DocumentContent {
    type V = ContentModel;

    open spec fn view(&self) -> ContentModel {
        ContentModel { format: self.format@, text: self.text@, warnings: texts(self.warnings@) }
    }
}

#[derive(Debug, PartialEq, Eq)]
pub struct SpreadsheetContent {
    pub format: String,
    pub sheet_name: String,
    pub headers: Vec<String>,
    pub rows: Vec<Vec<String>>,
    pub warnings: Vec<String>,
}

/// What a [`SpreadsheetContent`] says.
#[verifier::ext_equal]
pub struct SpreadsheetModel {
    pub format: Seq<char>,
    pub sheet_name: Seq<char>,
    pub headers: Seq<Seq<char>>,
    pub rows: Rows,
    pub warnings: Seq<Seq<char>>,
}

impl View for SpreadsheetContent {
    type V = SpreadsheetModel;

    open spec fn view(&self) -> SpreadsheetModel {
        SpreadsheetModel {
            format: self.format@,
            sheet_name: self.sheet_name@,
            headers: texts(self.headers@),
            rows: row_models(self.rows@),
            warnings: texts(self.warnings@),
        }
    }
}

/// What a call says of a text.
pub open spec fn text_seen(r: Result<String, String>) -> Result<Seq<char>, Seq<char>> {
    match r {
        Ok(text) => Ok(text@),
        Err(message) => Err(message@),
    }
}

// ---------------------------------------------------------------------------
// Names and plain text
// ---------------------------------------------------------------------------

/// The extension of a file name, in lower case.
pub open spec fn extension_of(filename: Seq<char>) -> Result<Seq<char>, Seq<char>> {
    match find_last(filename, '.') {
        Some(i) => {
            let extension = lower_text(filename.skip(i + 1));
            if extension.len() == 0 {
                Err("uploaded file needs an extension"@)
            } else {
                Ok(extension)
            }
        },
        None => Err("uploaded file needs an extension"@),
    }
}

/// The extension of a file name, in lower case.
pub fn extension(filename: &str) -> (r: Result<String, String>)
    ensures
        text_seen(r) == extension_of(filename@),
{
    match after_last(filename, '.') {
        Some(tail) => {
            let lowered = ascii_lower(tail.as_str());
            if lowered.as_str().is_empty() {
                Err("uploaded file needs an extension".to_owned())
            } else {
                Ok(lowered)
            }
        },
        None => Err("uploaded file needs an extension".to_owned()),
    }
}

/// Bytes as text; `kind` names them where they are none.
pub open spec fn utf8_of(bytes: Seq<u8>, kind: Seq<char>) -> Result<Seq<char>, Seq<char>> {
    if valid_utf8(bytes) {
        Ok(decode_utf8(bytes))
    } else {
        Err(kind + " is not valid UTF-8"@)
    }
}

fn read_utf8(bytes: &[u8], kind: &str) -> (r: Result<String, String>)
    ensures
        text_seen(r) == utf8_of(bytes@, kind@),
{
    match utf8_text(bytes) {
        Some(text) => Ok(text),
        None => {
            let mut message = kind.to_owned();
            message.push_str(" is not valid UTF-8");
            Err(message)
        },
    }
}

/// The lines without the white space at their ends.
pub open spec fn trimmed_lines(lines: Seq<Seq<char>>) -> Seq<Seq<char>> {
    Seq::new(lines.len(), |i: int| trim_end(lines[i]))
}

/// A text without white space at the ends of its lines and around it.
pub open spec fn normal_text(text: Seq<char>) -> Seq<char> {
    trim(joined(trimmed_lines(lines_of(text)), "\n"@))
}

fn trim_lines(all: &Vec<String>) -> (parts: Vec<String>)
    ensures
        texts(parts@) == trimmed_lines(texts(all@)),
{
    let ghost wanted = trimmed_lines(texts(all@));
    let mut parts: Vec<String> = Vec::new();
    let mut i: usize = 0;
    while i < all.len()
        invariant
            i <= all@.len(),
            wanted == trimmed_lines(texts(all@)),
            texts(parts@) == wanted.take(i as int),
        decreases all@.len() - i,
    {
        let part = trimmed_end(all[i].as_str());
        assert(texts(all@)[i as int] == all@[i as int]@);
        let ghost before = parts@;
        parts.push(part);
        assert(texts(parts@) =~= texts(before).push(part@));
        assert(wanted.take(i + 1) =~= wanted.take(i as int).push(wanted[i as int]));
        i += 1;
    }
    assert(wanted.take(wanted.len() as int) =~= wanted);
    parts
}

/// A text without white space at the ends of its lines and around it.
pub fn normalize_text(text: &str) -> (r: String)
    ensures
        r@ == normal_text(text@),
{
    trimmed(join(&trim_lines(&lines(text)), "\n").as_str())
}

/// The message for a document with too much text.
pub open spec fn oversized_text() -> Seq<char> {
    "extracted document exceeds "@ + decimal(MAX_EXTRACTED_TEXT_BYTES as nat) + " bytes"@
}

fn too_much_text() -> (r: String)
    ensures
        r@ == oversized_text(),
{
    let mut r = "extracted document exceeds ".to_owned();
    r.push_str(size_text(MAX_EXTRACTED_TEXT_BYTES).as_str());
    r.push_str(" bytes");
    r
}

/// A document of this text, when it is not too much.
pub open spec fn bounded_content(
    format: Seq<char>,
    text: Result<Seq<char>, Seq<char>>,
    warnings: Seq<Seq<char>>,
) -> Result<ContentModel, Seq<char>> {
    match text {
        Err(message) => Err(message),
        Ok(text) => if byte_len(text) > MAX_EXTRACTED_TEXT_BYTES {
            Err(oversized_text())
        } else {
            Ok(ContentModel { format, text: normal_text(text), warnings })
        },
    }
}

/// What a call says of a document.
pub open spec fn content_seen(r: Result<DocumentContent, String>) -> Result<
    ContentModel,
    Seq<char>,
> {
    match r {
        Ok(content) => Ok(content@),
        Err(message) => Err(message@),
    }
}

fn bounded_document(format: &str, text: Result<String, String>, warnings: Vec<String>) -> (r:
    Result<DocumentContent, String>)
    ensures
        content_seen(r) == bounded_content(format@, text_seen(text), texts(warnings@)),
{
    match text {
        Err(message) => Err(message),
        Ok(text) => {
            if byte_count(text.as_str()) > MAX_EXTRACTED_TEXT_BYTES {
                return Err(too_much_text());
            }
            Ok(
                DocumentContent {
                    format: format.to_owned(),
                    text: normalize_text(text.as_str()),
                    warnings,
                },
            )
        },
    }
}

// ---------------------------------------------------------------------------
// XML
// ---------------------------------------------------------------------------

/// A text with the five named entities resolved, one after the other; numeric ones are refused.
pub open spec fn decoded_entities(value: Seq<char>) -> Result<Seq<char>, Seq<char>> {
    let lt = replaced(value, "&lt;"@, "<"@);
    let gt = replaced(lt, "&gt;"@, ">"@);
    let amp = replaced(gt, "&amp;"@, "&"@);
    let quot = replaced(amp, "&quot;"@, "\""@);
    let apos = replaced(quot, "&apos;"@, "'"@);
    if holds_text(apos, "&#"@) {
        Err("numeric XML entities are not supported"@)
    } else {
        Ok(apos)
    }
}

/// A text with the five named entities resolved.
pub fn decode_xml_entities(value: &str) -> (r: Result<String, String>)
    ensures
        text_seen(r) == decoded_entities(value@),
{
    proof {
        reveal_strlit("&lt;");
        reveal_strlit("&gt;");
        reveal_strlit("&amp;");
        reveal_strlit("&quot;");
        reveal_strlit("&apos;");
    }
    let lt = replace_text(value, "&lt;", "<");
    let gt = replace_text(lt.as_str(), "&gt;", ">");
    let amp = replace_text(gt.as_str(), "&amp;", "&");
    let quot = replace_text(amp.as_str(), "&quot;", "\"");
    let apos = replace_text(quot.as_str(), "&apos;", "'");
    if contains_text(apos.as_str(), "&#") {
        Err("numeric XML entities are not supported".to_owned())
    } else {
        Ok(apos)
    }
}

/// The number of slashes that `s` begins with.
pub open spec fn leading_slashes(s: Seq<char>) -> int
    decreases s.len(),
{
    if s.len() == 0 || s[0] != '/' {
        0
    } else {
        1 + leading_slashes(s.skip(1))
    }
}

/// The length of what stands before the first white space or slash.
pub open spec fn name_length(s: Seq<char>) -> int
    decreases s.len(),
{
    if s.len() == 0 || white(s[0]) || s[0] == '/' {
        0
    } else {
        1 + name_length(s.skip(1))
    }
}

/// The name in a tag.
pub open spec fn tag_name(tag: Seq<char>) -> Seq<char> {
    let rest = tag.skip(leading_slashes(tag));
    rest.take(name_length(rest))
}

/// What has been extracted, and how many text elements are open.
#[verifier::ext_equal]
pub struct Extraction {
    pub output: Seq<char>,
    pub depth: nat,
}

/// What a tag does: text elements open and close, closed paragraphs and breaks end a line, and a
/// tab element is a tab.
pub open spec fn apply_tag(
    s: Extraction,
    tag: Seq<char>,
    text_tag: Seq<char>,
    paragraph_tag: Seq<char>,
) -> Extraction {
    let closing = begins(tag, "/"@);
    let name = tag_name(tag);
    if !closing && name == text_tag && !ends(tag, "/"@) {
        Extraction { depth: s.depth + 1, ..s }
    } else if closing && name == text_tag {
        Extraction {
            depth: if s.depth > 0 {
                (s.depth - 1) as nat
            } else {
                0
            },
            output: if name == paragraph_tag {
                s.output.push('\n')
            } else {
                s.output
            },
        }
    } else if name == "w:tab"@ || name == "text:tab"@ {
        Extraction { output: s.output.push('\t'), ..s }
    } else if name == "w:br"@ || name == "w:cr"@ || (closing && name == paragraph_tag) {
        Extraction { output: s.output.push('\n'), ..s }
    } else {
        s
    }
}

/// The text that stands in front of a tag, where text is wanted.
pub open spec fn take_text(s: Extraction, text: Seq<char>) -> Result<Extraction, Seq<char>> {
    if s.depth > 0 {
        match decoded_entities(text) {
            Err(message) => Err(message),
            Ok(decoded) => Ok(Extraction { output: s.output + decoded, ..s }),
        }
    } else {
        Ok(s)
    }
}

/// Extracting from index `cursor` on.
pub open spec fn extract_from(
    xml: Seq<char>,
    cursor: int,
    text_tag: Seq<char>,
    paragraph_tag: Seq<char>,
    s: Extraction,
) -> Result<Seq<char>, Seq<char>>
    decreases xml.len() - cursor,
{
    let start = cursor + find_char(xml.skip(cursor), '<');
    if !(0 <= cursor <= start < xml.len()) {
        Ok(s.output)
    } else {
        match take_text(s, xml.subrange(cursor, start)) {
            Err(message) => Err(message),
            Ok(s) => {
                let end = start + find_char(xml.skip(start), '>');
                if !(start <= end < xml.len()) {
                    Err("document XML contains an unterminated tag"@)
                } else {
                    let tag = trim(xml.subrange(start + 1, end));
                    let s = apply_tag(s, tag, text_tag, paragraph_tag);
                    if byte_len(s.output) > MAX_EXTRACTED_TEXT_BYTES {
                        Err(oversized_text())
                    } else {
                        extract_from(xml, end + 1, text_tag, paragraph_tag, s)
                    }
                }
            },
        }
    }
}

/// The visible text of document XML.
pub open spec fn visible_text(
    bytes: Seq<u8>,
    text_tag: Seq<char>,
    paragraph_tag: Seq<char>,
) -> Result<Seq<char>, Seq<char>> {
    match utf8_of(bytes, "document XML"@) {
        Err(message) => Err(message),
        Ok(xml) => if holds_text(upper_text(xml), "<!DOCTYPE"@) || holds_text(
            upper_text(xml),
            "<!ENTITY"@,
        ) {
            Err("document XML declarations are not supported"@)
        } else {
            extract_from(
                xml,
                0,
                text_tag,
                paragraph_tag,
                Extraction { output: Seq::empty(), depth: 0 },
            )
        },
    }
}

proof fn lemma_leading_slashes(s: Seq<char>, n: int)
    requires
        0 <= n <= s.len(),
        forall|i: int| 0 <= i < n ==> s[i] == '/',
        n < s.len() ==> s[n] != '/',
    ensures
        leading_slashes(s) == n,
    decreases s.len(),
{
    if n > 0 {
        assert(s[0] == '/');
        assert forall|i: int| 0 <= i < n - 1 implies s.skip(1)[i] == '/' by {
            assert(s.skip(1)[i] == s[i + 1]);
        }
        lemma_leading_slashes(s.skip(1), n - 1);
    }
}

proof fn lemma_name_length(s: Seq<char>, n: int)
    requires
        0 <= n <= s.len(),
        forall|i: int| 0 <= i < n ==> !white(#[trigger] s[i]) && s[i] != '/',
        n < s.len() ==> white(s[n]) || s[n] == '/',
    ensures
        name_length(s) == n,
    decreases s.len(),
{
    if n > 0 {
        assert(!white(s[0]));
        assert forall|i: int| 0 <= i < n - 1 implies !white(#[trigger] s.skip(1)[i]) && s.skip(1)[i]
            != '/' by {
            assert(s.skip(1)[i] == s[i + 1]);
        }
        lemma_name_length(s.skip(1), n - 1);
    }
}

fn read_tag_name(tag: &str) -> (r: String)
    ensures
        r@ == tag_name(tag@),
{
    let chars = chars_of(tag);
    let n: usize = chars.len();
    let mut from: usize = 0;
    while from < n && chars[from] == '/'
        invariant
            from <= n,
            n == chars@.len(),
            forall|i: int| 0 <= i < from ==> chars@[i] == '/',
        decreases n - from,
    {
        from += 1;
    }
    proof {
        lemma_leading_slashes(tag@, from as int);
    }
    let ghost rest = tag@.skip(from as int);
    let mut to: usize = from;
    while to < n && !is_whitespace(chars[to]) && chars[to] != '/'
        invariant
            from <= to <= n,
            n == chars@.len(),
            chars@ == tag@,
            rest == tag@.skip(from as int),
            forall|i: int| 0 <= i < to - from ==> !white(#[trigger] rest[i]) && rest[i] != '/',
        decreases n - to,
    {
        assert(rest[to - from] == chars@[to as int]);
        to += 1;
    }
    proof {
        if to < n {
            assert(rest[to - from] == chars@[to as int]);
        }
        lemma_name_length(rest, to - from);
    }
    let r = substring(&chars, from, to);
    assert(r@ =~= rest.take(to - from));
    r
}

/// The visible text of document XML.
pub fn extract_xml_visible_text(bytes: &[u8], text_tag: &str, paragraph_tag: &str) -> (r: Result<
    String,
    String,
>)
    ensures
        text_seen(r) == visible_text(bytes@, text_tag@, paragraph_tag@),
{
    let xml = match read_utf8(bytes, "document XML") {
        Err(message) => return Err(message),
        Ok(xml) => xml,
    };
    let upper = ascii_upper(xml.as_str());
    if contains_text(upper.as_str(), "<!DOCTYPE") || contains_text(upper.as_str(), "<!ENTITY") {
        return Err("document XML declarations are not supported".to_owned());
    }
    let chars = chars_of(xml.as_str());
    let n: usize = chars.len();
    let ghost all = chars@;
    let mut output = String::new();
    let mut depth: usize = 0;
    let mut cursor: usize = 0;
    assert(output@ =~= Seq::<char>::empty());
    let ghost wanted = visible_text(bytes@, text_tag@, paragraph_tag@);
    loop
        invariant
            cursor <= n,
            n == chars@.len(),
            all == chars@,
            depth <= cursor,
            wanted == visible_text(bytes@, text_tag@, paragraph_tag@),
            wanted == extract_from(
                all,
                cursor as int,
                text_tag@,
                paragraph_tag@,
                Extraction { output: output@, depth: depth as nat },
            ),
        decreases n - cursor,
    {
        let start = find_from(&chars, '<', cursor);
        if start == n {
            return Ok(output);
        }
        let ghost s0 = Extraction { output: output@, depth: depth as nat };
        let between = substring(&chars, cursor, start);
        assert(between@ =~= all.subrange(cursor as int, start as int));
        if depth > 0 {
            match decode_xml_entities(between.as_str()) {
                Err(message) => return Err(message),
                Ok(decoded) => {
                    output.push_str(decoded.as_str());
                },
            }
        }
        let ghost s1 = Extraction { output: output@, depth: depth as nat };
        assert(take_text(s0, between@) == Ok::<Extraction, Seq<char>>(s1));
        let end = find_from(&chars, '>', start);
        if end == n {
            return Err("document XML contains an unterminated tag".to_owned());
        }
        proof {
            lemma_find_char(all.skip(start as int), '>');
            lemma_find_char(all.skip(cursor as int), '<');
            assert(all.skip(cursor as int)[start - cursor] == all[start as int]);
            assert(all.skip(start as int)[end - start] == all[end as int]);
        }
        let inner = substring(&chars, start + 1, end);
        assert(inner@ =~= all.subrange(start + 1, end as int));
        let tag = trimmed(inner.as_str());
        let closing = starts_with(tag.as_str(), "/");
        let name = read_tag_name(tag.as_str());
        if !closing && same_text(name.as_str(), text_tag) && !ends_with(tag.as_str(), "/") {
            depth = depth + 1;
        } else if closing && same_text(name.as_str(), text_tag) {
            if depth > 0 {
                depth = depth - 1;
            }
            if same_text(name.as_str(), paragraph_tag) {
                output.push('\n');
            }
        } else if same_text(name.as_str(), "w:tab") || same_text(name.as_str(), "text:tab") {
            output.push('\t');
        } else if same_text(name.as_str(), "w:br") || same_text(name.as_str(), "w:cr") || (closing
            && same_text(name.as_str(), paragraph_tag)) {
            output.push('\n');
        }
        let ghost s2 = Extraction { output: output@, depth: depth as nat };
        assert(s2 =~= apply_tag(s1, tag@, text_tag@, paragraph_tag@));
        if byte_count(output.as_str()) > MAX_EXTRACTED_TEXT_BYTES {
            return Err(too_much_text());
        }
        cursor = end + 1;
    }
}

fn extract_docx_text(bytes: &[u8]) -> (r: Result<String, String>)
    ensures
        text_seen(r) == visible_text(bytes@, "w:t"@, "w:p"@),
{
    extract_xml_visible_text(bytes, "w:t", "w:p")
}

fn extract_odt_text(bytes: &[u8]) -> (r: Result<String, String>)
    ensures
        text_seen(r) == visible_text(bytes@, "text:p"@, "text:p"@),
{
    extract_xml_visible_text(bytes, "text:p", "text:p")
}

// ---------------------------------------------------------------------------
// RTF
// ---------------------------------------------------------------------------

/// Whether `c` can stand in a control word.
pub open spec fn control_char(c: char) -> bool {
    ascii_alphanumeric(c) || c == '-'
}

/// The index behind the control word at `i`.
pub open spec fn past_control(input: Seq<char>, i: int) -> int
    decreases input.len() - i,
{
    if 0 <= i < input.len() && control_char(input[i]) {
        past_control(input, i + 1)
    } else {
        i
    }
}

/// The index behind a space at `i`, if one stands there.
pub open spec fn past_blank(input: Seq<char>, i: int) -> int {
    if 0 <= i < input.len() && input[i] == ' ' {
        i + 1
    } else {
        i
    }
}

/// The index of two characters behind `i`, or the end.
pub open spec fn two_on(input: Seq<char>, i: int) -> int {
    if i + 2 <= input.len() {
        i + 2
    } else {
        input.len() as int
    }
}

/// A control word that begins with `p` or `t`: where it is the word that stands for `sign`, the
/// sign and the index behind it, else no sign.
pub open spec fn known_control(input: Seq<char>, i: int, rest: Seq<char>) -> (bool, int) {
    let j = two_on(input, i);
    if input.subrange(i, j) == rest {
        (true, past_blank(input, j))
    } else {
        (false, past_blank(input, past_control(input, j)))
    }
}

/// What the character at `i` adds, and the index to go on from.
pub open spec fn rtf_step(input: Seq<char>, i: int) -> (Seq<char>, int) {
    let c = input[i];
    if c == '{' || c == '}' {
        (Seq::empty(), i + 1)
    } else if c != '\\' {
        (seq![c], i + 1)
    } else if i + 1 >= input.len() {
        (Seq::empty(), i + 1)
    } else {
        let d = input[i + 1];
        if d == '\\' || d == '{' || d == '}' {
            (seq![d], i + 2)
        } else if d == 'p' {
            let (known, next) = known_control(input, i + 2, "ar"@);
            (if known {
                seq!['\n']
            } else {
                Seq::empty()
            }, next)
        } else if d == 't' {
            let (known, next) = known_control(input, i + 2, "ab"@);
            (if known {
                seq!['\t']
            } else {
                Seq::empty()
            }, next)
        } else {
            (Seq::empty(), past_blank(input, past_control(input, i + 2)))
        }
    }
}

/// The text of an RTF document from index `i` on.
pub open spec fn rtf_from(input: Seq<char>, i: int, output: Seq<char>) -> Result<
    Seq<char>,
    Seq<char>,
>
    decreases input.len() - i,
{
    if !(0 <= i < input.len()) {
        Ok(output)
    } else {
        let (added, next) = rtf_step(input, i);
        if byte_len(output + added) > MAX_EXTRACTED_TEXT_BYTES {
            Err(oversized_text())
        } else if !(i < next <= input.len()) {
            Ok(output)
        } else {
            rtf_from(input, next, output + added)
        }
    }
}

/// The text of an RTF document.
pub open spec fn rtf_text(bytes: Seq<u8>) -> Result<Seq<char>, Seq<char>> {
    match utf8_of(bytes, "RTF document"@) {
        Err(message) => Err(message),
        Ok(input) => if !begins(trim_start(input), "{\\rtf"@) {
            Err("RTF document header is invalid"@)
        } else {
            rtf_from(input, 0, Seq::empty())
        },
    }
}

fn skip_blank(chars: &Vec<char>, i: usize) -> (r: usize)
    requires
        i <= chars@.len(),
    ensures
        r == past_blank(chars@, i as int),
        i <= r <= chars@.len(),
{
    if i < chars.len() && chars[i] == ' ' {
        i + 1
    } else {
        i
    }
}

fn skip_rtf_control_word(chars: &Vec<char>, from: usize) -> (r: usize)
    requires
        from <= chars@.len(),
    ensures
        r == past_blank(chars@, past_control(chars@, from as int)),
        from <= r <= chars@.len(),
{
    let mut i: usize = from;
    while i < chars.len() && (is_ascii_alphanumeric(chars[i]) || chars[i] == '-')
        invariant
            from <= i <= chars@.len(),
            past_control(chars@, from as int) == past_control(chars@, i as int),
        decreases chars@.len() - i,
    {
        i += 1;
    }
    skip_blank(chars, i)
}

fn read_known_control(chars: &Vec<char>, i: usize, rest: &str) -> (r: (bool, usize))
    requires
        i <= chars@.len(),
    ensures
        r.0 == known_control(chars@, i as int, rest@).0,
        r.1 == known_control(chars@, i as int, rest@).1,
        i <= r.1 <= chars@.len(),
{
    let j: usize = if chars.len() - i >= 2 {
        i + 2
    } else {
        chars.len()
    };
    let word = substring(chars, i, j);
    if same_text(word.as_str(), rest) {
        (true, skip_blank(chars, j))
    } else {
        (false, skip_rtf_control_word(chars, j))
    }
}

/// The text of an RTF document.
pub fn extract_rtf(bytes: &[u8]) -> (r: Result<String, String>)
    ensures
        text_seen(r) == rtf_text(bytes@),
{
    let input = match read_utf8(bytes, "RTF document") {
        Err(message) => return Err(message),
        Ok(input) => input,
    };
    if !starts_with(trimmed_start(input.as_str()).as_str(), "{\\rtf") {
        return Err("RTF document header is invalid".to_owned());
    }
    let chars = chars_of(input.as_str());
    let n: usize = chars.len();
    let ghost all = chars@;
    let ghost wanted = rtf_text(bytes@);
    let mut output = String::new();
    let mut i: usize = 0;
    assert(output@ =~= Seq::<char>::empty());
    while i < n
        invariant
            i <= n,
            n == chars@.len(),
            all == chars@,
            wanted == rtf_text(bytes@),
            wanted == rtf_from(all, i as int, output@),
        decreases n - i,
    {
        let c = chars[i];
        let ghost before = output@;
        let ghost (added, behind) = rtf_step(all, i as int);
        let next: usize;
        if c == '{' || c == '}' {
            next = i + 1;
        } else if c != '\\' {
            output.push(c);
            next = i + 1;
        } else if i + 1 >= n {
            next = i + 1;
        } else {
            let d = chars[i + 1];
            if d == '\\' || d == '{' || d == '}' {
                output.push(d);
                next = i + 2;
            } else if d == 'p' {
                let (known, after) = read_known_control(&chars, i + 2, "ar");
                if known {
                    output.push('\n');
                }
                next = after;
            } else if d == 't' {
                let (known, after) = read_known_control(&chars, i + 2, "ab");
                if known {
                    output.push('\t');
                }
                next = after;
            } else {
                next = skip_rtf_control_word(&chars, i + 2);
            }
        }
        assert(output@ =~= before + added);
        assert(next == behind);
        if byte_count(output.as_str()) > MAX_EXTRACTED_TEXT_BYTES {
            return Err(too_much_text());
        }
        i = next;
    }
    Ok(output)
}

// ---------------------------------------------------------------------------
// Archives
// ---------------------------------------------------------------------------

/// Whether an entry name could lead out of the place it is unpacked in.
pub open spec fn unsafe_entry(name: Seq<char>) -> bool {
    begins(name, "/"@) || !lacks(name, '\\') || exists|i: int|
        0 <= i < split_on(name, '/').len() && #[trigger] split_on(name, '/')[i] == ".."@
}

/// What is wrong with the entries of an archive from `index` on, after entries of `total` bytes.
pub open spec fn entries_trouble(
    bytes: Seq<u8>,
    count: usize,
    index: int,
    total: u64,
) -> Option<Seq<char>>
    decreases count - index,
{
    if !(0 <= index < count) {
        None
    } else {
        match entry_verdict(zip_entry(bytes, index as usize), total) {
            Err(message) => Some(message),
            Ok(sum) => entries_trouble(bytes, count, index + 1, sum),
        }
    }
}

/// What is wrong with an archive.
pub open spec fn archive_trouble(bytes: Seq<u8>) -> Option<Seq<char>> {
    match zip_entry_count(bytes) {
        Err(message) => Some("invalid ZIP container: "@ + message),
        Ok(count) => if count > MAX_ARCHIVE_ENTRIES {
            Some("archive has more than "@ + decimal(MAX_ARCHIVE_ENTRIES as nat) + " entries"@)
        } else {
            entries_trouble(bytes, count, 0, 0)
        },
    }
}

fn is_unsafe_entry(name: &str) -> (r: bool)
    ensures
        r == unsafe_entry(name@),
{
    if starts_with(name, "/") || contains_char(name, '\\') {
        return true;
    }
    let parts = split(name, '/');
    let ghost all = split_on(name@, '/');
    let mut i: usize = 0;
    while i < parts.len()
        invariant
            i <= parts@.len(),
            all == split_on(name@, '/'),
            all == texts(parts@),
            forall|k: int| 0 <= k < i ==> #[trigger] all[k] != ".."@,
        decreases parts@.len() - i,
    {
        assert(all[i as int] == parts@[i as int]@);
        if same_text(parts[i].as_str(), "..") {
            return true;
        }
        i += 1;
    }
    false
}

/// Checks one entry, after entries of `total` bytes: the bytes with it, or what is wrong.
pub fn check_entry(entry: Result<(String, u64), String>, total: u64) -> (r: Result<u64, String>)
    ensures
        ({
            let found = match entry {
                Ok(e) => Ok((e.0@, e.1)),
                Err(message) => Err(message@),
            };
            match r {
                Ok(sum) => entry_verdict(found, total) == Ok::<u64, Seq<char>>(sum),
                Err(message) => entry_verdict(found, total) == Err::<u64, Seq<char>>(message@),
            }
        }),
{
    match entry {
        Err(message) => Err(labelled("invalid ZIP entry: ", message.as_str())),
        Ok((name, size)) => {
            if is_unsafe_entry(name.as_str()) {
                return Err("archive contains an unsafe entry path".to_owned());
            }
            if size > MAX_ARCHIVE_ENTRY_BYTES {
                return Err(over_extraction("archive entry '", name.as_str()));
            }
            match total.checked_add(size) {
                None => Err("archive size overflowed".to_owned()),
                Some(sum) => {
                    if sum > MAX_ARCHIVE_TOTAL_BYTES {
                        let mut message = "archive exceeds the ".to_owned();
                        message.push_str(decimal_text(MAX_ARCHIVE_TOTAL_BYTES).as_str());
                        message.push_str("-byte extraction limit");
                        Err(message)
                    } else {
                        Ok(sum)
                    }
                },
            }
        },
    }
}

/// What is said of one entry, after entries of `total` bytes.
pub open spec fn entry_verdict(entry: Result<(Seq<char>, u64), Seq<char>>, total: u64) -> Result<
    u64,
    Seq<char>,
> {
    match entry {
        Err(message) => Err("invalid ZIP entry: "@ + message),
        Ok((name, size)) => if unsafe_entry(name) {
            Err("archive contains an unsafe entry path"@)
        } else if size > MAX_ARCHIVE_ENTRY_BYTES {
            Err("archive entry '"@ + name + "' exceeds the extraction limit"@)
        } else if total + size > u64::MAX {
            Err("archive size overflowed"@)
        } else if total + size > MAX_ARCHIVE_TOTAL_BYTES {
            Err(
                "archive exceeds the "@ + decimal(MAX_ARCHIVE_TOTAL_BYTES as nat)
                    + "-byte extraction limit"@,
            )
        } else {
            Ok((total + size) as u64)
        },
    }
}

fn over_extraction(label: &str, name: &str) -> (r: String)
    ensures
        r@ == label@ + name@ + "' exceeds the extraction limit"@,
{
    let mut r = label.to_owned();
    r.push_str(name);
    r.push_str("' exceeds the extraction limit");
    r
}

/// Checks the bounds of an archive.
pub fn bounded_archive(bytes: &[u8]) -> (r: Result<(), String>)
    ensures
        match r {
            Ok(_) => archive_trouble(bytes@) is None,
            Err(message) => archive_trouble(bytes@) == Some(message@),
        },
{
    let count = match archive_len(bytes) {
        Err(message) => return Err(labelled("invalid ZIP container: ", message.as_str())),
        Ok(count) => count,
    };
    if count > MAX_ARCHIVE_ENTRIES {
        let mut message = "archive has more than ".to_owned();
        message.push_str(size_text(MAX_ARCHIVE_ENTRIES).as_str());
        message.push_str(" entries");
        return Err(message);
    }
    let mut total: u64 = 0;
    let mut i: usize = 0;
    while i < count
        invariant
            i <= count,
            zip_entry_count(bytes@) == Ok::<usize, Seq<char>>(count),
            count <= MAX_ARCHIVE_ENTRIES,
            entries_trouble(bytes@, count, 0, 0) == entries_trouble(
                bytes@,
                count,
                i as int,
                total,
            ),
        decreases count - i,
    {
        match check_entry(archive_entry(bytes, i), total) {
            Err(message) => return Err(message),
            Ok(sum) => {
                total = sum;
            },
        }
        i += 1;
    }
    Ok(())
}

/// A part of an archive, or why it cannot be had.
pub open spec fn archive_part(bytes: Seq<u8>, name: Seq<char>) -> Result<Seq<u8>, Seq<char>> {
    match zip_part_size(bytes, name) {
        None => Err("required archive part is missing: "@ + name),
        Some(size) => if size > MAX_ARCHIVE_ENTRY_BYTES {
            Err("archive part '"@ + name + "' exceeds the extraction limit"@)
        } else {
            bounded_part(
                name,
                zip_part_bytes(bytes, name, (MAX_ARCHIVE_ENTRY_BYTES + 1) as u64),
            )
        },
    }
}

/// What was read of a part, when it is not too much.
pub open spec fn bounded_part(name: Seq<char>, content: Result<Seq<u8>, Seq<char>>) -> Result<
    Seq<u8>,
    Seq<char>,
> {
    match content {
        Err(message) => Err("failed to read archive part '"@ + name + "': "@ + message),
        Ok(content) => if content.len() > MAX_ARCHIVE_ENTRY_BYTES {
            Err("archive part '"@ + name + "' exceeds the extraction limit"@)
        } else {
            Ok(content)
        },
    }
}

/// What a call says of bytes.
pub open spec fn bytes_seen(r: Result<Vec<u8>, String>) -> Result<Seq<u8>, Seq<char>> {
    match r {
        Ok(bytes) => Ok(bytes@),
        Err(message) => Err(message@),
    }
}

/// What was read of a part, when it is not too much.
pub fn check_part(name: &str, content: Result<Vec<u8>, String>) -> (r: Result<Vec<u8>, String>)
    ensures
        bytes_seen(r) == bounded_part(name@, bytes_seen(content)),
{
    match content {
        Err(error) => {
            let mut message = "failed to read archive part '".to_owned();
            message.push_str(name);
            message.push_str("': ");
            message.push_str(error.as_str());
            Err(message)
        },
        Ok(content) => {
            if content.len() as u64 > MAX_ARCHIVE_ENTRY_BYTES {
                Err(over_extraction("archive part '", name))
            } else {
                Ok(content)
            }
        },
    }
}

fn read_archive_part(bytes: &[u8], name: &str) -> (r: Result<Vec<u8>, String>)
    ensures
        bytes_seen(r) == archive_part(bytes@, name@),
{
    match archive_part_size(bytes, name) {
        None => Err(labelled("required archive part is missing: ", name)),
        Some(size) => {
            if size > MAX_ARCHIVE_ENTRY_BYTES {
                return Err(over_extraction("archive part '", name));
            }
            check_part(name, archive_part_bytes(bytes, name, MAX_ARCHIVE_ENTRY_BYTES + 1))
        },
    }
}

// ---------------------------------------------------------------------------
// Documents
// ---------------------------------------------------------------------------

/// Whether a file with this extension is read as plain text.
pub open spec fn plain_extension(e: Seq<char>) -> bool {
    e == "txt"@ || e == "text"@ || e == "md"@ || e == "markdown"@ || e == "rst"@ || e == "html"@
        || e == "htm"@ || e == "xml"@
}

/// The warning for a document whose macros are left alone.
pub open spec fn macro_warnings(macros: bool) -> Seq<Seq<char>> {
    if macros {
        seq!["macro content was detected and ignored"@]
    } else {
        Seq::empty()
    }
}

/// What is visible in an uploaded document.
pub open spec fn document_content(filename: Seq<char>, bytes: Seq<u8>) -> Result<
    ContentModel,
    Seq<char>,
> {
    match extension_of(filename) {
        Err(message) => Err(message),
        Ok(e) => if plain_extension(e) {
            bounded_content("plain_text"@, utf8_of(bytes, "document"@), Seq::empty())
        } else if e == "rtf"@ {
            bounded_content("rtf"@, rtf_text(bytes), Seq::empty())
        } else if e == "docx"@ || e == "docm"@ {
            if archive_trouble(bytes) is Some {
                Err(archive_trouble(bytes)->0)
            } else {
                match archive_part(bytes, "word/document.xml"@) {
                    Err(message) => Err(message),
                    Ok(xml) => bounded_content(
                        "docx"@,
                        visible_text(xml, "w:t"@, "w:p"@),
                        macro_warnings(e == "docm"@ || zip_holds(bytes, "word/vbaProject.bin"@)),
                    ),
                }
            }
        } else if e == "odt"@ || e == "ott"@ {
            if archive_trouble(bytes) is Some {
                Err(archive_trouble(bytes)->0)
            } else {
                match archive_part(bytes, "content.xml"@) {
                    Err(message) => Err(message),
                    Ok(xml) => bounded_content(
                        "odt"@,
                        visible_text(xml, "text:p"@, "text:p"@),
                        Seq::empty(),
                    ),
                }
            }
        } else if e == "pdf"@ {
            Err("PDF opening is metadata-only in this runtime; use /pdf for safe inspection"@)
        } else if e == "doc"@ || e == "dot"@ {
            Err("legacy DOC is not enabled: it requires a separate OLE parser sandbox"@)
        } else {
            Err("unsupported document format: ."@ + e)
        },
    }
}

fn is_plain_extension(e: &str) -> (r: bool)
    ensures
        r == plain_extension(e@),
{
    same_text(e, "txt") || same_text(e, "text") || same_text(e, "md") || same_text(e, "markdown")
        || same_text(e, "rst") || same_text(e, "html") || same_text(e, "htm") || same_text(e, "xml")
}

fn no_texts() -> (r: Vec<String>)
    ensures
        texts(r@) == Seq::<Seq<char>>::empty(),
{
    let r: Vec<String> = Vec::new();
    assert(texts(r@) =~= Seq::<Seq<char>>::empty());
    r
}

fn one_text(text: &str) -> (r: Vec<String>)
    ensures
        texts(r@) == seq![text@],
{
    let r = vec![text.to_owned()];
    assert(texts(r@) =~= seq![text@]);
    r
}

/// What is visible in the XML of a word-processor document.
pub fn docx_content(xml: &[u8], macros: bool) -> (r: Result<DocumentContent, String>)
    ensures
        content_seen(r) == bounded_content(
            "docx"@,
            visible_text(xml@, "w:t"@, "w:p"@),
            macro_warnings(macros),
        ),
{
    let warnings = if macros {
        one_text("macro content was detected and ignored")
    } else {
        no_texts()
    };
    bounded_document("docx", extract_docx_text(xml), warnings)
}

/// What is visible in the XML of an open-document text.
pub fn odt_content(xml: &[u8]) -> (r: Result<DocumentContent, String>)
    ensures
        content_seen(r) == bounded_content(
            "odt"@,
            visible_text(xml@, "text:p"@, "text:p"@),
            Seq::empty(),
        ),
{
    bounded_document("odt", extract_odt_text(xml), no_texts())
}

pub fn read_document(filename: &str, bytes: &[u8]) -> (r: Result<DocumentContent, String>)
    ensures
        content_seen(r) == document_content(filename@, bytes@),
{
    let extension = match extension(filename) {
        Err(message) => return Err(message),
        Ok(extension) => extension,
    };
    let e = extension.as_str();
    if is_plain_extension(e) {
        bounded_document("plain_text", read_utf8(bytes, "document"), no_texts())
    } else if same_text(e, "rtf") {
        bounded_document("rtf", extract_rtf(bytes), no_texts())
    } else if same_text(e, "docx") || same_text(e, "docm") {
        match bounded_archive(bytes) {
            Err(message) => return Err(message),
            Ok(_) => {},
        }
        match read_archive_part(bytes, "word/document.xml") {
            Err(message) => Err(message),
            Ok(xml) => {
                let macros = same_text(e, "docm") || archive_holds(bytes, "word/vbaProject.bin");
                docx_content(xml.as_slice(), macros)
            },
        }
    } else if same_text(e, "odt") || same_text(e, "ott") {
        match bounded_archive(bytes) {
            Err(message) => return Err(message),
            Ok(_) => {},
        }
        match read_archive_part(bytes, "content.xml") {
            Err(message) => Err(message),
            Ok(xml) => odt_content(xml.as_slice()),
        }
    } else if same_text(e, "pdf") {
        Err("PDF opening is metadata-only in this runtime; use /pdf for safe inspection".to_owned())
    } else if same_text(e, "doc") || same_text(e, "dot") {
        Err("legacy DOC is not enabled: it requires a separate OLE parser sandbox".to_owned())
    } else {
        Err(labelled("unsupported document format: .", e))
    }
}

// ---------------------------------------------------------------------------
// Spreadsheets
// ---------------------------------------------------------------------------

/// The header and the rows of a sheet, or what is wrong with it.
pub open spec fn split_records(records: Rows) -> Result<(Seq<Seq<char>>, Rows), Seq<char>> {
    if records.len() == 0 {
        Err("sheet is empty"@)
    } else {
        let headers = records[0];
        let rows = records.skip(1);
        if headers.len() < 2 || headers.len() > MAX_SHEET_COLUMNS {
            Err(
                "sheet must have between 2 and "@ + decimal(MAX_SHEET_COLUMNS as nat)
                    + " columns"@,
            )
        } else if exists|i: int| 0 <= i < headers.len() && blank(#[trigger] headers[i]) {
            Err("sheet must have non-empty column names"@)
        } else if rows.len() > MAX_SHEET_ROWS {
            Err(over_limit_text(MAX_SHEET_ROWS, " data rows"@))
        } else if cell_count(headers.len(), rows, rows.len() as int) > MAX_SHEET_CELLS {
            Err(over_limit_text(MAX_SHEET_CELLS, " cells"@))
        } else {
            match first_irregular(rows, headers.len(), 0) {
                Some(index) => Err(irregular_text(rows, headers.len(), index)),
                None => Ok((headers, rows)),
            }
        }
    }
}

/// A spreadsheet of these rows, the first of which is the header.
pub open spec fn spreadsheet_of(
    format: Seq<char>,
    sheet_name: Seq<char>,
    records: Rows,
    warnings: Seq<Seq<char>>,
) -> Result<SpreadsheetModel, Seq<char>> {
    match split_records(records) {
        Err(message) => Err(message),
        Ok((headers, rows)) => Ok(
            SpreadsheetModel { format, sheet_name, headers, rows, warnings },
        ),
    }
}

/// Whether a file with this extension is a workbook.
pub open spec fn workbook_extension(e: Seq<char>) -> bool {
    e == "xls"@ || e == "xlsx"@ || e == "xlsm"@ || e == "xlsb"@ || e == "xla"@ || e == "xlam"@ || e
        == "ods"@
}

/// The warning for a workbook that can hold macros.
pub open spec fn workbook_warnings(format: Seq<char>) -> Seq<Seq<char>> {
    if format == "xlsm"@ || format == "xlam"@ {
        seq!["macro-bearing workbook opened read-only; macros were not executed"@]
    } else {
        Seq::empty()
    }
}

/// The first sheet of a workbook, given its sheet names.
pub open spec fn first_sheet_of(
    format: Seq<char>,
    names: Result<Seq<Seq<char>>, Seq<char>>,
) -> Result<Seq<char>, Seq<char>> {
    match names {
        Err(message) => Err("unable to read "@ + format + " workbook: "@ + message),
        Ok(names) => if names.len() == 0 {
            Err("workbook has no worksheets"@)
        } else {
            Ok(names[0])
        },
    }
}

/// The first items of a list, at most `count`.
pub open spec fn at_most<T>(items: Seq<T>, count: nat) -> Seq<T> {
    if items.len() <= count {
        items
    } else {
        items.take(count as int)
    }
}

/// The cells of a worksheet that are looked at: of the rows and of the cells in each, one more
/// than a sheet may have.
pub open spec fn cells_seen(rows: Rows) -> Rows {
    let kept = at_most(rows, (MAX_SHEET_ROWS + 1) as nat);
    Seq::new(kept.len(), |i: int| at_most(kept[i], (MAX_SHEET_COLUMNS + 1) as nat))
}

/// A workbook's sheet, given its cells.
pub open spec fn worksheet_of(
    format: Seq<char>,
    name: Seq<char>,
    cells: Result<Rows, Seq<char>>,
) -> Result<SpreadsheetModel, Seq<char>> {
    match cells {
        Err(message) => Err("unable to read worksheet '"@ + name + "': "@ + message),
        Ok(rows) => spreadsheet_of(format, name, cells_seen(rows), workbook_warnings(format)),
    }
}

/// A ZIP container's first bytes.
pub open spec fn zip_mark() -> Seq<u8> {
    seq![80u8, 75u8, 3u8, 4u8]
}

/// A delimited sheet.
pub open spec fn delimited_of(bytes: Seq<u8>, format: Seq<char>) -> Result<
    SpreadsheetModel,
    Seq<char>,
> {
    match utf8_of(bytes, "spreadsheet"@) {
        Err(message) => Err(message),
        Ok(text) => match parse_table(
            text,
            if format == "tsv"@ {
                '\t'
            } else {
                ','
            },
        ) {
            Err(flaw) => Err(flaw_text(flaw, "sheet"@)),
            Ok(records) => spreadsheet_of(format, "Sheet1"@, records, Seq::empty()),
        },
    }
}

/// What the host has read in a workbook: the names of its sheets, and the rows of the first, each
/// cell as text; or why it could not.
#[derive(Debug, PartialEq, Eq)]
pub struct WorkbookReading {
    pub names: Result<Vec<String>, String>,
    pub cells: Result<Vec<Vec<String>>, String>,
}

/// What a [`WorkbookReading`] says.
#[verifier::ext_equal]
pub struct ReadingModel {
    pub names: Result<Seq<Seq<char>>, Seq<char>>,
    pub cells: Result<Rows, Seq<char>>,
}

pub open spec fn names_seen(names: Result<Vec<String>, String>) -> Result<
    Seq<Seq<char>>,
    Seq<char>,
> {
    match names {
        Ok(names) => Ok(texts(names@)),
        Err(message) => Err(message@),
    }
}

pub open spec fn rows_seen(cells: Result<Vec<Vec<String>>, String>) -> Result<Rows, Seq<char>> {
    match cells {
        Ok(rows) => Ok(row_models(rows@)),
        Err(message) => Err(message@),
    }
}

impl View for WorkbookReading {
    type V = ReadingModel;

    open spec fn view(&self) -> ReadingModel {
        ReadingModel { names: names_seen(self.names), cells: rows_seen(self.cells) }
    }
}

/// Whether a spreadsheet is a workbook that the host reads: it has a workbook's extension, and is
/// within the bounds of an archive where it is one.
pub open spec fn read_by_host(filename: Seq<char>, bytes: Seq<u8>) -> bool {
    &&& extension_of(filename) matches Ok(format) && workbook_extension(format)
    &&& !(bytes_at(bytes, 0, zip_mark()) && archive_trouble(bytes) is Some)
}

/// What is visible in the first sheet of an uploaded spreadsheet; `reading` is what the host has
/// read in it, when it is a workbook.
pub open spec fn spreadsheet_content(
    filename: Seq<char>,
    bytes: Seq<u8>,
    reading: ReadingModel,
) -> Result<SpreadsheetModel, Seq<char>> {
    match extension_of(filename) {
        Err(message) => Err(message),
        Ok(format) => if workbook_extension(format) {
            if bytes_at(bytes, 0, zip_mark()) && archive_trouble(bytes) is Some {
                Err(archive_trouble(bytes)->0)
            } else {
                match first_sheet_of(format, reading.names) {
                    Err(message) => Err(message),
                    Ok(name) => worksheet_of(format, name, reading.cells),
                }
            }
        } else if format == "csv"@ || format == "tsv"@ {
            delimited_of(bytes, format)
        } else {
            Err("unsupported spreadsheet format: ."@ + format)
        },
    }
}

/// What a call says of a spreadsheet.
pub open spec fn spreadsheet_seen(r: Result<SpreadsheetContent, String>) -> Result<
    SpreadsheetModel,
    Seq<char>,
> {
    match r {
        Ok(content) => Ok(content@),
        Err(message) => Err(message@),
    }
}

fn over_limit(limit: usize, what: &str) -> (r: String)
    ensures
        r@ == over_limit_text(limit, what@),
{
    let mut r = "sheet has more than ".to_owned();
    r.push_str(size_text(limit).as_str());
    r.push_str(what);
    r
}

fn copy_rows(rows: &[Vec<String>]) -> (r: Vec<Vec<String>>)
    ensures
        row_models(r@) == row_models(rows@),
{
    let ghost all = row_models(rows@);
    let mut r: Vec<Vec<String>> = Vec::new();
    let mut i: usize = 0;
    while i < rows.len()
        invariant
            i <= rows@.len(),
            all == row_models(rows@),
            row_models(r@) == all.take(i as int),
        decreases rows@.len() - i,
    {
        let row = copy_row(&rows[i]);
        let ghost before = r@;
        r.push(row);
        assert(row_models(r@) =~= row_models(before).push(texts(row@)));
        assert(all.take(i + 1) =~= all.take(i as int).push(all[i as int]));
        i += 1;
    }
    assert(all.take(all.len() as int) =~= all);
    r
}

fn split_sheet_rows(records: Vec<Vec<String>>) -> (r: Result<
    (Vec<String>, Vec<Vec<String>>),
    String,
>)
    ensures
        match r {
            Ok(parts) => split_records(row_models(records@)) == Ok::<
                (Seq<Seq<char>>, Rows),
                Seq<char>,
            >((texts(parts.0@), row_models(parts.1@))),
            Err(message) => split_records(row_models(records@)) == Err::<
                (Seq<Seq<char>>, Rows),
                Seq<char>,
            >(message@),
        },
{
    if records.len() == 0 {
        return Err("sheet is empty".to_owned());
    }
    let headers = &records[0];
    let rows = vstd::slice::slice_subrange(records.as_slice(), 1, records.len());
    proof {
        let all = row_models(records@);
        assert(all[0] == texts(headers@));
        assert(row_models(rows@) =~= all.skip(1));
    }
    if headers.len() < 2 || headers.len() > MAX_SHEET_COLUMNS {
        let mut message = "sheet must have between 2 and ".to_owned();
        message.push_str(size_text(MAX_SHEET_COLUMNS).as_str());
        message.push_str(" columns");
        return Err(message);
    }
    if has_blank(headers) {
        return Err("sheet must have non-empty column names".to_owned());
    }
    if rows.len() > MAX_SHEET_ROWS {
        return Err(over_limit(MAX_SHEET_ROWS, " data rows"));
    }
    let too_many = match count_cells(headers.len(), rows) {
        None => true,
        Some(cells) => cells > MAX_SHEET_CELLS,
    };
    if too_many {
        return Err(over_limit(MAX_SHEET_CELLS, " cells"));
    }
    match check_widths(rows, headers.len()) {
        Err(message) => Err(message),
        Ok(_) => Ok((copy_row(headers), copy_rows(rows))),
    }
}

/// A spreadsheet of these rows, the first of which is the header.
pub fn make_spreadsheet(
    format: &str,
    sheet_name: &str,
    records: Vec<Vec<String>>,
    warnings: Vec<String>,
) -> (r: Result<SpreadsheetContent, String>)
    ensures
        spreadsheet_seen(r) == spreadsheet_of(
            format@,
            sheet_name@,
            row_models(records@),
            texts(warnings@),
        ),
{
    match split_sheet_rows(records) {
        Err(message) => Err(message),
        Ok((headers, rows)) => Ok(
            SpreadsheetContent {
                format: format.to_owned(),
                sheet_name: sheet_name.to_owned(),
                headers,
                rows,
                warnings,
            },
        ),
    }
}

/// The first sheet of a workbook, given its sheet names.
pub fn first_sheet(format: &str, names: Result<Vec<String>, String>) -> (r: Result<String, String>)
    ensures
        text_seen(r) == first_sheet_of(format@, names_seen(names)),
{
    match names {
        Err(error) => {
            let mut message = "unable to read ".to_owned();
            message.push_str(format);
            message.push_str(" workbook: ");
            message.push_str(error.as_str());
            Err(message)
        },
        Ok(names) => {
            assert(texts(names@).len() == names@.len());
            if names.len() == 0 {
                Err("workbook has no worksheets".to_owned())
            } else {
                assert(texts(names@)[0] == names@[0]@);
                Ok(names[0].clone())
            }
        },
    }
}

fn first_cells(rows: &Vec<Vec<String>>) -> (r: Vec<Vec<String>>)
    ensures
        row_models(r@) == cells_seen(row_models(rows@)),
{
    let ghost all = cells_seen(row_models(rows@));
    let mut r: Vec<Vec<String>> = Vec::new();
    let mut i: usize = 0;
    assert(row_models(r@) =~= all.take(0));
    while i < rows.len() && i < MAX_SHEET_ROWS + 1
        invariant
            i <= rows@.len(),
            i <= MAX_SHEET_ROWS + 1,
            all == cells_seen(row_models(rows@)),
            row_models(r@) == all.take(i as int),
        decreases rows@.len() - i,
    {
        let mut row = copy_row(&rows[i]);
        let ghost whole = row@;
        assert(texts(whole).len() == whole.len());
        row.truncate(MAX_SHEET_COLUMNS + 1);
        assert(texts(row@) =~= at_most(texts(whole), (MAX_SHEET_COLUMNS + 1) as nat));
        let ghost before = r@;
        r.push(row);
        assert(row_models(r@) =~= row_models(before).push(texts(row@)));
        assert(all.take(i + 1) =~= all.take(i as int).push(all[i as int]));
        i = i + 1;
    }
    assert(all.take(i as int) =~= all);
    r
}

/// A workbook's sheet, given its cells.
pub fn make_worksheet(format: &str, name: &str, cells: Result<Vec<Vec<String>>, String>) -> (r:
    Result<SpreadsheetContent, String>)
    ensures
        spreadsheet_seen(r) == worksheet_of(format@, name@, rows_seen(cells)),
{
    match cells {
        Err(error) => {
            let mut message = "unable to read worksheet '".to_owned();
            message.push_str(name);
            message.push_str("': ");
            message.push_str(error.as_str());
            Err(message)
        },
        Ok(rows) => {
            let warnings = if same_text(format, "xlsm") || same_text(format, "xlam") {
                one_text("macro-bearing workbook opened read-only; macros were not executed")
            } else {
                no_texts()
            };
            make_spreadsheet(format, name, first_cells(&rows), warnings)
        },
    }
}

fn read_delimited_sheet(bytes: &[u8], format: &str) -> (r: Result<SpreadsheetContent, String>)
    ensures
        spreadsheet_seen(r) == delimited_of(bytes@, format@),
{
    let text = match read_utf8(bytes, "spreadsheet") {
        Err(message) => return Err(message),
        Ok(text) => text,
    };
    let delimiter = if same_text(format, "tsv") {
        '\t'
    } else {
        ','
    };
    match parse_delimited(text.as_str(), delimiter) {
        Err(flaw) => Err(flaw_message(flaw, "sheet")),
        Ok(records) => make_spreadsheet(format, "Sheet1", records, no_texts()),
    }
}

fn is_workbook_extension(e: &str) -> (r: bool)
    ensures
        r == workbook_extension(e@),
{
    same_text(e, "xls") || same_text(e, "xlsx") || same_text(e, "xlsm") || same_text(e, "xlsb")
        || same_text(e, "xla") || same_text(e, "xlam") || same_text(e, "ods")
}

/// Whether a spreadsheet is a workbook that the host reads.
pub fn is_read_by_host(filename: &str, bytes: &[u8]) -> (r: bool)
    ensures
        r == read_by_host(filename@, bytes@),
{
    let extension = match extension(filename) {
        Err(_) => return false,
        Ok(extension) => extension,
    };
    if !is_workbook_extension(extension.as_str()) {
        return false;
    }
    let mark: Vec<u8> = vec![80, 75, 3, 4];
    assert(mark@ =~= zip_mark());
    if has_bytes(bytes, 0, &mark) {
        if let Err(_) = bounded_archive(bytes) {
            return false;
        }
    }
    true
}

/// Reads a spreadsheet; `reading` is what the host has read in it, when it is a workbook.
pub fn read_spreadsheet(filename: &str, bytes: &[u8], reading: WorkbookReading) -> (r: Result<
    SpreadsheetContent,
    String,
>)
    ensures
        spreadsheet_seen(r) == spreadsheet_content(filename@, bytes@, reading@),
{
    let extension = match extension(filename) {
        Err(message) => return Err(message),
        Ok(extension) => extension,
    };
    let format = extension.as_str();
    if !is_workbook_extension(format) {
        if same_text(format, "csv") || same_text(format, "tsv") {
            return read_delimited_sheet(bytes, format);
        }
        return Err(labelled("unsupported spreadsheet format: .", format));
    }
    let mark: Vec<u8> = vec![80, 75, 3, 4];
    assert(mark@ =~= zip_mark());
    if has_bytes(bytes, 0, &mark) {
        match bounded_archive(bytes) {
            Err(message) => return Err(message),
            Ok(_) => {},
        }
    }
    match first_sheet(format, reading.names) {
        Err(message) => Err(message),
        Ok(name) => make_worksheet(format, name.as_str(), reading.cells),
    }
}

// ---------------------------------------------------------------------------
// Laws
// ---------------------------------------------------------------------------

/// The sizes of the entries from `index` to `count`, added up.
pub open spec fn entry_bytes(bytes: Seq<u8>, count: usize, index: int) -> nat
    decreases count - index,
{
    if !(0 <= index < count) {
        0
    } else {
        match zip_entry(bytes, index as usize) {
            Ok((_, size)) => size as nat + entry_bytes(bytes, count, index + 1),
            Err(_) => entry_bytes(bytes, count, index + 1),
        }
    }
}

proof fn lemma_entries(bytes: Seq<u8>, count: usize, index: int, total: u64, i: int)
    requires
        0 <= index <= count,
        total <= MAX_ARCHIVE_TOTAL_BYTES,
        entries_trouble(bytes, count, index, total) is None,
    ensures
        total + entry_bytes(bytes, count, index) <= MAX_ARCHIVE_TOTAL_BYTES,
        index <= i < count ==> (zip_entry(bytes, i as usize) matches Ok((name, size))
            && !unsafe_entry(
            name,
        ) && size <= MAX_ARCHIVE_ENTRY_BYTES),
    decreases count - index,
{
    if index < count {
        let sum = entry_verdict(zip_entry(bytes, index as usize), total)->Ok_0;
        lemma_entries(bytes, count, index + 1, sum, i);
    }
}

/// An archive that is accepted has few entries, each of them within its limit and none with a
/// path that leads elsewhere, and all of them together are within the limit of an archive.
pub proof fn law_accepted_archives_are_bounded(bytes: Seq<u8>, i: int)
    requires
        archive_trouble(bytes) is None,
    ensures
        zip_entry_count(bytes) matches Ok(count) && {
            &&& count <= MAX_ARCHIVE_ENTRIES
            &&& entry_bytes(bytes, count, 0) <= MAX_ARCHIVE_TOTAL_BYTES
            &&& 0 <= i < count ==> (zip_entry(bytes, i as usize) matches Ok((name, size))
                && !unsafe_entry(name) && size <= MAX_ARCHIVE_ENTRY_BYTES)
        },
{
    lemma_entries(bytes, zip_entry_count(bytes)->Ok_0, 0, 0, i);
}

/// The extension of a file is what stands behind its last dot, in lower case; a file without a dot, or
/// with nothing behind it, has none.
pub proof fn law_extensions_stand_behind_the_last_dot(base: Seq<char>, extension: Seq<char>)
    requires
        lacks(extension, '.'),
    ensures
        extension.len() > 0 ==> extension_of(base + "."@ + extension) == Ok::<Seq<char>, Seq<char>>(
            lower_text(extension),
        ),
        extension_of(base + "."@) is Err,
        extension_of(extension) is Err,
{
    reveal_strlit(".");
    let name = base + "."@ + extension;
    let n = base.len() as int;
    law_last_places(name, '.');
    assert(name[n] == '.');
    let i = find_last(name, '.')->0;
    if i < n {
        assert(name.skip(i + 1)[n - i - 1] == '.');
    }
    if i > n {
        assert(name[i] == extension[i - n - 1]);
    }
    assert(name.skip(n + 1) =~= extension);
    let bare = base + "."@;
    law_last_places(bare, '.');
    assert(bare[n] == '.');
    let k = find_last(bare, '.')->0;
    if k < n {
        assert(bare.skip(k + 1)[n - k - 1] == '.');
    }
    assert(bare.skip(n + 1) =~= Seq::<char>::empty());
    law_last_places(extension, '.');
    if let Some(j) = find_last(extension, '.') {
        assert(extension[j] == '.');
    }
}

proof fn lemma_no_entity(value: Seq<char>, part: Seq<char>, with: Seq<char>)
    requires
        lacks(value, '&'),
        part.len() > 0,
        part[0] == '&',
    ensures
        replaced(value, part, with) == value,
        !holds_text(value, part),
{
    lemma_find_text(value, part, 0);
    if let Some(i) = find_text(value, part, 0) {
        assert(value.subrange(i, i + part.len())[0] == value[i]);
    }
}

/// A text without an ampersand has no entities to resolve.
pub proof fn law_plain_text_is_kept(value: Seq<char>)
    requires
        lacks(value, '&'),
    ensures
        decoded_entities(value) == Ok::<Seq<char>, Seq<char>>(value),
{
    reveal_strlit("&lt;");
    reveal_strlit("&gt;");
    reveal_strlit("&amp;");
    reveal_strlit("&quot;");
    reveal_strlit("&apos;");
    reveal_strlit("&#");
    lemma_no_entity(value, "&lt;"@, "<"@);
    lemma_no_entity(value, "&gt;"@, ">"@);
    lemma_no_entity(value, "&amp;"@, "&"@);
    lemma_no_entity(value, "&quot;"@, "\""@);
    lemma_no_entity(value, "&apos;"@, "'"@);
    lemma_no_entity(value, "&#"@, ""@);
}

/// A document is read tag by tag: the text before a tag is taken where a text element is open and
/// passed over elsewhere, then the tag does its part, and the rest follows.
pub proof fn law_documents_are_read_tag_by_tag(
    xml: Seq<char>,
    cursor: int,
    text_tag: Seq<char>,
    paragraph_tag: Seq<char>,
    s: Extraction,
    text: Seq<char>,
    tag: Seq<char>,
    rest: Seq<char>,
)
    requires
        0 <= cursor <= xml.len(),
        xml.skip(cursor) == text + ("<"@ + tag + ">"@) + rest,
        lacks(text, '<'),
        lacks(text, '&'),
        lacks(tag, '>'),
    ensures
        ({
            let read = if s.depth > 0 {
                Extraction { output: s.output + text, ..s }
            } else {
                s
            };
            let after = apply_tag(read, trim(tag), text_tag, paragraph_tag);
            byte_len(after.output) <= 524_288 ==> extract_from(
                xml,
                cursor,
                text_tag,
                paragraph_tag,
                s,
            ) == extract_from(
                xml,
                cursor + text.len() + tag.len() + 2,
                text_tag,
                paragraph_tag,
                after,
            )
        }),
{
    reveal_strlit("<");
    reveal_strlit(">");
    let tail = xml.skip(cursor);
    let n = text.len() as int;
    assert forall|j: int| 0 <= j < n implies tail[j] != '<' by {
        assert(tail[j] == text[j]);
    }
    assert(tail[n] == '<');
    lemma_find_char_is(tail, '<', n);
    let start = cursor + n;
    assert(xml.subrange(cursor, start) =~= text) by {
        assert forall|j: int| 0 <= j < n implies xml[cursor + j] == text[j] by {
            assert(tail[j] == xml[cursor + j]);
        }
    }
    law_plain_text_is_kept(text);
    let behind = xml.skip(start);
    let m = tag.len() as int;
    assert(behind =~= "<"@ + tag + ">"@ + rest) by {
        assert forall|j: int| 0 <= j < behind.len() implies behind[j] == ("<"@ + tag + ">"@
            + rest)[j] by {
            assert(tail[n + j] == xml[start + j]);
        }
    }
    assert forall|j: int| 0 <= j < m + 1 implies behind[j] != '>' by {
        if j > 0 {
            assert(behind[j] == tag[j - 1]);
        }
    }
    assert(behind[m + 1] == '>');
    lemma_find_char_is(behind, '>', m + 1);
    assert(xml.subrange(start + 1, start + m + 1) =~= tag) by {
        assert forall|j: int| 0 <= j < m implies xml[start + 1 + j] == tag[j] by {
            assert(behind[j + 1] == xml[start + 1 + j]);
        }
    }
}

/// What the tags of a document do: a text element opens and closes, the end of a paragraph and a
/// break end the line, a tab is a tab, and a run does nothing.
pub proof fn law_tags_of_documents(s: Extraction)
    ensures
        apply_tag(s, "w:t"@, "w:t"@, "w:p"@) == (Extraction { depth: s.depth + 1, ..s }),
        s.depth > 0 ==> apply_tag(s, "/w:t"@, "w:t"@, "w:p"@) == (Extraction {
            depth: (s.depth - 1) as nat,
            ..s
        }),
        apply_tag(s, "w:p"@, "w:t"@, "w:p"@) == s,
        apply_tag(s, "/w:p"@, "w:t"@, "w:p"@) == (Extraction { output: s.output.push('\n'), ..s }),
        apply_tag(s, "w:br"@, "w:t"@, "w:p"@) == (Extraction { output: s.output.push('\n'), ..s }),
        apply_tag(s, "w:tab"@, "w:t"@, "w:p"@) == (Extraction { output: s.output.push('\t'), ..s }),
        apply_tag(s, "w:r"@, "w:t"@, "w:p"@) == s,
        apply_tag(s, "/w:r"@, "w:t"@, "w:p"@) == s,
        apply_tag(s, "text:p"@, "text:p"@, "text:p"@) == (Extraction { depth: s.depth + 1, ..s }),
        s.depth > 0 ==> apply_tag(s, "/text:p"@, "text:p"@, "text:p"@) == (Extraction {
            depth: (s.depth - 1) as nat,
            output: s.output.push('\n'),
        }),
{
    reveal_strlit("w:t");
    reveal_strlit("/w:t");
    reveal_strlit("w:p");
    reveal_strlit("/w:p");
    reveal_strlit("w:br");
    reveal_strlit("w:cr");
    reveal_strlit("w:tab");
    reveal_strlit("text:tab");
    reveal_strlit("w:r");
    reveal_strlit("/w:r");
    reveal_strlit("text:p");
    reveal_strlit("/text:p");
    reveal_strlit("/");
    lemma_tag_is("w:t"@, "w:t"@);
    lemma_tag_is("/w:t"@, "w:t"@);
    lemma_tag_is("w:p"@, "w:p"@);
    lemma_tag_is("/w:p"@, "w:p"@);
    lemma_tag_is("w:br"@, "w:br"@);
    lemma_tag_is("w:tab"@, "w:tab"@);
    lemma_tag_is("w:r"@, "w:r"@);
    lemma_tag_is("/w:r"@, "w:r"@);
    lemma_tag_is("text:p"@, "text:p"@);
    lemma_tag_is("/text:p"@, "text:p"@);
    assert("/w:t"@ =~= seq!['/'] + "w:t"@);
    assert("/w:p"@ =~= seq!['/'] + "w:p"@);
    assert("/w:r"@ =~= seq!['/'] + "w:r"@);
    assert("/text:p"@ =~= seq!['/'] + "text:p"@);
    assert("w:t"@[2] == 't' && "w:p"@[2] == 'p' && "w:r"@[2] == 'r' && "w:br"@[2] == 'b');
    assert("w:t"@.len() == 3 && "w:p"@.len() == 3 && "w:r"@.len() == 3 && "w:br"@.len() == 4
        && "w:cr"@.len() == 4 && "w:tab"@.len() == 5 && "text:tab"@.len() == 8 && "text:p"@.len()
        == 6);
    assert("w:cr"@[2] == 'c');
}

proof fn lemma_tag_is(tag: Seq<char>, name: Seq<char>)
    requires
        name.len() > 0,
        forall|i: int| 0 <= i < name.len() ==> !white(#[trigger] name[i]) && name[i] != '/',
        tag =~= name || tag =~= seq!['/'] + name,
    ensures
        tag_name(tag) == name,
        begins(tag, "/"@) <==> tag == seq!['/'] + name,
        !ends(tag, "/"@),
        tag == name ==> tag != seq!['/'] + name,
{
    reveal_strlit("/");
    let k: int = if tag =~= name {
        0
    } else {
        1
    };
    assert(name[0] != '/');
    lemma_leading_slashes(tag, k);
    assert(tag.skip(k) =~= name);
    lemma_name_length(name, name.len() as int);
    assert(name.take(name.len() as int) =~= name);
    if begins(tag, "/"@) {
        assert(tag.take(1)[0] == '/');
    }
    if k == 1 {
        assert(tag.take(1) =~= "/"@);
    }
    if ends(tag, "/"@) {
        assert(tag.skip(tag.len() - 1)[0] == '/');
        assert(tag.last() == name[name.len() - 1]);
    }
}

/// Rich text without braces and backslashes is read as it stands; a brace is passed over, and a
/// backslash before a brace or a backslash stands for what follows it.
pub proof fn law_rich_text_is_read(input: Seq<char>, i: int)
    requires
        0 <= i < input.len(),
    ensures
        input[i] != '\\' && input[i] != '{' && input[i] != '}' ==> rtf_step(input, i) == (
            seq![input[i]],
            i + 1,
        ),
        input[i] == '{' || input[i] == '}' ==> rtf_step(input, i) == (Seq::<char>::empty(), i + 1),
        input[i] == '\\' && i + 1 < input.len() && (input[i + 1] == '\\' || input[i + 1] == '{'
            || input[i + 1] == '}') ==> rtf_step(input, i) == (seq![input[i + 1]], i + 2),
        i + 4 < input.len() && input.subrange(i, i + 5) == "\\par "@ ==> rtf_step(input, i) == (
            seq!['\n'],
            i + 5,
        ),
        i + 4 < input.len() && input.subrange(i, i + 5) == "\\tab "@ ==> rtf_step(input, i) == (
            seq!['\t'],
            i + 5,
        ),
{
    reveal_strlit("\\par ");
    reveal_strlit("\\tab ");
    reveal_strlit("ar");
    reveal_strlit("ab");
    if i + 4 < input.len() && (input.subrange(i, i + 5) == "\\par "@ || input.subrange(i, i + 5)
        == "\\tab "@) {
        let five = input.subrange(i, i + 5);
        assert(five[0] == input[i] && five[1] == input[i + 1] && five[2] == input[i + 2] && five[3]
            == input[i + 3] && five[4] == input[i + 4]);
        if five == "\\par "@ {
            assert(input.subrange(i + 2, i + 4) =~= "ar"@);
        } else {
            assert(input.subrange(i + 2, i + 4) =~= "ab"@);
        }
    }
}

/// What is read in a workbook is its first sheet: the first row is the header, and the rows below it
/// are as wide. Without a sheet, or where the host could not read it, there is nothing.
pub proof fn law_the_first_sheet_is_read(
    filename: Seq<char>,
    bytes: Seq<u8>,
    reading: ReadingModel,
    format: Seq<char>,
)
    requires
        extension_of(filename) == Ok::<Seq<char>, Seq<char>>(format),
        workbook_extension(format),
    ensures
        spreadsheet_content(filename, bytes, reading) matches Ok(sheet) ==> {
            &&& reading.names matches Ok(names) && names.len() > 0 && sheet.sheet_name == names[0]
            &&& sheet.format == format
            &&& reading.cells matches Ok(rows) && rows.len() > 0 && (rows.len() <= 50_000 && (
            forall|i: int| 0 <= i < rows.len() ==> (#[trigger] rows[i]).len() <= 256)
                ==> sheet.headers == rows[0] && sheet.rows == rows.skip(1))
            &&& 2 <= sheet.headers.len() <= 256
            &&& forall|i: int|
                0 <= i < sheet.rows.len() ==> (#[trigger] sheet.rows[i]).len() == sheet.headers.len()
        },
{
    if let Ok(sheet) = spreadsheet_content(filename, bytes, reading) {
        let rows = reading.cells->Ok_0;
        let seen = cells_seen(rows);
        law_irregular_rows_are_found(seen.skip(1), seen[0].len(), 0);
        if rows.len() <= 50_000 && (forall|i: int|
            0 <= i < rows.len() ==> (#[trigger] rows[i]).len() <= 256) {
            assert(seen =~= rows) by {
                assert forall|i: int| 0 <= i < rows.len() implies seen[i] == rows[i] by {
                    assert(rows[i].len() <= 256);
                }
            }
        }
    }
}

/// What is read in a document is bounded; within the bound it is given with its format.
pub proof fn law_contents_are_bounded(
    format: Seq<char>,
    text: Seq<char>,
    message: Seq<char>,
    warnings: Seq<Seq<char>>,
    name: Seq<char>,
    bytes: Seq<u8>,
)
    ensures
        byte_len(text) <= 524_288 ==> (bounded_content(format, Ok(text), warnings) matches Ok(content)
            && content.format == format && content.warnings == warnings && content.text
            == normal_text(text)),
        byte_len(text) > 524_288 ==> bounded_content(format, Ok(text), warnings) is Err,
        bounded_content(format, Err(message), warnings) == Err::<ContentModel, Seq<char>>(message),
        bytes.len() <= 2_097_152 ==> bounded_part(name, Ok(bytes)) == Ok::<Seq<u8>, Seq<char>>(bytes),
        bytes.len() > 2_097_152 ==> bounded_part(name, Ok(bytes)) is Err,
        bounded_part(name, Err(message)) is Err,
        macro_warnings(true).len() == 1,
        macro_warnings(false).len() == 0,
{
}

/// A text whose lines have nothing at their ends that would not show is kept as it is.
pub proof fn law_tidy_texts_are_kept(lines: Seq<Seq<char>>)
    requires
        lines.len() > 0,
        forall|i: int|
            0 <= i < lines.len() ==> (#[trigger] lines[i]).len() > 0 && lacks(lines[i], '\n')
                && lacks(lines[i], '\r') && !white(lines[i][0]) && !white(lines[i].last()),
    ensures
        normal_text(joined(lines, "\n"@)) == joined(lines, "\n"@),
{
    reveal_strlit("\n");
    assert("\n"@ =~= seq!['\n']);
    law_lines_undo_join(lines);
    assert(trimmed_lines(lines) =~= lines) by {
        assert forall|i: int| 0 <= i < lines.len() implies trim_end(lines[i]) == lines[i] by {
            assert(!white(lines[i].last()));
        }
    }
    let whole = joined(lines, "\n"@);
    lemma_joined_ends(lines, "\n"@);
    assert(!white(lines[0][0]) && !white(lines[lines.len() - 1].last()));
    lemma_trim_solid(whole);
}

proof fn lemma_joined_ends(lines: Seq<Seq<char>>, sep: Seq<char>)
    requires
        lines.len() > 0,
        forall|i: int| 0 <= i < lines.len() ==> (#[trigger] lines[i]).len() > 0,
    ensures
        joined(lines, sep).len() > 0,
        joined(lines, sep)[0] == lines[0][0],
        joined(lines, sep).last() == lines[lines.len() - 1].last(),
    decreases lines.len(),
{
    assert(lines[lines.len() - 1].len() > 0 && lines[0].len() > 0);
    if lines.len() > 1 {
        let front = lines.drop_last();
        assert forall|i: int| 0 <= i < front.len() implies (#[trigger] front[i]).len() > 0 by {
            assert(front[i] == lines[i]);
        }
        lemma_joined_ends(front, sep);
    }
}

/// A document is read by what its name ends with: plain text as it stands, archives by the part that
/// holds their text; what has no reader is refused, and so is text that is not valid or that brings
/// its own declarations.
pub proof fn law_documents_are_read_by_their_kind(
    filename: Seq<char>,
    bytes: Seq<u8>,
    kind: Seq<char>,
    xml: Seq<u8>,
    a: Seq<char>,
    b: Seq<char>,
)
    requires
        extension_of(filename) == Ok::<Seq<char>, Seq<char>>(kind),
    ensures
        kind == "txt"@ || kind == "md"@ || kind == "html"@ ==> if valid_utf8(bytes) && byte_len(
            decode_utf8(bytes),
        ) <= 524_288 {
            document_content(filename, bytes) matches Ok(content) && content.text == normal_text(
                decode_utf8(bytes),
            )
        } else {
            document_content(filename, bytes) is Err
        },
        kind == "pdf"@ || kind == "doc"@ || kind == "exe"@ ==> document_content(filename, bytes)
            is Err,
        kind == "docx"@ && archive_trouble(bytes) is None && archive_part(
            bytes,
            "word/document.xml"@,
        ) == Ok::<Seq<u8>, Seq<char>>(xml) ==> (document_content(filename, bytes) matches Ok(content)
            ==> visible_text(xml, "w:t"@, "w:p"@) matches Ok(text) && content.text == normal_text(text)),
        kind == "docx"@ && archive_trouble(bytes) is Some ==> document_content(filename, bytes)
            is Err,
        !valid_utf8(xml) ==> visible_text(xml, a, b) is Err,
        valid_utf8(xml) && holds_text(upper_text(decode_utf8(xml)), "<!DOCTYPE"@) ==> visible_text(
            xml,
            a,
            b,
        ) is Err,
        valid_utf8(xml) && holds_text(upper_text(decode_utf8(xml)), "<!ENTITY"@) ==> visible_text(
            xml,
            a,
            b,
        ) is Err,
        valid_utf8(bytes) && !begins(trim_start(decode_utf8(bytes)), "{\\rtf"@) ==> rtf_text(bytes)
            is Err,
{
    reveal_strlit("txt");
    reveal_strlit("text");
    reveal_strlit("md");
    reveal_strlit("markdown");
    reveal_strlit("rst");
    reveal_strlit("html");
    reveal_strlit("htm");
    reveal_strlit("xml");
    reveal_strlit("rtf");
    reveal_strlit("docx");
    reveal_strlit("docm");
    reveal_strlit("odt");
    reveal_strlit("ott");
    reveal_strlit("pdf");
    reveal_strlit("doc");
    reveal_strlit("dot");
    reveal_strlit("exe");
    assert("pdf"@[0] == 'p' && "doc"@[0] == 'd' && "exe"@[0] == 'e' && "docx"@[0] == 'd');
    assert("txt"@[0] == 't' && "rst"@[0] == 'r' && "htm"@[0] == 'h' && "xml"@[0] == 'x' && "rtf"@[0]
        == 'r' && "odt"@[0] == 'o' && "ott"@[0] == 'o' && "dot"@[0] == 'd');
    assert("docx"@[3] == 'x' && "docm"@[3] == 'm' && "text"@[0] == 't' && "html"@[0] == 'h');
    assert("pdf"@.len() == 3 && "doc"@.len() == 3 && "exe"@.len() == 3 && "docx"@.len() == 4
        && "docm"@.len() == 4 && "text"@.len() == 4 && "html"@.len() == 4 && "md"@.len() == 2
        && "markdown"@.len() == 8 && "txt"@.len() == 3 && "rst"@.len() == 3 && "htm"@.len() == 3
        && "xml"@.len() == 3 && "rtf"@.len() == 3 && "odt"@.len() == 3 && "ott"@.len() == 3
        && "dot"@.len() == 3);
}

} // verus!
