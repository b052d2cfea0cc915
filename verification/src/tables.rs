//! Delimited tables: reading, checking and summarising them.

use vstd::prelude::*;

use crate::json::{field, quoted, write_array, write_object, write_strings};
#[allow(unused_imports)]
use crate::json::{array_text, field_models, json_string, object_text, strings_text};
#[allow(unused_imports)]
use crate::text::{
    all_white, ascii_digit, blank, decimal, first_chars, law_blank_texts_are_white, lines_of,
    lower_text, texts, trim, white,
};
use crate::text::{
    ascii_lower, char_count, chars_of, is_ascii_digit, is_blank, is_whitespace, lines, same_text,
    size_text, substring, take_chars, trimmed,
};

verus! {

/// The rows of a table.
pub type Rows = Seq<Seq<Seq<char>>>;

pub open spec fn row_models(rows: Seq<Vec<String>>) -> Rows {
    Seq::new(rows.len(), |i: int| texts(rows[i]@))
}

// ---------------------------------------------------------------------------
// Reading
// ---------------------------------------------------------------------------

/// Where a reader stands: in a plain cell, inside quotes, or behind the closing quote.
#[derive(Debug, Clone, Copy, PartialEq, Eq, Structural)]
pub enum Mode {
    Plain,
    Quoted,
    AfterQuote,
}

/// What has been read of a table.
#[verifier::ext_equal]
pub struct Scan {
    pub rows: Rows,
    pub row: Seq<Seq<char>>,
    pub cell: Seq<char>,
    pub mode: Mode,
}

/// What makes a table unreadable.
#[derive(Debug, Clone, Copy, PartialEq, Eq, Structural)]
pub enum CellFlaw {
    /// Text stands behind the closing quote of a cell.
    TextAfterQuote,
    /// The table ends inside a quoted cell.
    Unterminated,
}

pub open spec fn nothing_read() -> Scan {
    Scan { rows: Seq::empty(), row: Seq::empty(), cell: Seq::empty(), mode: Mode::Plain }
}

pub open spec fn with_char(s: Scan, c: char) -> Scan {
    Scan { cell: s.cell.push(c), ..s }
}

/// The cell ends.
pub open spec fn cell_ended(s: Scan) -> Scan {
    Scan { row: s.row.push(s.cell), cell: Seq::empty(), mode: Mode::Plain, ..s }
}

/// The cell and its row end.
pub open spec fn row_ended(s: Scan) -> Scan {
    Scan {
        rows: s.rows.push(s.row.push(s.cell)),
        row: Seq::empty(),
        cell: Seq::empty(),
        mode: Mode::Plain,
    }
}

/// Whether `c` stands right behind index `i`.
pub open spec fn followed_by(input: Seq<char>, i: int, c: char) -> bool {
    i + 1 < input.len() && input[i + 1] == c
}

/// Reading the character at `i`: what has been read then and how many characters it took, or
/// `None` where text stands behind a quoted cell.
pub open spec fn read_char(input: Seq<char>, i: int, delimiter: char, s: Scan) -> Option<
    (Scan, int),
> {
    let c = input[i];
    match s.mode {
        Mode::Quoted => if c != '"' {
            Some((with_char(s, c), 1))
        } else if followed_by(input, i, '"') {
            Some((with_char(s, '"'), 2))
        } else {
            Some((Scan { mode: Mode::AfterQuote, ..s }, 1))
        },
        Mode::AfterQuote => if c == delimiter {
            Some((cell_ended(s), 1))
        } else if c == '\n' {
            Some((row_ended(s), 1))
        } else if white(c) {
            Some((s, 1))
        } else {
            None
        },
        Mode::Plain => if c == '"' && s.cell.len() == 0 {
            Some((Scan { mode: Mode::Quoted, ..s }, 1))
        } else if c == delimiter {
            Some((cell_ended(s), 1))
        } else if c == '\n' {
            Some((row_ended(s), 1))
        } else if c == '\r' && followed_by(input, i, '\n') {
            Some((s, 1))
        } else {
            Some((with_char(s, c), 1))
        },
    }
}

/// Reading from index `i` to the end.
pub open spec fn read_from(input: Seq<char>, i: int, delimiter: char, s: Scan) -> Option<Scan>
    decreases input.len() - i,
{
    if !(0 <= i < input.len()) {
        Some(s)
    } else {
        match read_char(input, i, delimiter, s) {
            Some((next, taken)) => if taken == 2 {
                read_from(input, i + 2, delimiter, next)
            } else {
                read_from(input, i + 1, delimiter, next)
            },
            None => None,
        }
    }
}

/// Whether every cell of a row is blank.
pub open spec fn blank_row(row: Seq<Seq<char>>) -> bool {
    forall|i: int| 0 <= i < row.len() ==> blank(#[trigger] row[i])
}

/// The rows that show something.
pub open spec fn shown_rows(rows: Rows) -> Rows
    decreases rows.len(),
{
    if rows.len() == 0 {
        Seq::empty()
    } else if blank_row(rows.last()) {
        shown_rows(rows.drop_last())
    } else {
        shown_rows(rows.drop_last()).push(rows.last())
    }
}

/// The rows of a delimited table: cells may stand in quotes, a doubled quote stands for one, and
/// rows that show nothing are left out.
pub open spec fn parse_table(input: Seq<char>, delimiter: char) -> Result<Rows, CellFlaw> {
    match read_from(input, 0, delimiter, nothing_read()) {
        None => Err(CellFlaw::TextAfterQuote),
        Some(s) => if s.mode == Mode::Quoted {
            Err(CellFlaw::Unterminated)
        } else if s.mode == Mode::AfterQuote || s.cell.len() > 0 || s.row.len() > 0 {
            Ok(shown_rows(row_ended(s).rows))
        } else {
            Ok(shown_rows(s.rows))
        },
    }
}

fn is_blank_row(row: &Vec<String>) -> (r: bool)
    ensures
        r == blank_row(texts(row@)),
{
    let ghost all = texts(row@);
    let mut i: usize = 0;
    while i < row.len()
        invariant
            i <= row@.len(),
            all == texts(row@),
            forall|j: int| 0 <= j < i ==> blank(#[trigger] all[j]),
        decreases row@.len() - i,
    {
        if !is_blank(row[i].as_str()) {
            assert(!blank(all[i as int]));
            return false;
        }
        i += 1;
    }
    true
}

fn keep_shown(rows: Vec<Vec<String>>) -> (r: Vec<Vec<String>>)
    ensures
        row_models(r@) == shown_rows(row_models(rows@)),
{
    let ghost all = row_models(rows@);
    let mut r: Vec<Vec<String>> = Vec::new();
    let mut i: usize = 0;
    assert(all.take(0) =~= Seq::<Seq<Seq<char>>>::empty());
    assert(row_models(r@) =~= shown_rows(all.take(0)));
    while i < rows.len()
        invariant
            i <= rows@.len(),
            all == row_models(rows@),
            row_models(r@) == shown_rows(all.take(i as int)),
        decreases rows@.len() - i,
    {
        assert(all.take(i + 1).drop_last() =~= all.take(i as int));
        assert(all.take(i + 1).last() == texts(rows@[i as int]@));
        if !is_blank_row(&rows[i]) {
            let ghost before = r@;
            let row = copy_row(&rows[i]);
            r.push(row);
            assert(row_models(r@) =~= row_models(before).push(texts(row@)));
        }
        i += 1;
    }
    assert(all.take(all.len() as int) =~= all);
    r
}

/// A copy of a row.
pub fn copy_row(row: &Vec<String>) -> (r: Vec<String>)
    ensures
        texts(r@) == texts(row@),
{
    let r = row.clone();
    assert(texts(r@) =~= texts(row@));
    r
}

/// Reads a delimited table.
pub fn parse_delimited(input: &str, delimiter: char) -> (r: Result<Vec<Vec<String>>, CellFlaw>)
    ensures
        match r {
            Ok(rows) => parse_table(input@, delimiter) == Ok::<Rows, CellFlaw>(row_models(rows@)),
            Err(flaw) => parse_table(input@, delimiter) == Err::<Rows, CellFlaw>(flaw),
        },
{
    let chars = chars_of(input);
    let n: usize = chars.len();
    let mut rows: Vec<Vec<String>> = Vec::new();
    let mut row: Vec<String> = Vec::new();
    let mut cell = String::new();
    let mut mode = Mode::Plain;
    let mut i: usize = 0;
    proof {
        assert(row_models(rows@) =~= Seq::<Seq<Seq<char>>>::empty());
        assert(texts(row@) =~= Seq::<Seq<char>>::empty());
    }
    while i < n
        invariant
            i <= n,
            n == chars@.len(),
            chars@ == input@,
            read_from(input@, 0, delimiter, nothing_read()) == read_from(
                input@,
                i as int,
                delimiter,
                Scan { rows: row_models(rows@), row: texts(row@), cell: cell@, mode },
            ),
        decreases n - i,
    {
        let c = chars[i];
        let ghost s = Scan { rows: row_models(rows@), row: texts(row@), cell: cell@, mode };
        let ghost step = read_char(input@, i as int, delimiter, s);
        let mut taken: usize = 1;
        let ends_cell;
        let ends_row;
        match mode {
            Mode::Quoted => {
                ends_cell = false;
                ends_row = false;
                if c != '"' {
                    cell.push(c);
                } else if i + 1 < n && chars[i + 1] == '"' {
                    cell.push('"');
                    taken = 2;
                } else {
                    mode = Mode::AfterQuote;
                }
            },
            Mode::AfterQuote => {
                ends_cell = c == delimiter;
                ends_row = c != delimiter && c == '\n';
                if !ends_cell && !ends_row && !is_whitespace(c) {
                    return Err(CellFlaw::TextAfterQuote);
                }
            },
            Mode::Plain => {
                let opens = c == '"' && cell.as_str().is_empty();
                ends_cell = !opens && c == delimiter;
                ends_row = !opens && !ends_cell && c == '\n';
                if opens {
                    mode = Mode::Quoted;
                } else if !ends_cell && !ends_row && !(c == '\r' && i + 1 < n && chars[i + 1]
                    == '\n') {
                    cell.push(c);
                }
            },
        }
        if ends_cell || ends_row {
            let ghost before = row@;
            let ghost last = cell@;
            row.push(cell);
            assert(texts(row@) =~= texts(before).push(last));
            cell = String::new();
            mode = Mode::Plain;
            if ends_row {
                let ghost earlier = rows@;
                let ghost ended = texts(row@);
                rows.push(row);
                assert(row_models(rows@) =~= row_models(earlier).push(ended));
                row = Vec::new();
                assert(texts(row@) =~= Seq::<Seq<char>>::empty());
            }
        }
        proof {
            let now = Scan { rows: row_models(rows@), row: texts(row@), cell: cell@, mode };
            let (next, length) = step.unwrap();
            assert(now =~= next);
            assert(length == taken);
        }
        i = i + taken;
    }
    if let Mode::Quoted = mode {
        return Err(CellFlaw::Unterminated);
    }
    let behind = match mode {
        Mode::AfterQuote => true,
        _ => false,
    };
    if behind || !cell.as_str().is_empty() || row.len() > 0 {
        let ghost before = row@;
        let ghost last = cell@;
        row.push(cell);
        assert(texts(row@) =~= texts(before).push(last));
        let ghost earlier = rows@;
        let ghost ended = texts(row@);
        rows.push(row);
        assert(row_models(rows@) =~= row_models(earlier).push(ended));
    }
    Ok(keep_shown(rows))
}

/// The message for a flaw in a table that is called `what`.
pub open spec fn flaw_text(flaw: CellFlaw, what: Seq<char>) -> Seq<char> {
    match flaw {
        CellFlaw::TextAfterQuote => "unexpected text after a quoted "@ + what + " cell"@,
        CellFlaw::Unterminated => what + " has an unterminated quoted cell"@,
    }
}

/// The message for a flaw in a table that is called `what`.
pub fn flaw_message(flaw: CellFlaw, what: &str) -> (r: String)
    ensures
        r@ == flaw_text(flaw, what@),
{
    match flaw {
        CellFlaw::TextAfterQuote => {
            let mut r = "unexpected text after a quoted ".to_owned();
            r.push_str(what);
            r.push_str(" cell");
            r
        },
        CellFlaw::Unterminated => {
            let mut r = what.to_owned();
            r.push_str(" has an unterminated quoted cell");
            r
        },
    }
}

// ---------------------------------------------------------------------------
// Numbers
// ---------------------------------------------------------------------------

/// The number of digits that `s` begins with.
pub open spec fn digit_run(s: Seq<char>) -> int
    decreases s.len(),
{
    if s.len() == 0 || !ascii_digit(s[0]) {
        0
    } else {
        1 + digit_run(s.skip(1))
    }
}

pub open spec fn signed(s: Seq<char>) -> bool {
    s.len() > 0 && (s[0] == '+' || s[0] == '-')
}

/// `s` without a leading sign.
pub open spec fn unsigned_part(s: Seq<char>) -> Seq<char> {
    if signed(s) {
        s.skip(1)
    } else {
        s
    }
}

/// Nothing, or an exponent: `e` or `E`, perhaps a sign, and digits.
pub open spec fn exponent(s: Seq<char>) -> bool {
    s.len() == 0 || ((s[0] == 'e' || s[0] == 'E') && {
        let digits = unsigned_part(s.skip(1));
        digits.len() > 0 && digit_run(digits) == digits.len()
    })
}

/// Digits with at most one point among or beside them, and perhaps an exponent.
pub open spec fn decimal_number(s: Seq<char>) -> bool {
    let whole = digit_run(s);
    if whole < s.len() && s[whole] == '.' {
        let tail = s.skip(whole + 1);
        let fraction = digit_run(tail);
        (whole > 0 || fraction > 0) && exponent(tail.skip(fraction))
    } else {
        whole > 0 && exponent(s.skip(whole))
    }
}

/// A floating-point number as text: perhaps a sign, then a decimal number or a name for infinity
/// or for what is not a number, in any case.
pub open spec fn numeric(s: Seq<char>) -> bool {
    let body = unsigned_part(s);
    let name = lower_text(body);
    name == "inf"@ || name == "infinity"@ || name == "nan"@ || decimal_number(body)
}

proof fn lemma_digit_run(s: Seq<char>, n: int)
    requires
        0 <= n <= s.len(),
        forall|i: int| 0 <= i < n ==> ascii_digit(#[trigger] s[i]),
        n < s.len() ==> !ascii_digit(s[n]),
    ensures
        digit_run(s) == n,
    decreases s.len(),
{
    if n > 0 {
        assert(ascii_digit(s[0]));
        let rest = s.skip(1);
        assert forall|i: int| 0 <= i < n - 1 implies ascii_digit(#[trigger] rest[i]) by {
            assert(rest[i] == s[i + 1]);
        }
        if n < s.len() {
            assert(rest[n - 1] == s[n]);
        }
        lemma_digit_run(rest, n - 1);
    }
}

/// The end of the run of digits at `from`.
fn digits_end(chars: &Vec<char>, from: usize) -> (r: usize)
    requires
        from <= chars@.len(),
    ensures
        from <= r <= chars@.len(),
        r - from == digit_run(chars@.skip(from as int)),
{
    let mut i: usize = from;
    while i < chars.len() && is_ascii_digit(chars[i])
        invariant
            from <= i <= chars@.len(),
            forall|j: int| from <= j < i ==> ascii_digit(#[trigger] chars@[j]),
        decreases chars@.len() - i,
    {
        i += 1;
    }
    proof {
        let s = chars@.skip(from as int);
        assert forall|j: int| 0 <= j < i - from implies ascii_digit(#[trigger] s[j]) by {
            assert(s[j] == chars@[j + from]);
        }
        lemma_digit_run(s, i - from);
    }
    i
}

fn is_exponent(chars: &Vec<char>, from: usize) -> (r: bool)
    requires
        from <= chars@.len(),
    ensures
        r == exponent(chars@.skip(from as int)),
{
    let n: usize = chars.len();
    let ghost s = chars@.skip(from as int);
    if from == n {
        return true;
    }
    assert(s[0] == chars@[from as int]);
    if chars[from] != 'e' && chars[from] != 'E' {
        return false;
    }
    let mut start: usize = from + 1;
    assert(s.skip(1) =~= chars@.skip(from + 1));
    if start < n && (chars[start] == '+' || chars[start] == '-') {
        assert(s.skip(1)[0] == chars@[start as int]);
        assert(s.skip(1).skip(1) =~= chars@.skip(start + 1));
        start = start + 1;
    } else if start < n {
        assert(s.skip(1)[0] == chars@[start as int]);
    }
    assert(unsigned_part(s.skip(1)) == chars@.skip(start as int));
    start < n && digits_end(chars, start) == n
}

/// Whether `s` denotes a floating-point number.
pub fn is_numeric(s: &str) -> (r: bool)
    ensures
        r == numeric(s@),
{
    let chars = chars_of(s);
    let n: usize = chars.len();
    let mut from: usize = 0;
    assert(chars@.skip(0) =~= s@);
    if n > 0 && (chars[0] == '+' || chars[0] == '-') {
        from = 1;
    }
    let ghost body = unsigned_part(s@);
    assert(chars@.skip(from as int) == body);
    let rest = substring(&chars, from, n);
    assert(rest@ =~= body);
    let name = ascii_lower(rest.as_str());
    if same_text(name.as_str(), "inf") || same_text(name.as_str(), "infinity") || same_text(
        name.as_str(),
        "nan",
    ) {
        return true;
    }
    let whole = digits_end(&chars, from);
    if whole < n && chars[whole] == '.' {
        assert(body[whole - from] == '.');
        let fraction = digits_end(&chars, whole + 1);
        assert(body.skip(whole - from + 1) =~= chars@.skip(whole + 1));
        assert(body.skip(whole - from + 1).skip(fraction - whole - 1) =~= chars@.skip(
            fraction as int,
        ));
        (whole > from || fraction > whole + 1) && is_exponent(&chars, fraction)
    } else {
        if whole < n {
            assert(body[whole - from] == chars@[whole as int]);
        }
        assert(body.skip(whole - from) =~= chars@.skip(whole as int));
        whole > from && is_exponent(&chars, whole)
    }
}

// ---------------------------------------------------------------------------
// Summaries
// ---------------------------------------------------------------------------

pub const PREVIEW_CELL_CHARS: usize = 160;

/// A cell, cut to what a preview shows.
pub open spec fn preview_cell(cell: Seq<char>) -> Seq<char> {
    if cell.len() > PREVIEW_CELL_CHARS {
        first_chars(cell, PREVIEW_CELL_CHARS as nat) + "…"@
    } else {
        cell
    }
}

/// The first `count` rows, with their cells cut to what a preview shows.
pub open spec fn preview_rows(rows: Rows, count: nat) -> Rows {
    Seq::new(
        if rows.len() < count {
            rows.len()
        } else {
            count
        },
        |i: int| Seq::new(rows[i].len(), |j: int| preview_cell(rows[i][j])),
    )
}

/// The number of the first `n` rows whose cell in `column` is not blank.
pub open spec fn shown_cells(rows: Rows, column: int, n: int) -> nat
    decreases n,
{
    if n <= 0 {
        0
    } else {
        shown_cells(rows, column, n - 1) + if !blank(rows[n - 1][column]) {
            1nat
        } else {
            0nat
        }
    }
}

/// Whether a cell holds a number, apart from the white space around it.
pub open spec fn numeric_cell(cell: Seq<char>) -> bool {
    !blank(cell) && numeric(trim(cell))
}

/// The number of the first `n` rows whose cell in `column` is a number.
pub open spec fn numeric_cells(rows: Rows, column: int, n: int) -> nat
    decreases n,
{
    if n <= 0 {
        0
    } else {
        numeric_cells(rows, column, n - 1) + if numeric_cell(rows[n - 1][column]) {
            1nat
        } else {
            0nat
        }
    }
}

/// What is known of one column of a table.
#[derive(Debug, PartialEq, Eq)]
pub struct ColumnSummary {
    pub name: String,
    pub non_empty: usize,
    pub numeric: usize,
}

/// What a [`ColumnSummary`] says.
#[verifier::ext_equal]
pub struct ColumnModel {
    pub name: Seq<char>,
    pub non_empty: nat,
    pub numeric: nat,
}

impl View for ColumnSummary {
    type V = ColumnModel;

    open spec fn view(&self) -> ColumnModel {
        ColumnModel {
            name: self.name@,
            non_empty: self.non_empty as nat,
            numeric: self.numeric as nat,
        }
    }
}

pub open spec fn column_models(columns: Seq<ColumnSummary>) -> Seq<ColumnModel> {
    Seq::new(columns.len(), |i: int| columns[i]@)
}

/// What is known of the columns of a table.
pub open spec fn summarize_columns(headers: Seq<Seq<char>>, rows: Rows) -> Seq<ColumnModel> {
    Seq::new(
        headers.len(),
        |i: int|
            ColumnModel {
                name: headers[i],
                non_empty: shown_cells(rows, i, rows.len() as int),
                numeric: numeric_cells(rows, i, rows.len() as int),
            },
    )
}

/// Every row has a cell for every column.
pub open spec fn rectangular(rows: Rows, width: nat) -> bool {
    forall|i: int| 0 <= i < rows.len() ==> (#[trigger] rows[i]).len() == width
}

/// The first row from `index` on that is not `width` cells wide.
pub open spec fn first_irregular(rows: Rows, width: nat, index: int) -> Option<int>
    decreases rows.len() - index,
{
    if !(0 <= index < rows.len()) {
        None
    } else if rows[index].len() != width {
        Some(index)
    } else {
        first_irregular(rows, width, index + 1)
    }
}

/// The message for a row that is not as wide as the header.
pub open spec fn irregular_text(rows: Rows, width: nat, index: int) -> Seq<char> {
    "row "@ + decimal((index + 2) as nat) + " has "@ + decimal(rows[index].len()) + " columns; expected "@
        + decimal(width)
}

/// A cell, cut to what a preview shows.
pub fn truncate_cell(cell: &str) -> (r: String)
    ensures
        r@ == preview_cell(cell@),
{
    if char_count(cell) > PREVIEW_CELL_CHARS {
        let mut r = take_chars(cell, PREVIEW_CELL_CHARS);
        r.push_str("…");
        r
    } else {
        cell.to_owned()
    }
}

/// The first `count` rows, with their cells cut to what a preview shows.
pub fn preview(rows: &[Vec<String>], count: usize) -> (r: Vec<Vec<String>>)
    ensures
        row_models(r@) == preview_rows(row_models(rows@), count as nat),
{
    let ghost all = row_models(rows@);
    let ghost shown = preview_rows(all, count as nat);
    let mut r: Vec<Vec<String>> = Vec::new();
    let mut i: usize = 0;
    assert(row_models(r@) =~= shown.take(0));
    while i < rows.len() && i < count
        invariant
            i <= rows@.len(),
            i <= count,
            all == row_models(rows@),
            shown == preview_rows(all, count as nat),
            row_models(r@) == shown.take(i as int),
        decreases rows@.len() - i,
    {
        let mut row: Vec<String> = Vec::new();
        let mut j: usize = 0;
        let ghost wanted = shown[i as int];
        assert(all[i as int] == texts(rows@[i as int]@));
        assert(texts(row@) =~= wanted.take(0));
        while j < rows[i as usize].len()
            invariant
                i < rows@.len(),
                j <= rows@[i as int]@.len(),
                all[i as int] == texts(rows@[i as int]@),
                wanted == Seq::new(
                    all[i as int].len(),
                    |j: int| preview_cell(all[i as int][j]),
                ),
                texts(row@) == wanted.take(j as int),
            decreases rows@[i as int]@.len() - j,
        {
            let cell = truncate_cell(rows[i][j].as_str());
            let ghost before = row@;
            row.push(cell);
            assert(texts(row@) =~= texts(before).push(cell@));
            assert(wanted.take(j + 1) =~= wanted.take(j as int).push(wanted[j as int]));
            j += 1;
        }
        assert(wanted.take(wanted.len() as int) =~= wanted);
        let ghost before = r@;
        r.push(row);
        assert(row_models(r@) =~= row_models(before).push(texts(row@)));
        assert(shown.take(i + 1) =~= shown.take(i as int).push(shown[i as int]));
        i += 1;
    }
    assert(shown.take(shown.len() as int) =~= shown);
    r
}

/// What is known of the columns of a table.
pub fn columns_of(headers: &Vec<String>, rows: &[Vec<String>]) -> (r: Vec<ColumnSummary>)
    requires
        rectangular(row_models(rows@), headers@.len()),
    ensures
        column_models(r@) == summarize_columns(texts(headers@), row_models(rows@)),
{
    let ghost all = row_models(rows@);
    let ghost wanted = summarize_columns(texts(headers@), all);
    let mut r: Vec<ColumnSummary> = Vec::new();
    let mut c: usize = 0;
    assert(column_models(r@) =~= wanted.take(0));
    while c < headers.len()
        invariant
            c <= headers@.len(),
            all == row_models(rows@),
            rectangular(all, headers@.len()),
            wanted == summarize_columns(texts(headers@), all),
            column_models(r@) == wanted.take(c as int),
        decreases headers@.len() - c,
    {
        let mut non_empty: usize = 0;
        let mut numeric: usize = 0;
        let mut i: usize = 0;
        while i < rows.len()
            invariant
                i <= rows@.len(),
                c < headers@.len(),
                all == row_models(rows@),
                rectangular(all, headers@.len()),
                non_empty == shown_cells(all, c as int, i as int),
                numeric == numeric_cells(all, c as int, i as int),
                non_empty <= i,
                numeric <= i,
            decreases rows@.len() - i,
        {
            assert(all[i as int] == texts(rows@[i as int]@));
            assert(all[i as int].len() == headers@.len());
            let cell = trimmed(rows[i][c].as_str());
            assert(all[i as int][c as int] == rows@[i as int]@[c as int]@);
            if !cell.as_str().is_empty() {
                non_empty += 1;
                if is_numeric(cell.as_str()) {
                    numeric += 1;
                }
            }
            i += 1;
        }
        let column = ColumnSummary { name: headers[c].clone(), non_empty, numeric };
        let ghost before = r@;
        r.push(column);
        assert(column@ =~= wanted[c as int]);
        assert(column_models(r@) =~= column_models(before).push(column@));
        assert(wanted.take(c + 1) =~= wanted.take(c as int).push(wanted[c as int]));
        c += 1;
    }
    assert(wanted.take(wanted.len() as int) =~= wanted);
    r
}

/// Checks that every row is `width` cells wide; the message of the first that is not.
pub fn check_widths(rows: &[Vec<String>], width: usize) -> (r: Result<(), String>)
    requires
        rows@.len() < usize::MAX - 2,
    ensures
        match r {
            Ok(_) => first_irregular(row_models(rows@), width as nat, 0) is None && rectangular(
                row_models(rows@),
                width as nat,
            ),
            Err(message) => first_irregular(row_models(rows@), width as nat, 0) matches Some(index)
                && message@ == irregular_text(row_models(rows@), width as nat, index),
        },
{
    let ghost all = row_models(rows@);
    let mut i: usize = 0;
    while i < rows.len()
        invariant
            i <= rows@.len(),
            rows@.len() < usize::MAX - 2,
            all == row_models(rows@),
            first_irregular(all, width as nat, 0) == first_irregular(
                all,
                width as nat,
                i as int,
            ),
            forall|j: int| 0 <= j < i ==> (#[trigger] all[j]).len() == width,
        decreases rows@.len() - i,
    {
        assert(all[i as int] == texts(rows@[i as int]@));
        if rows[i].len() != width {
            let mut message = "row ".to_owned();
            message.push_str(size_text(i + 2).as_str());
            message.push_str(" has ");
            message.push_str(size_text(rows[i].len()).as_str());
            message.push_str(" columns; expected ");
            message.push_str(size_text(width).as_str());
            return Err(message);
        }
        i += 1;
    }
    Ok(())
}

/// Whether no two names are the same.
pub open spec fn distinct(names: Seq<Seq<char>>) -> bool {
    forall|i: int, j: int|
        0 <= i < j < names.len() ==> #[trigger] names[i] != #[trigger] names[j]
}

/// Whether no two names are the same.
pub fn are_distinct(names: &Vec<String>) -> (r: bool)
    ensures
        r == distinct(texts(names@)),
{
    let ghost all = texts(names@);
    let mut j: usize = 0;
    while j < names.len()
        invariant
            j <= names@.len(),
            all == texts(names@),
            forall|x: int, y: int| 0 <= x < y < j ==> #[trigger] all[x] != #[trigger] all[y],
        decreases names@.len() - j,
    {
        let mut i: usize = 0;
        while i < j
            invariant
                i <= j < names@.len(),
                all == texts(names@),
                forall|x: int| 0 <= x < i ==> #[trigger] all[x] != all[j as int],
            decreases j - i,
        {
            if same_text(names[i].as_str(), names[j].as_str()) {
                assert(all[i as int] == all[j as int]);
                return false;
            }
            i += 1;
        }
        j += 1;
    }
    true
}

/// Whether any name is blank.
pub fn has_blank(names: &Vec<String>) -> (r: bool)
    ensures
        r == exists|i: int| 0 <= i < names@.len() && blank(#[trigger] texts(names@)[i]),
{
    let ghost all = texts(names@);
    let mut i: usize = 0;
    while i < names.len()
        invariant
            i <= names@.len(),
            all == texts(names@),
            forall|x: int| 0 <= x < i ==> !blank(#[trigger] all[x]),
        decreases names@.len() - i,
    {
        if is_blank(names[i].as_str()) {
            assert(blank(all[i as int]));
            return true;
        }
        i += 1;
    }
    false
}

// ---------------------------------------------------------------------------
// Delimiters
// ---------------------------------------------------------------------------

/// The first line from `index` on that shows something.
pub open spec fn first_shown(lines: Seq<Seq<char>>, index: int) -> Option<Seq<char>>
    decreases lines.len() - index,
{
    if !(0 <= index < lines.len()) {
        None
    } else if !blank(lines[index]) {
        Some(lines[index])
    } else {
        first_shown(lines, index + 1)
    }
}

/// How often `c` stands in `s`.
pub open spec fn occurrences(s: Seq<char>, c: char) -> nat
    decreases s.len(),
{
    if s.len() == 0 {
        0
    } else {
        occurrences(s.drop_last(), c) + if s.last() == c {
            1nat
        } else {
            0nat
        }
    }
}

/// The first line of a text that shows something.
pub fn first_shown_line(text: &str) -> (r: Option<String>)
    ensures
        match r {
            Some(line) => first_shown(lines_of(text@), 0) == Some(line@),
            None => first_shown(lines_of(text@), 0) is None,
        },
{
    let all = lines(text);
    let ghost seen = texts(all@);
    let mut i: usize = 0;
    while i < all.len()
        invariant
            i <= all@.len(),
            seen == texts(all@),
            seen == lines_of(text@),
            first_shown(seen, 0) == first_shown(seen, i as int),
        decreases all@.len() - i,
    {
        assert(seen[i as int] == all@[i as int]@);
        if !is_blank(all[i].as_str()) {
            return Some(all[i].clone());
        }
        i += 1;
    }
    None
}

/// How often `c` stands in `s`.
pub fn count_char(s: &str, c: char) -> (r: usize)
    ensures
        r == occurrences(s@, c),
{
    let chars = chars_of(s);
    let mut count: usize = 0;
    let mut i: usize = 0;
    while i < chars.len()
        invariant
            i <= chars@.len(),
            count <= i,
            count == occurrences(chars@.take(i as int), c),
        decreases chars@.len() - i,
    {
        assert(chars@.take(i + 1).drop_last() =~= chars@.take(i as int));
        if chars[i] == c {
            count += 1;
        }
        i += 1;
    }
    assert(chars@.take(chars@.len() as int) =~= s@);
    count
}

// ---------------------------------------------------------------------------
// As JSON
// ---------------------------------------------------------------------------

pub open spec fn column_json(column: ColumnModel) -> Seq<char> {
    object_text(
        seq![
            ("name"@, json_string(column.name)),
            ("non_empty"@, decimal(column.non_empty)),
            ("numeric"@, decimal(column.numeric)),
        ],
    )
}

pub open spec fn columns_json(columns: Seq<ColumnModel>) -> Seq<char> {
    array_text(Seq::new(columns.len(), |i: int| column_json(columns[i])))
}

pub open spec fn rows_json(rows: Rows) -> Seq<char> {
    array_text(Seq::new(rows.len(), |i: int| strings_text(rows[i])))
}

/// A JSON object for one column.
pub fn write_column(name: &str, non_empty: usize, numeric: usize) -> (r: String)
    ensures
        r@ == column_json(
            ColumnModel { name: name@, non_empty: non_empty as nat, numeric: numeric as nat },
        ),
{
    let fields = vec![
        field("name", quoted(name)),
        field("non_empty", size_text(non_empty)),
        field("numeric", size_text(numeric)),
    ];
    assert(field_models(fields@) =~= seq![
        ("name"@, json_string(name@)),
        ("non_empty"@, decimal(non_empty as nat)),
        ("numeric"@, decimal(numeric as nat)),
    ]);
    write_object(&fields)
}

/// A JSON array of the columns.
pub fn write_columns(columns: &Vec<ColumnSummary>) -> (r: String)
    ensures
        r@ == columns_json(column_models(columns@)),
{
    let ghost all = Seq::new(columns@.len(), |i: int| column_json(column_models(columns@)[i]));
    let mut parts: Vec<String> = Vec::new();
    let mut i: usize = 0;
    while i < columns.len()
        invariant
            i <= columns@.len(),
            all == Seq::new(columns@.len(), |i: int| column_json(column_models(columns@)[i])),
            texts(parts@) == all.take(i as int),
        decreases columns@.len() - i,
    {
        let part = write_column(columns[i].name.as_str(), columns[i].non_empty, columns[i].numeric);
        assert(column_models(columns@)[i as int] == columns@[i as int]@);
        let ghost before = parts@;
        parts.push(part);
        assert(texts(parts@) =~= texts(before).push(part@));
        assert(all.take(i + 1) =~= all.take(i as int).push(all[i as int]));
        i += 1;
    }
    assert(all.take(all.len() as int) =~= all);
    assert(all =~= Seq::new(
        column_models(columns@).len(),
        |i: int| column_json(column_models(columns@)[i]),
    ));
    write_array(&parts)
}

/// A JSON array of rows, each an array of texts.
pub fn write_rows(rows: &Vec<Vec<String>>) -> (r: String)
    ensures
        r@ == rows_json(row_models(rows@)),
{
    let ghost all = Seq::new(rows@.len(), |i: int| strings_text(row_models(rows@)[i]));
    let mut parts: Vec<String> = Vec::new();
    let mut i: usize = 0;
    while i < rows.len()
        invariant
            i <= rows@.len(),
            all == Seq::new(rows@.len(), |i: int| strings_text(row_models(rows@)[i])),
            texts(parts@) == all.take(i as int),
        decreases rows@.len() - i,
    {
        let part = write_strings(&rows[i]);
        assert(row_models(rows@)[i as int] == texts(rows@[i as int]@));
        let ghost before = parts@;
        parts.push(part);
        assert(texts(parts@) =~= texts(before).push(part@));
        assert(all.take(i + 1) =~= all.take(i as int).push(all[i as int]));
        i += 1;
    }
    assert(all.take(all.len() as int) =~= all);
    assert(all =~= Seq::new(
        row_models(rows@).len(),
        |i: int| strings_text(row_models(rows@)[i]),
    ));
    write_array(&parts)
}

// ---------------------------------------------------------------------------
// Laws
// ---------------------------------------------------------------------------

/// A text with every quote doubled.
pub open spec fn doubled(cell: Seq<char>) -> Seq<char>
    decreases cell.len(),
{
    if cell.len() == 0 {
        Seq::empty()
    } else if cell[0] == '"' {
        seq!['"', '"'] + doubled(cell.skip(1))
    } else {
        seq![cell[0]] + doubled(cell.skip(1))
    }
}

/// The cells of a row from `k` on, in quotes and with delimiters between them; the last quote is
/// there when the row is closed.
pub open spec fn quoted_cells(row: Seq<Seq<char>>, k: int, delimiter: char, closed: bool) -> Seq<
    char,
>
    decreases row.len() - k,
{
    if !(0 <= k < row.len()) {
        Seq::empty()
    } else if k + 1 < row.len() {
        seq!['"'] + (doubled(row[k]) + (seq!['"', delimiter] + quoted_cells(
            row,
            k + 1,
            delimiter,
            closed,
        )))
    } else {
        seq!['"'] + (doubled(row[k]) + (if closed {
            seq!['"']
        } else {
            Seq::empty()
        }))
    }
}

/// Whether a text is made of line breaks, each a line feed or a carriage return and a line feed.
pub open spec fn line_breaks(text: Seq<char>) -> bool
    decreases text.len(),
{
    if text.len() == 0 {
        true
    } else if text[0] == '\n' {
        line_breaks(text.skip(1))
    } else {
        text.len() > 1 && text[0] == '\r' && text[1] == '\n' && line_breaks(text.skip(2))
    }
}

/// The rows from `k` on with every cell in quotes, and behind each row its line breaks; the last
/// quote of all is there when the table is closed.
pub open spec fn quoted_lines(
    rows: Rows,
    breaks: Seq<Seq<char>>,
    k: int,
    delimiter: char,
    closed: bool,
) -> Seq<char>
    decreases rows.len() - k,
{
    if !(0 <= k < rows.len()) {
        Seq::empty()
    } else {
        quoted_cells(rows[k], 0, delimiter, closed || k + 1 < rows.len()) + (breaks[k]
            + quoted_lines(rows, breaks, k + 1, delimiter, closed))
    }
}

/// Whether each row has its line breaks: at least one, but for the last row.
pub open spec fn broken_lines(rows: Rows, breaks: Seq<Seq<char>>) -> bool {
    &&& breaks.len() == rows.len()
    &&& forall|k: int| 0 <= k < rows.len() ==> line_breaks(#[trigger] breaks[k])
    &&& forall|k: int| 0 <= k < rows.len() - 1 ==> (#[trigger] breaks[k]).len() > 0
}

/// Whether `part` stands at index `i`.
spec fn stands(input: Seq<char>, i: int, part: Seq<char>) -> bool {
    &&& 0 <= i
    &&& i + part.len() <= input.len()
    &&& forall|k: int| 0 <= k < part.len() ==> input[i + k] == #[trigger] part[k]
}

proof fn lemma_stands_in_parts(input: Seq<char>, i: int, x: Seq<char>, y: Seq<char>)
    requires
        stands(input, i, x + y),
    ensures
        stands(input, i, x),
        stands(input, i + x.len(), y),
{
    let whole = x + y;
    assert forall|k: int| 0 <= k < x.len() implies input[i + k] == #[trigger] x[k] by {
        assert(whole[k] == x[k]);
    }
    assert forall|k: int| 0 <= k < y.len() implies input[i + x.len() + k] == #[trigger] y[k] by {
        assert(whole[x.len() + k] == y[k]);
    }
}

proof fn lemma_quoted_cell_reads(
    input: Seq<char>,
    i: int,
    delimiter: char,
    s: Scan,
    cell: Seq<char>,
)
    requires
        s.mode == Mode::Quoted,
        stands(input, i, doubled(cell)),
        i + doubled(cell).len() < input.len(),
        input[i + doubled(cell).len()] == '"',
        !followed_by(input, i + doubled(cell).len(), '"'),
    ensures
        read_from(input, i, delimiter, s) == read_from(
            input,
            i + doubled(cell).len() + 1,
            delimiter,
            Scan { cell: s.cell + cell, mode: Mode::AfterQuote, ..s },
        ),
    decreases cell.len(),
{
    if cell.len() == 0 {
        assert(s.cell + cell =~= s.cell);
    } else {
        let rest = cell.skip(1);
        let first = if cell[0] == '"' {
            seq!['"', '"']
        } else {
            seq![cell[0]]
        };
        assert(doubled(cell) == first + doubled(rest));
        lemma_stands_in_parts(input, i, first, doubled(rest));
        assert(input[i + 0] == first[0]);
        if cell[0] == '"' {
            assert(input[i + 1] == first[1]);
        }
        let next = with_char(s, cell[0]);
        lemma_quoted_cell_reads(input, i + first.len(), delimiter, next, rest);
        assert(next.cell + rest =~= s.cell + cell);
    }
}

/// A quoted cell that is not closed is read to the end of the table.
proof fn lemma_open_cell_reads(
    input: Seq<char>,
    i: int,
    delimiter: char,
    s: Scan,
    cell: Seq<char>,
)
    requires
        s.mode == Mode::Quoted,
        stands(input, i, doubled(cell)),
        i + doubled(cell).len() == input.len(),
    ensures
        read_from(input, i, delimiter, s) == Some(Scan { cell: s.cell + cell, ..s }),
    decreases cell.len(),
{
    if cell.len() == 0 {
        assert(s.cell + cell =~= s.cell);
    } else {
        let rest = cell.skip(1);
        let first = if cell[0] == '"' {
            seq!['"', '"']
        } else {
            seq![cell[0]]
        };
        assert(doubled(cell) == first + doubled(rest));
        lemma_stands_in_parts(input, i, first, doubled(rest));
        assert(input[i + 0] == first[0]);
        if cell[0] == '"' {
            assert(input[i + 1] == first[1]);
        }
        let next = with_char(s, cell[0]);
        lemma_open_cell_reads(input, i + first.len(), delimiter, next, rest);
        assert(next.cell + rest =~= s.cell + cell);
    }
}

proof fn lemma_quoted_cells_read(
    input: Seq<char>,
    i: int,
    delimiter: char,
    s: Scan,
    row: Seq<Seq<char>>,
    k: int,
    closed: bool,
)
    requires
        delimiter != '"',
        delimiter != '\n',
        0 <= k < row.len(),
        s.mode == Mode::Plain,
        s.cell.len() == 0,
        s.row == row.take(k),
        stands(input, i, quoted_cells(row, k, delimiter, closed)),
        closed ==> !followed_by(input, i + quoted_cells(row, k, delimiter, closed).len() - 1, '"'),
        !closed ==> i + quoted_cells(row, k, delimiter, closed).len() == input.len(),
    ensures
        ({
            let end = i + quoted_cells(row, k, delimiter, closed).len();
            let read = Scan {
                rows: s.rows,
                row: row.drop_last(),
                cell: row.last(),
                mode: if closed {
                    Mode::AfterQuote
                } else {
                    Mode::Quoted
                },
            };
            read_from(input, i, delimiter, s) == read_from(input, end, delimiter, read)
        }),
    decreases row.len() - k,
{
    let cell = row[k];
    let quote = seq!['"'];
    let opened = Scan { mode: Mode::Quoted, ..s };
    let text = doubled(cell);
    let close = i + 1 + text.len();
    assert(opened.cell + cell =~= cell);
    if k + 1 < row.len() {
        let between = seq!['"', delimiter];
        let rest = quoted_cells(row, k + 1, delimiter, closed);
        lemma_stands_in_parts(input, i, quote, text + (between + rest));
        lemma_stands_in_parts(input, i + 1, text, between + rest);
        lemma_stands_in_parts(input, close, between, rest);
        assert(input[i + 0] == quote[0]);
        assert(input[close + 0] == between[0]);
        assert(input[close + 1] == between[1]);
        lemma_quoted_cell_reads(input, i + 1, delimiter, opened, cell);
        let after = Scan { cell, mode: Mode::AfterQuote, ..s };
        assert(read_from(input, i, delimiter, s) == read_from(input, close + 1, delimiter, after));
        assert(row.take(k).push(cell) =~= row.take(k + 1));
        lemma_quoted_cells_read(input, close + 2, delimiter, cell_ended(after), row, k + 1, closed);
    } else {
        let end = if closed {
            quote
        } else {
            Seq::empty()
        };
        lemma_stands_in_parts(input, i, quote, text + end);
        lemma_stands_in_parts(input, i + 1, text, end);
        assert(input[i + 0] == quote[0]);
        assert(row.drop_last() =~= row.take(k));
        if closed {
            assert(input[close + 0] == end[0]);
            lemma_quoted_cell_reads(input, i + 1, delimiter, opened, cell);
        } else {
            lemma_open_cell_reads(input, i + 1, delimiter, opened, cell);
        }
    }
}

/// Line breaks between rows are read as rows that show nothing.
proof fn lemma_breaks_read(input: Seq<char>, i: int, delimiter: char, s: Scan, text: Seq<char>) -> (
    read: Scan)
    requires
        delimiter != '"',
        delimiter != '\n',
        delimiter != '\r',
        s.mode == Mode::Plain,
        s.cell.len() == 0,
        s.row.len() == 0,
        line_breaks(text),
        stands(input, i, text),
    ensures
        read_from(input, i, delimiter, s) == read_from(input, i + text.len(), delimiter, read),
        read.mode == Mode::Plain,
        read.cell.len() == 0,
        read.row.len() == 0,
        shown_rows(read.rows) == shown_rows(s.rows),
    decreases text.len(),
{
    if text.len() == 0 {
        s
    } else {
        let next = row_ended(s);
        assert(next.rows.drop_last() =~= s.rows);
        assert(blank_row(next.rows.last()));
        assert(input[i + 0] == text[0]);
        if text[0] == '\n' {
            assert(text =~= seq!['\n'] + text.skip(1));
            lemma_stands_in_parts(input, i, seq!['\n'], text.skip(1));
            lemma_breaks_read(input, i + 1, delimiter, next, text.skip(1))
        } else {
            assert(input[i + 1] == text[1]);
            assert(text =~= seq!['\r', '\n'] + text.skip(2));
            lemma_stands_in_parts(input, i, seq!['\r', '\n'], text.skip(2));
            assert(read_from(input, i, delimiter, s) == read_from(input, i + 1, delimiter, s));
            assert(read_from(input, i + 1, delimiter, s) == read_from(
                input,
                i + 2,
                delimiter,
                next,
            ));
            lemma_breaks_read(input, i + 2, delimiter, next, text.skip(2))
        }
    }
}

/// The line breaks behind a row end it.
proof fn lemma_row_breaks_read(
    input: Seq<char>,
    i: int,
    delimiter: char,
    s: Scan,
    text: Seq<char>,
) -> (read: Scan)
    requires
        delimiter != '"',
        delimiter != '\n',
        delimiter != '\r',
        s.mode == Mode::AfterQuote,
        text.len() > 0,
        line_breaks(text),
        stands(input, i, text),
    ensures
        read_from(input, i, delimiter, s) == read_from(input, i + text.len(), delimiter, read),
        read.mode == Mode::Plain,
        read.cell.len() == 0,
        read.row.len() == 0,
        shown_rows(read.rows) == shown_rows(row_ended(s).rows),
{
    let next = row_ended(s);
    assert(input[i + 0] == text[0]);
    if text[0] == '\n' {
        assert(text =~= seq!['\n'] + text.skip(1));
        lemma_stands_in_parts(input, i, seq!['\n'], text.skip(1));
        lemma_breaks_read(input, i + 1, delimiter, next, text.skip(1))
    } else {
        assert(input[i + 1] == text[1]);
        assert(text =~= seq!['\r', '\n'] + text.skip(2));
        lemma_stands_in_parts(input, i, seq!['\r', '\n'], text.skip(2));
        assert(white('\r'));
        assert(read_from(input, i, delimiter, s) == read_from(input, i + 1, delimiter, s));
        assert(read_from(input, i + 1, delimiter, s) == read_from(input, i + 2, delimiter, next));
        lemma_breaks_read(input, i + 2, delimiter, next, text.skip(2))
    }
}

/// The rows of what has been read, as they are given back.
spec fn given_back(s: Scan) -> Rows {
    if s.mode == Mode::AfterQuote || s.cell.len() > 0 || s.row.len() > 0 {
        shown_rows(row_ended(s).rows)
    } else {
        shown_rows(s.rows)
    }
}

proof fn lemma_quoted_lines_read(
    input: Seq<char>,
    i: int,
    delimiter: char,
    s: Scan,
    rows: Rows,
    breaks: Seq<Seq<char>>,
    k: int,
    closed: bool,
)
    requires
        delimiter != '"',
        delimiter != '\n',
        delimiter != '\r',
        0 <= k <= rows.len(),
        forall|j: int| 0 <= j < rows.len() ==> (#[trigger] rows[j]).len() > 0,
        broken_lines(rows, breaks),
        !closed ==> k < rows.len() && breaks.last().len() == 0,
        stands(input, i, quoted_lines(rows, breaks, k, delimiter, closed)),
        i + quoted_lines(rows, breaks, k, delimiter, closed).len() == input.len(),
        s.mode == Mode::Plain,
        s.cell.len() == 0,
        s.row.len() == 0,
        shown_rows(s.rows) == shown_rows(rows.take(k)),
    ensures
        read_from(input, i, delimiter, s) matches Some(read) && if closed {
            read.mode != Mode::Quoted && given_back(read) == shown_rows(rows)
        } else {
            read.mode == Mode::Quoted
        },
    decreases rows.len() - k,
{
    if k == rows.len() {
        assert(rows.take(k) =~= rows);
    } else {
        let row = rows[k];
        let last = k + 1 == rows.len();
        let shut = closed || !last;
        let text = quoted_cells(row, 0, delimiter, shut);
        let rest = quoted_lines(rows, breaks, k + 1, delimiter, closed);
        lemma_stands_in_parts(input, i, text, breaks[k] + rest);
        let end = i + text.len();
        lemma_stands_in_parts(input, end, breaks[k], rest);
        assert(row.take(0) =~= Seq::<Seq<char>>::empty());
        assert(s.row =~= row.take(0));
        if breaks[k].len() > 0 {
            assert(input[end + 0] == breaks[k][0]);
        } else {
            assert(breaks[k] =~= Seq::<char>::empty());
            assert(rest =~= Seq::<char>::empty());
        }
        lemma_quoted_cells_read(input, i, delimiter, s, row, 0, shut);
        let read = Scan {
            rows: s.rows,
            row: row.drop_last(),
            cell: row.last(),
            mode: if shut {
                Mode::AfterQuote
            } else {
                Mode::Quoted
            },
        };
        assert(rows.take(k + 1).drop_last() =~= rows.take(k));
        assert(row.drop_last().push(row.last()) =~= row);
        assert(row_ended(read).rows.drop_last() =~= s.rows);
        assert(shown_rows(row_ended(read).rows) == shown_rows(rows.take(k + 1)));
        if breaks[k].len() > 0 {
            let next = lemma_row_breaks_read(input, end, delimiter, read, breaks[k]);
            lemma_quoted_lines_read(
                input,
                end + breaks[k].len(),
                delimiter,
                next,
                rows,
                breaks,
                k + 1,
                closed,
            );
        } else {
            assert(rows.take(k + 1) =~= rows);
        }
    }
}

proof fn lemma_shown_rows_stay(rows: Rows)
    requires
        forall|j: int| 0 <= j < rows.len() ==> !blank_row(#[trigger] rows[j]),
    ensures
        shown_rows(rows) == rows,
    decreases rows.len(),
{
    if rows.len() > 0 {
        assert(!blank_row(rows[rows.len() - 1]));
        assert forall|j: int| 0 <= j < rows.drop_last().len() implies !blank_row(
            #[trigger] rows.drop_last()[j],
        ) by {
            assert(!blank_row(rows[j]));
        }
        lemma_shown_rows_stay(rows.drop_last());
        assert(rows.drop_last().push(rows.last()) =~= rows);
    } else {
        assert(rows =~= Seq::<Seq<Seq<char>>>::empty());
    }
}

/// Rows whose cells stand in quotes, with every quote in them doubled, are read back, whatever
/// their cells hold; only rows that show nothing are left out. Lines end in a line feed, with a
/// carriage return before it or not; empty lines between the rows and behind them change nothing,
/// and neither does a line break behind the last row. Without its last quote the table is refused.
pub proof fn law_quoted_tables_read_back(rows: Rows, breaks: Seq<Seq<char>>, delimiter: char)
    requires
        delimiter != '"',
        delimiter != '\n',
        delimiter != '\r',
        forall|j: int| 0 <= j < rows.len() ==> (#[trigger] rows[j]).len() > 0,
        broken_lines(rows, breaks),
    ensures
        parse_table(quoted_lines(rows, breaks, 0, delimiter, true), delimiter) == Ok::<
            Rows,
            CellFlaw,
        >(shown_rows(rows)),
        (forall|j: int| 0 <= j < rows.len() ==> !blank_row(#[trigger] rows[j])) ==> shown_rows(rows)
            == rows,
        rows.len() > 0 && breaks.last().len() == 0 ==> parse_table(
            quoted_lines(rows, breaks, 0, delimiter, false),
            delimiter,
        ) == Err::<Rows, CellFlaw>(CellFlaw::Unterminated),
{
    let input = quoted_lines(rows, breaks, 0, delimiter, true);
    assert(rows.take(0) =~= Seq::<Seq<Seq<char>>>::empty());
    lemma_quoted_lines_read(input, 0, delimiter, nothing_read(), rows, breaks, 0, true);
    if forall|j: int| 0 <= j < rows.len() ==> !blank_row(#[trigger] rows[j]) {
        lemma_shown_rows_stay(rows);
    }
    if rows.len() > 0 && breaks.last().len() == 0 {
        let open = quoted_lines(rows, breaks, 0, delimiter, false);
        lemma_quoted_lines_read(open, 0, delimiter, nothing_read(), rows, breaks, 0, false);
    }
}

// ---------------------------------------------------------------------------
// Plain cells, numbers and columns
// ---------------------------------------------------------------------------

/// Whether a cell can stand without quotes: it holds no delimiter and no line end, and does not begin
/// with a quote.
pub open spec fn plain_cell(cell: Seq<char>, delimiter: char) -> bool {
    &&& cell.len() > 0 ==> cell[0] != '"'
    &&& forall|i: int|
        0 <= i < cell.len() ==> (#[trigger] cell[i]) != delimiter && cell[i] != '\n' && cell[i]
            != '\r'
}

/// The cells of a row from `k` on, with delimiters between them.
pub open spec fn plain_row(row: Seq<Seq<char>>, k: int, delimiter: char) -> Seq<char>
    decreases row.len() - k,
{
    if !(0 <= k < row.len()) {
        Seq::empty()
    } else if k + 1 < row.len() {
        row[k] + (seq![delimiter] + plain_row(row, k + 1, delimiter))
    } else {
        row[k]
    }
}

/// The rows from `k` on, each on a line of its own.
pub open spec fn plain_rows(rows: Rows, k: int, delimiter: char) -> Seq<char>
    decreases rows.len() - k,
{
    if !(0 <= k < rows.len()) {
        Seq::empty()
    } else {
        plain_row(rows[k], 0, delimiter) + (seq!['\n'] + plain_rows(rows, k + 1, delimiter))
    }
}

proof fn lemma_plain_cell_reads(
    input: Seq<char>,
    i: int,
    delimiter: char,
    s: Scan,
    cell: Seq<char>,
    n: int,
)
    requires
        plain_cell(cell, delimiter),
        0 <= n <= cell.len(),
        s.mode == Mode::Plain,
        s.cell == cell.take(n),
        stands(input, i, cell),
    ensures
        read_from(input, i + n, delimiter, s) == read_from(
            input,
            i + cell.len(),
            delimiter,
            Scan { cell, ..s },
        ),
    decreases cell.len() - n,
{
    if n == cell.len() {
        assert(cell.take(n) =~= cell);
    } else {
        assert(input[i + n] == cell[n]);
        let next = with_char(s, cell[n]);
        assert(next.cell =~= cell.take(n + 1));
        lemma_plain_cell_reads(input, i, delimiter, next, cell, n + 1);
    }
}

proof fn lemma_plain_row_reads(
    input: Seq<char>,
    i: int,
    delimiter: char,
    s: Scan,
    row: Seq<Seq<char>>,
    k: int,
)
    requires
        delimiter != '\n',
        delimiter != '"',
        0 <= k < row.len(),
        forall|j: int| 0 <= j < row.len() ==> plain_cell(#[trigger] row[j], delimiter),
        s.mode == Mode::Plain,
        s.cell.len() == 0,
        s.row == row.take(k),
        stands(input, i, plain_row(row, k, delimiter)),
    ensures
        read_from(input, i, delimiter, s) == read_from(
            input,
            i + plain_row(row, k, delimiter).len(),
            delimiter,
            Scan { rows: s.rows, row: row.drop_last(), cell: row.last(), mode: Mode::Plain },
        ),
    decreases row.len() - k,
{
    let cell = row[k];
    assert(plain_cell(cell, delimiter));
    assert(s.cell =~= cell.take(0));
    if k + 1 < row.len() {
        let rest = plain_row(row, k + 1, delimiter);
        lemma_stands_in_parts(input, i, cell, seq![delimiter] + rest);
        lemma_stands_in_parts(input, i + cell.len(), seq![delimiter], rest);
        lemma_plain_cell_reads(input, i, delimiter, s, cell, 0);
        let read = Scan { cell, ..s };
        assert(input[i + cell.len() + 0] == seq![delimiter][0]);
        assert(row.take(k).push(cell) =~= row.take(k + 1));
        lemma_plain_row_reads(input, i + cell.len() + 1, delimiter, cell_ended(read), row, k + 1);
    } else {
        lemma_plain_cell_reads(input, i, delimiter, s, cell, 0);
        assert(row.drop_last() =~= row.take(k));
    }
}

proof fn lemma_plain_rows_read(
    input: Seq<char>,
    i: int,
    delimiter: char,
    s: Scan,
    rows: Rows,
    k: int,
)
    requires
        delimiter != '\n',
        delimiter != '"',
        0 <= k <= rows.len(),
        forall|j: int| 0 <= j < rows.len() ==> (#[trigger] rows[j]).len() > 0,
        forall|j: int, c: int|
            0 <= j < rows.len() && 0 <= c < rows[j].len() ==> plain_cell(
                #[trigger] rows[j][c],
                delimiter,
            ),
        stands(input, i, plain_rows(rows, k, delimiter)),
        i + plain_rows(rows, k, delimiter).len() == input.len(),
        s == (Scan {
            rows: rows.take(k),
            row: Seq::empty(),
            cell: Seq::empty(),
            mode: Mode::Plain,
        }),
    ensures
        read_from(input, i, delimiter, s) == Some(
            Scan { rows, row: Seq::empty(), cell: Seq::empty(), mode: Mode::Plain },
        ),
    decreases rows.len() - k,
{
    if k == rows.len() {
        assert(rows.take(k) =~= rows);
    } else {
        let row = rows[k];
        let text = plain_row(row, 0, delimiter);
        let rest = plain_rows(rows, k + 1, delimiter);
        lemma_stands_in_parts(input, i, text, seq!['\n'] + rest);
        let end = i + text.len();
        lemma_stands_in_parts(input, end, seq!['\n'], rest);
        assert(input[end + 0] == seq!['\n'][0]);
        assert(s.row =~= row.take(0));
        assert forall|c: int| 0 <= c < row.len() implies plain_cell(#[trigger] row[c], delimiter) by {
            assert(plain_cell(rows[k][c], delimiter));
        }
        lemma_plain_row_reads(input, i, delimiter, s, row, 0);
        let read = Scan { rows: s.rows, row: row.drop_last(), cell: row.last(), mode: Mode::Plain };
        assert(row.drop_last().push(row.last()) =~= row);
        assert(rows.take(k).push(row) =~= rows.take(k + 1));
        lemma_plain_rows_read(input, end + 1, delimiter, row_ended(read), rows, k + 1);
    }
}

/// Rows of plain cells, with delimiters between the cells and each row on a line, are read as they
/// stand; only rows that show nothing are left out.
pub proof fn law_plain_tables_are_read(rows: Rows, delimiter: char)
    requires
        delimiter != '\n',
        delimiter != '"',
        forall|j: int| 0 <= j < rows.len() ==> (#[trigger] rows[j]).len() > 0,
        forall|j: int, c: int|
            0 <= j < rows.len() && 0 <= c < rows[j].len() ==> plain_cell(
                #[trigger] rows[j][c],
                delimiter,
            ),
    ensures
        parse_table(plain_rows(rows, 0, delimiter), delimiter) == Ok::<Rows, CellFlaw>(
            shown_rows(rows),
        ),
        (forall|j: int| 0 <= j < rows.len() ==> !blank_row(#[trigger] rows[j])) ==> shown_rows(rows)
            == rows,
{
    let input = plain_rows(rows, 0, delimiter);
    assert(rows.take(0) =~= Seq::<Seq<Seq<char>>>::empty());
    lemma_plain_rows_read(input, 0, delimiter, nothing_read(), rows, 0);
    if forall|j: int| 0 <= j < rows.len() ==> !blank_row(#[trigger] rows[j]) {
        lemma_shown_rows_stay(rows);
    }
}

/// A row is left out exactly where each of its cells is white space throughout.
pub proof fn law_rows_that_show_nothing_are_left_out(rows: Rows, row: Seq<Seq<char>>)
    ensures
        shown_rows(rows.push(row)) == if forall|i: int|
            0 <= i < row.len() ==> all_white(#[trigger] row[i]) {
            shown_rows(rows)
        } else {
            shown_rows(rows).push(row)
        },
        shown_rows(Seq::empty()) == Seq::<Seq<Seq<char>>>::empty(),
{
    assert(rows.push(row).drop_last() =~= rows);
    if blank_row(row) {
        assert forall|i: int| 0 <= i < row.len() implies all_white(#[trigger] row[i]) by {
            assert(blank(row[i]));
            law_blank_texts_are_white(row[i], ' ');
        }
    }
    if forall|i: int| 0 <= i < row.len() ==> all_white(#[trigger] row[i]) {
        assert forall|i: int| 0 <= i < row.len() implies blank(#[trigger] row[i]) by {
            law_blank_texts_are_white(row[i], ' ');
        }
    }
}

/// Whether a text is made of digits.
pub open spec fn all_digits(s: Seq<char>) -> bool {
    s.len() > 0 && forall|i: int| 0 <= i < s.len() ==> '0' <= #[trigger] s[i] <= '9'
}

proof fn lemma_digits_then(digits: Seq<char>, rest: Seq<char>)
    requires
        all_digits(digits),
        rest.len() > 0 ==> !ascii_digit(rest[0]),
    ensures
        digit_run(digits + rest) == digits.len(),
        (digits + rest).skip(digits.len() as int) == rest,
{
    let whole = digits + rest;
    assert forall|i: int| 0 <= i < digits.len() implies ascii_digit(#[trigger] whole[i]) by {
        assert(whole[i] == digits[i]);
    }
    lemma_digit_run(whole, digits.len() as int);
    assert(whole.skip(digits.len() as int) =~= rest);
}

/// Digits are a number, and so are digits with a sign before them, with a point and more digits
/// behind them, and with an exponent.
pub proof fn law_numbers_are_numeric(whole: Seq<char>, fraction: Seq<char>)
    requires
        all_digits(whole),
        all_digits(fraction),
    ensures
        numeric(whole),
        numeric("-"@ + whole),
        numeric("+"@ + whole),
        numeric(whole + "."@ + fraction),
        numeric("-"@ + (whole + "."@ + fraction)),
        numeric(whole + "e"@ + fraction),
{
    reveal_strlit("-");
    reveal_strlit("+");
    reveal_strlit(".");
    reveal_strlit("e");
    let none = Seq::<char>::empty();
    lemma_digits_then(whole, none);
    lemma_digits_then(fraction, none);
    assert(whole + none =~= whole);
    assert(fraction + none =~= fraction);
    assert(whole[0] != '+' && whole[0] != '-');
    assert(decimal_number(whole));
    assert(unsigned_part("-"@ + whole) =~= whole);
    assert(unsigned_part("+"@ + whole) =~= whole);
    let pointed = whole + "."@ + fraction;
    lemma_digits_then(whole, "."@ + fraction);
    assert(pointed =~= whole + ("."@ + fraction));
    let n = whole.len() as int;
    assert(pointed[n] == '.');
    assert(pointed.skip(n + 1) =~= fraction);
    assert(fraction.skip(fraction.len() as int) =~= none);
    assert(pointed[0] == whole[0]);
    assert(decimal_number(pointed));
    assert(unsigned_part("-"@ + pointed) =~= pointed);
    let raised = whole + "e"@ + fraction;
    lemma_digits_then(whole, "e"@ + fraction);
    assert(raised =~= whole + ("e"@ + fraction));
    assert(raised[n] == 'e');
    let tail = raised.skip(n);
    assert(tail =~= "e"@ + fraction);
    assert(tail.skip(1) =~= fraction);
    assert(fraction[0] != '+' && fraction[0] != '-');
    assert(exponent(tail));
    assert(raised[0] == whole[0]);
}

/// A text without a digit is a number only where it names infinity or what is not a number; so words
/// and empty texts are none.
pub proof fn law_words_are_not_numeric(s: Seq<char>)
    requires
        forall|i: int| 0 <= i < s.len() ==> !('0' <= #[trigger] s[i] <= '9'),
    ensures
        numeric(s) ==> {
            let body = if s.len() > 0 && (s[0] == '+' || s[0] == '-') {
                s.skip(1)
            } else {
                s
            };
            lower_text(body) == "inf"@ || lower_text(body) == "infinity"@ || lower_text(body)
                == "nan"@
        },
        s.len() == 0 ==> !numeric(s),
{
    let body = unsigned_part(s);
    if decimal_number(body) {
        let whole = digit_run(body);
        if body.len() > 0 {
            assert(!ascii_digit(body[0])) by {
                if signed(s) {
                    assert(body[0] == s[1]);
                }
            }
            lemma_digit_run(body, 0);
            if body[0] == '.' {
                let tail = body.skip(1);
                if tail.len() > 0 {
                    assert(!ascii_digit(tail[0])) by {
                        if signed(s) {
                            assert(tail[0] == s[2]);
                        } else {
                            assert(tail[0] == s[1]);
                        }
                    }
                    lemma_digit_run(tail, 0);
                }
            }
        }
    }
    if s.len() == 0 {
        reveal_strlit("inf");
        reveal_strlit("infinity");
        reveal_strlit("nan");
        assert(lower_text(body).len() == 0);
    }
}

/// A column counts its cells that show something and those that are numbers, row by row; no cell is a
/// number without showing something.
pub proof fn law_columns_count_their_cells(rows: Rows, column: int, n: int)
    requires
        0 <= n < rows.len(),
    ensures
        shown_cells(rows, column, n + 1) == shown_cells(rows, column, n) + (if all_white(
            rows[n][column],
        ) {
            0int
        } else {
            1int
        }),
        numeric_cells(rows, column, n + 1) == numeric_cells(rows, column, n) + (if !all_white(
            rows[n][column],
        ) && numeric(trim(rows[n][column])) {
            1int
        } else {
            0int
        }),
        shown_cells(rows, column, 0) == 0,
        numeric_cells(rows, column, 0) == 0,
        numeric_cells(rows, column, n) <= shown_cells(rows, column, n) <= n,
{
    law_blank_texts_are_white(rows[n][column], ' ');
    lemma_counts(rows, column, n);
}

proof fn lemma_counts(rows: Rows, column: int, n: int)
    requires
        0 <= n,
    ensures
        numeric_cells(rows, column, n) <= shown_cells(rows, column, n) <= n,
    decreases n,
{
    if n > 0 {
        lemma_counts(rows, column, n - 1);
    }
}

/// The summary of columns has one for each header, by its name and in its place, with the counts of
/// its own cells.
pub proof fn law_columns_are_summarized_in_order(headers: Seq<Seq<char>>, rows: Rows, i: int)
    requires
        0 <= i < headers.len(),
    ensures
        summarize_columns(headers, rows).len() == headers.len(),
        summarize_columns(headers, rows)[i].name == headers[i],
        summarize_columns(headers, rows)[i].non_empty == shown_cells(rows, i, rows.len() as int),
        summarize_columns(headers, rows)[i].numeric == numeric_cells(rows, i, rows.len() as int),
{
}

/// A preview shows the first rows, as many as it may, with every cell; a cell of more than 160
/// characters is cut there.
pub proof fn law_previews_show_the_first_rows(rows: Rows, count: nat, i: int, j: int)
    ensures
        ({
            let shown = preview_rows(rows, count);
            &&& shown.len() <= count && shown.len() <= rows.len()
            &&& shown.len() == count || shown.len() == rows.len()
            &&& 0 <= i < shown.len() ==> shown[i].len() == rows[i].len()
            &&& 0 <= i < shown.len() && 0 <= j < rows[i].len() ==> {
                let cell = rows[i][j];
                &&& cell.len() <= 160 ==> shown[i][j] == cell
                &&& cell.len() > 160 ==> shown[i][j] == cell.take(160) + "…"@
            }
        }),
{
}

/// The first row that is not as wide as the header is found, and none where all are.
pub proof fn law_irregular_rows_are_found(rows: Rows, width: nat, index: int)
    requires
        0 <= index <= rows.len(),
    ensures
        match first_irregular(rows, width, index) {
            Some(k) => index <= k < rows.len() && rows[k].len() != width && forall|i: int|
                index <= i < k ==> (#[trigger] rows[i]).len() == width,
            None => forall|i: int| index <= i < rows.len() ==> (#[trigger] rows[i]).len() == width,
        },
    decreases rows.len() - index,
{
    if index < rows.len() && rows[index].len() == width {
        law_irregular_rows_are_found(rows, width, index + 1);
    }
}

} // verus!
