//! Warm local model service used by the browser guest agent.

use vstd::prelude::*;
#[allow(unused_imports)]
use vstd::utf8::{decode_utf8, encode_utf8, valid_utf8};

use crate::agent_messages::{ModelRequest, ModelResponse};
#[allow(unused_imports)]
use crate::agent_messages::{ModelRequestModel, ResponseModel};
use crate::json::{
    Json, UNEXPECTED_SHAPE, field, quoted, read_json, write_array, write_object,
};
#[allow(unused_imports)]
use crate::json::{
    JsonModel, array_text, field_models, get_text, has_tag, json_reading, json_string, object_text, record,
    slot, tagged, text_slot,
};
use crate::model_replies::parse_model_text;
#[allow(unused_imports)]
use crate::model_replies::{model_reply, reply_seen};
use crate::model_requests::bridge_instruction;
#[allow(unused_imports)]
use crate::model_requests::{BRIDGE_NOTE, request_json};
use crate::runtime_error::labelled;
use crate::text::{
    ascii_lower, byte_count, chars_of, contains_text, decimal_text, find_from, parse_u64,
    parse_usize, same_text, size_text, split_once, substring, trimmed, utf8_text, words,
};
#[allow(unused_imports)]
use crate::text::{
    ascii_digit, begins, byte_len, decimal, ends, find_char, holds_text, is_word, lacks,
    law_blank_texts_are_white, law_decimal_reads_back, law_texts_hold_their_parts,
    lemma_decimal_digits, lemma_find_char_is, lemma_one_word, lemma_trim_padded,
    lemma_trim_parts, lemma_two_words,
    lower_text, parse_natural, texts, trim, white, words_of,
};
use vstd::slice::slice_subrange;

verus! {

pub const FIXED_PROVIDER: &'static str = "openrouter";

pub const FIXED_MODEL: &'static str = "deepseek/deepseek-v4-flash";

// ---------------------------------------------------------------------------
// Queries
// ---------------------------------------------------------------------------

/// Whether a byte stands for itself in a query.
pub open spec fn unreserved(b: u8) -> bool {
    ||| 65 <= b <= 90
    ||| 97 <= b <= 122
    ||| 48 <= b <= 57
    ||| b == 45
    ||| b == 95
    ||| b == 46
    ||| b == 126
    ||| b == 47
}

/// The character of one hexadecimal digit in upper case.
pub open spec fn upper_hex_digit(d: int) -> char {
    if d < 10 {
        ('0' as int + d) as char
    } else {
        ('A' as int + d - 10) as char
    }
}

/// A byte in a query.
pub open spec fn encoded_byte(b: u8) -> Seq<char> {
    if unreserved(b) {
        seq![b as char]
    } else {
        seq!['%', upper_hex_digit(b as int / 16), upper_hex_digit(b as int % 16)]
    }
}

/// The first `n` bytes in a query.
pub open spec fn encoded_bytes(bytes: Seq<u8>, n: int) -> Seq<char>
    decreases n,
{
    if n <= 0 {
        Seq::empty()
    } else {
        encoded_bytes(bytes, n - 1) + encoded_byte(bytes[n - 1])
    }
}

/// A text in a query.
pub open spec fn query_text(value: Seq<char>) -> Seq<char> {
    encoded_bytes(encode_utf8(value), encode_utf8(value).len() as int)
}

fn upper_digit_char(d: u8) -> (r: char)
    requires
        d < 16,
    ensures
        r == upper_hex_digit(d as int),
{
    if d < 10 {
        (48u8 + d) as char
    } else {
        (55u8 + d) as char
    }
}

pub fn url_encode(value: &str) -> (r: String)
    ensures
        r@ == query_text(value@),
{
    let bytes = value.as_bytes();
    let mut r = String::new();
    let mut i: usize = 0;
    while i < bytes.len()
        invariant
            i <= bytes@.len(),
            bytes@ == encode_utf8(value@),
            r@ == encoded_bytes(bytes@, i as int),
        decreases bytes@.len() - i,
    {
        let b: u8 = bytes[i];
        let ghost before = r@;
        if (65 <= b && b <= 90) || (97 <= b && b <= 122) || (48 <= b && b <= 57) || b == 45 || b
            == 95 || b == 46 || b == 126 || b == 47 {
            r.push(b as char);
            assert(r@ =~= before + encoded_byte(b));
        } else {
            r.push('%');
            r.push(upper_digit_char(b / 16));
            r.push(upper_digit_char(b % 16));
            assert(r@ =~= before + encoded_byte(b));
        }
        i += 1;
    }
    r
}

// ---------------------------------------------------------------------------
// Chunks
// ---------------------------------------------------------------------------

/// The value of a hexadecimal digit, if it is one.
pub open spec fn hex_value(c: char) -> Option<nat> {
    if '0' <= c && c <= '9' {
        Some((c as int - '0' as int) as nat)
    } else if 'a' <= c && c <= 'f' {
        Some((c as int - 'a' as int + 10) as nat)
    } else if 'A' <= c && c <= 'F' {
        Some((c as int - 'A' as int + 10) as nat)
    } else {
        None
    }
}

/// The number that hexadecimal digits denote.
pub open spec fn hex_number(s: Seq<char>) -> Option<nat>
    decreases s.len(),
{
    if s.len() == 0 {
        Some(0)
    } else {
        match (hex_number(s.drop_last()), hex_value(s.last())) {
            (Some(high), Some(low)) => Some(high * 16 + low),
            _ => None,
        }
    }
}

/// The number that a hexadecimal text denotes, where it fits; a plus sign may stand before it.
pub open spec fn parse_hex(s: Seq<char>) -> Option<nat> {
    let digits = if s.len() > 0 && s[0] == '+' {
        s.skip(1)
    } else {
        s
    };
    if digits.len() == 0 {
        None
    } else {
        match hex_number(digits) {
            Some(n) => if n <= usize::MAX {
                Some(n)
            } else {
                None
            },
            None => None,
        }
    }
}

proof fn lemma_hex_prefix(s: Seq<char>, i: int)
    requires
        0 <= i <= s.len(),
    ensures
        hex_number(s.take(i)) is None ==> hex_number(s) is None,
        hex_number(s) is Some ==> hex_number(s.take(i)) is Some && hex_number(s.take(i))->0
            <= hex_number(s)->0,
    decreases s.len() - i,
{
    if i == s.len() {
        assert(s.take(i) =~= s);
    } else {
        lemma_hex_prefix(s, i + 1);
        assert(s.take(i + 1).drop_last() =~= s.take(i));
    }
}

fn hex_size(s: &str) -> (r: Option<usize>)
    ensures
        match r {
            Some(n) => parse_hex(s@) == Some(n as nat),
            None => parse_hex(s@) is None,
        },
{
    let chars = chars_of(s);
    let from: usize = if chars.len() > 0 && chars[0] == '+' {
        1
    } else {
        0
    };
    let ghost digits = s@.skip(from as int);
    assert(s@.skip(0) =~= s@);
    if from == chars.len() {
        return None;
    }
    let mut n: usize = 0;
    let mut i: usize = from;
    assert(digits.take(0) =~= Seq::<char>::empty());
    while i < chars.len()
        invariant
            from <= i <= chars@.len(),
            from < chars@.len(),
            chars@ == s@,
            digits == s@.skip(from as int),
            from == (if s@.len() > 0 && s@[0] == '+' {
                1int
            } else {
                0int
            }),
            from == 0 ==> digits == s@,
            hex_number(digits.take(i - from)) == Some(n as nat),
        decreases chars@.len() - i,
    {
        let c = chars[i];
        let ghost front = digits.take(i + 1 - from);
        proof {
            assert(front.drop_last() =~= digits.take(i - from));
            assert(front.last() == c);
            lemma_hex_prefix(digits, i + 1 - from);
        }
        let d: usize = if '0' <= c && c <= '9' {
            c as usize - 48
        } else if 'a' <= c && c <= 'f' {
            c as usize - 87
        } else if 'A' <= c && c <= 'F' {
            c as usize - 55
        } else {
            return None;
        };
        if n > (usize::MAX - d) / 16 {
            assert(n * 16 + d > usize::MAX);
            return None;
        }
        n = n * 16 + d;
        i += 1;
    }
    assert(digits.take(digits.len() as int) =~= digits);
    Some(n)
}

/// Where the first line end from `i` on stands.
pub open spec fn line_end(bytes: Seq<u8>, i: int) -> Option<int>
    decreases bytes.len() - i,
{
    if !(0 <= i < bytes.len() - 1) {
        None
    } else if bytes[i] == 13 && bytes[i + 1] == 10 {
        Some(i)
    } else {
        line_end(bytes, i + 1)
    }
}

proof fn lemma_line_end(bytes: Seq<u8>, i: int)
    requires
        0 <= i,
    ensures
        line_end(bytes, i) matches Some(end) ==> i <= end < bytes.len() - 1,
    decreases bytes.len() - i,
{
    if i < bytes.len() - 1 {
        lemma_line_end(bytes, i + 1);
    }
}

fn find_line_end(bytes: &[u8], from: usize) -> (r: Option<usize>)
    requires
        from <= bytes@.len(),
    ensures
        match r {
            Some(end) => line_end(bytes@, from as int) == Some(end as int),
            None => line_end(bytes@, from as int) is None,
        },
{
    let n: usize = bytes.len();
    let mut i: usize = from;
    while i < n && i < n - 1
        invariant
            from <= i <= n,
            n == bytes@.len(),
            line_end(bytes@, from as int) == line_end(bytes@, i as int),
        decreases n - i,
    {
        if bytes[i] == 13 && bytes[i + 1] == 10 {
            return Some(i);
        }
        i += 1;
    }
    None
}

/// The size that the line of a chunk gives.
pub open spec fn size_in(line: Seq<u8>) -> Option<nat> {
    if valid_utf8(line) {
        let text = decode_utf8(line);
        parse_hex(trim(text.take(find_char(text, ';'))))
    } else {
        None
    }
}

fn before_char(s: &str, c: char) -> (r: String)
    ensures
        r@ == s@.take(find_char(s@, c)),
{
    let chars = chars_of(s);
    let end = find_from(&chars, c, 0);
    assert(chars@.skip(0) =~= s@);
    let r = substring(&chars, 0, end);
    assert(r@ =~= s@.take(find_char(s@, c)));
    r
}

fn read_size(line: &[u8]) -> (r: Option<usize>)
    ensures
        match r {
            Some(n) => size_in(line@) == Some(n as nat),
            None => size_in(line@) is None,
        },
{
    match utf8_text(line) {
        None => None,
        Some(text) => hex_size(trimmed(before_char(text.as_str(), ';').as_str()).as_str()),
    }
}

/// What chunks from `position` on hold, after what was decoded; `None` where they are no chunks.
pub open spec fn unchunked(bytes: Seq<u8>, position: int, decoded: Seq<u8>) -> Option<Seq<u8>>
    decreases bytes.len() - position,
{
    if !(0 <= position <= bytes.len()) {
        None
    } else {
        match line_end(bytes, position) {
            None => None,
            Some(end) => if !(position <= end < bytes.len() - 1) {
                None
            } else {
                match size_in(bytes.subrange(position, end)) {
                    None => None,
                    Some(size) => {
                        let start = end + 2;
                        let stop = start + size;
                        if size == 0 {
                            Some(decoded)
                        } else if stop + 2 <= bytes.len() && bytes[stop] == 13 && bytes[stop + 1]
                            == 10 {
                            unchunked(bytes, stop + 2, decoded + bytes.subrange(start, stop))
                        } else {
                            None
                        }
                    },
                }
            },
        }
    }
}

/// The text that chunks hold, where they are chunks of a text.
pub open spec fn chunked_text(body: Seq<char>) -> Option<Seq<char>> {
    match unchunked(encode_utf8(body), 0, Seq::empty()) {
        Some(bytes) => if valid_utf8(bytes) {
            Some(decode_utf8(bytes))
        } else {
            None
        },
        None => None,
    }
}

pub fn decode_chunked_text(body: &str) -> (r: Option<String>)
    ensures
        match r {
            Some(text) => chunked_text(body@) == Some(text@),
            None => chunked_text(body@) is None,
        },
{
    let bytes = body.as_bytes();
    let n: usize = bytes.len();
    let mut position: usize = 0;
    let mut decoded: Vec<u8> = Vec::new();
    assert(decoded@ =~= Seq::<u8>::empty());
    loop
        invariant
            position <= n,
            n == bytes@.len(),
            bytes@ == encode_utf8(body@),
            unchunked(bytes@, 0, Seq::empty()) == unchunked(bytes@, position as int, decoded@),
        decreases n - position,
    {
        proof {
            lemma_line_end(bytes@, position as int);
        }
        let end = match find_line_end(bytes, position) {
            None => return None,
            Some(end) => end,
        };
        let size = match read_size(slice_subrange(bytes, position, end)) {
            None => return None,
            Some(size) => size,
        };
        let start: usize = end + 2;
        if size == 0 {
            return utf8_text(decoded.as_slice());
        }
        if size > n - start || n - start - size < 2 || bytes[start + size] != 13 || bytes[start
            + size + 1] != 10 {
            return None;
        }
        let stop: usize = start + size;
        let ghost before = decoded@;
        let mut i: usize = start;
        assert(bytes@.subrange(start as int, start as int) =~= Seq::<u8>::empty());
        while i < stop
            invariant
                start <= i <= stop,
                stop <= bytes@.len(),
                decoded@ == before + bytes@.subrange(start as int, i as int),
            decreases stop - i,
        {
            decoded.push(bytes[i]);
            assert(bytes@.subrange(start as int, i + 1) =~= bytes@.subrange(
                start as int,
                i as int,
            ).push(bytes@[i as int]));
            i += 1;
        }
        position = stop + 2;
    }
}

// ---------------------------------------------------------------------------
// The protocol of the service
// ---------------------------------------------------------------------------

/// A request to the service.
pub open spec fn service_text(
    method: Seq<char>,
    address: Seq<char>,
    path: Seq<char>,
    body: Seq<char>,
) -> Seq<char> {
    method + " "@ + path + " HTTP/1.1\r\nHost: "@ + address
        + "\r\nContent-Type: application/json\r\nContent-Length: "@ + decimal(byte_len(body))
        + "\r\nConnection: close\r\n\r\n"@ + body
}

/// A request to the service.
pub fn service_request(method: &str, address: &str, path: &str, body: Option<&str>) -> (r: String)
    ensures
        r@ == service_text(
            method@,
            address@,
            path@,
            match body {
                Some(text) => text@,
                None => ""@,
            },
        ),
{
    let body = match body {
        Some(text) => text,
        None => "",
    };
    let mut r = method.to_owned();
    r.push_str(" ");
    r.push_str(path);
    r.push_str(" HTTP/1.1\r\nHost: ");
    r.push_str(address);
    r.push_str("\r\nContent-Type: application/json\r\nContent-Length: ");
    r.push_str(size_text(byte_count(body)).as_str());
    r.push_str("\r\nConnection: close\r\n\r\n");
    r.push_str(body);
    r
}

/// The status on the first line of a response.
pub open spec fn status_on(line: Seq<char>) -> Result<u16, Seq<char>> {
    let parts = words_of(line);
    if parts.len() < 2 {
        Err("model service returned no HTTP status"@)
    } else {
        match parse_natural(parts[1], u16::MAX as nat) {
            Some(status) => Ok(status as u16),
            None => Err("model service returned an invalid HTTP status"@),
        }
    }
}

/// The status on the first line of a response.
pub fn parse_status(line: &str) -> (r: Result<u16, String>)
    ensures
        match r {
            Ok(status) => status_on(line@) == Ok::<u16, Seq<char>>(status),
            Err(message) => status_on(line@) == Err::<u16, Seq<char>>(message@),
        },
{
    let parts = words(line);
    if parts.len() < 2 {
        return Err("model service returned no HTTP status".to_owned());
    }
    assert(texts(parts@)[1] == parts@[1]@);
    match parse_u64(parts[1].as_str(), u16::MAX as u64) {
        Some(status) => Ok(status as u16),
        None => Err("model service returned an invalid HTTP status".to_owned()),
    }
}

/// How the body of a response comes.
#[derive(Debug, Clone, Copy, PartialEq, Eq, Structural)]
pub struct BodyForm {
    pub content_length: Option<usize>,
    pub chunked: bool,
}

/// Whether a line ends the headers.
pub open spec fn ends_headers(line: Seq<char>) -> bool {
    line == "\r\n"@ || line == "\n"@
}

/// How the body comes once a header line was read.
pub open spec fn form_after(form: BodyForm, line: Seq<char>) -> BodyForm {
    let colon = find_char(line, ':');
    if colon < line.len() {
        let name = lower_text(line.take(colon));
        let value = line.skip(colon + 1);
        if name == "content-length"@ {
            BodyForm {
                content_length: match parse_natural(trim(value), usize::MAX as nat) {
                    Some(n) => Some(n as usize),
                    None => None,
                },
                ..form
            }
        } else if name == "transfer-encoding"@ && holds_text(lower_text(value), "chunked"@) {
            BodyForm { chunked: true, ..form }
        } else {
            form
        }
    } else {
        form
    }
}

impl BodyForm {
    pub fn new() -> (r: Self)
        ensures
            r == (BodyForm { content_length: None, chunked: false }),
    {
        BodyForm { content_length: None, chunked: false }
    }

    /// Takes a line of the headers and says whether it was the last.
    pub fn take_line(&mut self, line: &str) -> (r: bool)
        ensures
            r == ends_headers(line@),
            *final(self) == (if ends_headers(line@) {
                *old(self)
            } else {
                form_after(*old(self), line@)
            }),
    {
        if same_text(line, "\r\n") || same_text(line, "\n") {
            return true;
        }
        match split_once(line, ':') {
            None => {},
            Some((name, value)) => {
                let name = ascii_lower(name.as_str());
                if same_text(name.as_str(), "content-length") {
                    self.content_length = parse_usize(trimmed(value.as_str()).as_str());
                } else if same_text(name.as_str(), "transfer-encoding") && contains_text(
                    ascii_lower(value.as_str()).as_str(),
                    "chunked",
                ) {
                    self.chunked = true;
                }
            },
        }
        false
    }
}

/// The size of the next chunk of a body.
pub open spec fn chunk_size_on(line: Seq<char>) -> Result<usize, Seq<char>> {
    let shown = trim(line);
    match parse_hex(shown.take(find_char(shown, ';'))) {
        Some(size) => Ok(size as usize),
        None => Err("model service returned an invalid chunk size"@),
    }
}

/// The size of the next chunk of a body.
pub fn chunk_size(line: &str) -> (r: Result<usize, String>)
    ensures
        match r {
            Ok(size) => chunk_size_on(line@) == Ok::<usize, Seq<char>>(size),
            Err(message) => chunk_size_on(line@) == Err::<usize, Seq<char>>(message@),
        },
{
    let shown = trimmed(line);
    match hex_size(before_char(shown.as_str(), ';').as_str()) {
        Some(size) => Ok(size),
        None => Err("model service returned an invalid chunk size".to_owned()),
    }
}

/// Whether two bytes end a chunk.
pub fn check_chunk_ending(ending: [u8; 2]) -> (r: Result<(), String>)
    ensures
        match r {
            Ok(_) => ending@ == seq![13u8, 10u8],
            Err(message) => ending@ != seq![13u8, 10u8] && message@
                == "model service returned an invalid chunk ending"@,
        },
{
    if ending[0] == 13 && ending[1] == 10 {
        assert(ending@ =~= seq![13u8, 10u8]);
        Ok(())
    } else {
        Err("model service returned an invalid chunk ending".to_owned())
    }
}

/// A response once its body was read.
pub open spec fn service_answer(status: u16, body: Seq<u8>) -> Result<Seq<char>, Seq<char>> {
    if !valid_utf8(body) {
        Err("model service body was not UTF-8"@)
    } else if !(200 <= status < 300) {
        Err(
            "model service returned HTTP "@ + decimal(status as nat) + ": "@ + decode_utf8(body),
        )
    } else {
        Ok(decode_utf8(body))
    }
}

/// A response once its body was read.
pub fn finish_response(status: u16, body: &Vec<u8>) -> (r: Result<String, String>)
    ensures
        match r {
            Ok(text) => service_answer(status, body@) == Ok::<Seq<char>, Seq<char>>(text@),
            Err(message) => service_answer(status, body@) == Err::<Seq<char>, Seq<char>>(message@),
        },
{
    let text = match utf8_text(body.as_slice()) {
        None => return Err("model service body was not UTF-8".to_owned()),
        Some(text) => text,
    };
    if !(200 <= status && status < 300) {
        let mut message = "model service returned HTTP ".to_owned();
        message.push_str(decimal_text(status as u64).as_str());
        message.push_str(": ");
        message.push_str(text.as_str());
        return Err(message);
    }
    Ok(text)
}

// ---------------------------------------------------------------------------
// What the service says
// ---------------------------------------------------------------------------

/// The text of the first `n` parts of a response; parts that are no text add nothing.
pub open spec fn parts_text(parts: Seq<Seq<char>>, n: int) -> Result<Seq<char>, Seq<char>>
    decreases n,
{
    if n <= 0 {
        Ok(Seq::empty())
    } else {
        match parts_text(parts, n - 1) {
            Err(message) => Err(message),
            Ok(before) => match json_reading(parts[n - 1]) {
                Err(message) => Err(message),
                Ok(json) => if tagged(json, "type"@, "text"@, "0"@) {
                    match text_slot(json, "text"@, 1) {
                        Some(text) => if record(json, 2) {
                            Ok(before + text)
                        } else {
                            Err(UNEXPECTED_SHAPE@)
                        },
                        None => Err(UNEXPECTED_SHAPE@),
                    }
                } else if has_tag(json, "type"@) {
                    Ok(before)
                } else {
                    Err(UNEXPECTED_SHAPE@)
                },
            },
        }
    }
}

/// The text in the body of a response.
pub open spec fn body_text(body: Seq<char>) -> Result<Seq<char>, Seq<char>> {
    match json_reading(body) {
        Err(message) => Err(message),
        Ok(json) => match slot(json, "parts"@, 0) {
            None => Err(UNEXPECTED_SHAPE@),
            Some(parts) => if !record(json, 1) {
                Err(UNEXPECTED_SHAPE@)
            } else {
                match json_reading(parts) {
                    Ok(JsonModel::List(items)) => parts_text(items, items.len() as int),
                    _ => Err(UNEXPECTED_SHAPE@),
                }
            },
        },
    }
}

/// The reply in a response, which may come in chunks that were not taken apart.
pub open spec fn service_reply(body: Seq<char>) -> Result<ResponseModel, Seq<char>> {
    let text = match body_text(body) {
        Ok(text) => Ok(text),
        Err(_) => match chunked_text(body) {
            None => Err("not chunked"@),
            Some(decoded) => body_text(decoded),
        },
    };
    match text {
        Err(message) => Err("invalid model service response: "@ + message),
        Ok(text) => model_reply(text),
    }
}

proof fn lemma_parts_fail(parts: Seq<Seq<char>>, from: int, n: int)
    requires
        0 < from <= n,
        parts_text(parts, from) is Err,
    ensures
        parts_text(parts, n) == parts_text(parts, from),
    decreases n - from,
{
    if from < n {
        lemma_parts_fail(parts, from, n - 1);
    }
}

/// What reading a text gave, as the contracts see it.
pub open spec fn text_seen(r: Result<String, String>) -> Result<Seq<char>, Seq<char>> {
    match r {
        Ok(text) => Ok(text@),
        Err(message) => Err(message@),
    }
}

/// The text of a part: nothing where it is no text.
fn read_part(part: &str) -> (r: Result<String, String>)
    ensures
        text_seen(r) == parts_text(seq![part@], 1),
{
    assert(parts_text(seq![part@], 0) == Ok::<Seq<char>, Seq<char>>(Seq::empty()));
    let json = match read_json(part) {
        Err(message) => return Err(message),
        Ok(json) => json,
    };
    if json.is_tagged("type", "text", "0") {
        match json.text_slot("text", 1) {
            Some(text) => {
                assert(Seq::<char>::empty() + text@ =~= text@);
                if json.is_record(2) {
                    Ok(text)
                } else {
                    Err(UNEXPECTED_SHAPE.to_owned())
                }
            },
            None => Err(UNEXPECTED_SHAPE.to_owned()),
        }
    } else if json.carries_tag("type") {
        let r = String::new();
        assert(r@ =~= Seq::<char>::empty());
        Ok(r)
    } else {
        Err(UNEXPECTED_SHAPE.to_owned())
    }
}

fn read_parts(parts: &Vec<String>) -> (r: Result<String, String>)
    ensures
        text_seen(r) == parts_text(texts(parts@), parts@.len() as int),
{
    let ghost all = texts(parts@);
    let mut text = String::new();
    let mut i: usize = 0;
    assert(text@ =~= Seq::<char>::empty());
    while i < parts.len()
        invariant
            i <= parts@.len(),
            all == texts(parts@),
            parts_text(all, i as int) == Ok::<Seq<char>, Seq<char>>(text@),
        decreases parts@.len() - i,
    {
        assert(all[i as int] == parts@[i as int]@);
        let ghost one = seq![parts@[i as int]@];
        assert(parts_text(one, 0) == Ok::<Seq<char>, Seq<char>>(Seq::empty()));
        assert(one[0] == all[i as int]);
        match read_part(parts[i].as_str()) {
            Err(message) => {
                proof {
                    lemma_parts_fail(all, i + 1, all.len() as int);
                }
                return Err(message);
            },
            Ok(piece) => {
                proof {
                    assert(Seq::<char>::empty() + piece@ =~= piece@);
                    assert(text@ + Seq::<char>::empty() =~= text@);
                    assert forall|t: Seq<char>| Seq::<char>::empty() + t == piece@ implies text@ + t
                        == text@ + piece@ by {
                        assert(Seq::<char>::empty() + t =~= t);
                    }
                }
                text.push_str(piece.as_str());
            },
        }
        i += 1;
    }
    Ok(text)
}

fn read_body(body: &str) -> (r: Result<String, String>)
    ensures
        text_seen(r) == body_text(body@),
{
    let json = match read_json(body) {
        Err(message) => return Err(message),
        Ok(json) => json,
    };
    let parts = match json.slot("parts", 0) {
        None => return Err(UNEXPECTED_SHAPE.to_owned()),
        Some(parts) => parts,
    };
    if !json.is_record(1) {
        return Err(UNEXPECTED_SHAPE.to_owned());
    }
    match read_json(parts.as_str()) {
        Ok(Json::List(items)) => read_parts(&items),
        _ => Err(UNEXPECTED_SHAPE.to_owned()),
    }
}

/// The reply in a response.
pub fn parse_response(body: &str) -> (r: Result<ModelResponse, String>)
    ensures
        reply_seen(r) == service_reply(body@),
{
    let text = match read_body(body) {
        Ok(text) => Ok(text),
        Err(_) => match decode_chunked_text(body) {
            None => Err("not chunked".to_owned()),
            Some(decoded) => read_body(decoded.as_str()),
        },
    };
    match text {
        Err(message) => Err(labelled("invalid model service response: ", message.as_str())),
        Ok(text) => parse_model_text(text.as_str()),
    }
}

/// A session of the model service.
#[derive(Debug, PartialEq, Eq)]
pub struct PersistentModel {
    address: String,
    session_id: String,
    directory: String,
}

/// What a [`PersistentModel`] talks to.
#[verifier::ext_equal]
pub struct ServiceModel {
    pub address: Seq<char>,
    pub session_id: Seq<char>,
    pub directory: Seq<char>,
}

impl View for PersistentModel {
    type V = ServiceModel;

    closed spec fn view(&self) -> ServiceModel {
        ServiceModel {
            address: self.address@,
            session_id: self.session_id@,
            directory: self.directory@,
        }
    }
}

/// The body that begins a session of the service.
pub const SESSION_BODY: &'static str =
    "{\"title\":\"A/RVM guest model\",\"permission\":[{\"permission\":\"*\",\"pattern\":\"*\",\"action\":\"deny\"}]}";

/// The path that begins a session in a directory.
pub fn session_path(directory: &str) -> (r: String)
    ensures
        r@ == "/session?directory="@ + query_text(directory@),
{
    labelled("/session?directory=", url_encode(directory).as_str())
}

/// The id in the answer to the request that begins a session.
pub open spec fn session_in(answer: Seq<char>) -> Result<Seq<char>, Seq<char>> {
    match json_reading(answer) {
        Err(message) => Err("invalid model service session response: "@ + message),
        Ok(json) => match text_slot(json, "id"@, 0) {
            Some(id) => if record(json, 1) {
                Ok(id)
            } else {
                Err("invalid model service session response: "@ + UNEXPECTED_SHAPE@)
            },
            None => Err("invalid model service session response: "@ + UNEXPECTED_SHAPE@),
        },
    }
}

/// The body of a message to the service.
pub open spec fn message_body(request: ModelRequestModel) -> Seq<char> {
    object_text(
        seq![
            (
                "model"@,
                object_text(
                    seq![
                        ("modelID"@, json_string(FIXED_MODEL@)),
                        ("providerID"@, json_string(FIXED_PROVIDER@)),
                    ],
                ),
            ),
            (
                "parts"@,
                array_text(
                    seq![
                        object_text(
                            seq![
                                ("text"@, json_string(BRIDGE_NOTE@ + request_json(request))),
                                ("type"@, json_string("text"@)),
                            ],
                        ),
                    ],
                ),
            ),
        ],
    )
}

impl PersistentModel {
    /// The session that the service began in a directory.
    pub fn begin(address: &str, directory: &str, answer: &str) -> (r: Result<Self, String>)
        ensures
            match r {
                Ok(model) => session_in(answer@) == Ok::<Seq<char>, Seq<char>>(model@.session_id)
                    && model@.address == address@ && model@.directory == directory@,
                Err(message) => session_in(answer@) == Err::<Seq<char>, Seq<char>>(message@),
            },
    {
        let json = match read_json(answer) {
            Err(message) => {
                return Err(
                    labelled("invalid model service session response: ", message.as_str()),
                );
            },
            Ok(json) => json,
        };
        match json.text_slot("id", 0) {
            Some(session_id) => {
                if json.is_record(1) {
                    return Ok(
                        PersistentModel {
                            address: address.to_owned(),
                            session_id,
                            directory: directory.to_owned(),
                        },
                    );
                }
            },
            None => {},
        }
        Err(labelled("invalid model service session response: ", UNEXPECTED_SHAPE))
    }

    pub fn address(&self) -> (r: &str)
        ensures
            r@ == self@.address,
    {
        self.address.as_str()
    }

    /// The path of a message to the service.
    pub fn message_path(&self) -> (r: String)
        ensures
            r@ == "/session/"@ + self@.session_id + "/message?directory="@ + query_text(
                self@.directory,
            ),
    {
        let mut r = "/session/".to_owned();
        r.push_str(self.session_id.as_str());
        r.push_str("/message?directory=");
        r.push_str(url_encode(self.directory.as_str()).as_str());
        r
    }

    /// The body of a message to the service.
    pub fn message_body(&self, request: &ModelRequest) -> (r: String)
        ensures
            r@ == message_body(request@),
    {
        let model = vec![
            field("modelID", quoted(FIXED_MODEL)),
            field("providerID", quoted(FIXED_PROVIDER)),
        ];
        assert(field_models(model@) =~= seq![
            ("modelID"@, json_string(FIXED_MODEL@)),
            ("providerID"@, json_string(FIXED_PROVIDER@)),
        ]);
        let instruction = bridge_instruction(request);
        let part = vec![
            field("text", quoted(instruction.as_str())),
            field("type", quoted("text")),
        ];
        assert(field_models(part@) =~= seq![
            ("text"@, json_string(BRIDGE_NOTE@ + request_json(request@))),
            ("type"@, json_string("text"@)),
        ]);
        let parts = vec![write_object(&part)];
        assert(texts(parts@) =~= seq![object_text(field_models(part@))]);
        let fields = vec![
            field("model", write_object(&model)),
            field("parts", write_array(&parts)),
        ];
        assert(field_models(fields@) =~= seq![
            ("model"@, object_text(field_models(model@))),
            ("parts"@, array_text(texts(parts@))),
        ]);
        write_object(&fields)
    }
}

/// Letters, digits and `-`, `_`, `.`, `~`, `/` stand for themselves in a query; any other byte is a
/// percent sign and two digits that tell its value, in capitals.
pub proof fn law_queries_are_encoded_byte_by_byte(bytes: Seq<u8>, n: int)
    requires
        0 < n <= bytes.len(),
    ensures
        encoded_bytes(bytes, 0).len() == 0,
        ({
            let c = bytes[n - 1] as char;
            let front = encoded_bytes(bytes, n - 1);
            let whole = encoded_bytes(bytes, n);
            if 'a' <= c <= 'z' || 'A' <= c <= 'Z' || '0' <= c <= '9' || c == '-' || c == '_' || c
                == '.' || c == '~' || c == '/' {
                whole == front.push(c)
            } else {
                &&& whole.len() == front.len() + 3
                &&& whole.take(front.len() as int) == front
                &&& whole[front.len() as int] == '%'
                &&& hex_number(whole.skip(front.len() as int + 1)) == Some(bytes[n - 1] as nat)
                &&& forall|i: int|
                    front.len() < i < whole.len() ==> !('a' <= #[trigger] whole[i] <= 'z')
            }
        }),
{
    let front = encoded_bytes(bytes, n - 1);
    let whole = encoded_bytes(bytes, n);
    let b = bytes[n - 1];
    if unreserved(b) {
        assert(whole =~= front.push(b as char));
    } else {
        let high = upper_hex_digit(b as int / 16);
        let low = upper_hex_digit(b as int % 16);
        assert(whole.take(front.len() as int) =~= front);
        let digits = whole.skip(front.len() as int + 1);
        assert(digits =~= seq![high, low]);
        assert(digits.drop_last() =~= seq![high]);
        assert(digits.drop_last().drop_last() =~= Seq::<char>::empty());
        assert(hex_value(high) == Some((b as int / 16) as nat));
        assert(hex_value(low) == Some((b as int % 16) as nat));
        reveal_with_fuel(hex_number, 3);
        assert(digits.drop_last().last() == high && digits.last() == low);
        assert((b as int / 16) * 16 + b as int % 16 == b as int);
    }
}

/// A number in base sixteen grows digit by digit, in either case of its letters.
pub proof fn law_hexadecimal_numbers_are_read(s: Seq<char>, c: char)
    ensures
        hex_number(Seq::<char>::empty()) == Some(0nat),
        hex_number(s) matches Some(n) ==> {
            &&& '0' <= c <= '9' ==> hex_number(s.push(c)) == Some(
                (16 * n + (c as int - '0' as int)) as nat,
            )
            &&& 'a' <= c <= 'f' ==> hex_number(s.push(c)) == Some(
                (16 * n + 10 + (c as int - 'a' as int)) as nat,
            )
            &&& 'A' <= c <= 'F' ==> hex_number(s.push(c)) == Some(
                (16 * n + 10 + (c as int - 'A' as int)) as nat,
            )
            &&& !('0' <= c <= '9' || 'a' <= c <= 'f' || 'A' <= c <= 'F') ==> hex_number(s.push(c))
                is None
        },
        s.len() > 0 && s[0] != '+' ==> (hex_number(s) matches Some(n) ==> parse_hex(s) == (if n
            <= usize::MAX {
            Some(n)
        } else {
            None
        })),
        parse_hex(Seq::<char>::empty()) is None,
        hex_number(s) is None && s.len() > 0 && s[0] != '+' ==> parse_hex(s) is None,
{
    assert(s.push(c).drop_last() =~= s);
}

proof fn lemma_line_end_at(bytes: Seq<u8>, from: int, at: int)
    requires
        0 <= from <= at < bytes.len() - 1,
        bytes[at] == 13,
        bytes[at + 1] == 10,
        forall|i: int| from <= i < at ==> #[trigger] bytes[i] != 13,
    ensures
        line_end(bytes, from) == Some(at),
    decreases at - from,
{
    if from < at {
        assert(bytes[from] != 13);
        lemma_line_end_at(bytes, from + 1, at);
    }
}

/// The chunks of a body are put together in their order: each stands behind a line with its size and
/// before an end of line, and a chunk of no bytes ends the body. A chunk that does not end where its
/// size says spoils the body.
pub proof fn law_chunks_are_put_together(
    bytes: Seq<u8>,
    position: int,
    decoded: Seq<u8>,
    line: Seq<u8>,
    data: Seq<u8>,
    ending: Seq<u8>,
    rest: Seq<u8>,
)
    requires
        0 <= position <= bytes.len(),
        bytes.skip(position) == line + seq![13u8, 10u8] + data + ending + rest,
        forall|i: int| 0 <= i < line.len() ==> #[trigger] line[i] != 13,
        size_in(line) == Some(data.len()),
        ending.len() == 2,
    ensures
        data.len() == 0 ==> unchunked(bytes, position, decoded) == Some(decoded),
        data.len() > 0 && ending == seq![13u8, 10u8] ==> unchunked(bytes, position, decoded)
            == unchunked(bytes, position + line.len() + data.len() + 4, decoded + data),
        data.len() > 0 && ending != seq![13u8, 10u8] ==> unchunked(bytes, position, decoded)
            is None,
{
    let tail = bytes.skip(position);
    let end = position + line.len();
    let start = end + 2;
    let stop = start + data.len();
    assert(tail.len() == line.len() + 2 + data.len() + 2 + rest.len());
    assert(tail[line.len() as int] == 13 && tail[line.len() as int + 1] == 10);
    assert(bytes[end] == tail[line.len() as int] && bytes[end + 1] == tail[line.len() as int + 1]);
    assert forall|i: int| position <= i < end implies #[trigger] bytes[i] != 13 by {
        assert(tail[i - position] == bytes[i]);
        assert(tail[i - position] == line[i - position]);
    }
    lemma_line_end_at(bytes, position, end);
    assert(bytes.subrange(position, end) =~= line) by {
        assert forall|i: int| 0 <= i < line.len() implies bytes[position + i] == line[i] by {
            assert(tail[i] == bytes[position + i]);
        }
    }
    assert(bytes.subrange(start, stop) =~= data) by {
        assert forall|i: int| 0 <= i < data.len() implies bytes[start + i] == data[i] by {
            assert(tail[line.len() as int + 2 + i] == bytes[start + i]);
        }
    }
    assert(bytes[stop] == ending[0]) by {
        assert(tail[line.len() as int + 2 + data.len()] == bytes[stop]);
    }
    assert(bytes[stop + 1] == ending[1]) by {
        assert(tail[line.len() as int + 2 + data.len() + 1] == bytes[stop + 1]);
    }
    if bytes[stop] == 13 && bytes[stop + 1] == 10 {
        assert(ending =~= seq![13u8, 10u8]);
    }
}

/// A request begins with its method and path, tells how many bytes its body has, and ends with the
/// body behind an empty line.
pub proof fn law_service_requests_carry_their_body(
    method: Seq<char>,
    address: Seq<char>,
    path: Seq<char>,
    body: Seq<char>,
)
    ensures
        begins(service_text(method, address, path, body), method + " "@ + path + " HTTP/1.1\r\n"@),
        holds_text(
            service_text(method, address, path, body),
            "\r\nContent-Length: "@ + decimal(byte_len(body)) + "\r\n"@,
        ),
        ends(service_text(method, address, path, body), "\r\n\r\n"@ + body),
{
    lemma_service_literals();
    let size = decimal(byte_len(body));
    let start = method + " "@ + path;
    let hosted = start + " HTTP/1.1\r\nHost: "@ + address;
    let typed = "\r\n"@ + "Content-Type: application/json"@;
    lemma_last_parts(
        hosted,
        typed,
        "\r\nContent-Length: "@,
        size,
        "\r\n"@,
        "Connection: close"@,
        "\r\n\r\n"@,
        body,
    );
    lemma_first_parts(
        start,
        " HTTP/1.1\r\n"@,
        "Host: "@,
        address + ("\r\nContent-Type: application/json\r\nContent-Length: "@ + size
            + "\r\nConnection: close\r\n\r\n"@ + body),
    );
    assert(service_text(method, address, path, body) =~= start + " HTTP/1.1\r\nHost: "@ + (address
        + ("\r\nContent-Type: application/json\r\nContent-Length: "@ + size
        + "\r\nConnection: close\r\n\r\n"@ + body)));
}

proof fn lemma_first_parts(a: Seq<char>, b: Seq<char>, c: Seq<char>, d: Seq<char>)
    ensures
        begins(a + (b + c) + d, a + b),
{
    assert((a + (b + c) + d).take((a + b).len() as int) =~= a + b);
}

proof fn lemma_last_parts(
    a: Seq<char>,
    b: Seq<char>,
    c: Seq<char>,
    d: Seq<char>,
    e: Seq<char>,
    f: Seq<char>,
    g: Seq<char>,
    h: Seq<char>,
)
    ensures
        holds_text(a + (b + c) + d + (e + f + g) + h, c + d + e),
        ends(a + (b + c) + d + (e + f + g) + h, g + h),
{
    let whole = a + (b + c) + d + (e + f + g) + h;
    assert(whole =~= (a + b) + (c + d + e) + (f + g + h));
    lemma_parts_of(a + b, c + d + e, f + g + h);
    assert(whole.skip(whole.len() - (g + h).len()) =~= g + h);
}

proof fn lemma_parts_of(before: Seq<char>, part: Seq<char>, after: Seq<char>)
    ensures
        holds_text(before + part + after, part),
        begins(before + part + after, before),
        after.len() == 0 ==> ends(before + part + after, part),
{
    let whole = before + part + after;
    assert(whole.take(before.len() as int) =~= before);
    let i = before.len() as int;
    assert(whole.subrange(i, i + part.len()) =~= part);
    law_texts_hold_their_parts(whole, part);
    if after.len() == 0 {
        assert(whole.skip(whole.len() - part.len()) =~= part);
    }
}

proof fn lemma_service_literals()
    ensures
        " HTTP/1.1\r\nHost: "@ == " HTTP/1.1"@ + "\r\nHost: "@,
        " HTTP/1.1\r\nHost: "@ == " HTTP/1.1\r\n"@ + "Host: "@,
        "\r\nContent-Type: application/json\r\nContent-Length: "@ == "\r\n"@
            + "Content-Type: application/json"@ + "\r\nContent-Length: "@,
        "\r\nConnection: close\r\n\r\n"@ == "\r\n"@ + "Connection: close"@ + "\r\n\r\n"@,
{
    reveal_strlit(" HTTP/1.1");
    reveal_strlit("Host: ");
    reveal_strlit(" HTTP/1.1\r\n");
    reveal_strlit(" HTTP/1.1\r\nHost: ");
    reveal_strlit("\r\nHost: ");
    reveal_strlit("\r\n");
    reveal_strlit("\r\n\r\n");
    reveal_strlit("\r\nContent-Length: ");
    reveal_strlit("Content-Type: application/json");
    reveal_strlit("Connection: close");
    reveal_strlit("\r\nContent-Type: application/json\r\nContent-Length: ");
    reveal_strlit("\r\nConnection: close\r\n\r\n");
    assert(" HTTP/1.1\r\nHost: "@ =~= " HTTP/1.1"@ + "\r\nHost: "@);
    assert(" HTTP/1.1\r\nHost: "@ =~= " HTTP/1.1\r\n"@ + "Host: "@);
    assert("\r\nContent-Type: application/json\r\nContent-Length: "@ =~= "\r\n"@
        + "Content-Type: application/json"@ + "\r\nContent-Length: "@);
    assert("\r\nConnection: close\r\n\r\n"@ =~= "\r\n"@ + "Connection: close"@ + "\r\n\r\n"@);
}

/// The status of an answer is the number behind the first word of its first line.
pub proof fn law_statuses_are_read(protocol: Seq<char>, status: u16)
    requires
        is_word(protocol),
    ensures
        status_on(protocol + seq![' '] + decimal(status as nat)) == Ok::<u16, Seq<char>>(status),
        status_on(protocol) is Err,
{
    lemma_decimal_digits(status as nat);
    let digits = decimal(status as nat);
    assert forall|i: int| 0 <= i < digits.len() implies !white(#[trigger] digits[i]) by {
        law_blank_texts_are_white(digits, digits[i]);
        assert(ascii_digit(digits[i]));
    }
    lemma_two_words(protocol, digits);
    law_decimal_reads_back(status as nat, u16::MAX as nat);
    lemma_one_word(protocol);
}

/// A header line that gives the length of the body is read whatever the case of its name, and other
/// lines change nothing.
pub proof fn law_lengths_are_read(form: BodyForm, name: Seq<char>, size: usize, value: Seq<char>)
    requires
        lacks(name, ':'),
    ensures
        lower_text(name) == "content-length"@ ==> form_after(
            form,
            name + ":"@ + (" "@ + decimal(size as nat) + "\r\n"@),
        ) == (BodyForm { content_length: Some(size), chunked: form.chunked }),
        lower_text(name) == "transfer-encoding"@ ==> form_after(form, name + ":"@ + value) == (
        BodyForm {
            content_length: form.content_length,
            chunked: form.chunked || holds_text(lower_text(value), "chunked"@),
        }),
        lower_text(name) != "content-length"@ && lower_text(name) != "transfer-encoding"@
            ==> form_after(form, name + ":"@ + value) == form,
        form_after(form, name) == form,
{
    reveal_strlit(":");
    reveal_strlit(" ");
    reveal_strlit("\r\n");
    reveal_strlit("content-length");
    reveal_strlit("transfer-encoding");
    assert("content-length"@.len() == 14 && "transfer-encoding"@.len() == 17);
    let n = name.len() as int;
    let digits = decimal(size as nat);
    let given = " "@ + digits + "\r\n"@;
    lemma_header_parts(name, given);
    lemma_header_parts(name, value);
    lemma_find_char_is(name, ':', n);
    lemma_decimal_digits(size as nat);
    law_decimal_reads_back(size as nat, usize::MAX as nat);
    assert(ascii_digit(digits[0]) && ascii_digit(digits.last()));
    law_blank_texts_are_white(digits, digits[0]);
    law_blank_texts_are_white(digits, digits.last());
    law_blank_texts_are_white(digits, ' ');
    law_blank_texts_are_white(digits, '\r');
    law_blank_texts_are_white(digits, '\n');
    lemma_trim_padded(" "@, digits, "\r\n"@);
}

proof fn lemma_header_parts(name: Seq<char>, value: Seq<char>)
    requires
        lacks(name, ':'),
    ensures
        ({
            let line = name + ":"@ + value;
            &&& find_char(line, ':') == name.len() < line.len()
            &&& line.take(name.len() as int) == name
            &&& line.skip(name.len() as int + 1) == value
        }),
{
    reveal_strlit(":");
    let line = name + ":"@ + value;
    let n = name.len() as int;
    assert forall|j: int| 0 <= j < n implies line[j] != ':' by {
        assert(line[j] == name[j]);
    }
    assert(line[n] == ':');
    lemma_find_char_is(line, ':', n);
    assert(line.take(n) =~= name);
    assert(line.skip(n + 1) =~= value);
}

/// An answer is what the service sent with a status from 200 to 299, and an error that tells the
/// status and the text otherwise.
pub proof fn law_only_successful_answers_are_read(status: u16, body: Seq<u8>)
    ensures
        service_answer(status, body) is Ok <==> valid_utf8(body) && 200 <= status <= 299,
        service_answer(status, body) matches Ok(text) ==> text == decode_utf8(body),
        valid_utf8(body) ==> (service_answer(status, body) matches Err(message) ==> ends(
            message,
            decimal(status as nat) + ": "@ + decode_utf8(body),
        )),
{
    if valid_utf8(body) {
        reveal_strlit(": ");
        let tail = decimal(status as nat) + ": "@ + decode_utf8(body);
        let whole = "model service returned HTTP "@ + decimal(status as nat) + ": "@ + decode_utf8(
            body,
        );
        assert(whole.skip(whole.len() - tail.len()) =~= tail);
    }
}

/// The text of an answer is the text of its text parts, one behind the other; parts of another kind
/// add nothing.
pub proof fn law_text_parts_are_put_together(parts: Seq<Seq<char>>, n: int, before: Seq<char>)
    requires
        0 < n <= parts.len(),
        parts_text(parts, n - 1) == Ok::<Seq<char>, Seq<char>>(before),
    ensures
        json_reading(parts[n - 1]) matches Ok(json) ==> json is Object ==> (match text_slot(
            json,
            "type"@,
            0,
        ) {
            Some(kind) => if kind == "text"@ {
                match text_slot(json, "text"@, 1) {
                    Some(text) => parts_text(parts, n) == Ok::<Seq<char>, Seq<char>>(before + text),
                    None => parts_text(parts, n) is Err,
                }
            } else {
                parts_text(parts, n) == Ok::<Seq<char>, Seq<char>>(before)
            },
            None => true,
        }),
        json_reading(parts[n - 1]) is Err ==> parts_text(parts, n) is Err,
        parts_text(parts, 0) == Ok::<Seq<char>, Seq<char>>(Seq::empty()),
{
}

/// A session of the service is the one that its answer names.
pub proof fn law_sessions_are_begun(answer: Seq<char>, fields: Seq<(Seq<char>, Seq<char>)>)
    ensures
        json_reading(answer) == Ok::<JsonModel, Seq<char>>(JsonModel::Object(fields)) ==> match get_text(
            JsonModel::Object(fields),
            "id"@,
        ) {
            Some(id) => session_in(answer) == Ok::<Seq<char>, Seq<char>>(id),
            None => session_in(answer) is Err,
        },
        json_reading(answer) is Err ==> session_in(answer) is Err,
{
}

/// The size of a chunk is the number on its line, whatever follows a semicolon.
pub proof fn law_chunk_sizes_are_read(digits: Seq<char>, rest: Seq<char>)
    requires
        is_word(digits),
        lacks(digits, ';'),
    ensures
        match parse_hex(digits) {
            Some(n) => chunk_size_on(digits + "\r\n"@) == Ok::<usize, Seq<char>>(n as usize)
                && chunk_size_on(digits + ";"@ + rest) == Ok::<usize, Seq<char>>(n as usize),
            None => chunk_size_on(digits + "\r\n"@) is Err && chunk_size_on(digits + ";"@ + rest)
                is Err,
        },
{
    reveal_strlit("\r\n");
    reveal_strlit(";");
    law_blank_texts_are_white(digits, '\r');
    law_blank_texts_are_white(digits, '\n');
    law_blank_texts_are_white(digits, ';');
    let n = digits.len() as int;
    let none = Seq::<char>::empty();
    assert(!white(digits[0]) && !white(digits[n - 1]));
    lemma_trim_padded(none, digits, "\r\n"@);
    assert(none + digits + "\r\n"@ =~= digits + "\r\n"@);
    lemma_find_char_is(digits, ';', n);
    assert(digits.take(n) =~= digits);
    let line = digits + ";"@ + rest;
    let (before, after) = lemma_trim_parts(line);
    let shown = trim(line);
    assert(line[0] == digits[0]);
    assert(before.len() == 0) by {
        if before.len() > 0 {
            assert(line[0] == before[0]);
        }
    }
    assert(line[n] == ';');
    assert(shown.len() > n) by {
        if shown.len() <= n {
            assert(line[n] == after[n - shown.len()]);
        }
    }
    assert forall|j: int| 0 <= j < n implies shown[j] != ';' by {
        assert(shown[j] == line[j]);
        assert(line[j] == digits[j]);
    }
    assert(shown[n] == line[n]);
    lemma_find_char_is(shown, ';', n);
    assert(shown.take(n) =~= digits) by {
        assert forall|j: int| 0 <= j < n implies shown[j] == digits[j] by {
            assert(shown[j] == line[j]);
        }
    }
}

/// The body of an answer is read as it is, or once its chunks are put together; what it says is then
/// read as a reply of a model.
pub proof fn law_service_replies_are_read(body: Seq<char>, decoded: Seq<char>, text: Seq<char>)
    ensures
        body_text(body) == Ok::<Seq<char>, Seq<char>>(text) ==> (match model_reply(text) {
            Ok(reply) => service_reply(body) == Ok::<ResponseModel, Seq<char>>(reply),
            Err(_) => service_reply(body) is Err,
        }),
        body_text(body) is Err && chunked_text(body) == Some(decoded) && body_text(decoded) == Ok::<
            Seq<char>,
            Seq<char>,
        >(text) ==> (match model_reply(text) {
            Ok(reply) => service_reply(body) == Ok::<ResponseModel, Seq<char>>(reply),
            Err(_) => service_reply(body) is Err,
        }),
        body_text(body) is Err && chunked_text(body) is None ==> service_reply(body) is Err,
{
}

} // verus!
