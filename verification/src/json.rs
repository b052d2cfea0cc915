//! JSON as text: one level of a value at a time.

use serde_json::Value;
use vstd::prelude::*;
#[allow(unused_imports)]
use vstd::utf8::valid_utf8;

#[allow(unused_imports)]
use crate::hex::hex_digit;
#[allow(unused_imports)]
use crate::text::{joined, lacks, lemma_join_lacks, parse_natural, text_option, texts};
use crate::text::{join, parse_u64, same_text};

verus! {

/// The message for JSON that is not what it should be.
pub const UNEXPECTED_SHAPE: &'static str = "the value does not have the expected shape";

/// One level of a JSON value. What stands below it is JSON text again.
#[derive(Debug, PartialEq, Eq)]
pub enum Json {
    Null,
    Bool(bool),
    /// The digits of a number.
    Number(String),
    Text(String),
    List(Vec<String>),
    Object(Vec<(String, String)>),
}

/// What a [`Json`] says.
#[verifier::ext_equal]
pub enum JsonModel {
    Null,
    Bool(bool),
    Number(Seq<char>),
    Text(Seq<char>),
    List(Seq<Seq<char>>),
    Object(Seq<(Seq<char>, Seq<char>)>),
}

pub open spec fn field_models(fields: Seq<(String, String)>) -> Seq<(Seq<char>, Seq<char>)> {
    Seq::new(fields.len(), |i: int| (fields[i].0@, fields[i].1@))
}

impl View for Json {
    type V = JsonModel;

    open spec fn view(&self) -> JsonModel {
        match self {
            Json::Null => JsonModel::Null,
            Json::Bool(value) => JsonModel::Bool(*value),
            Json::Number(digits) => JsonModel::Number(digits@),
            Json::Text(text) => JsonModel::Text(text@),
            Json::List(items) => JsonModel::List(texts(items@)),
            Json::Object(fields) => JsonModel::Object(field_models(fields@)),
        }
    }
}

/// What `serde_json::from_str` reads in a text: the top level of the value, with what stands below
/// it written out again, or the message of the error.
pub uninterp spec fn json_reading(text: Seq<char>) -> Result<JsonModel, Seq<char>>;

/// `serde_json::from_str` on a text, as a `serde_json::Value`. The result depends on the text
/// alone and is called [`json_reading`]; nothing more is said of it.
#[verifier::external_body]
pub(crate) fn read_json(text: &str) -> (r: Result<Json, String>)
    ensures
        match r {
            Ok(json) => json_reading(text@) == Ok::<JsonModel, Seq<char>>(json@),
            Err(message) => json_reading(text@) == Err::<JsonModel, Seq<char>>(message@),
        },
{
    match serde_json::from_str::<Value>(text) {
        Err(error) => Err(error.to_string()),
        Ok(Value::Null) => Ok(Json::Null),
        Ok(Value::Bool(value)) => Ok(Json::Bool(value)),
        Ok(Value::Number(number)) => Ok(Json::Number(number.to_string())),
        Ok(Value::String(text)) => Ok(Json::Text(text)),
        Ok(Value::Array(items)) => {
            Ok(Json::List(items.iter().map(|item| item.to_string()).collect()))
        }
        Ok(Value::Object(fields)) => {
            Ok(Json::Object(fields.iter().map(|(k, v)| (k.clone(), v.to_string())).collect()))
        }
    }
}

/// A character as it stands in a JSON text: quotes, backslashes and control characters are escaped.
pub open spec fn escaped(c: char) -> Seq<char> {
    if c == '"' {
        seq!['\\', '"']
    } else if c == '\\' {
        seq!['\\', '\\']
    } else if c == '\u{8}' {
        seq!['\\', 'b']
    } else if c == '\u{c}' {
        seq!['\\', 'f']
    } else if c == '\n' {
        seq!['\\', 'n']
    } else if c == '\r' {
        seq!['\\', 'r']
    } else if c == '\t' {
        seq!['\\', 't']
    } else if !(' ' <= c) {
        seq!['\\', 'u', '0', '0', hex_digit(c as int / 16), hex_digit(c as int % 16)]
    } else {
        seq![c]
    }
}

/// The characters of a text as they stand in JSON.
pub open spec fn escaped_text(text: Seq<char>) -> Seq<char>
    decreases text.len(),
{
    if text.len() == 0 {
        Seq::empty()
    } else {
        escaped(text[0]) + escaped_text(text.skip(1))
    }
}

/// A text as JSON: in quotes, with what JSON requires escaped.
#[verifier::opaque]
pub open spec fn json_string(text: Seq<char>) -> Seq<char> {
    seq!['"'] + escaped_text(text) + seq!['"']
}

/// The `Display` form of a `serde_json::Value::String`, which is compact JSON: the text in quotes,
/// where `format_escaped_str` of `serde_json` puts the short escapes for quotes, backslashes and
/// the usual control characters, and `\u00` with two lower-case digits for the other ones.
#[verifier::external_body]
pub(crate) fn quoted(text: &str) -> (r: String)
    ensures
        r@ == json_string(text@),
{
    Value::String(text.to_owned()).to_string()
}

/// What `serde_json::to_vec_pretty` writes for the value that a JSON text denotes, or the message
/// of the error.
pub uninterp spec fn json_layout(text: Seq<char>) -> Result<Seq<u8>, Seq<char>>;

/// `serde_json::to_vec_pretty` on the value that `text` denotes. The result depends on the text
/// alone and is called [`json_layout`]; it is UTF-8.
#[verifier::external_body]
pub(crate) fn laid_out(text: &str) -> (r: Result<Vec<u8>, String>)
    ensures
        match r {
            Ok(bytes) => json_layout(text@) == Ok::<Seq<u8>, Seq<char>>(bytes@) && valid_utf8(
                bytes@,
            ),
            Err(message) => json_layout(text@) == Err::<Seq<u8>, Seq<char>>(message@),
        },
{
    serde_json::from_str::<Value>(text)
        .and_then(|value| serde_json::to_vec_pretty(&value))
        .map_err(|error| error.to_string())
}

/// What `serde_json` writes for the value that a JSON text denotes, without white space between;
/// `None` where it denotes none.
pub uninterp spec fn json_compact(text: Seq<char>) -> Option<Seq<char>>;

/// The `Display` form of the `serde_json::Value` that `serde_json::from_str` reads in a text. The
/// result depends on the text alone and is called [`json_compact`]; nothing more is said of it.
#[verifier::external_body]
pub(crate) fn compact(text: &str) -> (r: Option<String>)
    ensures
        match r {
            Some(written) => json_compact(text@) == Some(written@),
            None => json_compact(text@) is None,
        },
{
    serde_json::from_str::<Value>(text).ok().map(|value| value.to_string())
}

// ---------------------------------------------------------------------------
// Writing
// ---------------------------------------------------------------------------

/// A JSON array of `items`, which are JSON texts.
pub open spec fn array_text(items: Seq<Seq<char>>) -> Seq<char> {
    "["@ + joined(items, ","@) + "]"@
}

/// The fields of a JSON object, each as `"key":value`. The values are JSON texts.
pub open spec fn field_texts(fields: Seq<(Seq<char>, Seq<char>)>) -> Seq<Seq<char>> {
    Seq::new(fields.len(), |i: int| json_string(fields[i].0) + ":"@ + fields[i].1)
}

/// A JSON object of `fields`.
pub open spec fn object_text(fields: Seq<(Seq<char>, Seq<char>)>) -> Seq<char> {
    "{"@ + joined(field_texts(fields), ","@) + "}"@
}

/// A JSON array of texts.
pub open spec fn strings_text(items: Seq<Seq<char>>) -> Seq<char> {
    array_text(Seq::new(items.len(), |i: int| json_string(items[i])))
}

/// A JSON array of `items`.
pub fn write_array(items: &Vec<String>) -> (r: String)
    ensures
        r@ == array_text(texts(items@)),
{
    let mut r = "[".to_owned();
    r.push_str(join(items, ",").as_str());
    r.push_str("]");
    r
}

/// A JSON object of `fields`.
pub fn write_object(fields: &Vec<(String, String)>) -> (r: String)
    ensures
        r@ == object_text(field_models(fields@)),
{
    let ghost all = field_texts(field_models(fields@));
    let mut parts: Vec<String> = Vec::new();
    let mut i: usize = 0;
    while i < fields.len()
        invariant
            i <= fields@.len(),
            all == field_texts(field_models(fields@)),
            texts(parts@) == all.take(i as int),
        decreases fields@.len() - i,
    {
        let mut part = quoted(fields[i].0.as_str());
        part.push_str(":");
        part.push_str(fields[i].1.as_str());
        let ghost before = parts@;
        parts.push(part);
        assert(part@ == all[i as int]);
        assert(texts(parts@) =~= texts(before).push(part@));
        assert(all.take(i + 1) =~= all.take(i as int).push(all[i as int]));
        i += 1;
    }
    assert(all.take(all.len() as int) =~= all);
    let mut r = "{".to_owned();
    r.push_str(join(&parts, ",").as_str());
    r.push_str("}");
    r
}

/// A JSON array of texts.
pub fn write_strings(items: &Vec<String>) -> (r: String)
    ensures
        r@ == strings_text(texts(items@)),
{
    let ghost all = Seq::new(items@.len(), |i: int| json_string(texts(items@)[i]));
    let mut parts: Vec<String> = Vec::new();
    let mut i: usize = 0;
    while i < items.len()
        invariant
            i <= items@.len(),
            all == Seq::new(items@.len(), |i: int| json_string(texts(items@)[i])),
            texts(parts@) == all.take(i as int),
        decreases items@.len() - i,
    {
        let part = quoted(items[i].as_str());
        let ghost before = parts@;
        parts.push(part);
        assert(part@ == all[i as int]);
        assert(texts(parts@) =~= texts(before).push(part@));
        assert(all.take(i + 1) =~= all.take(i as int).push(all[i as int]));
        i += 1;
    }
    assert(all.take(all.len() as int) =~= all);
    assert(all =~= Seq::new(texts(items@).len(), |i: int| json_string(texts(items@)[i])));
    write_array(&parts)
}

/// One field of an object.
pub fn field(key: &str, value: String) -> (r: (String, String))
    ensures
        r.0@ == key@,
        r.1@ == value@,
{
    (key.to_owned(), value)
}

/// An optional text: `null` when there is none.
pub open spec fn optional_text(value: Option<Seq<char>>) -> Seq<char> {
    match value {
        Some(text) => json_string(text),
        None => "null"@,
    }
}

/// An optional text: `null` when there is none.
pub fn write_optional(value: &Option<String>) -> (r: String)
    ensures
        r@ == optional_text(text_option(*value)),
{
    match value {
        Some(text) => quoted(text.as_str()),
        None => "null".to_owned(),
    }
}

/// A truth value.
pub open spec fn truth_text(value: bool) -> Seq<char> {
    if value {
        "true"@
    } else {
        "false"@
    }
}

/// A truth value.
pub fn write_truth(value: bool) -> (r: String)
    ensures
        r@ == truth_text(value),
{
    if value {
        "true".to_owned()
    } else {
        "false".to_owned()
    }
}

proof fn lemma_escaped_char(c: char)
    ensures
        lacks(escaped(c), '\n'),
{
    let high = c as int / 16;
    let low = c as int % 16;
    let e = escaped(c);
    assert forall|i: int| 0 <= i < e.len() implies #[trigger] e[i] != '\n' by {
        if !(' ' <= c) {
            assert(0 <= high < 2 && 0 <= low < 16);
            assert(hex_digit(high) as int >= 48);
            assert(hex_digit(low) as int >= 48);
        }
    }
}

proof fn lemma_escaped_lacks(text: Seq<char>)
    ensures
        lacks(escaped_text(text), '\n'),
    decreases text.len(),
{
    if text.len() > 0 {
        lemma_escaped_lacks(text.skip(1));
        lemma_escaped_char(text[0]);
        lemma_sum_lacks(escaped(text[0]), escaped_text(text.skip(1)));
    }
}

proof fn lemma_sum_lacks(a: Seq<char>, b: Seq<char>)
    requires
        lacks(a, '\n'),
        lacks(b, '\n'),
    ensures
        lacks(a + b, '\n'),
{
    assert forall|i: int| 0 <= i < (a + b).len() implies #[trigger] (a + b)[i] != '\n' by {
        if i < a.len() {
            assert((a + b)[i] == a[i]);
        } else {
            assert((a + b)[i] == b[i - a.len()]);
        }
    }
}

/// A text in JSON stands on one line.
pub proof fn law_json_texts_are_single_lines(text: Seq<char>)
    ensures
        lacks(json_string(text), '\n'),
{
    reveal(json_string);
    lemma_escaped_lacks(text);
    lemma_sum_lacks(seq!['"'], escaped_text(text));
    lemma_sum_lacks(seq!['"'] + escaped_text(text), seq!['"']);
}

/// An array of values that stand on one line stands on one line.
pub proof fn lemma_array_on_one_line(items: Seq<Seq<char>>)
    requires
        forall|i: int| 0 <= i < items.len() ==> lacks(#[trigger] items[i], '\n'),
    ensures
        lacks(array_text(items), '\n'),
{
    reveal_strlit("[");
    reveal_strlit("]");
    reveal_strlit(",");
    lemma_join_lacks(items, ","@, '\n');
    lemma_sum_lacks("["@, joined(items, ","@));
    lemma_sum_lacks("["@ + joined(items, ","@), "]"@);
}

/// An object of values that stand on one line stands on one line.
pub proof fn lemma_object_on_one_line(fields: Seq<(Seq<char>, Seq<char>)>)
    requires
        forall|i: int| 0 <= i < fields.len() ==> lacks((#[trigger] fields[i]).1, '\n'),
    ensures
        lacks(object_text(fields), '\n'),
{
    reveal_strlit("{");
    reveal_strlit("}");
    reveal_strlit(",");
    reveal_strlit(":");
    let parts = field_texts(fields);
    assert forall|i: int| 0 <= i < parts.len() implies lacks(#[trigger] parts[i], '\n') by {
        let (key, value) = fields[i];
        law_json_texts_are_single_lines(key);
        lemma_sum_lacks(json_string(key), ":"@);
        assert(lacks(fields[i].1, '\n'));
        lemma_sum_lacks(json_string(key) + ":"@, value);
    }
    lemma_join_lacks(parts, ","@, '\n');
    lemma_sum_lacks("{"@, joined(parts, ","@));
    lemma_sum_lacks("{"@ + joined(parts, ","@), "}"@);
}

/// A truth value or an optional text stands on one line.
pub proof fn lemma_plain_values_on_one_line(truth: bool, value: Option<Seq<char>>)
    ensures
        lacks(truth_text(truth), '\n'),
        lacks(optional_text(value), '\n'),
{
    reveal_strlit("true");
    reveal_strlit("false");
    reveal_strlit("null");
    if let Some(text) = value {
        law_json_texts_are_single_lines(text);
    }
}

// ---------------------------------------------------------------------------
// Reading
// ---------------------------------------------------------------------------

/// The JSON text under `key`: that of the first field with this key.
pub open spec fn member(fields: Seq<(Seq<char>, Seq<char>)>, key: Seq<char>, index: int) -> Option<
    Seq<char>,
>
    decreases fields.len() - index,
{
    if !(0 <= index < fields.len()) {
        None
    } else if fields[index].0 == key {
        Some(fields[index].1)
    } else {
        member(fields, key, index + 1)
    }
}

/// What stands under `key` in a value: `None` where the value is no object or has no such field.
pub open spec fn get_member(json: JsonModel, key: Seq<char>) -> Option<Seq<char>> {
    match json {
        JsonModel::Object(fields) => member(fields, key, 0),
        _ => None,
    }
}

/// The value under `key`, when it can be read.
pub open spec fn get_value(json: JsonModel, key: Seq<char>) -> Option<JsonModel> {
    match get_member(json, key) {
        Some(text) => match json_reading(text) {
            Ok(value) => Some(value),
            Err(_) => None,
        },
        None => None,
    }
}

/// The text under `key`, when a text stands there.
pub open spec fn get_text(json: JsonModel, key: Seq<char>) -> Option<Seq<char>> {
    match get_value(json, key) {
        Some(JsonModel::Text(text)) => Some(text),
        _ => None,
    }
}

impl Json {
    /// The JSON text under `key`.
    pub fn get(&self, key: &str) -> (r: Option<String>)
        ensures
            match r {
                Some(text) => get_member(self@, key@) == Some(text@),
                None => get_member(self@, key@) is None,
            },
    {
        match self {
            Json::Object(fields) => {
                let ghost all = field_models(fields@);
                let mut i: usize = 0;
                while i < fields.len()
                    invariant
                        i <= fields@.len(),
                        all == field_models(fields@),
                        self@ == JsonModel::Object(all),
                        member(all, key@, 0) == member(all, key@, i as int),
                    decreases fields@.len() - i,
                {
                    assert(all[i as int] == (fields@[i as int].0@, fields@[i as int].1@));
                    if same_text(fields[i].0.as_str(), key) {
                        return Some(fields[i].1.clone());
                    }
                    i += 1;
                }
                None
            },
            _ => None,
        }
    }

    /// The value under `key`.
    pub fn get_json(&self, key: &str) -> (r: Option<Json>)
        ensures
            match r {
                Some(json) => get_value(self@, key@) == Some(json@),
                None => get_value(self@, key@) is None,
            },
    {
        match self.get(key) {
            Some(text) => match read_json(text.as_str()) {
                Ok(json) => Some(json),
                Err(_) => None,
            },
            None => None,
        }
    }

    /// The text under `key`.
    pub fn get_string(&self, key: &str) -> (r: Option<String>)
        ensures
            match r {
                Some(text) => get_text(self@, key@) == Some(text@),
                None => get_text(self@, key@) is None,
            },
    {
        match self.get_json(key) {
            Some(Json::Text(text)) => Some(text),
            _ => None,
        }
    }
}

/// The texts that the first `n` items denote, when each of them is a text.
pub open spec fn item_texts(items: Seq<Seq<char>>, n: int) -> Option<Seq<Seq<char>>>
    decreases n,
{
    if n <= 0 {
        Some(Seq::empty())
    } else {
        match item_texts(items, n - 1) {
            None => None,
            Some(before) => match json_reading(items[n - 1]) {
                Ok(JsonModel::Text(text)) => Some(before.push(text)),
                _ => None,
            },
        }
    }
}

proof fn lemma_item_texts_fail(items: Seq<Seq<char>>, i: int, n: int)
    requires
        0 <= i <= n,
        item_texts(items, i) is None,
    ensures
        item_texts(items, n) is None,
    decreases n - i,
{
    if i < n {
        lemma_item_texts_fail(items, i, n - 1);
    }
}

/// The texts that `items` denote, when each of them is a text.
pub fn read_texts(items: &Vec<String>) -> (r: Option<Vec<String>>)
    ensures
        match r {
            Some(found) => item_texts(texts(items@), items@.len() as int) == Some(texts(found@)),
            None => item_texts(texts(items@), items@.len() as int) is None,
        },
{
    let ghost all = texts(items@);
    let mut r: Vec<String> = Vec::new();
    let mut i: usize = 0;
    assert(texts(r@) =~= Seq::<Seq<char>>::empty());
    while i < items.len()
        invariant
            i <= items@.len(),
            all == texts(items@),
            item_texts(all, i as int) == Some(texts(r@)),
        decreases items@.len() - i,
    {
        assert(all[i as int] == items@[i as int]@);
        match read_json(items[i].as_str()) {
            Ok(Json::Text(text)) => {
                let ghost before = r@;
                r.push(text);
                assert(texts(r@) =~= texts(before).push(text@));
            },
            _ => {
                proof {
                    lemma_item_texts_fail(all, i + 1, all.len() as int);
                }
                return None;
            },
        }
        i += 1;
    }
    Some(r)
}

/// An optional text: `None` where something else stands.
pub open spec fn optional_name(name: Option<Seq<char>>) -> Option<Option<Seq<char>>> {
    match name {
        None => Some(None),
        Some(text) => match json_reading(text) {
            Ok(JsonModel::Null) => Some(None),
            Ok(JsonModel::Text(name)) => Some(Some(name)),
            _ => None,
        },
    }
}

/// An optional text: `None` where something else stands.
pub fn read_optional_name(name: Option<String>) -> (r: Option<Option<String>>)
    ensures
        match r {
            Some(name_found) => optional_name(text_option(name)) == Some(text_option(name_found)),
            None => optional_name(text_option(name)) is None,
        },
{
    match name {
        None => Some(None),
        Some(text) => match read_json(text.as_str()) {
            Ok(Json::Null) => Some(None),
            Ok(Json::Text(name)) => Some(Some(name)),
            _ => None,
        },
    }
}

/// Whether a value can be a record of `n` fields: an object, or the list of the fields.
pub open spec fn record(json: JsonModel, n: nat) -> bool {
    match json {
        JsonModel::Object(_) => true,
        JsonModel::List(items) => items.len() == n,
        _ => false,
    }
}

/// A field of a record: what stands under its key, or at its index in a list.
pub open spec fn slot(json: JsonModel, key: Seq<char>, index: int) -> Option<Seq<char>> {
    match json {
        JsonModel::List(items) => if 0 <= index < items.len() {
            Some(items[index])
        } else {
            None
        },
        _ => get_member(json, key),
    }
}

/// A text field of a record, where a text stands there.
pub open spec fn text_slot(json: JsonModel, key: Seq<char>, index: int) -> Option<Seq<char>> {
    match slot(json, key, index) {
        Some(text) => match json_reading(text) {
            Ok(JsonModel::Text(value)) => Some(value),
            _ => None,
        },
        None => None,
    }
}

impl Json {
    /// Whether this can be a record of `n` fields.
    pub fn is_record(&self, n: usize) -> (r: bool)
        ensures
            r == record(self@, n as nat),
    {
        match self {
            Json::Object(_) => true,
            Json::List(items) => items.len() == n,
            _ => false,
        }
    }

    /// A field of a record.
    pub fn slot(&self, key: &str, index: usize) -> (r: Option<String>)
        ensures
            match r {
                Some(text) => slot(self@, key@, index as int) == Some(text@),
                None => slot(self@, key@, index as int) is None,
            },
    {
        match self {
            Json::List(items) => {
                if index < items.len() {
                    Some(items[index].clone())
                } else {
                    None
                }
            },
            _ => self.get(key),
        }
    }

    /// A text field of a record.
    pub fn text_slot(&self, key: &str, index: usize) -> (r: Option<String>)
        ensures
            match r {
                Some(text) => text_slot(self@, key@, index as int) == Some(text@),
                None => text_slot(self@, key@, index as int) is None,
            },
    {
        match self.slot(key, index) {
            None => None,
            Some(text) => match read_json(text.as_str()) {
                Ok(Json::Text(value)) => Some(value),
                _ => None,
            },
        }
    }
}

/// Whether a record carries a tag: the name of a variant, or the number of its place.
pub open spec fn tagged(json: JsonModel, key: Seq<char>, name: Seq<char>, place: Seq<char>) -> bool {
    match slot(json, key, 0) {
        Some(text) => match json_reading(text) {
            Ok(JsonModel::Text(value)) => value == name,
            Ok(JsonModel::Number(digits)) => digits == place,
            _ => false,
        },
        None => false,
    }
}

/// Whether a record carries some tag: a name or a number.
pub open spec fn has_tag(json: JsonModel, key: Seq<char>) -> bool {
    match slot(json, key, 0) {
        Some(text) => match json_reading(text) {
            Ok(JsonModel::Text(_)) => true,
            Ok(JsonModel::Number(digits)) => parse_natural(digits, u64::MAX as nat) is Some,
            _ => false,
        },
        None => false,
    }
}

impl Json {
    /// Whether this carries a tag.
    pub fn is_tagged(&self, key: &str, name: &str, place: &str) -> (r: bool)
        ensures
            r == tagged(self@, key@, name@, place@),
    {
        match self.slot(key, 0) {
            None => false,
            Some(text) => match read_json(text.as_str()) {
                Ok(Json::Text(value)) => same_text(value.as_str(), name),
                Ok(Json::Number(digits)) => same_text(digits.as_str(), place),
                _ => false,
            },
        }
    }

    /// Whether this carries some tag.
    pub fn carries_tag(&self, key: &str) -> (r: bool)
        ensures
            r == has_tag(self@, key@),
    {
        match self.slot(key, 0) {
            None => false,
            Some(text) => match read_json(text.as_str()) {
                Ok(Json::Text(_)) => true,
                Ok(Json::Number(digits)) => parse_u64(digits.as_str(), u64::MAX).is_some(),
                _ => false,
            },
        }
    }
}

/// The member of an object that a name finds is the first of that name; a name that no member has
/// finds nothing, and neither does any name in what is no object.
pub proof fn law_members_are_found_by_name(
    before: Seq<(Seq<char>, Seq<char>)>,
    key: Seq<char>,
    text: Seq<char>,
    after: Seq<(Seq<char>, Seq<char>)>,
)
    requires
        forall|i: int| 0 <= i < before.len() ==> (#[trigger] before[i]).0 != key,
    ensures
        get_member(JsonModel::Object(before + seq![(key, text)] + after), key) == Some(text),
        get_member(JsonModel::Object(before), key) is None,
{
    lemma_member_from(before + seq![(key, text)] + after, key, 0, before.len() as int);
    lemma_member_from(before, key, 0, before.len() as int);
}

proof fn lemma_member_from(
    fields: Seq<(Seq<char>, Seq<char>)>,
    key: Seq<char>,
    from: int,
    at: int,
)
    requires
        0 <= from <= at <= fields.len(),
        forall|i: int| from <= i < at ==> (#[trigger] fields[i]).0 != key,
        at < fields.len() ==> fields[at].0 == key,
    ensures
        member(fields, key, from) == (if at < fields.len() {
            Some(fields[at].1)
        } else {
            None
        }),
    decreases at - from,
{
    if from < at {
        assert(fields[from].0 != key);
        lemma_member_from(fields, key, from + 1, at);
    }
}

} // verus!
