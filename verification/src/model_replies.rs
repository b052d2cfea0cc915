//! What a model replied: texts and tool calls in the JSON that models write.

use vstd::prelude::*;

use crate::agent_messages::{ModelResponse, ToolCall};
#[allow(unused_imports)]
use crate::agent_messages::{CallModel, ResponseModel};
use crate::json::{Json, read_json, read_optional_name};
#[allow(unused_imports)]
use crate::json::{
    JsonModel, field_models, get_member, get_text, json_reading, optional_name, record, slot,
    tagged, text_slot,
};
use crate::ordered::OrderedMap;
#[allow(unused_imports)]
use crate::ordered::{
    law_put_then_get, lemma_position, lemma_same_keys, lemma_with_entry_sorted, lookup, position,
    present, sorted, with_entry,
};
use crate::runtime_error::labelled;
use crate::text::{
    chars_of, ends_with, find_from, is_blank, lines, parse_i32, same_text, strip_prefix, substring,
    trimmed,
};
#[allow(unused_imports)]
use crate::text::{
    all_white, begins, blank, ends, find_char, find_last, lacks, law_blank_texts_are_white,
    law_last_places, law_signed_decimal_reads_back, lemma_find_char, lemma_find_char_is,
    lemma_trim_padded, lemma_trim_parts, lines_of, parse_integer, signed_decimal, text_option,
    texts, trim, white,
};
use crate::tool_values::{ToolArguments, ToolValue};
#[allow(unused_imports)]
use crate::tool_values::{Arguments, ToolModel, arguments_model, value_model, value_models};
#[allow(unused_imports)]
use vstd::utf8::{decode_utf8, valid_utf8};

verus! {

/// How deep JSON can nest: `serde_json` reads nothing deeper.
pub const MAX_JSON_DEPTH: usize = 128;

// ---------------------------------------------------------------------------
// Tool arguments
// ---------------------------------------------------------------------------

/// What `serde_json` reads in a text as a map from texts to values: the values as JSON texts, in
/// the order of their keys, or the message of the error.
pub uninterp spec fn map_reading(text: Seq<char>) -> Result<Seq<(Seq<char>, Seq<char>)>, Seq<char>>;

/// `serde_json::from_value` on the value that a text denotes, as a `BTreeMap` from `String` to
/// `serde_json::Value`. The result depends on the text alone and is called [`map_reading`];
/// nothing more is said of it.
#[verifier::external_body]
fn read_map(text: &str) -> (r: Result<Vec<(String, String)>, String>)
    ensures
        match r {
            Ok(fields) => map_reading(text@) == Ok::<Seq<(Seq<char>, Seq<char>)>, Seq<char>>(
                field_models(fields@),
            ),
            Err(message) => map_reading(text@) == Err::<Seq<(Seq<char>, Seq<char>)>, Seq<char>>(
                message@,
            ),
        },
{
    serde_json::from_str::<serde_json::Value>(text)
        .and_then(serde_json::from_value::<std::collections::BTreeMap<String, serde_json::Value>>)
        .map(|fields| fields.into_iter().map(|(k, v)| (k, v.to_string())).collect())
        .map_err(|error| error.to_string())
}

/// The tool value that a JSON text denotes: a text, an integer, a truth value, or a list of such.
pub open spec fn value_of(text: Seq<char>, depth: nat) -> Option<ToolModel>
    decreases depth, 0nat,
{
    if depth == 0 {
        None
    } else {
        match json_reading(text) {
            Ok(JsonModel::Text(value)) => Some(ToolModel::Text(value)),
            Ok(JsonModel::Bool(value)) => Some(ToolModel::Boolean(value)),
            Ok(JsonModel::Number(digits)) => match parse_integer(digits) {
                Some(number) => Some(ToolModel::Integer(number as i32)),
                None => None,
            },
            Ok(JsonModel::List(items)) => match values_of(
                items,
                items.len(),
                (depth - 1) as nat,
            ) {
                Some(values) => Some(ToolModel::List(values)),
                None => None,
            },
            _ => None,
        }
    }
}

/// The tool values that the first `n` of some JSON texts denote.
pub open spec fn values_of(items: Seq<Seq<char>>, n: nat, depth: nat) -> Option<Seq<ToolModel>>
    decreases depth, n + 1,
{
    if n == 0 {
        Some(Seq::empty())
    } else {
        match (values_of(items, (n - 1) as nat, depth), value_of(items[n - 1], depth)) {
            (Some(before), Some(value)) => Some(before.push(value)),
            _ => None,
        }
    }
}

proof fn lemma_values_fail(items: Seq<Seq<char>>, from: nat, n: nat, depth: nat)
    requires
        from <= n,
        values_of(items, from, depth) is None,
    ensures
        values_of(items, n, depth) is None,
    decreases n - from,
{
    if from < n {
        lemma_values_fail(items, from, (n - 1) as nat, depth);
    }
}

fn read_value(text: &str, depth: usize) -> (r: Option<ToolValue>)
    ensures
        match r {
            Some(value) => value_of(text@, depth as nat) == Some(value_model(value)),
            None => value_of(text@, depth as nat) is None,
        },
    decreases depth,
{
    if depth == 0 {
        return None;
    }
    match read_json(text) {
        Ok(Json::Text(value)) => Some(ToolValue::Text(value)),
        Ok(Json::Bool(value)) => Some(ToolValue::Boolean(value)),
        Ok(Json::Number(digits)) => match parse_i32(digits.as_str()) {
            Some(number) => Some(ToolValue::Integer(number)),
            None => None,
        },
        Ok(Json::List(items)) => {
            let ghost all = texts(items@);
            let mut values: Vec<ToolValue> = Vec::new();
            let mut i: usize = 0;
            assert(value_models(values@) =~= Seq::<ToolModel>::empty());
            while i < items.len()
                invariant
                    i <= items@.len(),
                    depth > 0,
                    all == texts(items@),
                    json_reading(text@) == Ok::<JsonModel, Seq<char>>(JsonModel::List(all)),
                    values_of(all, i as nat, (depth - 1) as nat) == Some(value_models(values@)),
                decreases items@.len() - i,
            {
                assert(all[i as int] == items@[i as int]@);
                match read_value(items[i].as_str(), depth - 1) {
                    None => {
                        proof {
                            lemma_values_fail(all, (i + 1) as nat, all.len(), (depth - 1) as nat);
                        }
                        return None;
                    },
                    Some(value) => {
                        let ghost before = values@;
                        let ghost added = value_model(value);
                        values.push(value);
                        assert(value_models(values@) =~= value_models(before).push(added));
                    },
                }
                i += 1;
            }
            Some(ToolValue::List(values))
        },
        _ => None,
    }
}

/// The arguments that the first `n` fields denote.
pub open spec fn arguments_of(fields: Seq<(Seq<char>, Seq<char>)>, n: int) -> Option<Arguments>
    decreases n,
{
    if n <= 0 {
        Some(Seq::empty())
    } else {
        match (arguments_of(fields, n - 1), value_of(fields[n - 1].1, MAX_JSON_DEPTH as nat)) {
            (Some(before), Some(value)) => Some(
                with_entry::<String, ToolModel>(before, fields[n - 1].0, value),
            ),
            _ => None,
        }
    }
}

/// The arguments that a JSON text denotes, or the message of the error.
pub open spec fn arguments_in(text: Seq<char>) -> Result<Arguments, Seq<char>> {
    match map_reading(text) {
        Err(message) => Err(message),
        Ok(fields) => match arguments_of(fields, fields.len() as int) {
            Some(arguments) => Ok(arguments),
            None => Err("data did not match any variant of untagged enum ToolValue"@),
        },
    }
}

/// What reading arguments gave, as the contracts see it.
pub open spec fn arguments_seen(r: Result<ToolArguments, String>) -> Result<Arguments, Seq<char>> {
    match r {
        Ok(arguments) => Ok(arguments_model(arguments@)),
        Err(message) => Err(message@),
    }
}

proof fn lemma_arguments_fail(fields: Seq<(Seq<char>, Seq<char>)>, from: int, n: int)
    requires
        0 < from <= n,
        arguments_of(fields, from) is None,
    ensures
        arguments_of(fields, n) is None,
    decreases n - from,
{
    if from < n {
        lemma_arguments_fail(fields, from, n - 1);
    }
}

proof fn lemma_put_argument(entries: Seq<(Seq<char>, ToolValue)>, name: Seq<char>, value: ToolValue)
    ensures
        arguments_model(with_entry::<String, ToolValue>(entries, name, value)) == with_entry::<
            String,
            ToolModel,
        >(arguments_model(entries), name, value_model(value)),
{
    lemma_same_keys::<String, ToolValue, ToolModel>(entries, arguments_model(entries), name);
    lemma_position::<String, ToolValue>(entries, name);
    assert(arguments_model(with_entry::<String, ToolValue>(entries, name, value)) =~= with_entry::<
        String,
        ToolModel,
    >(arguments_model(entries), name, value_model(value)));
}

/// The arguments that fields denote, where each of them is a tool value.
pub fn make_arguments(fields: &Vec<(String, String)>) -> (r: Option<ToolArguments>)
    ensures
        match r {
            Some(arguments) => arguments_of(field_models(fields@), fields@.len() as int) == Some(
                arguments_model(arguments@),
            ),
            None => arguments_of(field_models(fields@), fields@.len() as int) is None,
        },
{
    let ghost all = field_models(fields@);
    let mut arguments: ToolArguments = OrderedMap::new();
    let mut i: usize = 0;
    assert(arguments_model(arguments@) =~= Seq::<(Seq<char>, ToolModel)>::empty());
    while i < fields.len()
        invariant
            i <= fields@.len(),
            all == field_models(fields@),
            arguments_of(all, i as int) == Some(arguments_model(arguments@)),
        decreases fields@.len() - i,
    {
        assert(all[i as int] == (fields@[i as int].0@, fields@[i as int].1@));
        match read_value(fields[i].1.as_str(), MAX_JSON_DEPTH) {
            None => {
                proof {
                    lemma_arguments_fail(all, i + 1, all.len() as int);
                }
                return None;
            },
            Some(value) => {
                proof {
                    lemma_put_argument(arguments@, fields@[i as int].0@, value);
                }
                arguments.insert(fields[i].0.clone(), value);
            },
        }
        i += 1;
    }
    Some(arguments)
}

/// The arguments that a JSON text denotes.
pub fn read_arguments(text: &str) -> (r: Result<ToolArguments, String>)
    ensures
        arguments_seen(r) == arguments_in(text@),
{
    match read_map(text) {
        Err(message) => Err(message),
        Ok(fields) => match make_arguments(&fields) {
            Some(arguments) => Ok(arguments),
            None => Err("data did not match any variant of untagged enum ToolValue".to_owned()),
        },
    }
}

// ---------------------------------------------------------------------------
// JSON in the text of a model
// ---------------------------------------------------------------------------

/// A text without the fence of a code block round it.
pub open spec fn unfenced(text: Seq<char>) -> Seq<char> {
    let shown = trim(text);
    let fence = "```"@;
    let inside = shown.skip(fence.len() as int);
    if begins(shown, fence) && ends(inside, fence) {
        let inner = inside.take(inside.len() - fence.len());
        let language = "json"@;
        trim(
            if begins(inner, language) {
                inner.skip(language.len() as int)
            } else {
                inner
            },
        )
    } else {
        shown
    }
}

fn without_fence(text: &str) -> (r: String)
    ensures
        r@ == unfenced(text@),
{
    let shown = trimmed(text);
    match strip_prefix(shown.as_str(), "```") {
        None => shown,
        Some(inside) => {
            if !ends_with(inside.as_str(), "```") {
                return shown;
            }
            let chars = chars_of(inside.as_str());
            let fence = chars_of("```");
            let inner = substring(&chars, 0, chars.len() - fence.len());
            assert(inner@ =~= inside@.take(inside@.len() - "```"@.len()));
            match strip_prefix(inner.as_str(), "json") {
                Some(rest) => trimmed(rest.as_str()),
                None => trimmed(inner.as_str()),
            }
        },
    }
}

/// What stands from the first opening brace to the last closing one.
pub open spec fn object_in(text: Seq<char>) -> Option<Seq<char>> {
    let start = find_char(text, '{');
    match find_last(text, '}') {
        Some(end) => if start < end {
            Some(text.subrange(start, end + 1))
        } else {
            None
        },
        None => None,
    }
}

/// What stands from the first opening brace to the last closing one.
pub fn extract_json_object(text: &str) -> (r: Option<String>)
    ensures
        match r {
            Some(found) => object_in(text@) == Some(found@),
            None => object_in(text@) is None,
        },
{
    let chars = chars_of(text);
    let start = find_from(&chars, '{', 0);
    assert(chars@.skip(0) =~= text@);
    let mut end: usize = chars.len();
    assert(chars@.take(end as int) =~= text@);
    while end > 0 && chars[end - 1] != '}'
        invariant
            end <= chars@.len(),
            chars@ == text@,
            find_last(text@, '}') == find_last(chars@.take(end as int), '}'),
        decreases end,
    {
        assert(chars@.take(end as int).drop_last() =~= chars@.take(end - 1));
        end -= 1;
    }
    if end == 0 {
        return None;
    }
    assert(chars@.take(end as int).last() == '}');
    if start < end - 1 {
        let found = substring(&chars, start, end);
        assert(found@ =~= text@.subrange(start as int, end as int));
        Some(found)
    } else {
        None
    }
}

/// A call with its parts.
pub open spec fn call_of(id: Seq<char>, name: Seq<char>, arguments: Arguments) -> ResponseModel {
    ResponseModel::ToolCall(CallModel { id, name, arguments })
}

/// A reply, as the contracts see it.
pub open spec fn reply_seen(r: Result<ModelResponse, String>) -> Result<ResponseModel, Seq<char>> {
    match r {
        Ok(response) => Ok(response@),
        Err(message) => Err(message@),
    }
}

/// The arguments under a key; none are given where the key is absent.
pub open spec fn arguments_under(json: JsonModel, key: Seq<char>) -> Result<Arguments, Seq<char>> {
    match get_member(json, key) {
        Some(text) => arguments_in(text),
        None => arguments_in("{}"@),
    }
}

fn read_arguments_under(json: &Json, key: &str) -> (r: Result<ToolArguments, String>)
    ensures
        arguments_seen(r) == arguments_under(json@, key@),
{
    match json.get(key) {
        Some(text) => read_arguments(text.as_str()),
        None => read_arguments("{}"),
    }
}

/// The reply that a JSON value is, if it is one: a text or a tool call by its kind.
pub open spec fn kind_reply(json: JsonModel) -> Option<Result<ResponseModel, Seq<char>>> {
    let kind = get_text(json, "kind"@);
    let id = get_text(json, "id"@);
    let name = get_text(json, "name"@);
    if kind == Some("text"@) && get_text(json, "text"@) is Some {
        Some(Ok(ResponseModel::Text(get_text(json, "text"@)->0)))
    } else if kind == Some("tool_call"@) && id is Some && name is Some {
        match arguments_under(json, "arguments"@) {
            Err(message) => Some(Err("invalid tool arguments: "@ + message)),
            Ok(arguments) => Some(Ok(call_of(id->0, name->0, arguments))),
        }
    } else {
        None
    }
}

/// Whether an optional text is this one.
fn is_text(value: &Option<String>, wanted: &str) -> (r: bool)
    ensures
        r == (text_option(*value) == Some(wanted@)),
{
    match value {
        Some(text) => same_text(text.as_str(), wanted),
        None => false,
    }
}

fn read_kind_reply(json: &Json) -> (r: Option<Result<ModelResponse, String>>)
    ensures
        match r {
            Some(reply) => kind_reply(json@) == Some(reply_seen(reply)),
            None => kind_reply(json@) is None,
        },
{
    proof {
        reveal_strlit("text");
        reveal_strlit("tool_call");
        assert("text"@.len() != "tool_call"@.len());
    }
    let kind = json.get_string("kind");
    if is_text(&kind, "text") {
        match json.get_string("text") {
            Some(text) => return Some(Ok(ModelResponse::Text(text))),
            None => return None,
        }
    }
    if !is_text(&kind, "tool_call") {
        return None;
    }
    match (json.get_string("id"), json.get_string("name")) {
        (Some(id), Some(name)) => match read_arguments_under(json, "arguments") {
            Err(message) => Some(
                Err(labelled("invalid tool arguments: ", message.as_str())),
            ),
            Ok(arguments) => Some(
                Ok(
                    ModelResponse::ToolCall(
                        ToolCall::new(id.as_str(), name.as_str(), arguments),
                    ),
                ),
            ),
        },
        _ => None,
    }
}

/// What the text of a model says where it is no reply by its kind.
pub open spec fn plain_reply(text: Seq<char>) -> Result<ResponseModel, Seq<char>> {
    if blank(text) {
        Err("model response was empty"@)
    } else {
        Ok(ResponseModel::Text(trim(text)))
    }
}

fn read_plain_reply(text: &str) -> (r: Result<ModelResponse, String>)
    ensures
        reply_seen(r) == plain_reply(text@),
{
    if is_blank(text) {
        Err("model response was empty".to_owned())
    } else {
        Ok(ModelResponse::Text(trimmed(text)))
    }
}

/// The reply in the text of a model.
pub open spec fn model_reply(text: Seq<char>) -> Result<ResponseModel, Seq<char>> {
    let fenced = unfenced(text);
    let candidate = match object_in(fenced) {
        Some(object) => object,
        None => fenced,
    };
    match json_reading(candidate) {
        Ok(json) => match kind_reply(json) {
            Some(reply) => reply,
            None => plain_reply(text),
        },
        Err(_) => plain_reply(text),
    }
}

/// The reply in the text of a model.
pub fn parse_model_text(text: &str) -> (r: Result<ModelResponse, String>)
    ensures
        reply_seen(r) == model_reply(text@),
{
    let fenced = without_fence(text);
    let candidate = match extract_json_object(fenced.as_str()) {
        Some(object) => object,
        None => fenced,
    };
    match read_json(candidate.as_str()) {
        Ok(json) => match read_kind_reply(&json) {
            Some(reply) => reply,
            None => read_plain_reply(text),
        },
        Err(_) => read_plain_reply(text),
    }
}

// ---------------------------------------------------------------------------
// Replies of a local runner
// ---------------------------------------------------------------------------

/// The reply of a runner that a JSON value is, by its kind: a tool call has to bring arguments.
pub open spec fn envelope_reply(json: JsonModel) -> Option<ResponseModel> {
    let text = text_slot(json, "text"@, 1);
    let id = text_slot(json, "id"@, 1);
    let name = text_slot(json, "name"@, 2);
    let given = slot(json, "arguments"@, 3);
    if tagged(json, "kind"@, "text"@, "0"@) {
        if record(json, 2) && text is Some {
            Some(ResponseModel::Text(text->0))
        } else {
            None
        }
    } else if tagged(json, "kind"@, "tool_call"@, "1"@) && record(json, 4) && id is Some && name
        is Some && given is Some {
        match arguments_in(given->0) {
            Ok(arguments) => Some(call_of(id->0, name->0, arguments)),
            Err(_) => None,
        }
    } else {
        None
    }
}

/// The reply of a runner that a JSON value is, by its type.
pub open spec fn event_reply(json: JsonModel) -> Option<ResponseModel> {
    let kind = get_text(json, "type"@);
    let id = get_text(json, "id"@);
    let name = get_text(json, "name"@);
    if kind == Some("text"@) || kind == Some("text_delta"@) {
        match get_text(json, "text"@) {
            Some(text) => Some(ResponseModel::Text(text)),
            None => None,
        }
    } else if kind == Some("tool_call"@) && id is Some && name is Some {
        match arguments_under(json, "arguments"@) {
            Ok(arguments) => Some(call_of(id->0, name->0, arguments)),
            Err(_) => None,
        }
    } else {
        None
    }
}

/// The reply of a runner in a JSON text, if there is one.
pub open spec fn candidate_reply(text: Seq<char>) -> Option<ResponseModel> {
    match json_reading(text) {
        Err(_) => None,
        Ok(json) => match envelope_reply(json) {
            Some(reply) => Some(reply),
            None => event_reply(json),
        },
    }
}

/// The reply of a runner in its text.
pub open spec fn bridge_reply(text: Seq<char>) -> Result<ResponseModel, Seq<char>> {
    let fenced = unfenced(text);
    let object = match object_in(fenced) {
        Some(object) => object,
        None => fenced,
    };
    match candidate_reply(fenced) {
        Some(reply) => Ok(reply),
        None => match candidate_reply(object) {
            Some(reply) => Ok(reply),
            None => plain_reply(text),
        },
    }
}

/// A reply that may be there, as the contracts see it.
pub open spec fn maybe_reply(r: Option<ModelResponse>) -> Option<ResponseModel> {
    match r {
        Some(response) => Some(response@),
        None => None,
    }
}

fn read_envelope(json: &Json) -> (r: Option<ModelResponse>)
    ensures
        maybe_reply(r) == envelope_reply(json@),
{
    if json.is_tagged("kind", "text", "0") {
        if !json.is_record(2) {
            return None;
        }
        return match json.text_slot("text", 1) {
            Some(text) => Some(ModelResponse::Text(text)),
            None => None,
        };
    }
    if !json.is_tagged("kind", "tool_call", "1") || !json.is_record(4) {
        return None;
    }
    match (json.text_slot("id", 1), json.text_slot("name", 2), json.slot("arguments", 3)) {
        (Some(id), Some(name), Some(text)) => match read_arguments(text.as_str()) {
            Ok(arguments) => Some(
                ModelResponse::ToolCall(ToolCall::new(id.as_str(), name.as_str(), arguments)),
            ),
            Err(_) => None,
        },
        _ => None,
    }
}

fn read_event(json: &Json) -> (r: Option<ModelResponse>)
    ensures
        maybe_reply(r) == event_reply(json@),
{
    let kind = json.get_string("type");
    if is_text(&kind, "text") || is_text(&kind, "text_delta") {
        return match json.get_string("text") {
            Some(text) => Some(ModelResponse::Text(text)),
            None => None,
        };
    }
    if !is_text(&kind, "tool_call") {
        return None;
    }
    match (json.get_string("id"), json.get_string("name")) {
        (Some(id), Some(name)) => match read_arguments_under(json, "arguments") {
            Ok(arguments) => Some(
                ModelResponse::ToolCall(ToolCall::new(id.as_str(), name.as_str(), arguments)),
            ),
            Err(_) => None,
        },
        _ => None,
    }
}

fn read_candidate(text: &str) -> (r: Option<ModelResponse>)
    ensures
        maybe_reply(r) == candidate_reply(text@),
{
    match read_json(text) {
        Err(_) => None,
        Ok(json) => match read_envelope(&json) {
            Some(reply) => Some(reply),
            None => read_event(&json),
        },
    }
}

/// The reply of a runner in its text.
pub fn parse_bridge_response(text: &str) -> (r: Result<ModelResponse, String>)
    ensures
        reply_seen(r) == bridge_reply(text@),
{
    let fenced = without_fence(text);
    match read_candidate(fenced.as_str()) {
        Some(reply) => return Ok(reply),
        None => {},
    }
    let object = match extract_json_object(fenced.as_str()) {
        Some(object) => object,
        None => fenced,
    };
    match read_candidate(object.as_str()) {
        Some(reply) => Ok(reply),
        None => read_plain_reply(text),
    }
}

/// What `String::from_utf8_lossy` makes of bytes.
pub uninterp spec fn lossy(bytes: Seq<u8>) -> Seq<char>;

/// `String::from_utf8_lossy`: bytes that are valid UTF-8 become the text that they encode. Of
/// other bytes nothing is said but that the text, called [`lossy`], depends on them alone.
#[verifier::external_body]
pub(crate) fn lossy_text(bytes: &[u8]) -> (r: String)
    ensures
        r@ == lossy(bytes@),
        valid_utf8(bytes@) ==> r@ == decode_utf8(bytes@),
{
    String::from_utf8_lossy(bytes).into_owned()
}

/// What an event of a runner adds to its text: nothing where it is no text event.
pub open spec fn runner_chunk(line: Seq<char>) -> Seq<char> {
    match json_reading(line) {
        Err(_) => Seq::empty(),
        Ok(json) => {
            let kind = text_slot(json, "type"@, 0);
            let text = optional_name(slot(json, "text"@, 1));
            let part = part_text(slot(json, "part"@, 2));
            if record(json, 3) && (kind == Some("text"@) || kind == Some("text_delta"@)) && text
                is Some && part is Some {
                match (text->0, part->0) {
                    (Some(text), _) => text,
                    (None, Some(text)) => text,
                    (None, None) => Seq::empty(),
                }
            } else {
                Seq::empty()
            }
        },
    }
}

/// The text in an optional part: `None` where something else stands.
pub open spec fn part_text(part: Option<Seq<char>>) -> Option<Option<Seq<char>>> {
    match part {
        None => Some(None),
        Some(text) => match json_reading(text) {
            Ok(JsonModel::Null) => Some(None),
            Ok(json) => if record(json, 1) {
                optional_name(slot(json, "text"@, 0))
            } else {
                None
            },
            Err(_) => None,
        },
    }
}

/// The text in an optional part.
pub fn read_part_text(part: Option<String>) -> (r: Option<Option<String>>)
    ensures
        match r {
            Some(found) => part_text(text_option(part)) == Some(text_option(found)),
            None => part_text(text_option(part)) is None,
        },
{
    match part {
        None => Some(None),
        Some(text) => match read_json(text.as_str()) {
            Err(_) => None,
            Ok(Json::Null) => Some(None),
            Ok(json) => {
                if json.is_record(1) {
                    read_optional_name(json.slot("text", 0))
                } else {
                    None
                }
            },
        },
    }
}

fn read_runner_chunk(line: &str) -> (r: String)
    ensures
        r@ == runner_chunk(line@),
{
    let json = match read_json(line) {
        Err(_) => return String::new(),
        Ok(json) => json,
    };
    let kind = json.text_slot("type", 0);
    if !json.is_record(3) || !(is_text(&kind, "text") || is_text(&kind, "text_delta")) {
        return String::new();
    }
    match (read_optional_name(json.slot("text", 1)), read_part_text(json.slot("part", 2))) {
        (Some(Some(text)), Some(_)) => text,
        (Some(None), Some(Some(text))) => text,
        _ => String::new(),
    }
}

/// The text in the first `n` events of a runner.
pub open spec fn runner_text(all: Seq<Seq<char>>, n: int) -> Seq<char>
    decreases n,
{
    if n <= 0 {
        Seq::empty()
    } else {
        runner_text(all, n - 1) + runner_chunk(all[n - 1])
    }
}

/// The text in the output of a runner, one event to a line.
pub fn collect_runner_text(output: &[u8]) -> (r: String)
    ensures
        ({
            let all = lines_of(lossy(output@));
            r@ == runner_text(all, all.len() as int)
        }),
{
    let all = lines(lossy_text(output).as_str());
    let ghost seen = texts(all@);
    let mut text = String::new();
    let mut i: usize = 0;
    while i < all.len()
        invariant
            i <= all@.len(),
            seen == texts(all@),
            text@ == runner_text(seen, i as int),
        decreases all@.len() - i,
    {
        assert(seen[i as int] == all@[i as int]@);
        text.push_str(read_runner_chunk(all[i].as_str()).as_str());
        i += 1;
    }
    text
}

/// A text, a truth value, a 32-bit number and a list are read as what they are; anything else is no
/// argument.
pub proof fn law_argument_values_are_read(text: Seq<char>, number: int, depth: nat)
    requires
        depth > 0,
        i32::MIN <= number <= i32::MAX,
    ensures
        json_reading(text) matches Ok(JsonModel::Text(value)) ==> value_of(text, depth) == Some(
            ToolModel::Text(value),
        ),
        json_reading(text) matches Ok(JsonModel::Bool(value)) ==> value_of(text, depth) == Some(
            ToolModel::Boolean(value),
        ),
        json_reading(text) == Ok::<JsonModel, Seq<char>>(JsonModel::Number(signed_decimal(number)))
            ==> value_of(text, depth) == Some(ToolModel::Integer(number as i32)),
        json_reading(text) == Ok::<JsonModel, Seq<char>>(JsonModel::Null) ==> value_of(text, depth)
            is None,
        json_reading(text) matches Ok(JsonModel::Object(_)) ==> value_of(text, depth) is None,
        json_reading(text) is Err ==> value_of(text, depth) is None,
{
    law_signed_decimal_reads_back(number);
}

/// The values of a list are read in their order, all or none.
pub proof fn law_lists_are_read_value_by_value(items: Seq<Seq<char>>, n: nat, depth: nat)
    requires
        n <= items.len(),
    ensures
        match values_of(items, n, depth) {
            Some(values) => values.len() == n && forall|i: int|
                0 <= i < n ==> value_of(items[i], depth) == Some(#[trigger] values[i]),
            None => exists|i: int| 0 <= i < n && value_of(#[trigger] items[i], depth) is None,
        },
    decreases n,
{
    if n > 0 {
        law_lists_are_read_value_by_value(items, (n - 1) as nat, depth);
        assert(0 <= n - 1 < n);
        let last = items[n - 1];
    }
}

/// Under each name stands the value that was read last for it, and one value that cannot be read
/// spoils them all.
pub proof fn law_arguments_are_read_by_name(
    fields: Seq<(Seq<char>, Seq<char>)>,
    n: int,
    name: Seq<char>,
)
    requires
        0 < n <= fields.len(),
    ensures
        arguments_of(fields, n) matches Some(arguments) ==> if name == fields[n - 1].0 {
            lookup::<String, ToolModel>(arguments, name) == value_of(fields[n - 1].1, 128)
        } else {
            arguments_of(fields, n - 1) matches Some(before) && lookup::<String, ToolModel>(
                arguments,
                name,
            ) == lookup::<String, ToolModel>(before, name)
        },
        arguments_of(fields, 0) == Some(Seq::<(Seq<char>, ToolModel)>::empty()),
        arguments_of(fields, n) is None <==> exists|i: int|
            0 <= i < n && value_of((#[trigger] fields[i]).1, 128) is None,
{
    lemma_arguments_none(fields, n);
    lemma_arguments_sorted(fields, n - 1);
    if let Some(before) = arguments_of(fields, n - 1) {
        if let Some(value) = value_of(fields[n - 1].1, 128) {
            law_put_then_get::<String, ToolModel>(before, fields[n - 1].0, value, name);
        }
    }
}

proof fn lemma_arguments_sorted(fields: Seq<(Seq<char>, Seq<char>)>, n: int)
    requires
        0 <= n <= fields.len(),
    ensures
        arguments_of(fields, n) matches Some(arguments) ==> sorted::<String, ToolModel>(arguments),
    decreases n,
{
    if n > 0 {
        lemma_arguments_sorted(fields, n - 1);
        if let Some(before) = arguments_of(fields, n - 1) {
            if let Some(value) = value_of(fields[n - 1].1, 128) {
                lemma_with_entry_sorted::<String, ToolModel>(before, fields[n - 1].0, value);
            }
        }
    }
}

proof fn lemma_arguments_none(fields: Seq<(Seq<char>, Seq<char>)>, n: int)
    requires
        0 <= n <= fields.len(),
    ensures
        arguments_of(fields, n) is None <==> exists|i: int|
            0 <= i < n && value_of((#[trigger] fields[i]).1, 128) is None,
    decreases n,
{
    if n > 0 {
        lemma_arguments_none(fields, n - 1);
        let last = fields[n - 1];
    }
}

/// A text between two fences is what stands between them, without the word `json` at its beginning
/// and without the white space around it; a text that is not fenced loses only the white space.
pub proof fn law_fences_are_taken_off(
    before: Seq<char>,
    inner: Seq<char>,
    after: Seq<char>,
    text: Seq<char>,
)
    requires
        all_white(before),
        all_white(after),
    ensures
        !begins(inner, "json"@) ==> unfenced(before + ("```"@ + inner + "```"@) + after) == trim(
            inner,
        ),
        unfenced(before + ("```"@ + ("json"@ + inner) + "```"@) + after) == trim(inner),
        !begins(trim(text), "```"@) ==> unfenced(text) == trim(text),
{
    reveal_strlit("```");
    reveal_strlit("json");
    law_blank_texts_are_white(text, '`');
    lemma_fenced(before, inner, after);
    lemma_fenced(before, "json"@ + inner, after);
    assert(("json"@ + inner).take(4) =~= "json"@);
    assert(("json"@ + inner).skip(4) =~= inner);
}

proof fn lemma_fenced(before: Seq<char>, inner: Seq<char>, after: Seq<char>)
    requires
        all_white(before),
        all_white(after),
    ensures
        unfenced(before + ("```"@ + inner + "```"@) + after) == trim(
            if begins(inner, "json"@) {
                inner.skip(4)
            } else {
                inner
            },
        ),
{
    reveal_strlit("```");
    reveal_strlit("json");
    let body = "```"@ + inner + "```"@;
    law_blank_texts_are_white(body, '`');
    lemma_trim_padded(before, body, after);
    assert(body.take(3) =~= "```"@);
    let inside = body.skip(3);
    assert(inside.skip(inside.len() - 3) =~= "```"@);
    assert(inside.take(inside.len() - 3) =~= inner);
}

/// The object in a text goes from its first opening to its last closing brace.
pub proof fn law_objects_stand_between_braces(
    before: Seq<char>,
    inner: Seq<char>,
    after: Seq<char>,
)
    requires
        lacks(before, '{'),
        lacks(after, '}'),
    ensures
        object_in(before + seq!['{'] + inner + seq!['}'] + after) == Some(
            seq!['{'] + inner + seq!['}'],
        ),
        object_in(before) is None,
        object_in(after) is None,
{
    let text = before + seq!['{'] + inner + seq!['}'] + after;
    let start = before.len() as int;
    let end = start + 1 + inner.len();
    assert forall|j: int| 0 <= j < start implies text[j] != '{' by {
        assert(text[j] == before[j]);
    }
    assert(text[start] == '{');
    lemma_find_char_is(text, '{', start);
    law_last_places(text, '}');
    assert(text[end] == '}');
    let found = find_last(text, '}')->0;
    if found < end {
        assert(text.skip(found + 1)[end - found - 1] == '}');
    }
    if found > end {
        assert(text[found] == after[found - end - 1]);
    }
    assert(text.subrange(start, end + 1) =~= seq!['{'] + inner + seq!['}']);
    lemma_find_char(before, '{');
    if find_char(before, '{') < before.len() {
        assert(before[find_char(before, '{')] == '{');
    }
    law_last_places(before, '}');
    law_last_places(after, '}');
    if let Some(i) = find_last(after, '}') {
        assert(after[i] == '}');
    }
}

/// A reply names its kind: a text is answered with, a call is made with its own identifier, name and
/// arguments, and what is of another kind is taken as plain text.
pub proof fn law_replies_name_their_kind(json: JsonModel, text: Seq<char>, a: Seq<char>)
    ensures
        get_text(json, "kind"@) == Some("text"@) && get_text(json, "text"@) == Some(a)
            ==> kind_reply(json) == Some(Ok::<ResponseModel, Seq<char>>(ResponseModel::Text(a))),
        get_text(json, "kind"@) == Some("tool_call"@) ==> match (
            get_text(json, "id"@),
            get_text(json, "name"@),
            get_member(json, "arguments"@),
        ) {
            (Some(id), Some(name), Some(given)) => match arguments_in(given) {
                Ok(arguments) => kind_reply(json) == Some(
                    Ok::<ResponseModel, Seq<char>>(
                        ResponseModel::ToolCall(CallModel { id, name, arguments }),
                    ),
                ),
                Err(_) => kind_reply(json) matches Some(Err(_)),
            },
            (Some(_), Some(_), None) => true,
            _ => kind_reply(json) is None,
        },
        get_text(json, "kind"@) != Some("text"@) && get_text(json, "kind"@) != Some("tool_call"@)
            ==> kind_reply(json) is None,
        get_text(json, "type"@) == Some("text"@) || get_text(json, "type"@) == Some("text_delta"@)
            ==> event_reply(json) == (match get_text(json, "text"@) {
            Some(t) => Some(ResponseModel::Text(t)),
            None => None,
        }),
        lacks(text, '{') && !all_white(text) && json_reading(unfenced(text)) is Err ==> model_reply(
            text,
        ) == Ok::<ResponseModel, Seq<char>>(ResponseModel::Text(trim(text))) && bridge_reply(text)
            == Ok::<ResponseModel, Seq<char>>(ResponseModel::Text(trim(text))),
        all_white(text) && json_reading(unfenced(text)) is Err ==> model_reply(text) is Err
            && bridge_reply(text) is Err,
{
    reveal_strlit("text");
    reveal_strlit("tool_call");
    assert("text"@.len() == 4 && "tool_call"@.len() == 9);
    law_blank_texts_are_white(text, '{');
    lemma_unfenced_part(text);
    let fenced = unfenced(text);
    if lacks(text, '{') {
        law_objects_stand_between_braces(fenced, Seq::empty(), Seq::empty());
    }
    if all_white(text) {
        assert(lacks(fenced, '{')) by {
            assert forall|i: int| 0 <= i < fenced.len() implies #[trigger] fenced[i] != '{' by {
                assert(text.contains(fenced[i]));
                let k = text.index_of(fenced[i]);
                assert(white(text[k]));
            }
        }
        law_objects_stand_between_braces(fenced, Seq::empty(), Seq::empty());
    }
}

/// What is left without the fences is made of characters of the text.
proof fn lemma_unfenced_part(text: Seq<char>)
    ensures
        forall|i: int| 0 <= i < unfenced(text).len() ==> text.contains(#[trigger] unfenced(text)[i]),
        lacks(text, '{') ==> lacks(unfenced(text), '{'),
{
    reveal_strlit("```");
    reveal_strlit("json");
    let shown = trim(text);
    let (before, after) = lemma_trim_parts(text);
    let inside = shown.skip(3);
    let inner = inside.take(inside.len() - 3);
    let bare = if begins(inner, "json"@) {
        inner.skip(4)
    } else {
        inner
    };
    let (front, back) = lemma_trim_parts(bare);
    let left = unfenced(text);
    assert forall|i: int| 0 <= i < left.len() implies text.contains(#[trigger] left[i]) by {
        let fenced = begins(shown, "```"@) && ends(inside, "```"@);
        let cut: int = if begins(inner, "json"@) {
            4
        } else {
            0
        };
        let at: int = if fenced {
            3 + cut + front.len() + i
        } else {
            i
        };
        if fenced {
            assert(bare[front.len() + i] == left[i]);
            assert(inner[cut + front.len() + i] == left[i]);
            assert(shown[at] == left[i]);
        }
        assert(text[before.len() + at] == shown[at]);
    }
    if lacks(text, '{') {
        assert forall|i: int| 0 <= i < left.len() implies #[trigger] left[i] != '{' by {
            let k = text.index_of(left[i]);
            assert(text[k] == left[i]);
        }
    }
}

} // verus!
