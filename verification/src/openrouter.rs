//! Chat completions of a hosted model.

use vstd::prelude::*;
#[allow(unused_imports)]
use vstd::utf8::{decode_utf8, valid_utf8};

use crate::agent_messages::{
    ConversationMessage, ModelRequest, ModelResponse, ToolCall, ToolResult, ToolSpec,
};
#[allow(unused_imports)]
use crate::agent_messages::{
    MessageModel, ModelRequestModel, ResponseModel, ResultModel, SpecModel, message_models,
    result_models, spec_models,
};
#[allow(unused_imports)]
use crate::http::reveals_host;
use crate::http::speaks_of_no_host;
use crate::json::{
    Json, compact, field, quoted, read_json, read_optional_name, write_array, write_object,
};
#[allow(unused_imports)]
use crate::json::{
    JsonModel, UNEXPECTED_SHAPE, array_text, field_models, get_text, json_compact, json_reading,
    json_string, object_text, optional_name, record, slot,
};
use crate::model_replies::read_arguments;
#[allow(unused_imports)]
use crate::model_replies::{arguments_in, call_of, reply_seen};
use crate::runtime_error::labelled;
#[allow(unused_imports)]
use crate::text::{
    all_white, blank, byte_len, decimal, find_text, first_chars, holds_text, joined,
    law_blank_texts_are_white, law_decimal_reads_back, lemma_find_text, lemma_trim_solid,
    lower_text, parse_natural, replaced, stands_at, text_option, texts, trim,
};
use crate::text::{
    ascii_lower, byte_count, contains_text, copy_text_option, decimal_text, is_blank, join,
    parse_u64, replace_text, same_text, take_chars, trimmed, utf8_text,
};
#[allow(unused_imports)]
use crate::tool_values::Arguments;

verus! {

pub const OPENROUTER_URL: &'static str = "https://openrouter.ai/api/v1/chat/completions";

pub const DEFAULT_MODEL: &'static str = "~openai/gpt-latest";

pub const DEFAULT_SITE_URL: &'static str = "https://asiliano.online";

pub const DEFAULT_SITE_TITLE: &'static str = "A/RVM";

pub const MAX_RESPONSE_BYTES: usize = 512 * 1024;

pub const MAX_TOOL_ARGS_BYTES: usize = 32 * 1024;

pub const DEFAULT_MAX_TOKENS: u32 = 2048;

pub const MAX_MAX_TOKENS: u32 = 4096;

pub const DEFAULT_TIMEOUT_SECS: u64 = 30;

pub const MAX_TIMEOUT_SECS: u64 = 120;

// ---------------------------------------------------------------------------
// Configuration
// ---------------------------------------------------------------------------

/// The environment variables that configure the model, where they are set.
#[derive(Debug, PartialEq, Eq)]
pub struct OpenRouterVariables {
    pub api_key: Option<String>,
    pub model: Option<String>,
    pub site_url: Option<String>,
    pub site_title: Option<String>,
    pub timeout_secs: Option<String>,
    pub max_tokens: Option<String>,
}

#[derive(Debug, PartialEq, Eq)]
pub struct OpenRouterConfig {
    api_key: String,
    pub model: String,
    pub site_url: Option<String>,
    pub site_title: Option<String>,
    /// In seconds.
    pub timeout: u64,
    pub max_response_bytes: usize,
    pub max_tokens: u32,
}

/// What an [`OpenRouterConfig`] says.
#[verifier::ext_equal]
pub struct ConfigModel {
    pub api_key: Seq<char>,
    pub model: Seq<char>,
    pub site_url: Option<Seq<char>>,
    pub site_title: Option<Seq<char>>,
    pub timeout: u64,
    pub max_response_bytes: usize,
    pub max_tokens: u32,
}

impl View for OpenRouterConfig {
    type V = ConfigModel;

    closed spec fn view(&self) -> ConfigModel {
        ConfigModel {
            api_key: self.api_key@,
            model: self.model@,
            site_url: text_option(self.site_url),
            site_title: text_option(self.site_title),
            timeout: self.timeout,
            max_response_bytes: self.max_response_bytes,
            max_tokens: self.max_tokens,
        }
    }
}

/// A variable that shows something.
pub open spec fn shown(value: Option<String>) -> Option<Seq<char>> {
    match value {
        Some(text) => if blank(text@) {
            None
        } else {
            Some(text@)
        },
        None => None,
    }
}

/// A variable that shows something, or what stands for it.
pub open spec fn shown_or(value: Option<String>, other: Seq<char>) -> Seq<char> {
    match shown(value) {
        Some(text) => text,
        None => other,
    }
}

/// A number in a variable, where it lies between the bounds, or what stands for it.
pub open spec fn number_or(value: Option<String>, max: nat, low: nat, high: nat, other: nat) -> nat {
    match value {
        Some(text) => match parse_natural(text@, max) {
            Some(n) => if low <= n <= high {
                n
            } else {
                other
            },
            None => other,
        },
        None => other,
    }
}

fn read_shown(value: &Option<String>) -> (r: Option<String>)
    ensures
        text_option(r) == shown(*value),
{
    match value {
        Some(text) => if is_blank(text.as_str()) {
            None
        } else {
            Some(text.clone())
        },
        None => None,
    }
}

fn read_shown_or(value: &Option<String>, other: &str) -> (r: String)
    ensures
        r@ == shown_or(*value, other@),
{
    match read_shown(value) {
        Some(text) => text,
        None => other.to_owned(),
    }
}

fn read_number_or(value: &Option<String>, max: u64, low: u64, high: u64, other: u64) -> (r: u64)
    ensures
        r == number_or(*value, max as nat, low as nat, high as nat, other as nat),
{
    match value {
        Some(text) => match parse_u64(text.as_str(), max) {
            Some(n) => if low <= n && n <= high {
                n
            } else {
                other
            },
            None => other,
        },
        None => other,
    }
}

impl OpenRouterConfig {
    /// The configuration that environment variables give.
    pub fn from_env(variables: &OpenRouterVariables) -> (r: Result<Self, String>)
        ensures
            match r {
                Ok(config) => {
                    &&& shown(variables.api_key) is Some
                    &&& config@ == (ConfigModel {
                        api_key: shown(variables.api_key)->0,
                        model: shown_or(variables.model, DEFAULT_MODEL@),
                        site_url: Some(shown_or(variables.site_url, DEFAULT_SITE_URL@)),
                        site_title: Some(shown_or(variables.site_title, DEFAULT_SITE_TITLE@)),
                        timeout: number_or(
                            variables.timeout_secs,
                            u64::MAX as nat,
                            1,
                            MAX_TIMEOUT_SECS as nat,
                            DEFAULT_TIMEOUT_SECS as nat,
                        ) as u64,
                        max_response_bytes: MAX_RESPONSE_BYTES,
                        max_tokens: number_or(
                            variables.max_tokens,
                            u32::MAX as nat,
                            128,
                            MAX_MAX_TOKENS as nat,
                            DEFAULT_MAX_TOKENS as nat,
                        ) as u32,
                    })
                },
                Err(message) => shown(variables.api_key) is None && message@
                    == "OPENROUTER_API_KEY is not set"@,
            },
    {
        let api_key = match read_shown(&variables.api_key) {
            None => return Err("OPENROUTER_API_KEY is not set".to_owned()),
            Some(api_key) => api_key,
        };
        let timeout: u64 = read_number_or(
            &variables.timeout_secs,
            u64::MAX,
            1,
            MAX_TIMEOUT_SECS,
            DEFAULT_TIMEOUT_SECS,
        );
        let max_tokens: u64 = read_number_or(
            &variables.max_tokens,
            u32::MAX as u64,
            128,
            MAX_MAX_TOKENS as u64,
            DEFAULT_MAX_TOKENS as u64,
        );
        Ok(
            OpenRouterConfig {
                api_key,
                model: read_shown_or(&variables.model, DEFAULT_MODEL),
                site_url: Some(read_shown_or(&variables.site_url, DEFAULT_SITE_URL)),
                site_title: Some(read_shown_or(&variables.site_title, DEFAULT_SITE_TITLE)),
                timeout,
                max_response_bytes: MAX_RESPONSE_BYTES,
                max_tokens: max_tokens as u32,
            },
        )
    }

    pub fn with_api_key_for_test(api_key: &str, model: &str) -> (r: Self)
        ensures
            r@ == (ConfigModel {
                api_key: api_key@,
                model: model@,
                site_url: Some(DEFAULT_SITE_URL@),
                site_title: Some(DEFAULT_SITE_TITLE@),
                timeout: DEFAULT_TIMEOUT_SECS,
                max_response_bytes: MAX_RESPONSE_BYTES,
                max_tokens: DEFAULT_MAX_TOKENS,
            }),
    {
        OpenRouterConfig {
            api_key: api_key.to_owned(),
            model: model.to_owned(),
            site_url: Some(DEFAULT_SITE_URL.to_owned()),
            site_title: Some(DEFAULT_SITE_TITLE.to_owned()),
            timeout: DEFAULT_TIMEOUT_SECS,
            max_response_bytes: MAX_RESPONSE_BYTES,
            max_tokens: DEFAULT_MAX_TOKENS,
        }
    }
}

// ---------------------------------------------------------------------------
// What is hidden
// ---------------------------------------------------------------------------

/// Whether a message may hold a key.
pub open spec fn reveals_key(message: Seq<char>) -> bool {
    let low = lower_text(message);
    holds_text(low, "sk-or-"@) || holds_text(low, "bearer "@) || holds_text(low, "api_key"@)
        || holds_text(low, "api-key"@)
}

/// What of a message is passed on.
pub open spec fn sanitized(message: Seq<char>) -> Seq<char> {
    let bounded = if byte_len(message) > 500 {
        first_chars(message, 500)
    } else {
        message
    };
    if reveals_key(message) || reveals_host(bounded) {
        "request failed"@
    } else {
        bounded
    }
}

pub fn sanitize_error(message: &str) -> (r: String)
    ensures
        r@ == sanitized(message@),
{
    let low = ascii_lower(message);
    let low = low.as_str();
    if contains_text(low, "sk-or-") || contains_text(low, "bearer ") || contains_text(low, "api_key")
        || contains_text(low, "api-key") {
        return "request failed".to_owned();
    }
    let bounded = if byte_count(message) > 500 {
        take_chars(message, 500)
    } else {
        message.to_owned()
    };
    if !speaks_of_no_host(bounded.as_str()) {
        return "request failed".to_owned();
    }
    bounded
}

/// A text that lacks a character of a part does not hold the part.
proof fn lemma_lacks_part(s: Seq<char>, part: Seq<char>, i: int)
    requires
        0 <= i < part.len(),
        forall|j: int| 0 <= j < s.len() ==> s[j] != part[i],
    ensures
        !holds_text(s, part),
{
    lemma_find_text(s, part, 0);
    if holds_text(s, part) {
        let at = find_text(s, part, 0)->0;
        assert(s.subrange(at, at + part.len())[i] == part[i]);
        assert(s[at + i] == part[i]);
    }
}

/// What the beginning of a text holds, the text holds.
proof fn lemma_prefix_holds(s: Seq<char>, n: nat, part: Seq<char>)
    requires
        holds_text(lower_text(first_chars(s, n)), part),
    ensures
        holds_text(lower_text(s), part),
{
    let front = lower_text(first_chars(s, n));
    let low = lower_text(s);
    lemma_find_text(front, part, 0);
    lemma_find_text(low, part, 0);
    let at = find_text(front, part, 0)->0;
    assert(low.subrange(at, at + part.len()) =~= front.subrange(at, at + part.len()));
    assert(stands_at(low, part, at));
}

/// What is passed on of a message holds no key.
pub proof fn law_sanitized_errors_hold_no_key(message: Seq<char>)
    ensures
        !reveals_key(sanitized(message)),
{
    let bounded = if byte_len(message) > 500 {
        first_chars(message, 500)
    } else {
        message
    };
    if reveals_key(message) || reveals_host(bounded) {
        reveal_strlit("request failed");
        reveal_strlit("sk-or-");
        reveal_strlit("bearer ");
        reveal_strlit("api_key");
        reveal_strlit("api-key");
        let low = lower_text("request failed"@);
        assert forall|j: int| 0 <= j < low.len() implies low[j] != '-' && low[j] != 'b' && low[j]
            != '_' by {}
        lemma_lacks_part(low, "sk-or-"@, 2);
        lemma_lacks_part(low, "bearer "@, 0);
        lemma_lacks_part(low, "api_key"@, 3);
        lemma_lacks_part(low, "api-key"@, 3);
    } else if byte_len(message) > 500 && reveals_key(bounded) {
        let low = lower_text(bounded);
        if holds_text(low, "sk-or-"@) {
            lemma_prefix_holds(message, 500, "sk-or-"@);
        }
        if holds_text(low, "bearer "@) {
            lemma_prefix_holds(message, 500, "bearer "@);
        }
        if holds_text(low, "api_key"@) {
            lemma_prefix_holds(message, 500, "api_key"@);
        }
        if holds_text(low, "api-key"@) {
            lemma_prefix_holds(message, 500, "api-key"@);
        }
    }
}

/// The message for a status with a body.
pub open spec fn provider_error(status: u16, body: Seq<char>) -> Seq<char> {
    let preview = first_chars(sanitized(body), 300);
    if blank(preview) {
        "provider error: HTTP "@ + decimal(status as nat)
    } else {
        "provider error: HTTP "@ + decimal(status as nat) + ": "@ + preview
    }
}

pub fn sanitize_provider_error(status: u16, body: &str) -> (r: String)
    ensures
        r@ == provider_error(status, body@),
{
    let preview = take_chars(sanitize_error(body).as_str(), 300);
    let mut r = "provider error: HTTP ".to_owned();
    r.push_str(decimal_text(status as u64).as_str());
    if !is_blank(preview.as_str()) {
        r.push_str(": ");
        r.push_str(preview.as_str());
    }
    r
}

/// A message without the secret.
pub open spec fn redacted(message: Seq<char>, secret: Seq<char>) -> Seq<char> {
    if secret.len() == 0 {
        message
    } else {
        replaced(message, secret, "[redacted]"@)
    }
}

pub fn redact_secret(message: &str, secret: &str) -> (r: String)
    ensures
        r@ == redacted(message@, secret@),
{
    if secret.is_empty() {
        message.to_owned()
    } else {
        replace_text(message, secret, "[redacted]")
    }
}

// ---------------------------------------------------------------------------
// Requests
// ---------------------------------------------------------------------------

/// The role of a message as the provider knows it, or `tool`.
pub open spec fn normal_role(role: Seq<char>) -> Seq<char> {
    let low = lower_text(trim(role));
    if low == "assistant"@ || low == "system"@ || low == "tool"@ {
        low
    } else {
        "user"@
    }
}

fn normalize_role(role: &str) -> (r: &'static str)
    ensures
        r@ == normal_role(role@),
{
    let low = ascii_lower(trimmed(role).as_str());
    if same_text(low.as_str(), "assistant") {
        "assistant"
    } else if same_text(low.as_str(), "system") {
        "system"
    } else if same_text(low.as_str(), "tool") {
        "tool"
    } else {
        "user"
    }
}

/// A message to the provider.
pub open spec fn chat_json(role: Seq<char>, content: Seq<char>) -> Seq<char> {
    object_text(seq![("content"@, json_string(content)), ("role"@, json_string(role))])
}

fn write_chat(role: &str, content: &str) -> (r: String)
    ensures
        r@ == chat_json(role@, content@),
{
    let fields = vec![field("content", quoted(content)), field("role", quoted(role))];
    assert(field_models(fields@) =~= seq![
        ("content"@, json_string(content@)),
        ("role"@, json_string(role@)),
    ]);
    write_object(&fields)
}

/// An earlier message to the provider.
pub open spec fn entry_json(entry: MessageModel) -> Seq<char> {
    let role = normal_role(entry.role);
    let content = first_chars(entry.content, 4096);
    if role == "tool"@ {
        chat_json("user"@, "Previous tool result:\n"@ + content)
    } else {
        chat_json(role, content)
    }
}

fn write_entry(entry: &ConversationMessage) -> (r: String)
    ensures
        r@ == entry_json(entry@),
{
    let role = normalize_role(entry.role.as_str());
    let content = take_chars(entry.content.as_str(), 4096);
    if same_text(role, "tool") {
        write_chat("user", labelled("Previous tool result:\n", content.as_str()).as_str())
    } else {
        write_chat(role, content.as_str())
    }
}

/// A tool result as the provider is told of it.
pub open spec fn result_text(result: ResultModel) -> Seq<char> {
    "id="@ + result.id + " name="@ + result.name + " status="@ + (if result.is_error {
        "error"@
    } else {
        "ok"@
    }) + "\n"@ + first_chars(result.content, 4096)
}

fn write_result(result: &ToolResult) -> (r: String)
    ensures
        r@ == result_text(result@),
{
    let mut r = "id=".to_owned();
    r.push_str(result.id.as_str());
    r.push_str(" name=");
    r.push_str(result.name.as_str());
    r.push_str(" status=");
    r.push_str(if result.is_error {
        "error"
    } else {
        "ok"
    });
    r.push_str("\n");
    r.push_str(take_chars(result.content.as_str(), 4096).as_str());
    r
}

pub open spec fn result_texts(results: Seq<ResultModel>) -> Seq<Seq<char>> {
    Seq::new(results.len(), |i: int| result_text(results[i]))
}

pub open spec fn entry_jsons(entries: Seq<MessageModel>) -> Seq<Seq<char>> {
    Seq::new(entries.len(), |i: int| entry_json(entries[i]))
}

/// The messages of a request.
pub open spec fn chat_messages(request: ModelRequestModel) -> Seq<Seq<char>> {
    let system = first_chars(request.system_prompt, 4096);
    let head = if blank(system) {
        Seq::empty()
    } else {
        seq![chat_json("system"@, system)]
    };
    let asked = (head + entry_jsons(request.conversation)).push(
        chat_json("user"@, first_chars(request.prompt, 8192)),
    );
    if request.tool_results.len() == 0 {
        asked
    } else {
        asked.push(
            chat_json(
                "user"@,
                "Tool results from the previous step:\n"@ + joined(
                    result_texts(request.tool_results),
                    "\n\n"@,
                ),
            ),
        )
    }
}

fn write_messages(request: &ModelRequest) -> (r: Vec<String>)
    ensures
        texts(r@) == chat_messages(request@),
{
    let mut messages: Vec<String> = Vec::new();
    let system = take_chars(request.system_prompt.as_str(), 4096);
    assert(texts(messages@) =~= Seq::<Seq<char>>::empty());
    if !is_blank(system.as_str()) {
        messages.push(write_chat("system", system.as_str()));
        assert(texts(messages@) =~= seq![chat_json("system"@, system@)]);
    }
    let ghost head = texts(messages@);
    let ghost entries = entry_jsons(request@.conversation);
    let mut i: usize = 0;
    assert(head + entries.take(0) =~= head);
    while i < request.conversation.len()
        invariant
            i <= request.conversation@.len(),
            entries == entry_jsons(request@.conversation),
            texts(messages@) == head + entries.take(i as int),
        decreases request.conversation@.len() - i,
    {
        let part = write_entry(&request.conversation[i]);
        assert(request@.conversation[i as int] == request.conversation@[i as int]@);
        assert(entries[i as int] == part@);
        let ghost before = messages@;
        messages.push(part);
        assert(texts(messages@) =~= texts(before).push(part@));
        assert(entries.take(i + 1) =~= entries.take(i as int).push(entries[i as int]));
        assert(head + entries.take(i + 1) =~= (head + entries.take(i as int)).push(
            entries[i as int],
        ));
        i += 1;
    }
    assert(entries.take(entries.len() as int) =~= entries);
    let ghost before = messages@;
    let asked = write_chat("user", take_chars(request.prompt.as_str(), 8192).as_str());
    messages.push(asked);
    assert(texts(messages@) =~= texts(before).push(asked@));
    if request.tool_results.len() > 0 {
        let ghost before = messages@;
        let told = write_told(&request.tool_results);
        messages.push(told);
        assert(texts(messages@) =~= texts(before).push(told@));
    }
    messages
}

fn write_told(results: &Vec<ToolResult>) -> (r: String)
    ensures
        r@ == chat_json(
            "user"@,
            "Tool results from the previous step:\n"@ + joined(
                result_texts(result_models(results@)),
                "\n\n"@,
            ),
        ),
{
    let ghost all = result_texts(result_models(results@));
    let mut parts: Vec<String> = Vec::new();
    let mut i: usize = 0;
    while i < results.len()
        invariant
            i <= results@.len(),
            all == result_texts(result_models(results@)),
            texts(parts@) == all.take(i as int),
        decreases results@.len() - i,
    {
        let part = write_result(&results[i]);
        assert(all[i as int] == part@);
        let ghost before = parts@;
        parts.push(part);
        assert(texts(parts@) =~= texts(before).push(part@));
        assert(all.take(i + 1) =~= all.take(i as int).push(all[i as int]));
        i += 1;
    }
    assert(all.take(all.len() as int) =~= all);
    let content = labelled(
        "Tool results from the previous step:\n",
        join(&parts, "\n\n").as_str(),
    );
    write_chat("user", content.as_str())
}

/// The schema of a tool: an object with no properties where it cannot be read.
pub open spec fn schema_json(raw: Seq<char>) -> Seq<char> {
    match json_compact(raw) {
        Some(schema) => schema,
        None => "{\"properties\":{},\"type\":\"object\"}"@,
    }
}

/// A tool as the provider is told of it.
pub open spec fn function_json(tool: SpecModel) -> Seq<char> {
    object_text(
        seq![
            (
                "function"@,
                object_text(
                    seq![
                        ("description"@, json_string(first_chars(tool.description, 1024))),
                        ("name"@, json_string(tool.name)),
                        ("parameters"@, schema_json(tool.input_schema)),
                    ],
                ),
            ),
            ("type"@, json_string("function"@)),
        ],
    )
}

fn write_function(tool: &ToolSpec) -> (r: String)
    ensures
        r@ == function_json(tool@),
{
    let schema = match compact(tool.input_schema.as_str()) {
        Some(schema) => schema,
        None => "{\"properties\":{},\"type\":\"object\"}".to_owned(),
    };
    let description = take_chars(tool.description.as_str(), 1024);
    let function = vec![
        field("description", quoted(description.as_str())),
        field("name", quoted(tool.name.as_str())),
        field("parameters", schema),
    ];
    assert(field_models(function@) =~= seq![
        ("description"@, json_string(first_chars(tool@.description, 1024))),
        ("name"@, json_string(tool@.name)),
        ("parameters"@, schema_json(tool@.input_schema)),
    ]);
    let fields = vec![
        field("function", write_object(&function)),
        field("type", quoted("function")),
    ];
    assert(field_models(fields@) =~= seq![
        ("function"@, object_text(field_models(function@))),
        ("type"@, json_string("function"@)),
    ]);
    write_object(&fields)
}

pub open spec fn function_jsons(tools: Seq<SpecModel>) -> Seq<Seq<char>> {
    Seq::new(tools.len(), |i: int| function_json(tools[i]))
}

fn write_functions(tools: &Vec<ToolSpec>) -> (r: String)
    ensures
        r@ == array_text(function_jsons(spec_models(tools@))),
{
    let ghost all = function_jsons(spec_models(tools@));
    let mut parts: Vec<String> = Vec::new();
    let mut i: usize = 0;
    while i < tools.len()
        invariant
            i <= tools@.len(),
            all == function_jsons(spec_models(tools@)),
            texts(parts@) == all.take(i as int),
        decreases tools@.len() - i,
    {
        let part = write_function(&tools[i]);
        assert(all[i as int] == part@);
        let ghost before = parts@;
        parts.push(part);
        assert(texts(parts@) =~= texts(before).push(part@));
        assert(all.take(i + 1) =~= all.take(i as int).push(all[i as int]));
        i += 1;
    }
    assert(all.take(all.len() as int) =~= all);
    write_array(&parts)
}

/// The body of a request to the provider.
pub open spec fn body_json(config: ConfigModel, request: ModelRequestModel) -> Seq<char> {
    let fields = seq![
        ("max_tokens"@, decimal(config.max_tokens as nat)),
        ("messages"@, array_text(chat_messages(request))),
        ("model"@, json_string(config.model)),
    ];
    object_text(
        if request.tools.len() == 0 {
            fields
        } else {
            fields.push(("tool_choice"@, json_string("auto"@))).push(
                ("tools"@, array_text(function_jsons(request.tools))),
            )
        },
    )
}

/// The body of a request to the provider, as JSON with the keys in order.
pub fn build_request_body(config: &OpenRouterConfig, request: &ModelRequest) -> (r: String)
    ensures
        r@ == body_json(config@, request@),
{
    let messages = write_messages(request);
    let mut fields = vec![
        field("max_tokens", decimal_text(config.max_tokens as u64)),
        field("messages", write_array(&messages)),
        field("model", quoted(config.model.as_str())),
    ];
    let ghost three = seq![
        ("max_tokens"@, decimal(config@.max_tokens as nat)),
        ("messages"@, array_text(chat_messages(request@))),
        ("model"@, json_string(config@.model)),
    ];
    assert(field_models(fields@) =~= three);
    if request.tools.len() > 0 {
        fields.push(field("tool_choice", quoted("auto")));
        fields.push(field("tools", write_functions(&request.tools)));
        assert(field_models(fields@) =~= three.push(("tool_choice"@, json_string("auto"@))).push(
            ("tools"@, array_text(function_jsons(request@.tools))),
        ));
    }
    write_object(&fields)
}

// ---------------------------------------------------------------------------
// Responses
// ---------------------------------------------------------------------------

/// The function of a tool call.
#[derive(Debug, PartialEq, Eq)]
pub struct FunctionEntry {
    pub name: Option<String>,
    pub arguments: Option<String>,
}

/// A tool call of the provider.
#[derive(Debug, PartialEq, Eq)]
pub struct ToolCallEntry {
    pub id: Option<String>,
    pub function: Option<FunctionEntry>,
}

/// A message of the provider; its content is JSON.
#[derive(Debug, PartialEq, Eq)]
pub struct ChatMessage {
    pub content: Option<String>,
    pub tool_calls: Option<Vec<ToolCallEntry>>,
}

/// A response of the provider: the messages of its choices, and the message of an error.
#[derive(Debug, PartialEq, Eq)]
pub struct ChatResponse {
    pub choices: Option<Vec<Option<ChatMessage>>>,
    pub error: Option<Option<String>>,
}

/// What a [`FunctionEntry`] says.
#[verifier::ext_equal]
pub struct FunctionModel {
    pub name: Option<Seq<char>>,
    pub arguments: Option<Seq<char>>,
}

/// What a [`ToolCallEntry`] says.
#[verifier::ext_equal]
pub struct EntryModel {
    pub id: Option<Seq<char>>,
    pub function: Option<FunctionModel>,
}

/// What a [`ChatMessage`] says.
#[verifier::ext_equal]
pub struct ChatMessageModel {
    pub content: Option<Seq<char>>,
    pub tool_calls: Option<Seq<EntryModel>>,
}

/// What a [`ChatResponse`] says.
#[verifier::ext_equal]
pub struct ChatModel {
    pub choices: Option<Seq<Option<ChatMessageModel>>>,
    pub error: Option<Option<Seq<char>>>,
}

impl View for FunctionEntry {
    type V = FunctionModel;

    open spec fn view(&self) -> FunctionModel {
        FunctionModel { name: text_option(self.name), arguments: text_option(self.arguments) }
    }
}

impl View for ToolCallEntry {
    type V = EntryModel;

    open spec fn view(&self) -> EntryModel {
        EntryModel {
            id: text_option(self.id),
            function: match self.function {
                Some(function) => Some(function@),
                None => None,
            },
        }
    }
}

pub open spec fn entry_models(calls: Seq<ToolCallEntry>) -> Seq<EntryModel> {
    Seq::new(calls.len(), |i: int| calls[i]@)
}

impl View for ChatMessage {
    type V = ChatMessageModel;

    open spec fn view(&self) -> ChatMessageModel {
        ChatMessageModel {
            content: text_option(self.content),
            tool_calls: match self.tool_calls {
                Some(calls) => Some(entry_models(calls@)),
                None => None,
            },
        }
    }
}

pub open spec fn choice_model(choice: Option<ChatMessage>) -> Option<ChatMessageModel> {
    match choice {
        Some(message) => Some(message@),
        None => None,
    }
}

pub open spec fn choice_models(choices: Seq<Option<ChatMessage>>) -> Seq<Option<ChatMessageModel>> {
    Seq::new(choices.len(), |i: int| choice_model(choices[i]))
}

impl View for ChatResponse {
    type V = ChatModel;

    open spec fn view(&self) -> ChatModel {
        ChatModel {
            choices: match self.choices {
                Some(choices) => Some(choice_models(choices@)),
                None => None,
            },
            error: match self.error {
                Some(message) => Some(text_option(message)),
                None => None,
            },
        }
    }
}

/// An optional member: what it denotes, nothing where it is absent or null; `None` where it
/// cannot be read.
pub open spec fn optional_json(text: Option<Seq<char>>) -> Option<Option<JsonModel>> {
    match text {
        None => Some(None),
        Some(text) => match json_reading(text) {
            Err(_) => None,
            Ok(JsonModel::Null) => Some(None),
            Ok(json) => Some(Some(json)),
        },
    }
}

fn read_optional_json(text: Option<String>) -> (r: Option<Option<Json>>)
    ensures
        match r {
            None => optional_json(text_option(text)) is None,
            Some(None) => optional_json(text_option(text)) == Some(None::<JsonModel>),
            Some(Some(json)) => optional_json(text_option(text)) == Some(Some(json@)),
        },
{
    match text {
        None => Some(None),
        Some(text) => match read_json(text.as_str()) {
            Err(_) => None,
            Ok(Json::Null) => Some(None),
            Ok(json) => Some(Some(json)),
        },
    }
}

/// The function of a tool call, where it is one or none is given.
pub open spec fn function_of(text: Option<Seq<char>>) -> Option<Option<FunctionModel>> {
    match optional_json(text) {
        None => None,
        Some(None) => Some(None),
        Some(Some(json)) => {
            let name = optional_name(slot(json, "name"@, 0));
            let arguments = optional_name(slot(json, "arguments"@, 1));
            if record(json, 2) && name is Some && arguments is Some {
                Some(Some(FunctionModel { name: name->0, arguments: arguments->0 }))
            } else {
                None
            }
        },
    }
}

fn read_function(text: Option<String>) -> (r: Option<Option<FunctionEntry>>)
    ensures
        match r {
            None => function_of(text_option(text)) is None,
            Some(None) => function_of(text_option(text)) == Some(None::<FunctionModel>),
            Some(Some(function)) => function_of(text_option(text)) == Some(Some(function@)),
        },
{
    let json = match read_optional_json(text) {
        None => return None,
        Some(None) => return Some(None),
        Some(Some(json)) => json,
    };
    if !json.is_record(2) {
        return None;
    }
    match (read_optional_name(json.slot("name", 0)), read_optional_name(json.slot("arguments", 1))) {
        (Some(name), Some(arguments)) => Some(Some(FunctionEntry { name, arguments })),
        _ => None,
    }
}

/// A tool call, where the JSON text is one.
pub open spec fn entry_of(text: Seq<char>) -> Option<EntryModel> {
    match json_reading(text) {
        Err(_) => None,
        Ok(json) => {
            let id = optional_name(slot(json, "id"@, 0));
            let kind = optional_name(slot(json, "type"@, 1));
            let function = function_of(slot(json, "function"@, 2));
            if record(json, 3) && id is Some && kind is Some && function is Some {
                Some(EntryModel { id: id->0, function: function->0 })
            } else {
                None
            }
        },
    }
}

fn read_entry(text: &str) -> (r: Option<ToolCallEntry>)
    ensures
        match r {
            Some(entry) => entry_of(text@) == Some(entry@),
            None => entry_of(text@) is None,
        },
{
    let json = match read_json(text) {
        Err(_) => return None,
        Ok(json) => json,
    };
    if !json.is_record(3) || read_optional_name(json.slot("type", 1)).is_none() {
        return None;
    }
    match (read_optional_name(json.slot("id", 0)), read_function(json.slot("function", 2))) {
        (Some(id), Some(function)) => Some(ToolCallEntry { id, function }),
        _ => None,
    }
}

/// The tool calls that the first `n` items are, where each is one.
pub open spec fn entries_of(items: Seq<Seq<char>>, n: int) -> Option<Seq<EntryModel>>
    decreases n,
{
    if n <= 0 {
        Some(Seq::empty())
    } else {
        match (entries_of(items, n - 1), entry_of(items[n - 1])) {
            (Some(before), Some(entry)) => Some(before.push(entry)),
            _ => None,
        }
    }
}

proof fn lemma_entries_fail(items: Seq<Seq<char>>, from: int, n: int)
    requires
        0 < from <= n,
        entries_of(items, from) is None,
    ensures
        entries_of(items, n) is None,
    decreases n - from,
{
    if from < n {
        lemma_entries_fail(items, from, n - 1);
    }
}

fn read_entries(items: &Vec<String>) -> (r: Option<Vec<ToolCallEntry>>)
    ensures
        match r {
            Some(entries) => entries_of(texts(items@), items@.len() as int) == Some(
                entry_models(entries@),
            ),
            None => entries_of(texts(items@), items@.len() as int) is None,
        },
{
    let ghost all = texts(items@);
    let mut entries: Vec<ToolCallEntry> = Vec::new();
    let mut i: usize = 0;
    assert(entry_models(entries@) =~= Seq::<EntryModel>::empty());
    while i < items.len()
        invariant
            i <= items@.len(),
            all == texts(items@),
            entries_of(all, i as int) == Some(entry_models(entries@)),
        decreases items@.len() - i,
    {
        assert(all[i as int] == items@[i as int]@);
        match read_entry(items[i].as_str()) {
            None => {
                proof {
                    lemma_entries_fail(all, i + 1, all.len() as int);
                }
                return None;
            },
            Some(entry) => {
                let ghost before = entries@;
                let ghost added = entry@;
                entries.push(entry);
                assert(entry_models(entries@) =~= entry_models(before).push(added));
            },
        }
        i += 1;
    }
    Some(entries)
}

/// The tool calls of a message, where they are calls or none are given.
pub open spec fn calls_of(text: Option<Seq<char>>) -> Option<Option<Seq<EntryModel>>> {
    match optional_json(text) {
        None => None,
        Some(None) => Some(None),
        Some(Some(JsonModel::List(items))) => match entries_of(items, items.len() as int) {
            Some(entries) => Some(Some(entries)),
            None => None,
        },
        Some(Some(_)) => None,
    }
}

/// The content of a message: JSON, or nothing where it is absent or null.
pub open spec fn content_of(text: Option<Seq<char>>) -> Option<Seq<char>> {
    match optional_json(text) {
        Some(Some(_)) => text,
        _ => None,
    }
}

/// The message of a choice, where it is one or none is given.
pub open spec fn message_of(text: Option<Seq<char>>) -> Option<Option<ChatMessageModel>> {
    match optional_json(text) {
        None => None,
        Some(None) => Some(None),
        Some(Some(json)) => {
            let calls = calls_of(slot(json, "tool_calls"@, 1));
            if record(json, 2) && calls is Some {
                Some(
                    Some(
                        ChatMessageModel {
                            content: content_of(slot(json, "content"@, 0)),
                            tool_calls: calls->0,
                        },
                    ),
                )
            } else {
                None
            }
        },
    }
}

fn read_message(text: Option<String>) -> (r: Option<Option<ChatMessage>>)
    ensures
        match r {
            Some(message) => message_of(text_option(text)) == Some(choice_model(message)),
            None => message_of(text_option(text)) is None,
        },
{
    let json = match read_optional_json(text) {
        None => return None,
        Some(None) => return Some(None),
        Some(Some(json)) => json,
    };
    if !json.is_record(2) {
        return None;
    }
    let tool_calls = match read_optional_json(json.slot("tool_calls", 1)) {
        None => return None,
        Some(None) => None,
        Some(Some(Json::List(items))) => match read_entries(&items) {
            None => return None,
            Some(entries) => Some(entries),
        },
        Some(Some(_)) => return None,
    };
    let given = json.slot("content", 0);
    let content = match read_optional_json(copy_text_option(&given)) {
        Some(Some(_)) => given,
        _ => None,
    };
    Some(Some(ChatMessage { content, tool_calls }))
}

/// The messages of the choices that the first `n` items are, where each is one.
pub open spec fn choices_of(items: Seq<Seq<char>>, n: int) -> Option<Seq<Option<ChatMessageModel>>>
    decreases n,
{
    if n <= 0 {
        Some(Seq::empty())
    } else {
        match (choices_of(items, n - 1), choice_of(items[n - 1])) {
            (Some(before), Some(choice)) => Some(before.push(choice)),
            _ => None,
        }
    }
}

/// The message of a choice, where the JSON text is one.
pub open spec fn choice_of(text: Seq<char>) -> Option<Option<ChatMessageModel>> {
    match json_reading(text) {
        Err(_) => None,
        Ok(json) => if record(json, 1) {
            message_of(slot(json, "message"@, 0))
        } else {
            None
        },
    }
}

fn read_choice(text: &str) -> (r: Option<Option<ChatMessage>>)
    ensures
        match r {
            Some(choice) => choice_of(text@) == Some(choice_model(choice)),
            None => choice_of(text@) is None,
        },
{
    match read_json(text) {
        Err(_) => None,
        Ok(json) => {
            if json.is_record(1) {
                read_message(json.slot("message", 0))
            } else {
                None
            }
        },
    }
}

proof fn lemma_choices_fail(items: Seq<Seq<char>>, from: int, n: int)
    requires
        0 < from <= n,
        choices_of(items, from) is None,
    ensures
        choices_of(items, n) is None,
    decreases n - from,
{
    if from < n {
        lemma_choices_fail(items, from, n - 1);
    }
}

fn read_choices(items: &Vec<String>) -> (r: Option<Vec<Option<ChatMessage>>>)
    ensures
        match r {
            Some(choices) => choices_of(texts(items@), items@.len() as int) == Some(
                choice_models(choices@),
            ),
            None => choices_of(texts(items@), items@.len() as int) is None,
        },
{
    let ghost all = texts(items@);
    let mut choices: Vec<Option<ChatMessage>> = Vec::new();
    let mut i: usize = 0;
    assert(choice_models(choices@) =~= Seq::<Option<ChatMessageModel>>::empty());
    while i < items.len()
        invariant
            i <= items@.len(),
            all == texts(items@),
            choices_of(all, i as int) == Some(choice_models(choices@)),
        decreases items@.len() - i,
    {
        assert(all[i as int] == items@[i as int]@);
        match read_choice(items[i].as_str()) {
            None => {
                proof {
                    lemma_choices_fail(all, i + 1, all.len() as int);
                }
                return None;
            },
            Some(choice) => {
                let ghost before = choices@;
                let ghost added = choice_model(choice);
                choices.push(choice);
                assert(choice_models(choices@) =~= choice_models(before).push(added));
            },
        }
        i += 1;
    }
    Some(choices)
}

/// The error of a response, where it is one or none is given.
pub open spec fn error_of(text: Option<Seq<char>>) -> Option<Option<Option<Seq<char>>>> {
    match optional_json(text) {
        None => None,
        Some(None) => Some(None),
        Some(Some(json)) => {
            let message = optional_name(slot(json, "message"@, 0));
            if record(json, 1) && message is Some {
                Some(Some(message->0))
            } else {
                None
            }
        },
    }
}

/// The choices of a response, where they are choices or none are given.
pub open spec fn given_choices(text: Option<Seq<char>>) -> Option<
    Option<Seq<Option<ChatMessageModel>>>,
> {
    match optional_json(text) {
        None => None,
        Some(None) => Some(None),
        Some(Some(JsonModel::List(items))) => match choices_of(items, items.len() as int) {
            Some(choices) => Some(Some(choices)),
            None => None,
        },
        Some(Some(_)) => None,
    }
}

/// The response that a JSON value is, if it is one.
pub open spec fn response_of(json: JsonModel) -> Option<ChatModel> {
    let choices = given_choices(slot(json, "choices"@, 0));
    let error = error_of(slot(json, "error"@, 1));
    if record(json, 2) && choices is Some && error is Some {
        Some(ChatModel { choices: choices->0, error: error->0 })
    } else {
        None
    }
}

/// The response that a JSON value is.
pub fn read_response(json: &Json) -> (r: Option<ChatResponse>)
    ensures
        match r {
            Some(response) => response_of(json@) == Some(response@),
            None => response_of(json@) is None,
        },
{
    if !json.is_record(2) {
        return None;
    }
    let choices = match read_optional_json(json.slot("choices", 0)) {
        None => return None,
        Some(None) => None,
        Some(Some(Json::List(items))) => match read_choices(&items) {
            None => return None,
            Some(choices) => Some(choices),
        },
        Some(Some(_)) => return None,
    };
    let error = match read_optional_json(json.slot("error", 1)) {
        None => return None,
        Some(None) => None,
        Some(Some(error)) => {
            if !error.is_record(1) {
                return None;
            }
            match read_optional_name(error.slot("message", 0)) {
                None => return None,
                Some(message) => Some(message),
            }
        },
    };
    Some(ChatResponse { choices, error })
}

/// The arguments of a tool call.
pub open spec fn call_arguments(raw: Seq<char>) -> Result<Seq<char>, Seq<char>> {
    if byte_len(raw) > MAX_TOOL_ARGS_BYTES {
        Err("provider tool arguments are too large"@)
    } else if blank(raw) {
        Ok("{}"@)
    } else {
        match json_reading(raw) {
            Err(message) => Err("invalid tool arguments: "@ + message),
            Ok(JsonModel::Object(_)) => Ok(raw),
            Ok(_) => Err("tool arguments must be a JSON object"@),
        }
    }
}

/// The reply in a tool call.
pub open spec fn entry_reply(entry: EntryModel) -> Result<ResponseModel, Seq<char>> {
    match entry.function {
        None => Err("provider tool call has no function"@),
        Some(function) => if function.name is None || blank(function.name->0) {
            Err("provider tool call has no name"@)
        } else {
            let raw = match function.arguments {
                Some(raw) => raw,
                None => "{}"@,
            };
            match call_arguments(raw) {
                Err(message) => Err(message),
                Ok(text) => match arguments_in(text) {
                    Err(message) => Err("invalid tool arguments: "@ + message),
                    Ok(arguments) => Ok(
                        call_of(
                            match entry.id {
                                Some(id) => id,
                                None => "call-1"@,
                            },
                            function.name->0,
                            arguments,
                        ),
                    ),
                },
            }
        },
    }
}

fn read_call(entry: &ToolCallEntry) -> (r: Result<ModelResponse, String>)
    ensures
        reply_seen(r) == entry_reply(entry@),
{
    let function = match &entry.function {
        None => return Err("provider tool call has no function".to_owned()),
        Some(function) => function,
    };
    let name = match &function.name {
        None => return Err("provider tool call has no name".to_owned()),
        Some(name) => name,
    };
    if is_blank(name.as_str()) {
        return Err("provider tool call has no name".to_owned());
    }
    let raw = match &function.arguments {
        Some(raw) => raw.as_str(),
        None => "{}",
    };
    if byte_count(raw) > MAX_TOOL_ARGS_BYTES {
        return Err("provider tool arguments are too large".to_owned());
    }
    let text = if is_blank(raw) {
        "{}"
    } else {
        match read_json(raw) {
            Err(message) => {
                return Err(labelled("invalid tool arguments: ", message.as_str()));
            },
            Ok(Json::Object(_)) => raw,
            Ok(_) => return Err("tool arguments must be a JSON object".to_owned()),
        }
    };
    let id = match &entry.id {
        Some(id) => id.as_str(),
        None => "call-1",
    };
    match read_arguments(text) {
        Err(message) => Err(labelled("invalid tool arguments: ", message.as_str())),
        Ok(arguments) => Ok(
            ModelResponse::ToolCall(ToolCall::new(id, name.as_str(), arguments)),
        ),
    }
}

/// The text of a part of a message: nothing where it has none.
pub open spec fn piece_of(part: Seq<char>) -> Seq<char> {
    match json_reading(part) {
        Ok(JsonModel::Text(text)) => text,
        Ok(json) => match get_text(json, "text"@) {
            Some(text) => text,
            None => match get_text(json, "content"@) {
                Some(text) => text,
                None => Seq::empty(),
            },
        },
        Err(_) => Seq::empty(),
    }
}

/// The text of the first `n` parts of a message.
pub open spec fn pieces_of(parts: Seq<Seq<char>>, n: int) -> Seq<char>
    decreases n,
{
    if n <= 0 {
        Seq::empty()
    } else {
        pieces_of(parts, n - 1) + piece_of(parts[n - 1])
    }
}

/// The text of the content of a message.
pub open spec fn content_text(content: Option<Seq<char>>) -> Seq<char> {
    match content {
        None => Seq::empty(),
        Some(json) => match json_reading(json) {
            Ok(JsonModel::Text(text)) => text,
            Ok(JsonModel::List(parts)) => pieces_of(parts, parts.len() as int),
            _ => json,
        },
    }
}

fn read_piece(part: &str) -> (r: String)
    ensures
        r@ == piece_of(part@),
{
    match read_json(part) {
        Ok(Json::Text(text)) => text,
        Ok(json) => match json.get_string("text") {
            Some(text) => text,
            None => match json.get_string("content") {
                Some(text) => text,
                None => String::new(),
            },
        },
        Err(_) => String::new(),
    }
}

fn read_content(content: &Option<String>) -> (r: String)
    ensures
        r@ == content_text(text_option(*content)),
{
    let json = match content {
        None => return String::new(),
        Some(json) => json,
    };
    match read_json(json.as_str()) {
        Ok(Json::Text(text)) => text,
        Ok(Json::List(parts)) => {
            let ghost all = texts(parts@);
            let mut r = String::new();
            let mut i: usize = 0;
            while i < parts.len()
                invariant
                    i <= parts@.len(),
                    all == texts(parts@),
                    r@ == pieces_of(all, i as int),
                decreases parts@.len() - i,
            {
                assert(all[i as int] == parts@[i as int]@);
                r.push_str(read_piece(parts[i].as_str()).as_str());
                i += 1;
            }
            r
        },
        _ => json.clone(),
    }
}

/// The reply in a response: its first tool call, or else its text.
pub open spec fn chat_reply(response: ChatModel) -> Result<ResponseModel, Seq<char>> {
    if response.error is Some && response.error->0 is Some {
        Err(provider_error(400, response.error->0->0))
    } else if response.choices is None || response.choices->0.len() == 0 {
        Err("provider response has no choices"@)
    } else {
        match response.choices->0[0] {
            None => Err("provider response has no message"@),
            Some(message) => if message.tool_calls is Some && message.tool_calls->0.len() > 0 {
                entry_reply(message.tool_calls->0[0])
            } else if blank(content_text(message.content)) {
                Err("provider returned an empty response"@)
            } else {
                Ok(ResponseModel::Text(trim(content_text(message.content))))
            },
        }
    }
}

/// The reply in a response.
pub fn reply_in(response: &ChatResponse) -> (r: Result<ModelResponse, String>)
    ensures
        reply_seen(r) == chat_reply(response@),
{
    match &response.error {
        Some(Some(message)) => return Err(sanitize_provider_error(400, message.as_str())),
        _ => {},
    }
    let choices = match &response.choices {
        None => return Err("provider response has no choices".to_owned()),
        Some(choices) => choices,
    };
    if choices.len() == 0 {
        return Err("provider response has no choices".to_owned());
    }
    assert(response@.choices->0[0] == choice_model(choices@[0]));
    let message = match &choices[0] {
        None => return Err("provider response has no message".to_owned()),
        Some(message) => message,
    };
    match &message.tool_calls {
        Some(calls) => {
            if calls.len() > 0 {
                assert(message@.tool_calls->0[0] == calls@[0]@);
                return read_call(&calls[0]);
            }
        },
        None => {},
    }
    let content = read_content(&message.content);
    if is_blank(content.as_str()) {
        return Err("provider returned an empty response".to_owned());
    }
    Ok(ModelResponse::Text(trimmed(content.as_str())))
}

/// The reply in the text of a response.
pub open spec fn provider_reply(text: Seq<char>) -> Result<ResponseModel, Seq<char>> {
    if byte_len(text) > MAX_RESPONSE_BYTES {
        Err("provider response is too large"@)
    } else {
        match json_reading(text) {
            Err(message) => Err(sanitized("invalid provider response: "@ + message)),
            Ok(json) => match response_of(json) {
                None => Err(sanitized("invalid provider response: "@ + UNEXPECTED_SHAPE@)),
                Some(response) => chat_reply(response),
            },
        }
    }
}

/// The reply in the text of a response.
pub fn parse_chat_response(text: &str) -> (r: Result<ModelResponse, String>)
    ensures
        reply_seen(r) == provider_reply(text@),
{
    if byte_count(text) > MAX_RESPONSE_BYTES {
        return Err("provider response is too large".to_owned());
    }
    let json = match read_json(text) {
        Err(message) => {
            let full = labelled("invalid provider response: ", message.as_str());
            return Err(sanitize_error(full.as_str()));
        },
        Ok(json) => json,
    };
    match read_response(&json) {
        None => {
            let full = labelled("invalid provider response: ", UNEXPECTED_SHAPE);
            Err(sanitize_error(full.as_str()))
        },
        Some(response) => reply_in(&response),
    }
}

// ---------------------------------------------------------------------------
// The model
// ---------------------------------------------------------------------------

/// A configured model of the provider.
#[derive(Debug, PartialEq, Eq)]
pub struct OpenRouterModel {
    config: OpenRouterConfig,
}

impl View for OpenRouterModel {
    type V = ConfigModel;

    closed spec fn view(&self) -> ConfigModel {
        self.config@
    }
}

/// What an answer of the provider says.
pub open spec fn answer_of(config: ConfigModel, status: u16, body: Seq<u8>) -> Result<
    ResponseModel,
    Seq<char>,
> {
    if body.len() > config.max_response_bytes {
        Err("provider response is too large"@)
    } else if !valid_utf8(body) {
        Err("provider response was not UTF-8"@)
    } else {
        let text = redacted(decode_utf8(body), config.api_key);
        if 200 <= status < 300 {
            provider_reply(text)
        } else {
            Err(provider_error(status, text))
        }
    }
}

impl OpenRouterModel {
    pub fn from_config(config: OpenRouterConfig) -> (r: Result<Self, String>)
        ensures
            match r {
                Ok(model) => !blank(config@.api_key) && !blank(config@.model) && model@ == config@,
                Err(message) => if blank(config@.api_key) {
                    message@ == "OPENROUTER_API_KEY is not set"@
                } else {
                    blank(config@.model) && message@ == "OPENROUTER_MODEL is empty"@
                },
            },
    {
        if is_blank(config.api_key.as_str()) {
            return Err("OPENROUTER_API_KEY is not set".to_owned());
        }
        if is_blank(config.model.as_str()) {
            return Err("OPENROUTER_MODEL is empty".to_owned());
        }
        Ok(OpenRouterModel { config })
    }

    pub fn model_name(&self) -> (r: &str)
        ensures
            r@ == self@.model,
    {
        self.config.model.as_str()
    }

    pub fn config(&self) -> (r: &OpenRouterConfig)
        ensures
            r@ == self@,
    {
        &self.config
    }

    pub fn build_request_body(&self, request: &ModelRequest) -> (r: String)
        ensures
            r@ == body_json(self@, request@),
    {
        build_request_body(&self.config, request)
    }

    /// The header that authorizes a request.
    pub fn authorization(&self) -> (r: String)
        ensures
            r@ == "Bearer "@ + self@.api_key,
    {
        labelled("Bearer ", self.config.api_key.as_str())
    }

    /// Checks the length that an answer announces.
    pub fn check_length(&self, length: Option<u64>) -> (r: Result<(), String>)
        ensures
            match r {
                Ok(_) => length is None || length->0 <= self@.max_response_bytes,
                Err(message) => length is Some && length->0 > self@.max_response_bytes && message@
                    == "provider response is too large"@,
            },
    {
        match length {
            Some(length) => {
                if length > self.config.max_response_bytes as u64 {
                    return Err("provider response is too large".to_owned());
                }
                Ok(())
            },
            None => Ok(()),
        }
    }

    /// What an answer of the provider says.
    pub fn read_answer(&self, status: u16, body: &Vec<u8>) -> (r: Result<ModelResponse, String>)
        ensures
            reply_seen(r) == answer_of(self@, status, body@),
    {
        if body.len() > self.config.max_response_bytes {
            return Err("provider response is too large".to_owned());
        }
        let text = match utf8_text(body.as_slice()) {
            None => return Err("provider response was not UTF-8".to_owned()),
            Some(text) => text,
        };
        let text = redact_secret(text.as_str(), self.config.api_key.as_str());
        if 200 <= status && status < 300 {
            parse_chat_response(text.as_str())
        } else {
            Err(sanitize_provider_error(status, text.as_str()))
        }
    }
}

/// What the provider is asked: the system prompt if it shows something, the conversation message by
/// message, what the user says, and behind it the results of the tools if there are any.
pub proof fn law_requests_are_told_in_order(request: ModelRequestModel, i: int)
    requires
        request.system_prompt.len() <= 4096,
        request.prompt.len() <= 8192,
    ensures
        ({
            let messages = chat_messages(request);
            let head: int = if all_white(request.system_prompt) {
                0
            } else {
                1
            };
            let n = request.conversation.len() as int;
            &&& head == 1 ==> messages[0] == chat_json("system"@, request.system_prompt)
            &&& 0 <= i < n ==> messages[head + i] == entry_json(request.conversation[i])
            &&& messages[head + n] == chat_json("user"@, request.prompt)
            &&& messages.len() == head + n + 1 + (if request.tool_results.len() > 0 {
                1int
            } else {
                0int
            })
        }),
{
    law_blank_texts_are_white(request.system_prompt, ' ');
}

/// A secret is taken out wherever it stands, and all else is left as it is.
pub proof fn law_secrets_are_redacted(
    message: Seq<char>,
    secret: Seq<char>,
    before: Seq<char>,
    after: Seq<char>,
)
    requires
        secret.len() > 0,
    ensures
        !holds_text(message, secret) ==> redacted(message, secret) == message,
        message == before + secret + after && (forall|i: int|
            0 <= i < before.len() ==> !stands_at(message, secret, i)) ==> redacted(message, secret)
            == before + "[redacted]"@ + redacted(after, secret),
{
    if message == before + secret + after && (forall|i: int|
        0 <= i < before.len() ==> !stands_at(message, secret, i)) {
        let n = before.len() as int;
        lemma_find_text(message, secret, 0);
        assert(message.subrange(n, n + secret.len()) =~= secret);
        assert(stands_at(message, secret, n));
        let i = find_text(message, secret, 0)->0;
        if i < n {
            assert(!stands_at(message, secret, i));
        }
        assert(message.take(n) =~= before);
        assert(message.skip(n + secret.len()) =~= after);
    }
}

/// A message of the conversation is told under its role, and one of a tool as what the user passes on.
pub proof fn law_roles_are_told(entry: MessageModel)
    requires
        entry.content.len() <= 4096,
    ensures
        entry.role == "user"@ ==> entry_json(entry) == chat_json("user"@, entry.content),
        entry.role == "assistant"@ ==> entry_json(entry) == chat_json("assistant"@, entry.content),
        entry.role == "tool"@ ==> entry_json(entry) == chat_json(
            "user"@,
            "Previous tool result:\n"@ + entry.content,
        ),
{
    reveal_strlit("user");
    reveal_strlit("assistant");
    reveal_strlit("system");
    reveal_strlit("tool");
    if entry.role == "user"@ || entry.role == "assistant"@ || entry.role == "tool"@ {
        assert(entry.role[0] == 'u' || entry.role[0] == 'a' || entry.role[0] == 't');
        assert(entry.role.last() == 'r' || entry.role.last() == 't' || entry.role.last() == 'l');
        lemma_trim_solid(entry.role);
        assert(lower_text(entry.role) =~= entry.role);
    }
    assert("user"@[0] != "assistant"@[0]);
    assert("user"@[0] != "system"@[0]);
    assert("user"@[0] != "tool"@[0]);
    assert("assistant"@[0] != "tool"@[0]);
}

/// A chat reply is the first call of its first choice, with the identifier, name and arguments of
/// that call, or else the text of the choice without the white space around it.
pub proof fn law_first_choices_are_taken(
    response: ChatModel,
    message: ChatMessageModel,
    function: FunctionModel,
    name: Seq<char>,
    raw: Seq<char>,
    arguments: Arguments,
)
    requires
        response.error is None,
        response.choices matches Some(choices) && choices.len() > 0 && choices[0] == Some(message),
    ensures
        message.tool_calls matches Some(calls) ==> calls.len() > 0 && calls[0].function == Some(
            function,
        ) && function.name == Some(name) && !all_white(name) && function.arguments == Some(raw)
            && call_arguments(raw) == Ok::<Seq<char>, Seq<char>>(raw) && arguments_in(raw) == Ok::<
            Arguments,
            Seq<char>,
        >(arguments) ==> (chat_reply(response) matches Ok(ResponseModel::ToolCall(call))
            && call.name == name && call.arguments == arguments && (calls[0].id matches Some(id)
            ==> call.id == id)),
        message.tool_calls matches Some(calls) ==> calls.len() > 0 && (calls[0].function is None
            || calls[0].function->0.name is None || all_white(calls[0].function->0.name->0))
            ==> chat_reply(response) is Err,
        message.tool_calls is None || message.tool_calls->0.len() == 0 ==> if all_white(
            content_text(message.content),
        ) {
            chat_reply(response) is Err
        } else {
            chat_reply(response) == Ok::<ResponseModel, Seq<char>>(
                ResponseModel::Text(trim(content_text(message.content))),
            )
        },
{
    law_blank_texts_are_white(name, ' ');
    law_blank_texts_are_white(content_text(message.content), ' ');
    if let Some(calls) = message.tool_calls {
        if calls.len() > 0 {
            if let Some(f) = calls[0].function {
                if let Some(n) = f.name {
                    law_blank_texts_are_white(n, ' ');
                }
            }
        }
    }
}

/// The content of a message is its text, or the texts of its parts one behind the other; a message
/// without content says nothing.
pub proof fn law_contents_are_read(content: Seq<char>, parts: Seq<Seq<char>>, n: int)
    requires
        0 < n <= parts.len(),
    ensures
        content_text(None).len() == 0,
        json_reading(content) matches Ok(JsonModel::Text(text)) ==> content_text(Some(content))
            == text,
        json_reading(parts[n - 1]) matches Ok(JsonModel::Text(text)) ==> pieces_of(parts, n)
            == pieces_of(parts, n - 1) + text,
        json_reading(parts[n - 1]) is Err ==> pieces_of(parts, n) == pieces_of(parts, n - 1),
        pieces_of(parts, 0).len() == 0,
        json_reading(content) == Ok::<JsonModel, Seq<char>>(JsonModel::List(parts))
            ==> content_text(Some(content)) == pieces_of(parts, parts.len() as int),
{
    assert(pieces_of(parts, n - 1) + Seq::<char>::empty() =~= pieces_of(parts, n - 1));
}

/// Only an answer with a status from 200 to 299 that is not too long is read; an error of the
/// provider and an answer without a choice are errors.
pub proof fn law_provider_answers_are_checked(
    config: ConfigModel,
    status: u16,
    body: Seq<u8>,
    response: ChatModel,
)
    ensures
        answer_of(config, status, body) is Ok ==> 200 <= status <= 299 && body.len()
            <= config.max_response_bytes && valid_utf8(body),
        response.error matches Some(Some(_)) ==> chat_reply(response) is Err,
        response.choices is None || response.choices->0.len() == 0 ==> chat_reply(response) is Err,
{
}

/// A number from outside is taken where it can be read and lies within its bounds, and the usual one
/// stands otherwise.
pub proof fn law_numbers_are_kept_within_bounds(n: nat, max: nat, low: nat, high: nat, other: nat)
    requires
        n <= max,
    ensures
        forall|text: String| #[trigger]
            text@ == decimal(n) ==> number_or(Some(text), max, low, high, other) == (if low <= n
                <= high {
                n
            } else {
                other
            }),
        number_or(None, max, low, high, other) == other,
{
    law_decimal_reads_back(n, max);
}

} // verus!
