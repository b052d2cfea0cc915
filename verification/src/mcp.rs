//! Tools of servers that speak the model context protocol over standard input and output.

use vstd::prelude::*;
#[allow(unused_imports)]
use vstd::utf8::{decode_utf8, valid_utf8};

use crate::json::{Json, field, quoted, read_json, write_object};
#[allow(unused_imports)]
use crate::json::{
    JsonModel, field_models, get_member, get_text, get_value, json_reading, json_string,
    object_text,
};
use crate::protocol::VERSION;
use crate::runtime_error::labelled;
use crate::text::{
    byte_count, decimal_text, is_blank, join, same_text, split_once, trimmed, utf8_text,
};
#[allow(unused_imports)]
use crate::text::{
    all_white, blank, byte_len, decimal, ends, find_char, joined, lacks, law_blank_texts_are_white,
    lemma_find_char_is, text_option, texts, trim,
};

verus! {

pub const MAX_MCP_LINE_BYTES: usize = 64 * 1024;

pub const MAX_MCP_PAGES: usize = 16;

#[derive(Debug, PartialEq, Eq)]
pub struct McpConfig {
    pub command: String,
    pub args: Vec<String>,
    pub env: Vec<String>,
    pub working_directory: Option<String>,
    pub timeout: Option<u64>,
}

/// A tool of a server; its input schema is JSON.
#[derive(Debug, PartialEq, Eq)]
pub struct McpTool {
    pub name: String,
    pub description: String,
    pub input_schema: String,
}

/// What an [`McpTool`] says.
#[verifier::ext_equal]
pub struct McpToolModel {
    pub name: Seq<char>,
    pub description: Seq<char>,
    pub input_schema: Seq<char>,
}

impl View for McpTool {
    type V = McpToolModel;

    open spec fn view(&self) -> McpToolModel {
        McpToolModel {
            name: self.name@,
            description: self.description@,
            input_schema: self.input_schema@,
        }
    }
}

pub open spec fn mcp_tool_models(tools: Seq<McpTool>) -> Seq<McpToolModel> {
    Seq::new(tools.len(), |i: int| tools[i]@)
}

#[derive(Debug, PartialEq, Eq)]
pub struct McpError {
    pub message: String,
}

impl View for McpError {
    type V = Seq<char>;

    open spec fn view(&self) -> Seq<char> {
        self.message@
    }
}

impl McpError {
    fn new(message: &str) -> (r: Self)
        ensures
            r@ == message@,
    {
        McpError { message: message.to_owned() }
    }

    pub fn to_text(&self) -> (r: String)
        ensures
            r@ == self@,
    {
        self.message.clone()
    }
}

// ---------------------------------------------------------------------------
// Configuration
// ---------------------------------------------------------------------------

/// Whether an entry of the environment gives a name a value.
pub open spec fn env_entry(entry: Seq<char>) -> bool {
    let i = find_char(entry, '=');
    i < entry.len() && !blank(entry.take(i))
}

/// The first entry from `index` on that gives no name a value.
pub open spec fn bad_entry(entries: Seq<Seq<char>>, index: int) -> Option<Seq<char>>
    decreases entries.len() - index,
{
    if !(0 <= index < entries.len()) {
        None
    } else if !env_entry(entries[index]) {
        Some(entries[index])
    } else {
        bad_entry(entries, index + 1)
    }
}

/// What is wrong with a configuration.
pub open spec fn config_trouble(command: Seq<char>, env: Seq<Seq<char>>) -> Option<Seq<char>> {
    if blank(command) {
        Some("mcp command must not be empty"@)
    } else {
        match bad_entry(env, 0) {
            Some(entry) => Some("mcp env entry must be NAME=value: '"@ + entry + "'"@),
            None => None,
        }
    }
}

fn validate_config(config: &McpConfig) -> (r: Result<(), McpError>)
    ensures
        match r {
            Ok(_) => config_trouble(config.command@, texts(config.env@)) is None,
            Err(error) => config_trouble(config.command@, texts(config.env@)) == Some(error@),
        },
{
    if is_blank(config.command.as_str()) {
        return Err(McpError::new("mcp command must not be empty"));
    }
    let ghost all = texts(config.env@);
    let mut i: usize = 0;
    while i < config.env.len()
        invariant
            i <= config.env@.len(),
            all == texts(config.env@),
            !blank(config.command@),
            bad_entry(all, 0) == bad_entry(all, i as int),
        decreases config.env@.len() - i,
    {
        let entry = &config.env[i];
        assert(all[i as int] == entry@);
        let good = match split_once(entry.as_str(), '=') {
            Some((name, _)) => !is_blank(name.as_str()),
            None => false,
        };
        if !good {
            let mut message = "mcp env entry must be NAME=value: '".to_owned();
            message.push_str(entry.as_str());
            message.push_str("'");
            return Err(McpError::new(message.as_str()));
        }
        i += 1;
    }
    Ok(())
}

#[derive(Debug)]
pub struct McpClient {
    config: McpConfig,
}

impl View for McpClient {
    type V = McpConfig;

    closed spec fn view(&self) -> McpConfig {
        self.config
    }
}

/// The name and the value of an entry of the environment.
pub open spec fn env_pair(entry: Seq<char>) -> (Seq<char>, Seq<char>) {
    let i = find_char(entry, '=');
    (trim(entry.take(i)), entry.skip(i + 1))
}

impl McpClient {
    pub fn new(config: McpConfig) -> (r: Result<Self, McpError>)
        ensures
            match r {
                Ok(client) => config_trouble(config.command@, texts(config.env@)) is None
                    && client@ == config,
                Err(error) => config_trouble(config.command@, texts(config.env@)) == Some(error@),
            },
    {
        match validate_config(&config) {
            Err(error) => Err(error),
            Ok(_) => Ok(McpClient { config }),
        }
    }

    pub fn config(&self) -> (r: &McpConfig)
        ensures
            *r == self@,
    {
        &self.config
    }

    /// The names and the values that the environment of the server gets.
    pub fn environment(&self) -> (r: Vec<(String, String)>)
        ensures
            ({
                let entries = texts(self@.env@);
                bad_entry(entries, 0) is None ==> field_models(r@) == Seq::new(
                    entries.len(),
                    |i: int| env_pair(entries[i]),
                )
            }),
    {
        let ghost entries = texts(self.config.env@);
        let ghost pairs = Seq::new(entries.len(), |i: int| env_pair(entries[i]));
        let mut r: Vec<(String, String)> = Vec::new();
        let mut i: usize = 0;
        while i < self.config.env.len()
            invariant
                i <= self.config.env@.len(),
                entries == texts(self.config.env@),
                pairs == Seq::new(entries.len(), |i: int| env_pair(entries[i])),
                bad_entry(entries, 0) is None ==> bad_entry(entries, i as int) is None
                    && field_models(r@) == pairs.take(i as int),
            decreases self.config.env@.len() - i,
        {
            assert(entries[i as int] == self.config.env@[i as int]@);
            let ghost before = r@;
            match split_once(self.config.env[i].as_str(), '=') {
                Some((name, value)) => {
                    let name = trimmed(name.as_str());
                    let ghost pair = (name@, value@);
                    r.push((name, value));
                    assert(field_models(r@) =~= field_models(before).push(pair));
                    assert(pairs.take(i + 1) =~= pairs.take(i as int).push(pairs[i as int]));
                },
                None => {},
            }
            i += 1;
        }
        assert(pairs.take(pairs.len() as int) =~= pairs);
        r
    }

    /// How long the server may take, in seconds.
    pub fn timeout_secs(&self) -> (r: u64)
        ensures
            r == (match self@.timeout {
                Some(seconds) => if seconds < 1 {
                    1u64
                } else {
                    seconds
                },
                None => 30u64,
            }),
    {
        match self.config.timeout {
            Some(seconds) => if seconds < 1 {
                1
            } else {
                seconds
            },
            None => 30,
        }
    }

    /// The error of a server that could not be started.
    pub fn start_error(&self, message: &str) -> (r: McpError)
        ensures
            r@ == "failed to start mcp server '"@ + self@.command@ + "': "@ + message@,
    {
        let mut text = "failed to start mcp server '".to_owned();
        text.push_str(self.config.command.as_str());
        text.push_str("': ");
        text.push_str(message);
        McpError::new(text.as_str())
    }
}

// ---------------------------------------------------------------------------
// Requests
// ---------------------------------------------------------------------------

/// A request, as JSON with the keys in order.
pub open spec fn rpc_json(id: nat, method: Seq<char>, params: Seq<char>) -> Seq<char> {
    object_text(
        seq![
            ("id"@, decimal(id)),
            ("jsonrpc"@, json_string("2.0"@)),
            ("method"@, json_string(method)),
            ("params"@, params),
        ],
    )
}

fn write_rpc(id: u64, method: &str, params: String) -> (r: String)
    ensures
        r@ == rpc_json(id as nat, method@, params@),
{
    let fields = vec![
        field("id", decimal_text(id)),
        field("jsonrpc", quoted("2.0")),
        field("method", quoted(method)),
        field("params", params),
    ];
    assert(field_models(fields@) =~= seq![
        ("id"@, decimal(id as nat)),
        ("jsonrpc"@, json_string("2.0"@)),
        ("method"@, json_string(method@)),
        ("params"@, params@),
    ]);
    write_object(&fields)
}

/// What a client says of itself first.
pub open spec fn initialize_params() -> Seq<char> {
    object_text(
        seq![
            ("capabilities"@, "{}"@),
            (
                "clientInfo"@,
                object_text(
                    seq![
                        ("name"@, json_string("a-rust-vm"@)),
                        ("version"@, json_string(VERSION@)),
                    ],
                ),
            ),
            ("protocolVersion"@, json_string("2024-11-05"@)),
        ],
    )
}

/// The line that begins a conversation with a server.
pub fn initialize_line() -> (r: String)
    ensures
        r@ == rpc_json(1, "initialize"@, initialize_params()) + "\n"@,
{
    let client = vec![
        field("name", quoted("a-rust-vm")),
        field("version", quoted(VERSION)),
    ];
    assert(field_models(client@) =~= seq![
        ("name"@, json_string("a-rust-vm"@)),
        ("version"@, json_string(VERSION@)),
    ]);
    let params = vec![
        field("capabilities", "{}".to_owned()),
        field("clientInfo", write_object(&client)),
        field("protocolVersion", quoted("2024-11-05")),
    ];
    assert(field_models(params@) =~= seq![
        ("capabilities"@, "{}"@),
        ("clientInfo"@, object_text(field_models(client@))),
        ("protocolVersion"@, json_string("2024-11-05"@)),
    ]);
    let mut r = write_rpc(1, "initialize", write_object(&params));
    r.push_str("\n");
    r
}

/// The line that makes a request.
pub fn request_line(method: &str, params: String) -> (r: String)
    ensures
        r@ == rpc_json(2, method@, params@) + "\n"@,
{
    let mut r = write_rpc(2, method, params);
    r.push_str("\n");
    r
}

/// What a request for a page of tools gives along.
pub open spec fn list_params_of(cursor: Option<Seq<char>>) -> Seq<char> {
    match cursor {
        Some(text) => object_text(seq![("cursor"@, json_string(text))]),
        None => object_text(Seq::empty()),
    }
}

pub fn list_params(cursor: &Option<String>) -> (r: String)
    ensures
        r@ == list_params_of(text_option(*cursor)),
{
    let fields = match cursor {
        Some(text) => {
            let fields = vec![field("cursor", quoted(text.as_str()))];
            assert(field_models(fields@) =~= seq![("cursor"@, json_string(text@))]);
            fields
        },
        None => {
            let fields: Vec<(String, String)> = Vec::new();
            assert(field_models(fields@) =~= Seq::<(Seq<char>, Seq<char>)>::empty());
            fields
        },
    };
    write_object(&fields)
}

/// What a request to call a tool gives along, or what is wrong with it. The arguments are JSON;
/// `null` stands for none.
pub open spec fn call_params_of(name: Seq<char>, arguments: Seq<char>) -> Result<
    Seq<char>,
    Seq<char>,
> {
    if blank(name) {
        Err("mcp tool name must not be empty"@)
    } else {
        Ok(
            object_text(
                seq![
                    (
                        "arguments"@,
                        if arguments == "null"@ {
                            "{}"@
                        } else {
                            arguments
                        },
                    ),
                    ("name"@, json_string(name)),
                ],
            ),
        )
    }
}

pub fn call_params(name: &str, arguments: &str) -> (r: Result<String, McpError>)
    ensures
        match r {
            Ok(params) => call_params_of(name@, arguments@) == Ok::<Seq<char>, Seq<char>>(params@),
            Err(error) => call_params_of(name@, arguments@) == Err::<Seq<char>, Seq<char>>(error@),
        },
{
    if is_blank(name) {
        return Err(McpError::new("mcp tool name must not be empty"));
    }
    let given = if same_text(arguments, "null") {
        "{}".to_owned()
    } else {
        arguments.to_owned()
    };
    let fields = vec![field("arguments", given), field("name", quoted(name))];
    assert(field_models(fields@) =~= seq![
        ("arguments"@, given@),
        ("name"@, json_string(name@)),
    ]);
    Ok(write_object(&fields))
}

// ---------------------------------------------------------------------------
// Answers
// ---------------------------------------------------------------------------

/// A line of a server, or what is wrong with it.
pub open spec fn line_of(bytes: Seq<u8>) -> Result<Seq<char>, Seq<char>> {
    if bytes.len() == 0 {
        Err("mcp server emitted no response"@)
    } else if bytes.len() > MAX_MCP_LINE_BYTES + 1 {
        Err("mcp response exceeds 64 KiB line limit"@)
    } else if !valid_utf8(bytes) {
        Err("mcp response is not valid UTF-8"@)
    } else {
        let text = trim(decode_utf8(bytes));
        if text.len() == 0 {
            Err("mcp server emitted no response"@)
        } else if byte_len(text) > MAX_MCP_LINE_BYTES {
            Err("mcp response exceeds 64 KiB line limit"@)
        } else {
            Ok(text)
        }
    }
}

/// A line of a server, as far as it was read.
pub fn check_line(bytes: &Vec<u8>) -> (r: Result<String, McpError>)
    ensures
        match r {
            Ok(text) => line_of(bytes@) == Ok::<Seq<char>, Seq<char>>(text@),
            Err(error) => line_of(bytes@) == Err::<Seq<char>, Seq<char>>(error@),
        },
{
    if bytes.len() == 0 {
        return Err(McpError::new("mcp server emitted no response"));
    }
    if bytes.len() > MAX_MCP_LINE_BYTES + 1 {
        return Err(McpError::new("mcp response exceeds 64 KiB line limit"));
    }
    let text = match utf8_text(bytes.as_slice()) {
        None => return Err(McpError::new("mcp response is not valid UTF-8")),
        Some(text) => trimmed(text.as_str()),
    };
    if text.as_str().is_empty() {
        return Err(McpError::new("mcp server emitted no response"));
    }
    if byte_count(text.as_str()) > MAX_MCP_LINE_BYTES {
        return Err(McpError::new("mcp response exceeds 64 KiB line limit"));
    }
    Ok(text)
}

/// The message for a method with something behind it.
pub open spec fn about(method: Seq<char>, what: Seq<char>) -> Seq<char> {
    "mcp "@ + method + what
}

fn say_about(method: &str, what: &str, rest: &str) -> (r: McpError)
    ensures
        r@ == about(method@, what@) + rest@,
{
    let mut text = "mcp ".to_owned();
    text.push_str(method);
    text.push_str(what);
    text.push_str(rest);
    McpError::new(text.as_str())
}

/// What is wrong with an answer that should have a result.
pub open spec fn result_trouble(json: JsonModel, method: Seq<char>) -> Option<Seq<char>> {
    match get_member(json, "error"@) {
        Some(error) => Some(about(method, " failed: "@) + error),
        None => if get_member(json, "result"@) is None {
            Some(about(method, " response is missing a result"@))
        } else {
            None
        },
    }
}

/// Checks that an answer has a result.
pub fn require_result(json: &Json, method: &str) -> (r: Result<(), McpError>)
    ensures
        match r {
            Ok(_) => result_trouble(json@, method@) is None,
            Err(error) => result_trouble(json@, method@) == Some(error@),
        },
{
    match json.get("error") {
        Some(error) => return Err(say_about(method, " failed: ", error.as_str())),
        None => {},
    }
    if json.get("result").is_none() {
        let error = say_about(method, " response is missing a result", "");
        proof {
            reveal_strlit("");
            assert(error@ =~= about(method@, " response is missing a result"@));
        }
        return Err(error);
    }
    Ok(())
}

/// What is wrong with the first answer of a server.
pub open spec fn initialize_trouble(line: Seq<char>) -> Option<Seq<char>> {
    match json_reading(line) {
        Err(message) => Some("mcp initialize response is invalid: "@ + message),
        Ok(json) => result_trouble(json, "initialize"@),
    }
}

/// Checks the first answer of a server.
pub fn check_initialize(line: &str) -> (r: Result<(), McpError>)
    ensures
        match r {
            Ok(_) => initialize_trouble(line@) is None,
            Err(error) => initialize_trouble(line@) == Some(error@),
        },
{
    match read_json(line) {
        Err(message) => Err(
            McpError::new(
                labelled("mcp initialize response is invalid: ", message.as_str()).as_str(),
            ),
        ),
        Ok(json) => require_result(&json, "initialize"),
    }
}

/// How a server ended.
#[derive(Debug, PartialEq, Eq)]
pub enum McpExit {
    Success,
    Failure { status: String, stderr: String },
}

/// An answer before the server has ended: JSON, unless it says that the request failed.
pub open spec fn answer_on(line: Seq<char>, method: Seq<char>) -> Result<JsonModel, Seq<char>> {
    match json_reading(line) {
        Err(message) => Err(about(method, " response is invalid: "@) + message),
        Ok(json) => match get_member(json, "error"@) {
            Some(error) => Err(about(method, " failed: "@) + error),
            None => Ok(json),
        },
    }
}

/// Reads an answer before the server has ended.
pub fn read_answer(line: &str, method: &str) -> (r: Result<Json, McpError>)
    ensures
        match r {
            Ok(json) => answer_on(line@, method@) == Ok::<JsonModel, Seq<char>>(json@),
            Err(error) => answer_on(line@, method@) == Err::<JsonModel, Seq<char>>(error@),
        },
{
    let json = match read_json(line) {
        Err(message) => {
            return Err(say_about(method, " response is invalid: ", message.as_str()));
        },
        Ok(json) => json,
    };
    match json.get("error") {
        Some(error) => Err(say_about(method, " failed: ", error.as_str())),
        None => Ok(json),
    }
}

/// What is wrong once the server has ended.
pub open spec fn exit_trouble(json: JsonModel, method: Seq<char>, exit: McpExit) -> Option<
    Seq<char>,
> {
    match exit {
        McpExit::Failure { status, stderr } => if blank(stderr@) {
            Some("mcp server exited with "@ + status@)
        } else {
            Some("mcp server exited with "@ + status@ + ": "@ + trim(stderr@))
        },
        McpExit::Success => result_trouble(json, method),
    }
}

/// Checks an answer once the server has ended.
pub fn check_exit(json: &Json, method: &str, exit: McpExit) -> (r: Result<(), McpError>)
    ensures
        match r {
            Ok(_) => exit_trouble(json@, method@, exit) is None,
            Err(error) => exit_trouble(json@, method@, exit) == Some(error@),
        },
{
    match exit {
        McpExit::Failure { status, stderr } => {
            let mut text = labelled("mcp server exited with ", status.as_str());
            if !is_blank(stderr.as_str()) {
                text.push_str(": ");
                text.push_str(trimmed(stderr.as_str()).as_str());
            }
            Err(McpError::new(text.as_str()))
        },
        McpExit::Success => require_result(json, method),
    }
}

// ---------------------------------------------------------------------------
// Lists of tools
// ---------------------------------------------------------------------------

/// A page of tools, and where the next one begins.
#[derive(Debug, PartialEq, Eq)]
pub struct McpPage {
    pub tools: Vec<McpTool>,
    pub next_cursor: Option<String>,
}

/// What an [`McpPage`] says.
#[verifier::ext_equal]
pub struct PageModel {
    pub tools: Seq<McpToolModel>,
    pub next_cursor: Option<Seq<char>>,
}

impl View for McpPage {
    type V = PageModel;

    open spec fn view(&self) -> PageModel {
        PageModel {
            tools: mcp_tool_models(self.tools@),
            next_cursor: text_option(self.next_cursor),
        }
    }
}

/// The tool that a JSON text describes, if it names one.
pub open spec fn tool_in(text: Seq<char>) -> Option<McpToolModel> {
    match json_reading(text) {
        Err(_) => None,
        Ok(json) => match get_text(json, "name"@) {
            None => None,
            Some(name) => if blank(name) {
                None
            } else {
                Some(
                    McpToolModel {
                        name,
                        description: match get_text(json, "description"@) {
                            Some(description) => description,
                            None => Seq::empty(),
                        },
                        input_schema: match get_member(json, "inputSchema"@) {
                            Some(schema) => schema,
                            None => "{}"@,
                        },
                    },
                )
            },
        },
    }
}

/// The tools that the first `n` texts describe, if each names one.
pub open spec fn tools_in(items: Seq<Seq<char>>, n: int) -> Option<Seq<McpToolModel>>
    decreases n,
{
    if n <= 0 {
        Some(Seq::empty())
    } else {
        match (tools_in(items, n - 1), tool_in(items[n - 1])) {
            (Some(before), Some(tool)) => Some(before.push(tool)),
            _ => None,
        }
    }
}

/// The page in an answer.
pub open spec fn page_in(json: JsonModel) -> Result<PageModel, Seq<char>> {
    if get_member(json, "result"@) is None {
        Err("mcp tools/list response is missing a result"@)
    } else {
        match get_value(json, "result"@) {
            None => Err("mcp tools/list result must carry a tools array"@),
            Some(result) => match get_value(result, "tools"@) {
                Some(JsonModel::List(items)) => match tools_in(items, items.len() as int) {
                    None => Err("mcp tool entry must have a non-empty name"@),
                    Some(tools) => Ok(
                        PageModel { tools, next_cursor: get_text(result, "nextCursor"@) },
                    ),
                },
                _ => Err("mcp tools/list result must carry a tools array"@),
            },
        }
    }
}

fn read_tool(text: &str) -> (r: Option<McpTool>)
    ensures
        match r {
            Some(tool) => tool_in(text@) == Some(tool@),
            None => tool_in(text@) is None,
        },
{
    let json = match read_json(text) {
        Err(_) => return None,
        Ok(json) => json,
    };
    let name = match json.get_string("name") {
        None => return None,
        Some(name) => name,
    };
    if is_blank(name.as_str()) {
        return None;
    }
    let description = match json.get_string("description") {
        Some(description) => description,
        None => {
            let empty = String::new();
            assert(empty@ =~= Seq::<char>::empty());
            empty
        },
    };
    let input_schema = match json.get("inputSchema") {
        Some(schema) => schema,
        None => "{}".to_owned(),
    };
    Some(McpTool { name, description, input_schema })
}

proof fn lemma_tools_fail(items: Seq<Seq<char>>, from: int, n: int)
    requires
        0 < from <= n,
        tools_in(items, from) is None,
    ensures
        tools_in(items, n) is None,
    decreases n - from,
{
    if from < n {
        lemma_tools_fail(items, from, n - 1);
    }
}

fn read_tools(items: &Vec<String>) -> (r: Option<Vec<McpTool>>)
    ensures
        match r {
            Some(tools) => tools_in(texts(items@), items@.len() as int) == Some(
                mcp_tool_models(tools@),
            ),
            None => tools_in(texts(items@), items@.len() as int) is None,
        },
{
    let ghost all = texts(items@);
    let mut tools: Vec<McpTool> = Vec::new();
    let mut i: usize = 0;
    assert(mcp_tool_models(tools@) =~= Seq::<McpToolModel>::empty());
    while i < items.len()
        invariant
            i <= items@.len(),
            all == texts(items@),
            tools_in(all, i as int) == Some(mcp_tool_models(tools@)),
        decreases items@.len() - i,
    {
        assert(all[i as int] == items@[i as int]@);
        match read_tool(items[i].as_str()) {
            None => {
                proof {
                    lemma_tools_fail(all, i + 1, all.len() as int);
                }
                return None;
            },
            Some(tool) => {
                let ghost before = tools@;
                let ghost added = tool@;
                tools.push(tool);
                assert(mcp_tool_models(tools@) =~= mcp_tool_models(before).push(added));
            },
        }
        i += 1;
    }
    Some(tools)
}

/// The page in an answer.
pub fn parse_list_result(json: &Json) -> (r: Result<McpPage, McpError>)
    ensures
        match r {
            Ok(page) => page_in(json@) == Ok::<PageModel, Seq<char>>(page@),
            Err(error) => page_in(json@) == Err::<PageModel, Seq<char>>(error@),
        },
{
    if json.get("result").is_none() {
        return Err(McpError::new("mcp tools/list response is missing a result"));
    }
    let result = match json.get_json("result") {
        None => return Err(McpError::new("mcp tools/list result must carry a tools array")),
        Some(result) => result,
    };
    let items = match result.get_json("tools") {
        Some(Json::List(items)) => items,
        _ => return Err(McpError::new("mcp tools/list result must carry a tools array")),
    };
    match read_tools(&items) {
        None => Err(McpError::new("mcp tool entry must have a non-empty name")),
        Some(tools) => Ok(McpPage { tools, next_cursor: result.get_string("nextCursor") }),
    }
}

/// The tools that were listed so far.
#[verifier::ext_equal]
pub struct ListingModel {
    pub tools: Seq<McpToolModel>,
    pub cursor: Option<Seq<char>>,
    pub pages: nat,
}

/// The listing after a page, and whether it is complete.
pub open spec fn page_taken(listing: ListingModel, page: PageModel) -> (
    ListingModel,
    Result<bool, Seq<char>>,
) {
    let tools = listing.tools + page.tools;
    let pages = listing.pages + 1;
    if page.next_cursor is None || page.next_cursor->0.len() == 0 {
        (ListingModel { tools, cursor: listing.cursor, pages }, Ok(true))
    } else if pages >= MAX_MCP_PAGES {
        (
            ListingModel { tools, cursor: page.next_cursor, pages },
            Err("mcp tools/list returned too many pages"@),
        )
    } else {
        (ListingModel { tools, cursor: page.next_cursor, pages }, Ok(false))
    }
}

/// The tools that were listed so far.
#[derive(Debug)]
pub struct McpListing {
    tools: Vec<McpTool>,
    cursor: Option<String>,
    pages: usize,
}

impl View for McpListing {
    type V = ListingModel;

    closed spec fn view(&self) -> ListingModel {
        ListingModel {
            tools: mcp_tool_models(self.tools@),
            cursor: text_option(self.cursor),
            pages: self.pages as nat,
        }
    }
}

impl McpListing {
    pub fn new() -> (r: Self)
        ensures
            r@ == (ListingModel { tools: Seq::empty(), cursor: None, pages: 0 }),
    {
        let r = McpListing { tools: Vec::new(), cursor: None, pages: 0 };
        assert(r@.tools =~= Seq::<McpToolModel>::empty());
        r
    }

    /// Where the next page begins.
    pub fn cursor(&self) -> (r: &Option<String>)
        ensures
            text_option(*r) == self@.cursor,
    {
        &self.cursor
    }

    /// Takes a page and says whether the listing is complete.
    pub fn take_page(&mut self, page: McpPage) -> (r: Result<bool, McpError>)
        requires
            old(self)@.pages < MAX_MCP_PAGES,
        ensures
            final(self)@ == page_taken(old(self)@, page@).0,
            match r {
                Ok(done) => page_taken(old(self)@, page@).1 == Ok::<bool, Seq<char>>(done),
                Err(error) => page_taken(old(self)@, page@).1 == Err::<bool, Seq<char>>(error@),
            },
    {
        let ghost before = self.tools@;
        let McpPage { tools: mut added, next_cursor } = page;
        let ghost given = added@;
        self.tools.append(&mut added);
        assert(mcp_tool_models(self.tools@) =~= mcp_tool_models(before) + mcp_tool_models(given));
        self.pages = self.pages + 1;
        match next_cursor {
            None => Ok(true),
            Some(next) => {
                if next.as_str().is_empty() {
                    return Ok(true);
                }
                self.cursor = Some(next);
                if self.pages >= MAX_MCP_PAGES {
                    return Err(McpError::new("mcp tools/list returned too many pages"));
                }
                Ok(false)
            },
        }
    }

    pub fn into_tools(self) -> (r: Vec<McpTool>)
        ensures
            mcp_tool_models(r@) == self@.tools,
    {
        self.tools
    }
}

// ---------------------------------------------------------------------------
// Calls of tools
// ---------------------------------------------------------------------------

/// The text of an item of content: its text, or the item itself.
pub open spec fn item_text(item: Seq<char>) -> Seq<char> {
    match json_reading(item) {
        Ok(json) => match get_text(json, "text"@) {
            Some(text) => text,
            None => item,
        },
        Err(_) => item,
    }
}

/// What a call gave.
pub open spec fn call_result(json: JsonModel) -> Result<Seq<char>, Seq<char>> {
    if get_member(json, "result"@) is None {
        Err("mcp tools/call response is missing a result"@)
    } else {
        match get_value(json, "result"@) {
            None => Err("mcp tools/call result must carry a content array"@),
            Some(result) => if get_value(result, "isError"@) == Some(JsonModel::Bool(true)) {
                Err(
                    "mcp tool call failed: "@ + match get_member(result, "content"@) {
                        Some(content) => content,
                        None => "null"@,
                    },
                )
            } else {
                match get_value(result, "content"@) {
                    Some(JsonModel::List(items)) => Ok(
                        joined(Seq::new(items.len(), |i: int| item_text(items[i])), "\n"@),
                    ),
                    _ => Err("mcp tools/call result must carry a content array"@),
                }
            },
        }
    }
}

fn read_item(item: &str) -> (r: String)
    ensures
        r@ == item_text(item@),
{
    match read_json(item) {
        Ok(json) => match json.get_string("text") {
            Some(text) => text,
            None => item.to_owned(),
        },
        Err(_) => item.to_owned(),
    }
}

/// What a call gave.
pub fn parse_call_result(json: &Json) -> (r: Result<String, McpError>)
    ensures
        match r {
            Ok(text) => call_result(json@) == Ok::<Seq<char>, Seq<char>>(text@),
            Err(error) => call_result(json@) == Err::<Seq<char>, Seq<char>>(error@),
        },
{
    if json.get("result").is_none() {
        return Err(McpError::new("mcp tools/call response is missing a result"));
    }
    let result = match json.get_json("result") {
        None => return Err(McpError::new("mcp tools/call result must carry a content array")),
        Some(result) => result,
    };
    match result.get_json("isError") {
        Some(Json::Bool(true)) => {
            let content = match result.get("content") {
                Some(content) => content,
                None => "null".to_owned(),
            };
            return Err(
                McpError::new(labelled("mcp tool call failed: ", content.as_str()).as_str()),
            );
        },
        _ => {},
    }
    let items = match result.get_json("content") {
        Some(Json::List(items)) => items,
        _ => return Err(McpError::new("mcp tools/call result must carry a content array")),
    };
    let ghost all = Seq::new(items@.len(), |i: int| item_text(texts(items@)[i]));
    let mut parts: Vec<String> = Vec::new();
    let mut i: usize = 0;
    while i < items.len()
        invariant
            i <= items@.len(),
            all == Seq::new(items@.len(), |i: int| item_text(texts(items@)[i])),
            texts(parts@) == all.take(i as int),
        decreases items@.len() - i,
    {
        let part = read_item(items[i].as_str());
        assert(all[i as int] == part@);
        let ghost before = parts@;
        parts.push(part);
        assert(texts(parts@) =~= texts(before).push(part@));
        assert(all.take(i + 1) =~= all.take(i as int).push(all[i as int]));
        i += 1;
    }
    assert(all.take(all.len() as int) =~= all);
    assert(all =~= Seq::new(texts(items@).len(), |i: int| item_text(texts(items@)[i])));
    Ok(join(&parts, "\n"))
}

/// A listing is over after at most as many pages as it may have: it is complete or has failed.
pub proof fn law_listings_are_bounded(listing: ListingModel, page: PageModel)
    requires
        listing.pages < MAX_MCP_PAGES,
    ensures
        page_taken(listing, page).0.pages <= MAX_MCP_PAGES,
        page_taken(listing, page).1 == Ok::<bool, Seq<char>>(false) ==> page_taken(
            listing,
            page,
        ).0.pages < MAX_MCP_PAGES,
{
}

/// An entry of the environment is a name that shows something, an equals sign and a value, which may
/// hold more equals signs.
pub proof fn law_environment_entries(name: Seq<char>, value: Seq<char>)
    requires
        lacks(name, '='),
    ensures
        env_entry(name + "="@ + value) <==> !all_white(name),
        env_pair(name + "="@ + value) == (trim(name), value),
        !env_entry(name),
{
    reveal_strlit("=");
    let entry = name + "="@ + value;
    let n = name.len() as int;
    assert forall|j: int| 0 <= j < n implies entry[j] != '=' by {
        assert(entry[j] == name[j]);
    }
    assert(entry[n] == '=');
    lemma_find_char_is(entry, '=', n);
    assert(entry.take(n) =~= name);
    assert(entry.skip(n + 1) =~= value);
    lemma_find_char_is(name, '=', n);
    law_blank_texts_are_white(name, ' ');
}

/// A client needs a command that shows something and an environment of proper entries.
pub proof fn law_clients_are_configured(command: Seq<char>, env: Seq<Seq<char>>)
    ensures
        config_trouble(command, env) is None <==> !all_white(command) && forall|i: int|
            0 <= i < env.len() ==> env_entry(#[trigger] env[i]),
{
    law_blank_texts_are_white(command, ' ');
    lemma_bad_entry(env, 0);
}

proof fn lemma_bad_entry(entries: Seq<Seq<char>>, index: int)
    requires
        0 <= index <= entries.len(),
    ensures
        bad_entry(entries, index) is None <==> forall|i: int|
            index <= i < entries.len() ==> env_entry(#[trigger] entries[i]),
    decreases entries.len() - index,
{
    if index < entries.len() {
        lemma_bad_entry(entries, index + 1);
        assert(env_entry(entries[index]) || !env_entry(entries[index]));
    }
}

/// A line of a server is taken without the white space around it, up to 64 kilobytes of UTF-8 and not
/// beyond; an answer is good where it has a result and no error.
pub proof fn law_answers_are_checked(bytes: Seq<u8>, json: JsonModel, method: Seq<char>)
    ensures
        line_of(bytes) matches Ok(text) ==> valid_utf8(bytes) && text == trim(decode_utf8(bytes))
            && 0 < text.len() && byte_len(text) <= 65_536,
        result_trouble(json, method) is None <==> get_member(json, "error"@) is None && get_member(
            json,
            "result"@,
        ) is Some,
{
}

/// A tool is offered under a name that is not blank, with its description, if any, and its schema, or
/// an empty one; an entry without such a name spoils the whole page.
pub proof fn law_offered_tools_are_read(text: Seq<char>, items: Seq<Seq<char>>, n: int)
    requires
        0 <= n <= items.len(),
    ensures
        tool_in(text) matches Some(tool) ==> {
            &&& json_reading(text) matches Ok(json) && get_text(json, "name"@) == Some(tool.name)
                && (get_text(json, "description"@) matches Some(d) ==> tool.description == d) && (
            get_text(json, "description"@) is None ==> tool.description.len() == 0) && (get_member(
                json,
                "inputSchema"@,
            ) matches Some(schema) ==> tool.input_schema == schema) && (get_member(
                json,
                "inputSchema"@,
            ) is None ==> tool.input_schema == "{}"@)
            &&& !all_white(tool.name)
        },
        json_reading(text) matches Ok(json) ==> (get_text(json, "name"@) matches Some(name) ==> (
        tool_in(text) is Some <==> !all_white(name))),
        match tools_in(items, n) {
            Some(tools) => tools.len() == n && forall|i: int|
                0 <= i < n ==> tool_in(items[i]) == Some(#[trigger] tools[i]),
            None => exists|i: int| 0 <= i < n && tool_in(#[trigger] items[i]) is None,
        },
    decreases n,
{
    if let Ok(json) = json_reading(text) {
        if let Some(name) = get_text(json, "name"@) {
            law_blank_texts_are_white(name, ' ');
        }
    }
    if n > 0 {
        law_offered_tools_are_read(text, items, n - 1);
        let last = items[n - 1];
    }
}

/// A page of tools holds the tools of its list and says where the next page begins.
pub proof fn law_pages_hold_their_tools(json: JsonModel, result: JsonModel, items: Seq<Seq<char>>)
    requires
        get_value(json, "result"@) == Some(result),
        get_value(result, "tools"@) == Some(JsonModel::List(items)),
    ensures
        match page_in(json) {
            Ok(page) => tools_in(items, items.len() as int) == Some(page.tools) && page.next_cursor
                == get_text(result, "nextCursor"@),
            Err(_) => tools_in(items, items.len() as int) is None,
        },
{
}

/// An answer that tells of an error is refused with it; any other one is taken.
pub proof fn law_errors_are_refused(line: Seq<char>, method: Seq<char>, name: Seq<char>, a: Seq<char>)
    ensures
        json_reading(line) matches Ok(json) ==> match get_member(json, "error"@) {
            Some(error) => answer_on(line, method) matches Err(message) && ends(message, error)
                && initialize_trouble(line) is Some,
            None => answer_on(line, method) == Ok::<JsonModel, Seq<char>>(json) && (
            initialize_trouble(line) is None <==> get_member(json, "result"@) is Some),
        },
        json_reading(line) is Err ==> answer_on(line, method) is Err && initialize_trouble(line)
            is Some,
        all_white(name) <==> call_params_of(name, a) is Err,
        call_params_of(name, "null"@) == call_params_of(name, "{}"@),
{
    law_blank_texts_are_white(name, ' ');
    if let Ok(json) = json_reading(line) {
        if let Some(error) = get_member(json, "error"@) {
            let message = about(method, " failed: "@) + error;
            assert(message.skip(message.len() - error.len()) =~= error);
        }
    }
}

} // verus!
