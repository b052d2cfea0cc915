//! What a model is asked, as JSON.

use vstd::prelude::*;

use crate::agent_messages::{
    ConversationMessage, ModelMode, ModelRequest, RouteRequest, ToolResult, ToolSpec,
};
#[allow(unused_imports)]
use crate::agent_messages::{
    MessageModel, ModelRequestModel, ResultModel, RouteModel, SpecModel, message_models,
    result_models, spec_models,
};
use crate::json::{field, quoted, write_array, write_object, write_optional, write_truth};
#[allow(unused_imports)]
use crate::json::{
    array_text, field_models, json_string, law_json_texts_are_single_lines,
    lemma_array_on_one_line, lemma_object_on_one_line, lemma_plain_values_on_one_line, object_text,
    optional_text, truth_text,
};
use crate::runtime_error::labelled;
#[allow(unused_imports)]
use crate::text::{lacks, texts};

verus! {

/// A tool result as JSON.
pub open spec fn result_json(m: ResultModel) -> Seq<char> {
    object_text(
        seq![
            ("id"@, json_string(m.id)),
            ("name"@, json_string(m.name)),
            ("content"@, json_string(m.content)),
            ("is_error"@, truth_text(m.is_error)),
        ],
    )
}

fn write_result(result: &ToolResult) -> (r: String)
    ensures
        r@ == result_json(result@),
{
    let fields = vec![
        field("id", quoted(result.id.as_str())),
        field("name", quoted(result.name.as_str())),
        field("content", quoted(result.content.as_str())),
        field("is_error", write_truth(result.is_error)),
    ];
    assert(field_models(fields@) =~= seq![
        ("id"@, json_string(result@.id)),
        ("name"@, json_string(result@.name)),
        ("content"@, json_string(result@.content)),
        ("is_error"@, truth_text(result@.is_error)),
    ]);
    write_object(&fields)
}

pub open spec fn results_json(list: Seq<ResultModel>) -> Seq<Seq<char>> {
    Seq::new(list.len(), |i: int| result_json(list[i]))
}

fn write_results(list: &Vec<ToolResult>) -> (r: String)
    ensures
        r@ == array_text(results_json(result_models(list@))),
{
    let ghost all = results_json(result_models(list@));
    let mut parts: Vec<String> = Vec::new();
    let mut i: usize = 0;
    while i < list.len()
        invariant
            i <= list@.len(),
            all == results_json(result_models(list@)),
            texts(parts@) == all.take(i as int),
        decreases list@.len() - i,
    {
        let part = write_result(&list[i]);
        assert(all[i as int] == part@);
        let ghost before = parts@;
        parts.push(part);
        assert(texts(parts@) =~= texts(before).push(part@));
        assert(all.take(i + 1) =~= all.take(i as int).push(all[i as int]));
        i += 1;
    }
    assert(all.take(all.len() as int) =~= all);
    write_array(&parts)
}

/// The description of a tool as JSON.
pub open spec fn tool_json(m: SpecModel) -> Seq<char> {
    object_text(
        seq![
            ("name"@, json_string(m.name)),
            ("description"@, json_string(m.description)),
            ("input_schema"@, json_string(m.input_schema)),
        ],
    )
}

fn write_tool(spec: &ToolSpec) -> (r: String)
    ensures
        r@ == tool_json(spec@),
{
    let fields = vec![
        field("name", quoted(spec.name.as_str())),
        field("description", quoted(spec.description.as_str())),
        field("input_schema", quoted(spec.input_schema.as_str())),
    ];
    assert(field_models(fields@) =~= seq![
        ("name"@, json_string(spec@.name)),
        ("description"@, json_string(spec@.description)),
        ("input_schema"@, json_string(spec@.input_schema)),
    ]);
    write_object(&fields)
}

pub open spec fn tools_json(list: Seq<SpecModel>) -> Seq<Seq<char>> {
    Seq::new(list.len(), |i: int| tool_json(list[i]))
}

fn write_tools(list: &Vec<ToolSpec>) -> (r: String)
    ensures
        r@ == array_text(tools_json(spec_models(list@))),
{
    let ghost all = tools_json(spec_models(list@));
    let mut parts: Vec<String> = Vec::new();
    let mut i: usize = 0;
    while i < list.len()
        invariant
            i <= list@.len(),
            all == tools_json(spec_models(list@)),
            texts(parts@) == all.take(i as int),
        decreases list@.len() - i,
    {
        let part = write_tool(&list[i]);
        assert(all[i as int] == part@);
        let ghost before = parts@;
        parts.push(part);
        assert(texts(parts@) =~= texts(before).push(part@));
        assert(all.take(i + 1) =~= all.take(i as int).push(all[i as int]));
        i += 1;
    }
    assert(all.take(all.len() as int) =~= all);
    write_array(&parts)
}

/// A message as JSON.
pub open spec fn message_json(m: MessageModel) -> Seq<char> {
    object_text(seq![("role"@, json_string(m.role)), ("content"@, json_string(m.content))])
}

fn write_message(message: &ConversationMessage) -> (r: String)
    ensures
        r@ == message_json(message@),
{
    let fields = vec![
        field("role", quoted(message.role.as_str())),
        field("content", quoted(message.content.as_str())),
    ];
    assert(field_models(fields@) =~= seq![
        ("role"@, json_string(message@.role)),
        ("content"@, json_string(message@.content)),
    ]);
    write_object(&fields)
}

pub open spec fn messages_json(list: Seq<MessageModel>) -> Seq<Seq<char>> {
    Seq::new(list.len(), |i: int| message_json(list[i]))
}

fn write_messages(list: &Vec<ConversationMessage>) -> (r: String)
    ensures
        r@ == array_text(messages_json(message_models(list@))),
{
    let ghost all = messages_json(message_models(list@));
    let mut parts: Vec<String> = Vec::new();
    let mut i: usize = 0;
    while i < list.len()
        invariant
            i <= list@.len(),
            all == messages_json(message_models(list@)),
            texts(parts@) == all.take(i as int),
        decreases list@.len() - i,
    {
        let part = write_message(&list[i]);
        assert(all[i as int] == part@);
        let ghost before = parts@;
        parts.push(part);
        assert(texts(parts@) =~= texts(before).push(part@));
        assert(all.take(i + 1) =~= all.take(i as int).push(all[i as int]));
        i += 1;
    }
    assert(all.take(all.len() as int) =~= all);
    write_array(&parts)
}

/// The name of a routing profile.
pub open spec fn mode_name(mode: ModelMode) -> Seq<char> {
    match mode {
        ModelMode::Default => "Default"@,
        ModelMode::Fast => "Fast"@,
        ModelMode::Strong => "Strong"@,
    }
}

/// The name of a routing profile.
pub fn mode_text(mode: ModelMode) -> (r: &'static str)
    ensures
        r@ == mode_name(mode),
{
    match mode {
        ModelMode::Default => "Default",
        ModelMode::Fast => "Fast",
        ModelMode::Strong => "Strong",
    }
}

pub open spec fn route_json(m: RouteModel) -> Seq<char> {
    object_text(
        seq![
            ("requested_model"@, optional_text(m.requested_model)),
            ("mode"@, json_string(mode_name(m.mode))),
            ("requires_tools"@, truth_text(m.requires_tools)),
            ("requires_streaming"@, truth_text(m.requires_streaming)),
        ],
    )
}

fn write_route(route: &RouteRequest) -> (r: String)
    ensures
        r@ == route_json(route@),
{
    let fields = vec![
        field("requested_model", write_optional(&route.requested_model)),
        field("mode", quoted(mode_text(route.mode))),
        field("requires_tools", write_truth(route.requires_tools)),
        field("requires_streaming", write_truth(route.requires_streaming)),
    ];
    assert(field_models(fields@) =~= seq![
        ("requested_model"@, optional_text(route@.requested_model)),
        ("mode"@, json_string(mode_name(route@.mode))),
        ("requires_tools"@, truth_text(route@.requires_tools)),
        ("requires_streaming"@, truth_text(route@.requires_streaming)),
    ]);
    write_object(&fields)
}

/// A request as JSON.
pub open spec fn request_json(m: ModelRequestModel) -> Seq<char> {
    object_text(
        seq![
            ("system_prompt"@, json_string(m.system_prompt)),
            ("prompt"@, json_string(m.prompt)),
            ("tool_results"@, array_text(results_json(m.tool_results))),
            ("tools"@, array_text(tools_json(m.tools))),
            ("conversation"@, array_text(messages_json(m.conversation))),
            ("route"@, route_json(m.route)),
        ],
    )
}

/// A request as JSON.
pub fn write_request(request: &ModelRequest) -> (r: String)
    ensures
        r@ == request_json(request@),
{
    let fields = vec![
        field("system_prompt", quoted(request.system_prompt.as_str())),
        field("prompt", quoted(request.prompt.as_str())),
        field("tool_results", write_results(&request.tool_results)),
        field("tools", write_tools(&request.tools)),
        field("conversation", write_messages(&request.conversation)),
        field("route", write_route(&request.route)),
    ];
    assert(field_models(fields@) =~= seq![
        ("system_prompt"@, json_string(request@.system_prompt)),
        ("prompt"@, json_string(request@.prompt)),
        ("tool_results"@, array_text(results_json(request@.tool_results))),
        ("tools"@, array_text(tools_json(request@.tools))),
        ("conversation"@, array_text(messages_json(request@.conversation))),
        ("route"@, route_json(request@.route)),
    ]);
    write_object(&fields)
}

/// What a model that has no tools of its own is told before the request.
pub const BRIDGE_NOTE: &'static str = "You are the language model inside A/RVM. Do not execute tools yourself. Decide whether to answer the user or request exactly one tool from the supplied list. Reply with exactly one JSON object and no markdown. Use one of these shapes: {\"kind\":\"text\",\"text\":\"...\"} or {\"kind\":\"tool_call\",\"id\":\"call-1\",\"name\":\"tool_name\",\"arguments\":{}}. Return valid JSON only.\n\nRequest JSON:\n";

/// A request for a model that has no tools of its own.
pub fn bridge_instruction(request: &ModelRequest) -> (r: String)
    ensures
        r@ == BRIDGE_NOTE@ + request_json(request@),
{
    labelled(BRIDGE_NOTE, write_request(request).as_str())
}

proof fn lemma_result_on_one_line(m: ResultModel)
    ensures
        lacks(result_json(m), '\n'),
{
    law_json_texts_are_single_lines(m.id);
    law_json_texts_are_single_lines(m.name);
    law_json_texts_are_single_lines(m.content);
    lemma_plain_values_on_one_line(m.is_error, None);
    lemma_object_on_one_line(
        seq![
            ("id"@, json_string(m.id)),
            ("name"@, json_string(m.name)),
            ("content"@, json_string(m.content)),
            ("is_error"@, truth_text(m.is_error)),
        ],
    );
}

proof fn lemma_tool_on_one_line(m: SpecModel)
    ensures
        lacks(tool_json(m), '\n'),
{
    law_json_texts_are_single_lines(m.name);
    law_json_texts_are_single_lines(m.description);
    law_json_texts_are_single_lines(m.input_schema);
    lemma_object_on_one_line(
        seq![
            ("name"@, json_string(m.name)),
            ("description"@, json_string(m.description)),
            ("input_schema"@, json_string(m.input_schema)),
        ],
    );
}

proof fn lemma_message_on_one_line(m: MessageModel)
    ensures
        lacks(message_json(m), '\n'),
{
    law_json_texts_are_single_lines(m.role);
    law_json_texts_are_single_lines(m.content);
    lemma_object_on_one_line(
        seq![("role"@, json_string(m.role)), ("content"@, json_string(m.content))],
    );
}

proof fn lemma_route_on_one_line(m: RouteModel)
    ensures
        lacks(route_json(m), '\n'),
{
    law_json_texts_are_single_lines(mode_name(m.mode));
    lemma_plain_values_on_one_line(m.requires_tools, m.requested_model);
    lemma_plain_values_on_one_line(m.requires_streaming, None);
    lemma_object_on_one_line(
        seq![
            ("requested_model"@, optional_text(m.requested_model)),
            ("mode"@, json_string(mode_name(m.mode))),
            ("requires_tools"@, truth_text(m.requires_tools)),
            ("requires_streaming"@, truth_text(m.requires_streaming)),
        ],
    );
}

/// A request stands on one line, so the line end after it ends it.
pub proof fn law_requests_are_single_lines(m: ModelRequestModel)
    ensures
        lacks(request_json(m), '\n'),
{
    law_json_texts_are_single_lines(m.system_prompt);
    law_json_texts_are_single_lines(m.prompt);
    let results = results_json(m.tool_results);
    assert forall|i: int| 0 <= i < results.len() implies lacks(#[trigger] results[i], '\n') by {
        lemma_result_on_one_line(m.tool_results[i]);
    }
    lemma_array_on_one_line(results);
    let tools = tools_json(m.tools);
    assert forall|i: int| 0 <= i < tools.len() implies lacks(#[trigger] tools[i], '\n') by {
        lemma_tool_on_one_line(m.tools[i]);
    }
    lemma_array_on_one_line(tools);
    let messages = messages_json(m.conversation);
    assert forall|i: int| 0 <= i < messages.len() implies lacks(#[trigger] messages[i], '\n') by {
        lemma_message_on_one_line(m.conversation[i]);
    }
    lemma_array_on_one_line(messages);
    lemma_route_on_one_line(m.route);
    lemma_object_on_one_line(
        seq![
            ("system_prompt"@, json_string(m.system_prompt)),
            ("prompt"@, json_string(m.prompt)),
            ("tool_results"@, array_text(results)),
            ("tools"@, array_text(tools)),
            ("conversation"@, array_text(messages)),
            ("route"@, route_json(m.route)),
        ],
    );
}

} // verus!
