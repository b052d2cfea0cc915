//! The events of a turn as JSON and as text.

use vstd::prelude::*;

use crate::agent_messages::AgentEvent;
#[allow(unused_imports)]
use crate::agent_messages::{CallModel, EventModel, ResultModel};
use crate::json::{field, quoted, write_object, write_truth};
#[allow(unused_imports)]
use crate::json::{
    field_models, json_string, law_json_texts_are_single_lines, lemma_object_on_one_line,
    lemma_plain_values_on_one_line, object_text, truth_text,
};
use crate::runtime_error::labelled;
use crate::text::{byte_count, size_text, take_chars};
#[allow(unused_imports)]
use crate::text::{byte_len, decimal, ends, first_chars, lacks, lemma_numbers_on_one_line};
use crate::tool_values::canonical_arguments;
#[allow(unused_imports)]
use crate::tool_values::{arguments_json, lemma_arguments_on_one_line};

verus! {

/// The kind of an event.
pub open spec fn event_type(event: EventModel) -> Seq<char> {
    match event {
        EventModel::UserMessage { .. } => "user_message"@,
        EventModel::AssistantText { .. } => "assistant_text"@,
        EventModel::AssistantDelta { .. } => "assistant_delta"@,
        EventModel::ToolCall(_) => "tool_call"@,
        EventModel::ToolResult(_) => "tool_result"@,
        EventModel::PermissionRequested(_) => "permission_requested"@,
        EventModel::RepeatedToolCall { .. } => "repeated_tool_call"@,
        EventModel::Error { .. } => "error"@,
        EventModel::Done => "done"@,
    }
}

/// What an event tells, as the fields of JSON.
pub open spec fn event_fields(event: EventModel) -> Seq<(Seq<char>, Seq<char>)> {
    match event {
        EventModel::UserMessage { content } => seq![("content"@, json_string(content))],
        EventModel::AssistantText { content } => seq![("content"@, json_string(content))],
        EventModel::AssistantDelta { content } => seq![("content"@, json_string(content))],
        EventModel::ToolCall(call) => seq![
            ("id"@, json_string(call.id)),
            ("name"@, json_string(call.name)),
            ("arguments"@, arguments_json(call.arguments)),
        ],
        EventModel::ToolResult(result) => seq![
            ("id"@, json_string(result.id)),
            ("name"@, json_string(result.name)),
            ("content"@, json_string(result.content)),
            ("is_error"@, truth_text(result.is_error)),
        ],
        EventModel::PermissionRequested(request) => seq![
            ("id"@, json_string(request.id)),
            ("tool"@, json_string(request.tool)),
            ("description"@, json_string(request.description)),
        ],
        EventModel::RepeatedToolCall { tool, count } => seq![
            ("tool"@, json_string(tool)),
            ("count"@, decimal(count)),
        ],
        EventModel::Error { message } => seq![("message"@, json_string(message))],
        EventModel::Done => Seq::empty(),
    }
}

/// An event as compact JSON, its kind before the rest.
pub open spec fn event_json(event: EventModel) -> Seq<char> {
    object_text(seq![("type"@, json_string(event_type(event)))] + event_fields(event))
}

/// An event as compact JSON, its kind before the rest.
pub fn write_event(event: &AgentEvent) -> (r: String)
    ensures
        r@ == event_json(event@),
{
    let kind = match event {
        AgentEvent::UserMessage { .. } => "user_message",
        AgentEvent::AssistantText { .. } => "assistant_text",
        AgentEvent::AssistantDelta { .. } => "assistant_delta",
        AgentEvent::ToolCall(_) => "tool_call",
        AgentEvent::ToolResult(_) => "tool_result",
        AgentEvent::PermissionRequested(_) => "permission_requested",
        AgentEvent::RepeatedToolCall { .. } => "repeated_tool_call",
        AgentEvent::Error { .. } => "error",
        AgentEvent::Done => "done",
    };
    let mut fields = vec![field("type", quoted(kind))];
    match event {
        AgentEvent::UserMessage { content } => {
            fields.push(field("content", quoted(content.as_str())));
        },
        AgentEvent::AssistantText { content } => {
            fields.push(field("content", quoted(content.as_str())));
        },
        AgentEvent::AssistantDelta { content } => {
            fields.push(field("content", quoted(content.as_str())));
        },
        AgentEvent::ToolCall(call) => {
            fields.push(field("id", quoted(call.id.as_str())));
            fields.push(field("name", quoted(call.name.as_str())));
            fields.push(field("arguments", canonical_arguments(&call.arguments)));
        },
        AgentEvent::ToolResult(result) => {
            fields.push(field("id", quoted(result.id.as_str())));
            fields.push(field("name", quoted(result.name.as_str())));
            fields.push(field("content", quoted(result.content.as_str())));
            fields.push(field("is_error", write_truth(result.is_error)));
        },
        AgentEvent::PermissionRequested(request) => {
            fields.push(field("id", quoted(request.id.as_str())));
            fields.push(field("tool", quoted(request.tool.as_str())));
            fields.push(field("description", quoted(request.description.as_str())));
        },
        AgentEvent::RepeatedToolCall { tool, count } => {
            fields.push(field("tool", quoted(tool.as_str())));
            fields.push(field("count", size_text(*count)));
        },
        AgentEvent::Error { message } => {
            fields.push(field("message", quoted(message.as_str())));
        },
        AgentEvent::Done => {},
    }
    assert(field_models(fields@) =~= seq![("type"@, json_string(event_type(event@)))]
        + event_fields(event@));
    write_object(&fields)
}

/// The longest content that is shown whole.
pub const PREVIEW_BYTES: usize = 600;

/// The beginning of long content.
pub open spec fn previewed(content: Seq<char>) -> Seq<char> {
    if byte_len(content) > PREVIEW_BYTES {
        first_chars(content, PREVIEW_BYTES as nat) + "..."@
    } else {
        content
    }
}

/// The beginning of long content.
pub fn preview(content: &str) -> (r: String)
    ensures
        r@ == previewed(content@),
{
    if byte_count(content) > PREVIEW_BYTES {
        let mut r = take_chars(content, PREVIEW_BYTES);
        r.push_str("...");
        r
    } else {
        content.to_owned()
    }
}

/// An event as a line of a demonstration.
pub open spec fn event_line(event: EventModel) -> Seq<char> {
    match event {
        EventModel::UserMessage { content } => "user: "@ + content,
        EventModel::AssistantText { content } => "assistant: "@ + content,
        EventModel::AssistantDelta { content } => "assistant delta: "@ + content,
        EventModel::ToolCall(call) => "tool call: "@ + call.name + " ("@ + call.id + ")"@,
        EventModel::ToolResult(result) => "tool result: "@ + result.content,
        EventModel::PermissionRequested(request) => "permission: "@ + request.description,
        EventModel::RepeatedToolCall { tool, count } => "repeated tool call: "@ + tool + " (x"@
            + decimal(count) + ")"@,
        EventModel::Error { message } => "error: "@ + message,
        EventModel::Done => "done"@,
    }
}

/// A call that was repeated.
pub(crate) fn tell_repeated(label: &str, tool: &str, count: usize) -> (r: String)
    ensures
        r@ == label@ + tool@ + " (x"@ + decimal(count as nat) + ")"@,
{
    let mut r = labelled(label, tool);
    r.push_str(" (x");
    r.push_str(size_text(count).as_str());
    r.push_str(")");
    r
}

/// An event as a line of a demonstration.
pub fn describe_event(event: &AgentEvent) -> (r: String)
    ensures
        r@ == event_line(event@),
{
    match event {
        AgentEvent::UserMessage { content } => labelled("user: ", content.as_str()),
        AgentEvent::AssistantText { content } => labelled("assistant: ", content.as_str()),
        AgentEvent::AssistantDelta { content } => labelled("assistant delta: ", content.as_str()),
        AgentEvent::ToolCall(call) => {
            let mut r = labelled("tool call: ", call.name.as_str());
            r.push_str(" (");
            r.push_str(call.id.as_str());
            r.push_str(")");
            r
        },
        AgentEvent::ToolResult(result) => labelled("tool result: ", result.content.as_str()),
        AgentEvent::PermissionRequested(request) => labelled(
            "permission: ",
            request.description.as_str(),
        ),
        AgentEvent::RepeatedToolCall { tool, count } => tell_repeated(
            "repeated tool call: ",
            tool.as_str(),
            *count,
        ),
        AgentEvent::Error { message } => labelled("error: ", message.as_str()),
        AgentEvent::Done => "done".to_owned(),
    }
}

/// An event stands on one line, so a reader can tell the events of a stream apart by line ends.
pub proof fn law_events_are_single_lines(event: EventModel)
    ensures
        lacks(event_json(event), '\n'),
{
    let fields = seq![("type"@, json_string(event_type(event)))] + event_fields(event);
    assert forall|i: int| 0 <= i < fields.len() implies lacks((#[trigger] fields[i]).1, '\n') by {
        law_json_texts_are_single_lines(event_type(event));
        match event {
            EventModel::UserMessage { content } => law_json_texts_are_single_lines(content),
            EventModel::AssistantText { content } => law_json_texts_are_single_lines(content),
            EventModel::AssistantDelta { content } => law_json_texts_are_single_lines(content),
            EventModel::ToolCall(call) => {
                law_json_texts_are_single_lines(call.id);
                law_json_texts_are_single_lines(call.name);
                lemma_arguments_on_one_line(call.arguments);
            },
            EventModel::ToolResult(result) => {
                law_json_texts_are_single_lines(result.id);
                law_json_texts_are_single_lines(result.name);
                law_json_texts_are_single_lines(result.content);
                lemma_plain_values_on_one_line(result.is_error, None);
            },
            EventModel::PermissionRequested(request) => {
                law_json_texts_are_single_lines(request.id);
                law_json_texts_are_single_lines(request.tool);
                law_json_texts_are_single_lines(request.description);
            },
            EventModel::RepeatedToolCall { tool, count } => {
                law_json_texts_are_single_lines(tool);
                lemma_numbers_on_one_line(count as int);
            },
            EventModel::Error { message } => law_json_texts_are_single_lines(message),
            EventModel::Done => {},
        }
    }
    lemma_object_on_one_line(fields);
}

/// What is shown of a long text is its beginning; a text of six hundred bytes or less is shown whole.
pub proof fn law_previews_are_short(content: Seq<char>)
    ensures
        byte_len(content) <= 600 ==> previewed(content) == content,
        byte_len(content) > 600 && content.len() > 600 ==> previewed(content) == content.take(600)
            + "..."@,
        byte_len(content) > 600 && content.len() <= 600 ==> previewed(content) == content + "..."@,
{
}

/// The line of an event says what was said, or which tool was called under which identifier.
pub proof fn law_events_are_told(text: Seq<char>, call: CallModel, result: ResultModel, n: nat)
    ensures
        ends(event_line(EventModel::UserMessage { content: text }), ": "@ + text),
        ends(event_line(EventModel::AssistantText { content: text }), ": "@ + text),
        ends(event_line(EventModel::AssistantDelta { content: text }), ": "@ + text),
        ends(event_line(EventModel::Error { message: text }), ": "@ + text),
        ends(event_line(EventModel::ToolCall(call)), ": "@ + call.name + " ("@ + call.id + ")"@),
        ends(event_line(EventModel::ToolResult(result)), ": "@ + result.content),
        ends(
            event_line(EventModel::RepeatedToolCall { tool: text, count: n }),
            ": "@ + text + " (x"@ + decimal(n) + ")"@,
        ),
{
    reveal_strlit(": ");
    reveal_strlit("user: ");
    reveal_strlit("assistant: ");
    reveal_strlit("assistant delta: ");
    reveal_strlit("error: ");
    reveal_strlit("tool call: ");
    reveal_strlit("tool result: ");
    reveal_strlit("repeated tool call: ");
    let tail = ": "@ + text;
    let a = event_line(EventModel::UserMessage { content: text });
    assert(a.skip(a.len() - tail.len()) =~= tail);
    let b = event_line(EventModel::AssistantText { content: text });
    assert(b.skip(b.len() - tail.len()) =~= tail);
    let c = event_line(EventModel::AssistantDelta { content: text });
    assert(c.skip(c.len() - tail.len()) =~= tail);
    let d = event_line(EventModel::Error { message: text });
    assert(d.skip(d.len() - tail.len()) =~= tail);
    let e = event_line(EventModel::ToolCall(call));
    let called = ": "@ + call.name + " ("@ + call.id + ")"@;
    assert(e.skip(e.len() - called.len()) =~= called);
    let f = event_line(EventModel::ToolResult(result));
    let given = ": "@ + result.content;
    assert(f.skip(f.len() - given.len()) =~= given);
    let g = event_line(EventModel::RepeatedToolCall { tool: text, count: n });
    let again = ": "@ + text + " (x"@ + decimal(n) + ")"@;
    assert(g.skip(g.len() - again.len()) =~= again);
}

} // verus!
