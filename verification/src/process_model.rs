//! A model that runs as a process and speaks newline-delimited JSON.

use vstd::prelude::*;

use crate::agent_messages::{ModelError, ModelRequest, ModelResponse, ToolArguments, ToolCall};
#[allow(unused_imports)]
use crate::agent_messages::{ModelRequestModel, ResponseModel};
use crate::json::{Json, UNEXPECTED_SHAPE, read_json, read_optional_name};
#[allow(unused_imports)]
use crate::json::{
    JsonModel, has_tag, json_reading, optional_name, record, slot, tagged, text_slot,
};
use crate::model_replies::{read_arguments, read_part_text};
#[allow(unused_imports)]
use crate::model_replies::{arguments_in, call_of, part_text};
use crate::model_requests::write_request;
#[allow(unused_imports)]
use crate::model_requests::request_json;
use crate::runtime_error::labelled;
#[allow(unused_imports)]
use crate::text::{all_white, blank, law_blank_texts_are_white, text_option, texts, trim};
use crate::text::{is_blank, trimmed};
#[allow(unused_imports)]
use crate::tool_values::{Arguments, arguments_model};

verus! {

/// A model adapter for a process that speaks A/RVM's newline-delimited JSON
/// protocol over stdin and stdout.
///
/// The executable is launched directly, without a shell. The child receives a
/// serialized [`ModelRequest`] and can emit text, tool calls, errors, and a
/// final `done` event one line at a time.
#[derive(Debug)]
pub struct ProcessModel {
    pub program: String,
    pub arguments: Vec<String>,
    pub working_directory: Option<String>,
}

/// What a [`ProcessModel`] runs.
#[verifier::ext_equal]
pub struct LaunchModel {
    pub program: Seq<char>,
    pub arguments: Seq<Seq<char>>,
    pub working_directory: Option<Seq<char>>,
}

impl View for ProcessModel {
    type V = LaunchModel;

    open spec fn view(&self) -> LaunchModel {
        LaunchModel {
            program: self.program@,
            arguments: texts(self.arguments@),
            working_directory: text_option(self.working_directory),
        }
    }
}

impl ProcessModel {
    pub fn new(program: &str) -> (r: Self)
        ensures
            r@ == (LaunchModel {
                program: program@,
                arguments: Seq::empty(),
                working_directory: None,
            }),
    {
        let r = ProcessModel {
            program: program.to_owned(),
            arguments: Vec::new(),
            working_directory: None,
        };
        assert(texts(r.arguments@) =~= Seq::<Seq<char>>::empty());
        r
    }

    pub fn with_arguments(self, arguments: Vec<String>) -> (r: Self)
        ensures
            r@ == (LaunchModel { arguments: texts(arguments@), ..self@ }),
    {
        ProcessModel {
            program: self.program,
            arguments,
            working_directory: self.working_directory,
        }
    }

    pub fn with_working_directory(self, directory: &str) -> (r: Self)
        ensures
            r@ == (LaunchModel { working_directory: Some(directory@), ..self@ }),
    {
        ProcessModel {
            program: self.program,
            arguments: self.arguments,
            working_directory: Some(directory.to_owned()),
        }
    }

    /// The line that the process is sent.
    pub fn request_line(&self, request: &ModelRequest) -> (r: String)
        ensures
            r@ == request_json(request@) + "\n"@,
    {
        let mut r = write_request(request);
        r.push_str("\n");
        r
    }

    /// The error of a process that could not be started.
    pub fn start_error(&self, message: &str) -> (r: ModelError)
        ensures
            r@ == "failed to start model process '"@ + self@.program + "': "@ + message@,
    {
        let mut text = "failed to start model process '".to_owned();
        text.push_str(self.program.as_str());
        text.push_str("': ");
        text.push_str(message);
        ModelError::new(text.as_str())
    }
}

// ---------------------------------------------------------------------------
// Events
// ---------------------------------------------------------------------------

/// One line of a process.
#[derive(Debug, PartialEq, Eq)]
pub enum ProcessModelEvent {
    Text(Option<String>),
    TextDelta(String),
    ToolCall(ToolCall),
    Error(String),
    Done,
    Ignored,
}

/// What a [`ProcessModelEvent`] says.
#[verifier::ext_equal]
pub enum LineModel {
    Text(Option<Seq<char>>),
    TextDelta(Seq<char>),
    ToolCall(ResponseModel),
    Error(Seq<char>),
    Done,
    Ignored,
}

/// An event as the contracts see it.
pub open spec fn event_seen(r: Result<ProcessModelEvent, String>) -> Result<LineModel, Seq<char>> {
    match r {
        Err(message) => Err(message@),
        Ok(ProcessModelEvent::Text(text)) => Ok(LineModel::Text(text_option(text))),
        Ok(ProcessModelEvent::TextDelta(text)) => Ok(LineModel::TextDelta(text@)),
        Ok(ProcessModelEvent::ToolCall(call)) => Ok(
            LineModel::ToolCall(ResponseModel::ToolCall(call@)),
        ),
        Ok(ProcessModelEvent::Error(message)) => Ok(LineModel::Error(message@)),
        Ok(ProcessModelEvent::Done) => Ok(LineModel::Done),
        Ok(ProcessModelEvent::Ignored) => Ok(LineModel::Ignored),
    }
}

/// A text event of a JSON value.
pub open spec fn text_event(json: JsonModel) -> Result<LineModel, Seq<char>> {
    let text = optional_name(slot(json, "text"@, 1));
    let part = part_text(slot(json, "part"@, 2));
    if record(json, 3) && text is Some && part is Some {
        Ok(
            LineModel::Text(
                if text->0 is Some {
                    text->0
                } else {
                    part->0
                },
            ),
        )
    } else {
        Err(UNEXPECTED_SHAPE@)
    }
}

/// A tool call of a JSON value.
pub open spec fn call_event(json: JsonModel) -> Result<LineModel, Seq<char>> {
    let id = text_slot(json, "id"@, 1);
    let name = text_slot(json, "name"@, 2);
    let given = slot(json, "arguments"@, 3);
    if record(json, 4) && id is Some && name is Some && given is Some {
        match arguments_in(given->0) {
            Ok(arguments) => Ok(LineModel::ToolCall(call_of(id->0, name->0, arguments))),
            Err(message) => Err(message),
        }
    } else {
        Err(UNEXPECTED_SHAPE@)
    }
}

/// The event that a JSON value is.
pub open spec fn event_of(json: JsonModel) -> Result<LineModel, Seq<char>> {
    let key = "type"@;
    if tagged(json, key, "text"@, "0"@) {
        text_event(json)
    } else if tagged(json, key, "text_delta"@, "1"@) {
        match text_slot(json, "text"@, 1) {
            Some(text) => if record(json, 2) {
                Ok(LineModel::TextDelta(text))
            } else {
                Err(UNEXPECTED_SHAPE@)
            },
            None => Err(UNEXPECTED_SHAPE@),
        }
    } else if tagged(json, key, "tool_call"@, "2"@) {
        call_event(json)
    } else if tagged(json, key, "error"@, "3"@) {
        match text_slot(json, "message"@, 1) {
            Some(message) => if record(json, 2) {
                Ok(LineModel::Error(message))
            } else {
                Err(UNEXPECTED_SHAPE@)
            },
            None => Err(UNEXPECTED_SHAPE@),
        }
    } else if tagged(json, key, "done"@, "4"@) {
        Ok(LineModel::Done)
    } else if has_tag(json, key) {
        Ok(LineModel::Ignored)
    } else {
        Err(UNEXPECTED_SHAPE@)
    }
}

/// The event on a line.
pub open spec fn event_on(line: Seq<char>) -> Result<LineModel, Seq<char>> {
    match json_reading(line) {
        Err(message) => Err(message),
        Ok(json) => event_of(json),
    }
}

fn read_text_event(json: &Json) -> (r: Result<ProcessModelEvent, String>)
    ensures
        event_seen(r) == text_event(json@),
{
    if !json.is_record(3) {
        return Err(UNEXPECTED_SHAPE.to_owned());
    }
    match (read_optional_name(json.slot("text", 1)), read_part_text(json.slot("part", 2))) {
        (Some(Some(text)), Some(_)) => Ok(ProcessModelEvent::Text(Some(text))),
        (Some(None), Some(part)) => Ok(ProcessModelEvent::Text(part)),
        _ => Err(UNEXPECTED_SHAPE.to_owned()),
    }
}

fn read_call_event(json: &Json) -> (r: Result<ProcessModelEvent, String>)
    ensures
        event_seen(r) == call_event(json@),
{
    if !json.is_record(4) {
        return Err(UNEXPECTED_SHAPE.to_owned());
    }
    match (json.text_slot("id", 1), json.text_slot("name", 2), json.slot("arguments", 3)) {
        (Some(id), Some(name), Some(given)) => match read_arguments(given.as_str()) {
            Err(message) => Err(message),
            Ok(arguments) => Ok(
                ProcessModelEvent::ToolCall(
                    ToolCall::new(id.as_str(), name.as_str(), arguments),
                ),
            ),
        },
        _ => Err(UNEXPECTED_SHAPE.to_owned()),
    }
}

/// The event that a JSON value is.
pub fn read_event(json: &Json) -> (r: Result<ProcessModelEvent, String>)
    ensures
        event_seen(r) == event_of(json@),
{
    let key = "type";
    if json.is_tagged(key, "text", "0") {
        return read_text_event(json);
    }
    if json.is_tagged(key, "text_delta", "1") {
        return match json.text_slot("text", 1) {
            Some(text) => if json.is_record(2) {
                Ok(ProcessModelEvent::TextDelta(text))
            } else {
                Err(UNEXPECTED_SHAPE.to_owned())
            },
            None => Err(UNEXPECTED_SHAPE.to_owned()),
        };
    }
    if json.is_tagged(key, "tool_call", "2") {
        return read_call_event(json);
    }
    if json.is_tagged(key, "error", "3") {
        return match json.text_slot("message", 1) {
            Some(message) => if json.is_record(2) {
                Ok(ProcessModelEvent::Error(message))
            } else {
                Err(UNEXPECTED_SHAPE.to_owned())
            },
            None => Err(UNEXPECTED_SHAPE.to_owned()),
        };
    }
    if json.is_tagged(key, "done", "4") {
        Ok(ProcessModelEvent::Done)
    } else if json.carries_tag(key) {
        Ok(ProcessModelEvent::Ignored)
    } else {
        Err(UNEXPECTED_SHAPE.to_owned())
    }
}

// ---------------------------------------------------------------------------
// A run of the process
// ---------------------------------------------------------------------------

/// What a process has said so far.
#[verifier::ext_equal]
pub struct RunModel {
    pub text: Seq<char>,
    pub response: Option<ResponseModel>,
}

/// What a line does to a run.
#[verifier::ext_equal]
pub enum StepModel {
    /// The run goes on; the text, if any, is passed on.
    Continue(Option<Seq<char>>),
    Done,
    Failed(Seq<char>),
}

/// A run with a piece of text.
pub open spec fn with_chunk(run: RunModel, chunk: Seq<char>) -> (RunModel, StepModel) {
    if chunk.len() == 0 {
        (run, StepModel::Continue(None))
    } else {
        (RunModel { text: run.text + chunk, ..run }, StepModel::Continue(Some(chunk)))
    }
}

/// A run after a line.
pub open spec fn line_taken(run: RunModel, line: Seq<char>) -> (RunModel, StepModel) {
    if blank(line) {
        (run, StepModel::Continue(None))
    } else {
        match event_on(line) {
            Err(message) => (
                run,
                StepModel::Failed("invalid model event: "@ + message + "; line="@ + line),
            ),
            Ok(LineModel::Text(Some(chunk))) => with_chunk(run, chunk),
            Ok(LineModel::Text(None)) => (run, StepModel::Continue(None)),
            Ok(LineModel::TextDelta(chunk)) => with_chunk(run, chunk),
            Ok(LineModel::ToolCall(call)) => if run.response is Some {
                (run, StepModel::Failed("model emitted more than one response"@))
            } else {
                (RunModel { response: Some(call), ..run }, StepModel::Continue(None))
            },
            Ok(LineModel::Error(message)) => (run, StepModel::Failed(message)),
            Ok(LineModel::Done) => (run, StepModel::Done),
            Ok(LineModel::Ignored) => (run, StepModel::Continue(None)),
        }
    }
}

/// How a process ended.
#[derive(Debug, PartialEq, Eq)]
pub enum ProcessExit {
    Success,
    /// How it failed, and what it wrote of that or why that could not be read.
    Failure { status: String, stderr: Result<String, String> },
}

/// What a run replied, once the process has ended.
pub open spec fn run_reply(run: RunModel, exit: ProcessExit) -> Result<ResponseModel, Seq<char>> {
    match exit {
        ProcessExit::Failure { status, stderr } => match stderr {
            Err(message) => Err(
                "model process failed and stderr was unreadable: "@ + message@,
            ),
            Ok(detail) => if blank(detail@) {
                Err("model process exited with "@ + status@)
            } else {
                Err("model process exited with "@ + status@ + ": "@ + trim(detail@))
            },
        },
        ProcessExit::Success => match run.response {
            Some(response) => Ok(response),
            None => if run.text.len() > 0 {
                Ok(ResponseModel::Text(run.text))
            } else {
                Err("model process emitted no response"@)
            },
        },
    }
}

/// What a line did to a run.
#[derive(Debug, PartialEq, Eq)]
pub enum ProcessStep {
    Continue(Option<String>),
    Done,
    Failed(ModelError),
}

impl View for ProcessStep {
    type V = StepModel;

    open spec fn view(&self) -> StepModel {
        match self {
            ProcessStep::Continue(text) => StepModel::Continue(text_option(*text)),
            ProcessStep::Done => StepModel::Done,
            ProcessStep::Failed(error) => StepModel::Failed(error@),
        }
    }
}

/// What a process has said so far.
#[derive(Debug)]
pub struct ProcessRun {
    text: String,
    response: Option<ModelResponse>,
}

impl View for ProcessRun {
    type V = RunModel;

    closed spec fn view(&self) -> RunModel {
        RunModel {
            text: self.text@,
            response: match self.response {
                Some(response) => Some(response@),
                None => None,
            },
        }
    }
}

impl ProcessRun {
    pub fn new() -> (r: Self)
        ensures
            r@ == (RunModel { text: Seq::empty(), response: None }),
    {
        let r = ProcessRun { text: String::new(), response: None };
        assert(r@.text =~= Seq::<char>::empty());
        r
    }

    fn take_chunk(&mut self, chunk: String) -> (r: ProcessStep)
        ensures
            (final(self)@, r@) == with_chunk(old(self)@, chunk@),
    {
        if chunk.as_str().is_empty() {
            return ProcessStep::Continue(None);
        }
        self.text.push_str(chunk.as_str());
        ProcessStep::Continue(Some(chunk))
    }

    /// Takes a line of the process.
    pub fn take_line(&mut self, line: &str) -> (r: ProcessStep)
        ensures
            (final(self)@, r@) == line_taken(old(self)@, line@),
    {
        if is_blank(line) {
            return ProcessStep::Continue(None);
        }
        let event = match read_json(line) {
            Err(message) => Err(message),
            Ok(json) => read_event(&json),
        };
        match event {
            Err(message) => {
                let mut text = labelled("invalid model event: ", message.as_str());
                text.push_str("; line=");
                text.push_str(line);
                ProcessStep::Failed(ModelError::new(text.as_str()))
            },
            Ok(ProcessModelEvent::Text(Some(chunk))) => self.take_chunk(chunk),
            Ok(ProcessModelEvent::Text(None)) => ProcessStep::Continue(None),
            Ok(ProcessModelEvent::TextDelta(chunk)) => self.take_chunk(chunk),
            Ok(ProcessModelEvent::ToolCall(call)) => {
                if self.response.is_some() {
                    return ProcessStep::Failed(
                        ModelError::new("model emitted more than one response"),
                    );
                }
                self.response = Some(ModelResponse::ToolCall(call));
                ProcessStep::Continue(None)
            },
            Ok(ProcessModelEvent::Error(message)) => ProcessStep::Failed(
                ModelError::new(message.as_str()),
            ),
            Ok(ProcessModelEvent::Done) => ProcessStep::Done,
            Ok(ProcessModelEvent::Ignored) => ProcessStep::Continue(None),
        }
    }

    /// What the process replied, once it has ended.
    pub fn finish(self, exit: ProcessExit) -> (r: Result<ModelResponse, ModelError>)
        ensures
            match r {
                Ok(response) => run_reply(self@, exit) == Ok::<ResponseModel, Seq<char>>(response@),
                Err(error) => run_reply(self@, exit) == Err::<ResponseModel, Seq<char>>(error@),
            },
    {
        match exit {
            ProcessExit::Failure { status, stderr } => {
                let detail = match stderr {
                    Err(message) => {
                        let text = labelled(
                            "model process failed and stderr was unreadable: ",
                            message.as_str(),
                        );
                        return Err(ModelError::new(text.as_str()));
                    },
                    Ok(detail) => detail,
                };
                let mut text = labelled("model process exited with ", status.as_str());
                if !is_blank(detail.as_str()) {
                    text.push_str(": ");
                    text.push_str(trimmed(detail.as_str()).as_str());
                }
                Err(ModelError::new(text.as_str()))
            },
            ProcessExit::Success => match self.response {
                Some(response) => Ok(response),
                None => {
                    if self.text.as_str().is_empty() {
                        Err(ModelError::new("model process emitted no response"))
                    } else {
                        Ok(ModelResponse::Text(self.text))
                    }
                },
            },
        }
    }
}

/// The pieces of text that lines pass on, up to the one that ends the run.
pub open spec fn passed_on(run: RunModel, lines: Seq<Seq<char>>) -> (RunModel, Seq<char>)
    decreases lines.len(),
{
    if lines.len() == 0 {
        (run, Seq::empty())
    } else {
        let (after, step) = line_taken(run, lines[0]);
        match step {
            StepModel::Continue(chunk) => {
                let (end, rest) = passed_on(after, lines.skip(1));
                (
                    end,
                    (if chunk is Some {
                        chunk->0
                    } else {
                        Seq::empty()
                    }) + rest,
                )
            },
            _ => (after, Seq::empty()),
        }
    }
}

/// The text of a run is what was passed on piece by piece.
pub proof fn law_passed_on_pieces_make_the_text(run: RunModel, lines: Seq<Seq<char>>)
    ensures
        passed_on(run, lines).0.text == run.text + passed_on(run, lines).1,
    decreases lines.len(),
{
    if lines.len() == 0 {
        assert(run.text + Seq::<char>::empty() =~= run.text);
    } else {
        let (after, step) = line_taken(run, lines[0]);
        match step {
            StepModel::Continue(chunk) => {
                law_passed_on_pieces_make_the_text(after, lines.skip(1));
                let piece = if chunk is Some {
                    chunk->0
                } else {
                    Seq::empty()
                };
                assert(after.text =~= run.text + piece);
                let rest = passed_on(after, lines.skip(1)).1;
                assert((run.text + piece) + rest =~= run.text + (piece + rest));
            },
            _ => {
                assert(run.text + Seq::<char>::empty() =~= run.text);
            },
        }
    }
}

/// What a process replied: a tool call if it made one, or else all the text that it emitted. Without
/// either there is no reply, and neither is there one where the process failed.
pub proof fn law_processes_reply_with_what_they_emitted(run: RunModel, exit: ProcessExit)
    ensures
        exit is Failure ==> run_reply(run, exit) is Err,
        exit is Success ==> match run.response {
            Some(response) => run_reply(run, exit) == Ok::<ResponseModel, Seq<char>>(response),
            None => if run.text.len() > 0 {
                run_reply(run, exit) == Ok::<ResponseModel, Seq<char>>(ResponseModel::Text(run.text))
            } else {
                run_reply(run, exit) is Err
            },
        },
{
}

/// What a line does to a run: text is put behind the text so far and passed on at once, a tool call is
/// kept unless there is one, an error and a line that cannot be read end the run, and a blank line
/// does nothing.
pub proof fn law_lines_are_taken_one_by_one(run: RunModel, line: Seq<char>)
    ensures
        ({
            let (after, step) = line_taken(run, line);
            &&& all_white(line) ==> after == run && step == StepModel::Continue(None)
            &&& !all_white(line) ==> match event_on(line) {
                Err(_) => after == run && step is Failed,
                Ok(LineModel::TextDelta(chunk)) => after == (RunModel {
                    text: run.text + chunk,
                    ..run
                }) && step == StepModel::Continue(
                    if chunk.len() > 0 {
                        Some(chunk)
                    } else {
                        None
                    },
                ),
                Ok(LineModel::ToolCall(call)) => if run.response is Some {
                    after == run && step is Failed
                } else {
                    after == (RunModel { response: Some(call), ..run }) && step
                        == StepModel::Continue(None)
                },
                Ok(LineModel::Error(message)) => after == run && step == StepModel::Failed(message),
                Ok(LineModel::Done) => after == run && step == StepModel::Done,
                Ok(LineModel::Ignored) => after == run && step == StepModel::Continue(None),
                Ok(LineModel::Text(text)) => after.text == run.text + (match text {
                    Some(chunk) => chunk,
                    None => Seq::empty(),
                }) && after.response == run.response,
            }
        }),
{
    law_blank_texts_are_white(line, ' ');
    assert(run.text + Seq::<char>::empty() =~= run.text);
    if let Ok(LineModel::TextDelta(chunk)) = event_on(line) {
        if chunk.len() == 0 {
            assert(run.text + chunk =~= run.text);
        }
    }
    if let Ok(LineModel::Text(Some(chunk))) = event_on(line) {
        if chunk.len() == 0 {
            assert(run.text + chunk =~= run.text);
        }
    }
}

} // verus!
