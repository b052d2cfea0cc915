//! The agent at a console: what is typed, what is answered and what is kept of a turn.

use vstd::prelude::*;

use crate::agent_events::tell_repeated;
use crate::agent_messages::{
    AgentEvent, ConversationMessage, ModelMode, PermissionDecision, PermissionRequest,
    RouteRequest,
};
#[allow(unused_imports)]
use crate::agent_messages::{
    DecisionModel, EventModel, MessageModel, RequestedModel, ResultModel, RouteModel,
    message_models,
};
use crate::command_line::OneShotPermission;
use crate::permissions::{PermissionEffect, PermissionPolicy};
#[allow(unused_imports)]
use crate::permissions::{RuleModel, decide_from};
use crate::runtime_error::labelled;
use crate::session::Session;
#[allow(unused_imports)]
use crate::session::{SessionModel, TranscriptModel, transcript, valid_session_id, word_character};
#[allow(unused_imports)]
use crate::session_commands::{fresh_session, with_message};
use crate::text::{
    ascii_lower, chars_of, decimal_text, find_part, same_text, size_text, strip_prefix, substring,
    trimmed, words,
};
#[allow(unused_imports)]
use crate::text::{
    all_white, begins, blank, decimal, find_text, lacks, law_blank_texts_are_white,
    lemma_find_text, lemma_trim_padded, lower_text, stands_at, text_option, texts, trim, white,
    words_of,
};

verus! {

// ---------------------------------------------------------------------------
// Input
// ---------------------------------------------------------------------------

/// What a line at the console asks for.
#[derive(Debug, PartialEq, Eq)]
pub enum ConsoleInput {
    Nothing,
    Exit,
    Status,
    /// The model with this name; without a name, how to ask for one.
    Model(String),
    Mode(ModelMode),
    Prompt(String),
}

/// What a [`ConsoleInput`] says.
#[verifier::ext_equal]
pub enum InputModel {
    Nothing,
    Exit,
    Status,
    Model(Seq<char>),
    Mode(ModelMode),
    Prompt(Seq<char>),
}

impl View for ConsoleInput {
    type V = InputModel;

    open spec fn view(&self) -> InputModel {
        match self {
            ConsoleInput::Nothing => InputModel::Nothing,
            ConsoleInput::Exit => InputModel::Exit,
            ConsoleInput::Status => InputModel::Status,
            ConsoleInput::Model(name) => InputModel::Model(name@),
            ConsoleInput::Mode(mode) => InputModel::Mode(*mode),
            ConsoleInput::Prompt(text) => InputModel::Prompt(text@),
        }
    }
}

/// What a line asks for.
pub open spec fn input_of(line: Seq<char>) -> InputModel {
    let prompt = trim(line);
    if prompt.len() == 0 {
        InputModel::Nothing
    } else if prompt == "/exit"@ || prompt == "/quit"@ {
        InputModel::Exit
    } else if prompt == "/status"@ {
        InputModel::Status
    } else if begins(prompt, "/model "@) {
        InputModel::Model(trim(prompt.skip("/model "@.len() as int)))
    } else if prompt == "/fast"@ {
        InputModel::Mode(ModelMode::Fast)
    } else if prompt == "/strong"@ {
        InputModel::Mode(ModelMode::Strong)
    } else if prompt == "/default"@ {
        InputModel::Mode(ModelMode::Default)
    } else {
        InputModel::Prompt(prompt)
    }
}

/// What a line asks for.
pub fn read_input(line: &str) -> (r: ConsoleInput)
    ensures
        r@ == input_of(line@),
{
    let prompt = trimmed(line);
    if prompt.as_str().is_empty() {
        return ConsoleInput::Nothing;
    }
    if same_text(prompt.as_str(), "/exit") || same_text(prompt.as_str(), "/quit") {
        return ConsoleInput::Exit;
    }
    if same_text(prompt.as_str(), "/status") {
        return ConsoleInput::Status;
    }
    if let Some(name) = strip_prefix(prompt.as_str(), "/model ") {
        return ConsoleInput::Model(trimmed(name.as_str()));
    }
    if same_text(prompt.as_str(), "/fast") {
        return ConsoleInput::Mode(ModelMode::Fast);
    }
    if same_text(prompt.as_str(), "/strong") {
        return ConsoleInput::Mode(ModelMode::Strong);
    }
    if same_text(prompt.as_str(), "/default") {
        return ConsoleInput::Mode(ModelMode::Default);
    }
    ConsoleInput::Prompt(prompt)
}

/// What happens after a line was read.
#[derive(Debug, PartialEq, Eq)]
pub enum ConsoleStep {
    /// Nothing but saying something, if there is anything to say.
    Wait(Option<String>),
    Leave,
    Ask(String),
}

/// What a [`ConsoleStep`] says.
#[verifier::ext_equal]
pub enum StepModel {
    Wait(Option<Seq<char>>),
    Leave,
    Ask(Seq<char>),
}

impl View for ConsoleStep {
    type V = StepModel;

    open spec fn view(&self) -> StepModel {
        match self {
            ConsoleStep::Wait(line) => StepModel::Wait(text_option(*line)),
            ConsoleStep::Leave => StepModel::Leave,
            ConsoleStep::Ask(prompt) => StepModel::Ask(prompt@),
        }
    }
}

/// The word for a mode.
pub open spec fn mode_word(mode: ModelMode) -> Seq<char> {
    match mode {
        ModelMode::Default => "Default"@,
        ModelMode::Fast => "Fast"@,
        ModelMode::Strong => "Strong"@,
    }
}

fn name_mode(mode: ModelMode) -> (r: &'static str)
    ensures
        r@ == mode_word(mode),
{
    match mode {
        ModelMode::Default => "Default",
        ModelMode::Fast => "Fast",
        ModelMode::Strong => "Strong",
    }
}

pub open spec fn flag_word(flag: bool) -> Seq<char> {
    if flag {
        "true"@
    } else {
        "false"@
    }
}

fn name_flag(flag: bool) -> (r: &'static str)
    ensures
        r@ == flag_word(flag),
{
    if flag {
        "true"
    } else {
        "false"
    }
}

/// What is said of the route.
pub open spec fn status_line(route: RouteModel) -> Seq<char> {
    "[status] "@ + (match route.requested_model {
        Some(name) => "model="@ + name,
        None => "mode="@ + mode_word(route.mode),
    }) + " tools="@ + flag_word(route.requires_tools) + " streaming="@ + flag_word(
        route.requires_streaming,
    )
}

/// The route after an input, and what happens.
pub open spec fn console_step(route: RouteModel, input: InputModel) -> (RouteModel, StepModel) {
    match input {
        InputModel::Nothing => (route, StepModel::Wait(None)),
        InputModel::Exit => (route, StepModel::Leave),
        InputModel::Status => (route, StepModel::Wait(Some(status_line(route)))),
        InputModel::Model(name) => if name.len() == 0 {
            (route, StepModel::Wait(Some("[route] usage: /model <name>"@)))
        } else {
            (
                RouteModel { requested_model: Some(name), mode: ModelMode::Default, ..route },
                StepModel::Wait(Some("[route] requested model="@ + name)),
            )
        },
        InputModel::Mode(mode) => (
            RouteModel { requested_model: None, mode, ..route },
            StepModel::Wait(Some("[route] mode="@ + mode_word(mode))),
        ),
        InputModel::Prompt(text) => (route, StepModel::Ask(text)),
    }
}

/// Changes the route as an input asks for, and says what happens.
pub fn take_input(route: &mut RouteRequest, input: ConsoleInput) -> (r: ConsoleStep)
    ensures
        (final(route)@, r@) == console_step(old(route)@, input@),
{
    match input {
        ConsoleInput::Nothing => ConsoleStep::Wait(None),
        ConsoleInput::Exit => ConsoleStep::Leave,
        ConsoleInput::Status => {
            let mut line = "[status] ".to_owned();
            match &route.requested_model {
                Some(name) => {
                    line.push_str(labelled("model=", name.as_str()).as_str());
                },
                None => {
                    line.push_str(labelled("mode=", name_mode(route.mode)).as_str());
                },
            }
            line.push_str(" tools=");
            line.push_str(name_flag(route.requires_tools));
            line.push_str(" streaming=");
            line.push_str(name_flag(route.requires_streaming));
            ConsoleStep::Wait(Some(line))
        },
        ConsoleInput::Model(name) => {
            if name.as_str().is_empty() {
                return ConsoleStep::Wait(Some("[route] usage: /model <name>".to_owned()));
            }
            let line = labelled("[route] requested model=", name.as_str());
            route.requested_model = Some(name);
            route.mode = ModelMode::Default;
            ConsoleStep::Wait(Some(line))
        },
        ConsoleInput::Mode(mode) => {
            route.requested_model = None;
            route.mode = mode;
            ConsoleStep::Wait(Some(labelled("[route] mode=", name_mode(mode))))
        },
        ConsoleInput::Prompt(text) => ConsoleStep::Ask(text),
    }
}

// ---------------------------------------------------------------------------
// Permissions
// ---------------------------------------------------------------------------

/// The decision in an answer: only a plain yes allows.
pub open spec fn answer_decision(answer: Seq<char>) -> DecisionModel {
    let word = lower_text(trim(answer));
    if word == "y"@ || word == "yes"@ {
        DecisionModel::Allow
    } else {
        DecisionModel::Deny { reason: "approval denied by user"@ }
    }
}

/// The decision in an answer.
pub fn read_approval(answer: &str) -> (r: PermissionDecision)
    ensures
        r@ == answer_decision(answer@),
{
    let word = ascii_lower(trimmed(answer).as_str());
    if same_text(word.as_str(), "y") || same_text(word.as_str(), "yes") {
        PermissionDecision::Allow
    } else {
        PermissionDecision::Deny { reason: "approval denied by user".to_owned() }
    }
}

/// The decision when nobody can be asked.
pub open spec fn unasked_decision(
    permission: OneShotPermission,
    request: RequestedModel,
) -> DecisionModel {
    match permission {
        OneShotPermission::Auto => DecisionModel::Allow,
        OneShotPermission::Deny => DecisionModel::Deny {
            reason: "one-shot mode denies guarded tool: "@ + request.description,
        },
    }
}

/// The decision when nobody can be asked.
pub fn decide_unasked(permission: OneShotPermission, request: &PermissionRequest) -> (r:
    PermissionDecision)
    ensures
        r@ == unasked_decision(permission, request@),
{
    match permission {
        OneShotPermission::Auto => PermissionDecision::Allow,
        OneShotPermission::Deny => PermissionDecision::Deny {
            reason: labelled(
                "one-shot mode denies guarded tool: ",
                request.description.as_str(),
            ),
        },
    }
}

/// What a request is about: what its id names behind the tool, or else its description.
pub open spec fn request_target(request: RequestedModel) -> Seq<char> {
    let mark = ":"@ + request.tool + ":"@;
    match find_text(request.id, mark, 0) {
        Some(i) => request.id.skip(i + mark.len()),
        None => request.description,
    }
}

fn target_of(request: &PermissionRequest) -> (r: String)
    ensures
        r@ == request_target(request@),
{
    let mut mark = ":".to_owned();
    mark.push_str(request.tool.as_str());
    mark.push_str(":");
    let id = chars_of(request.id.as_str());
    let part = chars_of(mark.as_str());
    match find_part(&id, &part, 0) {
        Some(i) => {
            let end: usize = id.len();
            let r = substring(&id, i + part.len(), end);
            assert(r@ =~= request@.id.skip(i + part@.len()));
            r
        },
        None => request.description.clone(),
    }
}

/// The decision of the rules on a request; `None` where they leave it to be asked.
pub open spec fn ruled(rules: Seq<RuleModel>, request: RequestedModel) -> Option<DecisionModel> {
    match decide_from(rules, 0, request.tool, request_target(request)) {
        PermissionEffect::Ask => None,
        PermissionEffect::Allow => Some(DecisionModel::Allow),
        PermissionEffect::Deny => Some(
            DecisionModel::Deny { reason: "denied by a permission rule"@ },
        ),
    }
}

/// The decision of the rules on a request, where they do not leave it to be asked.
pub fn decide_by_rules(policy: &PermissionPolicy, request: &PermissionRequest) -> (r: Option<
    PermissionDecision,
>)
    ensures
        match r {
            Some(decision) => ruled(policy@, request@) == Some(decision@),
            None => ruled(policy@, request@) is None,
        },
{
    let target = target_of(request);
    match policy.decide(request.tool.as_str(), target.as_str()) {
        PermissionEffect::Ask => None,
        PermissionEffect::Allow => Some(PermissionDecision::Allow),
        PermissionEffect::Deny => Some(
            PermissionDecision::Deny { reason: "denied by a permission rule".to_owned() },
        ),
    }
}

// ---------------------------------------------------------------------------
// Events
// ---------------------------------------------------------------------------

/// The transcript, and the reply as far as it has come in.
#[verifier::ext_equal]
pub struct RecordModel {
    pub session: SessionModel,
    pub reply: Seq<char>,
}

/// What is kept of an event that comes in at a time.
pub open spec fn recorded(record: RecordModel, event: EventModel, now: u64) -> RecordModel {
    match event {
        EventModel::AssistantDelta { content } => RecordModel {
            reply: record.reply + content,
            ..record
        },
        EventModel::AssistantText { content } => RecordModel {
            reply: record.reply + content,
            ..record
        },
        EventModel::ToolResult(result) => RecordModel {
            session: with_message(
                record.session,
                "tool"@,
                result.name + ": "@ + result.content,
                now,
            ),
            ..record
        },
        EventModel::Done => if record.reply.len() == 0 {
            record
        } else {
            RecordModel {
                session: with_message(record.session, "assistant"@, record.reply, now),
                reply: Seq::empty(),
            }
        },
        _ => record,
    }
}

/// What is shown of an event.
pub open spec fn shown(event: EventModel) -> Seq<char> {
    match event {
        EventModel::AssistantDelta { content } => content,
        EventModel::AssistantText { content } => content,
        EventModel::ToolCall(call) => "\n[tool] "@ + call.name + "\n"@,
        EventModel::ToolResult(result) => "[tool result] "@ + result.content + "\n"@,
        EventModel::PermissionRequested(request) => "[permission] "@ + request.description + "\n"@,
        EventModel::RepeatedToolCall { tool, count } => "[agent] repeated tool call: "@ + tool
            + " (x"@ + decimal(count) + ")"@ + "\n"@,
        EventModel::Error { message } => "[error] "@ + message + "\n"@,
        EventModel::Done => Seq::empty(),
        EventModel::UserMessage { .. } => Seq::empty(),
    }
}

fn ended(label: &str, text: &str, end: &str) -> (r: String)
    ensures
        r@ == label@ + text@ + end@,
{
    let mut r = labelled(label, text);
    r.push_str(end);
    r
}

fn nothing() -> (r: String)
    ensures
        r@ == Seq::<char>::empty(),
{
    let r = String::new();
    assert(r@ =~= Seq::<char>::empty());
    r
}

/// Keeps what is worth keeping of an event that comes in at a time, and says what to show.
pub fn record_event(session: &mut Session, reply: &mut String, event: &AgentEvent, now: u64) -> (r:
    String)
    ensures
        ({
            let after = recorded(
                RecordModel { session: old(session)@, reply: old(reply)@ },
                event@,
                now,
            );
            &&& final(session)@ == after.session
            &&& final(reply)@ == after.reply
            &&& r@ == shown(event@)
        }),
{
    match event {
        AgentEvent::AssistantDelta { content } => {
            reply.push_str(content.as_str());
            content.clone()
        },
        AgentEvent::AssistantText { content } => {
            reply.push_str(content.as_str());
            content.clone()
        },
        AgentEvent::ToolCall(call) => ended("\n[tool] ", call.name.as_str(), "\n"),
        AgentEvent::ToolResult(result) => {
            let mut content = labelled(result.name.as_str(), ": ");
            content.push_str(result.content.as_str());
            session.push_at("tool", content.as_str(), now);
            ended("[tool result] ", result.content.as_str(), "\n")
        },
        AgentEvent::PermissionRequested(request) => ended(
            "[permission] ",
            request.description.as_str(),
            "\n",
        ),
        AgentEvent::RepeatedToolCall { tool, count } => {
            let mut line = tell_repeated("[agent] repeated tool call: ", tool.as_str(), *count);
            line.push_str("\n");
            line
        },
        AgentEvent::Error { message } => ended("[error] ", message.as_str(), "\n"),
        AgentEvent::Done => {
            if !reply.as_str().is_empty() {
                session.push_at("assistant", reply.as_str(), now);
                *reply = nothing();
            }
            nothing()
        },
        AgentEvent::UserMessage { .. } => nothing(),
    }
}

/// What is shown of an event when a single prompt is answered.
pub open spec fn shown_once(event: EventModel) -> Seq<char> {
    match event {
        EventModel::AssistantDelta { content } => content,
        EventModel::AssistantText { content } => content,
        EventModel::ToolCall(call) => "\n[tool] "@ + call.name + "\n\n"@,
        EventModel::ToolResult(result) => "\n[tool result] "@ + result.content + "\n\n"@,
        EventModel::PermissionRequested(request) => "\n[permission denied] "@ + request.description
            + "\n\n"@,
        EventModel::RepeatedToolCall { tool, count } => "\n[agent] repeated tool call: "@ + tool
            + " (x"@ + decimal(count) + ")"@ + "\n\n"@,
        EventModel::Error { message } => "\n[error] "@ + message + "\n\n"@,
        EventModel::Done => Seq::empty(),
        EventModel::UserMessage { .. } => Seq::empty(),
    }
}

/// What is shown of an event when a single prompt is answered.
pub fn show_once(event: &AgentEvent) -> (r: String)
    ensures
        r@ == shown_once(event@),
{
    match event {
        AgentEvent::AssistantDelta { content } => content.clone(),
        AgentEvent::AssistantText { content } => content.clone(),
        AgentEvent::ToolCall(call) => ended("\n[tool] ", call.name.as_str(), "\n\n"),
        AgentEvent::ToolResult(result) => ended(
            "\n[tool result] ",
            result.content.as_str(),
            "\n\n",
        ),
        AgentEvent::PermissionRequested(request) => ended(
            "\n[permission denied] ",
            request.description.as_str(),
            "\n\n",
        ),
        AgentEvent::RepeatedToolCall { tool, count } => {
            let mut line = tell_repeated("\n[agent] repeated tool call: ", tool.as_str(), *count);
            line.push_str("\n\n");
            line
        },
        AgentEvent::Error { message } => ended("\n[error] ", message.as_str(), "\n\n"),
        AgentEvent::Done => nothing(),
        AgentEvent::UserMessage { .. } => nothing(),
    }
}

// ---------------------------------------------------------------------------
// Sessions
// ---------------------------------------------------------------------------

/// The arguments for the model program: the built-in bridge has one of its own, any other program
/// gets the words that are configured.
pub fn model_arguments(built_in: bool, configured: Option<String>) -> (r: Vec<String>)
    ensures
        texts(r@) == (if built_in {
            seq!["model-bridge"@]
        } else {
            match configured {
                Some(text) => words_of(text@),
                None => Seq::empty(),
            }
        }),
{
    if built_in {
        let r = vec!["model-bridge".to_owned()];
        assert(texts(r@) =~= seq!["model-bridge"@]);
        return r;
    }
    match configured {
        Some(text) => words(text.as_str()),
        None => {
            let r: Vec<String> = Vec::new();
            assert(texts(r@) =~= Seq::<Seq<char>>::empty());
            r
        },
    }
}

/// What a resumed session hands to the agent.
pub open spec fn conversation_of(messages: Seq<TranscriptModel>) -> Seq<MessageModel> {
    Seq::new(
        messages.len(),
        |i: int| MessageModel { role: messages[i].role, content: messages[i].content },
    )
}

/// What a resumed session hands to the agent.
pub fn resumed_conversation(session: &Session) -> (r: Vec<ConversationMessage>)
    ensures
        message_models(r@) == conversation_of(session@.messages),
{
    let ghost all = conversation_of(session@.messages);
    let mut r: Vec<ConversationMessage> = Vec::new();
    let mut i: usize = 0;
    assert(message_models(r@) =~= all.take(0));
    while i < session.messages.len()
        invariant
            i <= session.messages@.len(),
            all == conversation_of(session@.messages),
            message_models(r@) == all.take(i as int),
        decreases session.messages@.len() - i,
    {
        let stored = &session.messages[i];
        assert(session@.messages[i as int] == stored@);
        let message = ConversationMessage::new(stored.role.as_str(), stored.content.as_str());
        let ghost before = r@;
        r.push(message);
        assert(message_models(r@) =~= message_models(before).push(message@));
        assert(all.take(i + 1) =~= all.take(i as int).push(all[i as int]));
        i += 1;
    }
    assert(all.take(i as int) =~= all);
    r
}

/// What is said of a resumed session.
pub fn resumed_line(id: &str, session: &Session) -> (r: String)
    ensures
        r@ == "[session] resumed "@ + id@ + " ("@ + decimal(session@.messages.len())
            + " messages)"@,
{
    let mut line = labelled("[session] resumed ", id);
    line.push_str(" (");
    line.push_str(size_text(session.messages.len()).as_str());
    line.push_str(" messages)");
    line
}

proof fn lemma_decimal_is_a_word(n: nat)
    ensures
        decimal(n).len() > 0,
        forall|i: int| 0 <= i < decimal(n).len() ==> word_character(#[trigger] decimal(n)[i]),
    decreases n,
{
    if n >= 10 {
        lemma_decimal_is_a_word(n / 10);
    }
}

/// A new session, named after the time at which it begins.
pub fn begin_session(now: u64) -> (r: Session)
    ensures
        valid_session_id("ask-"@ + decimal(now as nat)),
        r@ == fresh_session("ask-"@ + decimal(now as nat), now),
{
    let id = labelled("ask-", decimal_text(now).as_str());
    proof {
        reveal_strlit("ask-");
        lemma_decimal_is_a_word(now as nat);
        let name = "ask-"@ + decimal(now as nat);
        assert forall|i: int| 0 <= i < name.len() implies word_character(#[trigger] name[i]) by {
            if i >= 4 {
                assert(name[i] == decimal(now as nat)[i - 4]);
            }
        }
        assert(valid_session_id(name));
    }
    match Session::new_at(id.as_str(), now) {
        Ok(session) => session,
        Err(_) => vstd::pervasive::unreached(),
    }
}

// ---------------------------------------------------------------------------
// Laws
// ---------------------------------------------------------------------------

/// A user allows by `y` or `yes`, in whatever letter case, and by nothing else; an empty answer
/// denies.
pub proof fn law_only_yes_allows(answer: &str, r: PermissionDecision)
    requires
        call_ensures(read_approval, (answer,), r),
    ensures
        r@ == DecisionModel::Allow <==> trim(answer@) == "y"@ || trim(answer@) == "Y"@ || lower_text(
            trim(answer@),
        ) == "yes"@,
        all_white(answer@) ==> r@ is Deny,
{
    reveal_strlit("y");
    reveal_strlit("Y");
    reveal_strlit("yes");
    law_blank_texts_are_white(answer@, ' ');
    let word = trim(answer@);
    assert(lower_text(word).len() == word.len());
    assert("y"@.len() == 1 && "Y"@.len() == 1 && "yes"@.len() == 3);
    if lower_text(word) == "y"@ {
        assert(word.len() == 1);
        assert(lower_text(word)[0] == 'y');
        if 'A' <= word[0] <= 'Z' {
            assert(word[0] as int + 32 == 'y' as int);
            assert(word =~= "Y"@);
        } else {
            assert(word =~= "y"@);
        }
    }
    if word == "y"@ || word == "Y"@ {
        assert(lower_text(word) =~= "y"@);
    }
}

/// Where nobody can be asked, a guarded tool is allowed only in the mode that allows all.
pub proof fn law_unasked_tools_are_denied(
    permission: OneShotPermission,
    request: PermissionRequest,
    r: PermissionDecision,
)
    requires
        call_ensures(decide_unasked, (permission, &request), r),
    ensures
        r@ == DecisionModel::Allow <==> permission == OneShotPermission::Auto,
{
}

/// The rules decide on a request by its tool and its target: what they allow is allowed, what they
/// deny is denied, and what they leave open is asked. The target is what the id of the request names
/// behind the tool.
pub proof fn law_rules_decide_on_the_target(
    policy: PermissionPolicy,
    request: PermissionRequest,
    front: Seq<char>,
    target: &str,
    tool: &str,
    effect: PermissionEffect,
    r: Option<PermissionDecision>,
)
    requires
        call_ensures(decide_by_rules, (&policy, &request), r),
        call_ensures(PermissionPolicy::decide, (&policy, tool, target), effect),
        tool@ == request.tool@,
        request.id@ == front + (":"@ + request.tool@ + ":"@) + target@,
        forall|i: int|
            0 <= i < front.len() ==> !stands_at(
                request.id@,
                ":"@ + request.tool@ + ":"@,
                i,
            ),
    ensures
        match effect {
            PermissionEffect::Allow => r matches Some(decision) && decision@ == DecisionModel::Allow,
            PermissionEffect::Deny => r matches Some(decision) && decision@ is Deny,
            PermissionEffect::Ask => r is None,
        },
{
    let id = request.id@;
    let mark = ":"@ + request.tool@ + ":"@;
    let n = front.len() as int;
    lemma_find_text(id, mark, 0);
    assert(id.subrange(n, n + mark.len()) =~= mark);
    assert(stands_at(id, mark, n));
    let i = find_text(id, mark, 0)->0;
    if i < n {
        assert(!stands_at(id, mark, i));
    }
    assert(i == n);
    assert(id.skip(n + mark.len()) =~= target@);
}

/// What comes in of an answer is put together, and kept as one message when the turn is over; the
/// result of a tool is kept at once.
pub proof fn law_answers_are_put_together(
    record: RecordModel,
    content: Seq<char>,
    result: ResultModel,
    now: u64,
)
    ensures
        recorded(record, EventModel::AssistantDelta { content }, now) == (RecordModel {
            reply: record.reply + content,
            ..record
        }),
        recorded(record, EventModel::AssistantText { content }, now) == (RecordModel {
            reply: record.reply + content,
            ..record
        }),
        ({
            let after = recorded(record, EventModel::Done, now);
            &&& after.reply.len() == 0
            &&& record.reply.len() == 0 ==> after.session == record.session
            &&& record.reply.len() > 0 ==> after.session.messages == record.session.messages.push(
                TranscriptModel { role: "assistant"@, content: record.reply },
            )
        }),
        recorded(record, EventModel::ToolResult(result), now).session.messages
            == record.session.messages.push(
            TranscriptModel { role: "tool"@, content: result.name + ": "@ + result.content },
        ),
{
}

/// What is typed, whatever white space is around it: a way out, a mode, a model by its name, or a
/// prompt that is asked as it stands.
pub proof fn law_typed_lines_are_understood(
    route: RouteModel,
    before: Seq<char>,
    text: Seq<char>,
    after: Seq<char>,
)
    requires
        all_white(before),
        all_white(after),
        text.len() > 0,
        !white(text[0]),
        !white(text.last()),
    ensures
        ({
            let input = input_of(before + text + after);
            let step = console_step(route, input);
            &&& text == "/exit"@ || text == "/quit"@ ==> step == (route, StepModel::Leave)
            &&& text[0] != '/' ==> step == (route, StepModel::Ask(text))
            &&& text == "/fast"@ ==> step.0 == (RouteModel {
                requested_model: None,
                mode: ModelMode::Fast,
                requires_tools: route.requires_tools,
                requires_streaming: route.requires_streaming,
            }) && step.1 is Wait
            &&& text == "/strong"@ ==> step.0 == (RouteModel {
                requested_model: None,
                mode: ModelMode::Strong,
                requires_tools: route.requires_tools,
                requires_streaming: route.requires_streaming,
            }) && step.1 is Wait
            &&& text == "/default"@ ==> step.0 == (RouteModel {
                requested_model: None,
                mode: ModelMode::Default,
                requires_tools: route.requires_tools,
                requires_streaming: route.requires_streaming,
            }) && step.1 is Wait
        }),
        console_step(route, input_of(before)) == (route, StepModel::Wait(None)),
        lacks(text, '\n') && begins(text, "/model "@) ==> console_step(
            route,
            input_of(before + text + after),
        ).0 == (RouteModel {
            requested_model: Some(trim(text.skip(7))),
            mode: ModelMode::Default,
            requires_tools: route.requires_tools,
            requires_streaming: route.requires_streaming,
        }),
{
    lemma_trim_padded(before, text, after);
    law_blank_texts_are_white(before, ' ');
    reveal_strlit("/exit");
    reveal_strlit("/quit");
    reveal_strlit("/status");
    reveal_strlit("/model ");
    reveal_strlit("/fast");
    reveal_strlit("/strong");
    reveal_strlit("/default");
    assert("/exit"@[0] == '/' && "/quit"@[0] == '/' && "/status"@[0] == '/' && "/model "@[0] == '/'
        && "/fast"@[0] == '/' && "/strong"@[0] == '/' && "/default"@[0] == '/');
    assert("/exit"@[1] == 'e' && "/quit"@[1] == 'q' && "/status"@[3] == 'a' && "/fast"@[1] == 'f'
        && "/strong"@[3] == 'r' && "/default"@[1] == 'd' && "/model "@[1] == 'm' && "/status"@[1]
        == 's' && "/strong"@[1] == 's');
    assert("/exit"@.len() == 5 && "/quit"@.len() == 5 && "/fast"@.len() == 5);
    if begins(text, "/model "@) {
        assert(text.take(7)[0] == text[0] && text.take(7)[1] == text[1]);
        assert(text.take(7)[6] == text[6]);
        law_blank_texts_are_white(text.skip(7), ' ');
        assert(text.len() > 7);
        assert(text.skip(7).last() == text.last());
        if blank(text.skip(7)) {
            assert(white(text.skip(7)[text.len() - 8]));
        }
    }
}

/// A conversation is taken up again message by message, each with its role and content.
pub proof fn law_conversations_are_taken_up(messages: Seq<TranscriptModel>, i: int)
    requires
        0 <= i < messages.len(),
    ensures
        conversation_of(messages).len() == messages.len(),
        conversation_of(messages)[i].role == messages[i].role,
        conversation_of(messages)[i].content == messages[i].content,
{
}

} // verus!
