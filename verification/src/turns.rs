//! One agent turn as a state machine: what each reply of the model and of its tools leads to.

use vstd::prelude::*;

use crate::agent_messages::{
    AgentError, AgentEvent, ConversationMessage, PermissionRequest, ToolCall, ToolResult,
    canonical_arguments,
};
#[allow(unused_imports)]
use crate::agent_messages::{
    AgentTrouble, CallModel, DecisionModel, EventModel, MessageModel, RequestedModel, ResponseModel,
    ResultModel, agent_events, asked_for, message_models, result_models,
};
#[allow(unused_imports)]
use crate::canonical::law_canonical_texts_tell_arguments_apart;
#[allow(unused_imports)]
use crate::text::{byte_len, texts};
use crate::text::{byte_count, same_text};
#[allow(unused_imports)]
use crate::tool_values::arguments_json;
#[allow(unused_imports)]
use crate::toolbox::{Registered, call_result, registered, unknown_result};

verus! {

// ---------------------------------------------------------------------------
// Conversations
// ---------------------------------------------------------------------------

/// The bytes of a message.
pub open spec fn message_size(m: MessageModel) -> nat {
    byte_len(m.role) + byte_len(m.content)
}

/// How many messages from the end are kept, when `kept` of them with `used` bytes already are.
pub open spec fn kept_from(
    conversation: Seq<MessageModel>,
    max_messages: nat,
    max_chars: nat,
    kept: nat,
    used: nat,
) -> nat
    decreases conversation.len() - kept,
{
    if kept >= max_messages || kept >= conversation.len() {
        kept
    } else {
        let size = message_size(conversation[conversation.len() - 1 - kept]);
        if used + size > max_chars {
            kept
        } else {
            kept_from(conversation, max_messages, max_chars, kept + 1, used + size)
        }
    }
}

/// The last messages of a conversation, as many as the limits allow.
pub open spec fn bounded(
    conversation: Seq<MessageModel>,
    max_messages: nat,
    max_chars: nat,
) -> Seq<MessageModel> {
    if max_messages == 0 || max_chars == 0 {
        Seq::empty()
    } else {
        conversation.skip(
            conversation.len() - kept_from(conversation, max_messages, max_chars, 0, 0),
        )
    }
}

/// The last messages of a conversation, as many as the limits allow.
pub fn bounded_context(
    conversation: &Vec<ConversationMessage>,
    max_messages: usize,
    max_chars: usize,
) -> (r: Vec<ConversationMessage>)
    ensures
        message_models(r@) == bounded(
            message_models(conversation@),
            max_messages as nat,
            max_chars as nat,
        ),
{
    let ghost all = message_models(conversation@);
    let mut r: Vec<ConversationMessage> = Vec::new();
    if max_messages == 0 || max_chars == 0 {
        assert(message_models(r@) =~= Seq::<MessageModel>::empty());
        return r;
    }
    let n: usize = conversation.len();
    let mut kept: usize = 0;
    let mut used: usize = 0;
    let mut open = true;
    while open && kept < max_messages && kept < n
        invariant
            kept <= n,
            n == all.len(),
            n == conversation@.len(),
            all == message_models(conversation@),
            used <= max_chars,
            open ==> kept_from(all, max_messages as nat, max_chars as nat, 0, 0) == kept_from(
                all,
                max_messages as nat,
                max_chars as nat,
                kept as nat,
                used as nat,
            ),
            !open ==> kept_from(all, max_messages as nat, max_chars as nat, 0, 0) == kept,
        decreases n - kept, (if open { 1int } else { 0int }),
    {
        let message = &conversation[n - 1 - kept];
        assert(all[n - 1 - kept] == message@);
        let role = byte_count(message.role.as_str());
        let content = byte_count(message.content.as_str());
        let fits = match role.checked_add(content) {
            Some(size) => size <= max_chars - used,
            None => false,
        };
        if fits {
            used = used + (role + content);
            kept = kept + 1;
        } else {
            open = false;
        }
    }
    let from: usize = n - kept;
    let mut i: usize = from;
    while i < n
        invariant
            from <= i <= n,
            n == conversation@.len(),
            r@.len() == i - from,
            forall|k: int| 0 <= k < i - from ==> (#[trigger] r@[k])@ == conversation@[k + from]@,
        decreases n - i,
    {
        r.push(conversation[i].clone());
        i += 1;
    }
    assert(message_models(r@) =~= all.skip(from as int));
    r
}

// ---------------------------------------------------------------------------
// The turn
// ---------------------------------------------------------------------------

/// What has happened in a turn.
#[derive(Debug)]
pub struct Turn {
    pub prompt: String,
    pub events: Vec<AgentEvent>,
    pub tool_results: Vec<ToolResult>,
    pub last_call: Option<(String, String)>,
    pub executed: Vec<String>,
    pub context: Vec<ConversationMessage>,
}

/// What a [`Turn`] says.
#[verifier::ext_equal]
pub struct TurnModel {
    pub prompt: Seq<char>,
    pub events: Seq<EventModel>,
    pub tool_results: Seq<ResultModel>,
    pub last_call: Option<(Seq<char>, Seq<char>)>,
    pub executed: Seq<Seq<char>>,
    pub context: Seq<MessageModel>,
}

impl View for Turn {
    type V = TurnModel;

    open spec fn view(&self) -> TurnModel {
        TurnModel {
            prompt: self.prompt@,
            events: agent_events(self.events@),
            tool_results: result_models(self.tool_results@),
            last_call: match self.last_call {
                Some((name, arguments)) => Some((name@, arguments@)),
                None => None,
            },
            executed: texts(self.executed@),
            context: message_models(self.context@),
        }
    }
}

/// A turn that has just begun.
pub open spec fn fresh_turn(prompt: Seq<char>) -> TurnModel {
    TurnModel {
        prompt,
        events: seq![EventModel::UserMessage { content: prompt }],
        tool_results: Seq::empty(),
        last_call: None,
        executed: Seq::empty(),
        context: seq![MessageModel { role: "user"@, content: prompt }],
    }
}

/// What a call looks like in the conversation.
pub open spec fn call_text(call: CallModel) -> Seq<char> {
    "tool_call id="@ + call.id + " name="@ + call.name + " arguments="@ + arguments_json(
        call.arguments,
    )
}

/// What a result looks like in the conversation.
pub open spec fn result_text(result: ResultModel) -> Seq<char> {
    "tool_result id="@ + result.id + " name="@ + result.name + " status="@ + (if result.is_error {
        "error"@
    } else {
        "ok"@
    }) + "\n"@ + result.content
}

/// What a call is known by when calls are compared.
pub open spec fn call_key(call: CallModel) -> Seq<char> {
    call.name + " "@ + arguments_json(call.arguments)
}

/// Whether a call is the one before again.
pub open spec fn repeats(t: TurnModel, call: CallModel) -> bool {
    t.last_call == Some((call.name, arguments_json(call.arguments)))
}

/// The turn ended by a repeated call.
pub open spec fn stopped_turn(t: TurnModel, call: CallModel) -> TurnModel {
    TurnModel {
        events: t.events.push(EventModel::RepeatedToolCall { tool: call.name, count: 2 }).push(
            EventModel::Done,
        ),
        ..t
    }
}

/// The turn with a call noted, and the permission that it asks for.
pub open spec fn called_turn(
    t: TurnModel,
    call: CallModel,
    permission: Option<RequestedModel>,
) -> TurnModel {
    let events = t.events.push(EventModel::ToolCall(call));
    TurnModel {
        events: match permission {
            Some(request) => events.push(EventModel::PermissionRequested(request)),
            None => events,
        },
        ..t
    }
}

/// The turn with the result of a call noted.
pub open spec fn resulted_turn(t: TurnModel, call: CallModel, result: ResultModel) -> TurnModel {
    TurnModel {
        events: t.events.push(EventModel::ToolResult(result)),
        tool_results: t.tool_results.push(result),
        last_call: Some((call.name, arguments_json(call.arguments))),
        executed: t.executed.push(call_key(call)),
        context: t.context.push(
            MessageModel { role: "assistant"@, content: call_text(call) },
        ).push(MessageModel { role: "tool"@, content: result_text(result) }),
        ..t
    }
}

/// Whether the last calls are the ones before them again, `period` by `period`.
pub open spec fn loops(executed: Seq<Seq<char>>, period: nat) -> bool {
    executed.len() >= 2 * period && executed.skip(executed.len() - period) == executed.subrange(
        executed.len() - 2 * period,
        executed.len() - period,
    )
}

/// The period of a loop of calls.
pub open spec fn loop_period(executed: Seq<Seq<char>>) -> Option<nat> {
    if loops(executed, 2) {
        Some(2)
    } else if loops(executed, 3) {
        Some(3)
    } else {
        None
    }
}

/// The turn ended by text: the text is told unless it has been streamed.
pub open spec fn answered_turn(t: TurnModel, content: Seq<char>, tell: bool) -> TurnModel {
    let events = if tell {
        t.events.push(EventModel::AssistantText { content })
    } else {
        t.events
    };
    TurnModel {
        events: events.push(EventModel::Done),
        context: t.context.push(MessageModel { role: "assistant"@, content }),
        ..t
    }
}

/// What a call looks like in the conversation.
pub fn format_tool_call(call: &ToolCall) -> (r: String)
    ensures
        r@ == call_text(call@),
{
    let mut r = "tool_call id=".to_owned();
    r.push_str(call.id.as_str());
    r.push_str(" name=");
    r.push_str(call.name.as_str());
    r.push_str(" arguments=");
    r.push_str(canonical_arguments(&call.arguments).as_str());
    r
}

/// What a result looks like in the conversation.
pub fn format_tool_result(result: &ToolResult) -> (r: String)
    ensures
        r@ == result_text(result@),
{
    let mut r = "tool_result id=".to_owned();
    r.push_str(result.id.as_str());
    r.push_str(" name=");
    r.push_str(result.name.as_str());
    r.push_str(" status=");
    r.push_str(
        if result.is_error {
            "error"
        } else {
            "ok"
        },
    );
    r.push_str("\n");
    r.push_str(result.content.as_str());
    r
}

fn is_loop(executed: &Vec<String>, period: usize) -> (r: bool)
    requires
        period <= 3,
    ensures
        r == loops(texts(executed@), period as nat),
{
    let n: usize = executed.len();
    let ghost all = texts(executed@);
    if n < 2 * period {
        return false;
    }
    let ghost late = all.skip(n - period);
    let ghost early = all.subrange(n - 2 * period, n - period);
    let mut i: usize = 0;
    while i < period
        invariant
            i <= period <= 3,
            2 * period <= n,
            n == executed@.len(),
            all == texts(executed@),
            late == all.skip(n - period),
            early == all.subrange(n - 2 * period, n - period),
            forall|k: int| 0 <= k < i ==> #[trigger] late[k] == early[k],
        decreases period - i,
    {
        assert(late[i as int] == executed@[n - period + i]@);
        assert(early[i as int] == executed@[n - 2 * period + i]@);
        if !same_text(
            executed[n - period + i].as_str(),
            executed[n - 2 * period + i].as_str(),
        ) {
            return false;
        }
        i += 1;
    }
    assert(late =~= early);
    true
}

impl Turn {
    pub fn begin(prompt: &str) -> (r: Self)
        ensures
            r@ == fresh_turn(prompt@),
    {
        let r = Turn {
            prompt: prompt.to_owned(),
            events: vec![AgentEvent::UserMessage { content: prompt.to_owned() }],
            tool_results: Vec::new(),
            last_call: None,
            executed: Vec::new(),
            context: vec![ConversationMessage::new("user", prompt)],
        };
        assert(r@ =~= fresh_turn(prompt@));
        r
    }

    fn note(&mut self, event: AgentEvent)
        ensures
            final(self)@ == (TurnModel { events: old(self)@.events.push(event@), ..old(self)@ }),
    {
        let ghost before = self.events@;
        self.events.push(event);
        assert(agent_events(self.events@) =~= agent_events(before).push(event@));
    }

    /// Whether a call is the one before again.
    pub fn is_repeat(&self, call: &ToolCall) -> (r: bool)
        ensures
            r == repeats(self@, call@),
    {
        match &self.last_call {
            Some((name, arguments)) => same_text(name.as_str(), call.name.as_str()) && same_text(
                arguments.as_str(),
                canonical_arguments(&call.arguments).as_str(),
            ),
            None => false,
        }
    }

    /// Ends the turn by a repeated call.
    pub fn stop(&mut self, call: &ToolCall)
        ensures
            final(self)@ == stopped_turn(old(self)@, call@),
    {
        self.note(AgentEvent::RepeatedToolCall { tool: call.name.clone(), count: 2 });
        self.note(AgentEvent::Done);
    }

    /// Notes a call and the permission that it asks for.
    pub fn call(&mut self, call: &ToolCall, permission: &Option<PermissionRequest>)
        ensures
            final(self)@ == called_turn(
                old(self)@,
                call@,
                asked_for(*permission),
            ),
    {
        self.note(AgentEvent::ToolCall(call.clone()));
        if let Some(request) = permission {
            self.note(AgentEvent::PermissionRequested(request.clone()));
        }
    }

    /// Notes the result of a call; the period of a loop, when the calls have run into one.
    pub fn result(&mut self, call: &ToolCall, result: ToolResult) -> (r: Option<usize>)
        ensures
            final(self)@ == resulted_turn(old(self)@, call@, result@),
            match r {
                Some(period) => loop_period(final(self)@.executed) == Some(period as nat),
                None => loop_period(final(self)@.executed) is None,
            },
    {
        let ghost start = self@;
        let arguments = canonical_arguments(&call.arguments);
        let ghost contexts = self.context@;
        let said = ConversationMessage::new("assistant", format_tool_call(call).as_str());
        let told = ConversationMessage::new("tool", format_tool_result(&result).as_str());
        let ghost first = said@;
        let ghost second = told@;
        self.context.push(said);
        self.context.push(told);
        assert(message_models(self.context@) =~= message_models(contexts).push(first).push(second));
        let ghost results = self.tool_results@;
        let copy = result.clone();
        self.tool_results.push(copy);
        assert(result_models(self.tool_results@) =~= result_models(results).push(result@));
        let ghost told_result = result@;
        self.note(AgentEvent::ToolResult(result));
        let mut key = call.name.clone();
        key.push_str(" ");
        key.push_str(arguments.as_str());
        let ghost keys = self.executed@;
        let ghost known = key@;
        self.executed.push(key);
        assert(texts(self.executed@) =~= texts(keys).push(known));
        self.last_call = Some((call.name.clone(), arguments));
        assert(self@ =~= resulted_turn(start, call@, told_result));
        if is_loop(&self.executed, 2) {
            Some(2)
        } else if is_loop(&self.executed, 3) {
            Some(3)
        } else {
            None
        }
    }

    /// Ends the turn by text; the text is told unless it has been streamed.
    pub fn answer(&mut self, content: String, tell: bool)
        ensures
            final(self)@ == answered_turn(old(self)@, content@, tell),
    {
        let ghost contexts = self.context@;
        let said = ConversationMessage::new("assistant", content.as_str());
        let ghost first = said@;
        self.context.push(said);
        assert(message_models(self.context@) =~= message_models(contexts).push(first));
        if tell {
            self.note(AgentEvent::AssistantText { content });
        }
        self.note(AgentEvent::Done);
    }
}

/// After a call, another one counts as a repeat exactly where it has the same name and the same
/// arguments.
pub proof fn law_only_the_same_call_repeats(
    t: TurnModel,
    call: CallModel,
    result: ResultModel,
    next: CallModel,
)
    ensures
        repeats(resulted_turn(t, call, result), next) <==> call.name == next.name && call.arguments
            == next.arguments,
{
    law_canonical_texts_tell_arguments_apart(call.arguments, next.arguments);
}

} // verus!
