//! Contracts and a deterministic execution loop for the terminal agent.
//!
//! The model boundary is intentionally provider-neutral. A live model can be
//! added later without changing VM ownership or tool policy.

use vstd::prelude::*;

pub use crate::agent_messages::{
    AgentError, AgentEvent, ConversationMessage, DEFAULT_SYSTEM_PROMPT, ModelCapabilities,
    ModelError, ModelMode, ModelRequest, ModelResponse, ModelStreamEvent, PermissionDecision,
    PermissionRequest, RouteRequest, ToolArguments, ToolCall, ToolError, ToolResult, ToolSpec,
    ToolValue, system_prompt_with_instructions,
};
#[allow(unused_imports)]
use crate::agent_messages::{
    AgentTrouble, CallModel, DecisionModel, EventModel, MessageModel, ModelRequestModel,
    RequestedModel, ResponseModel, ResultModel, RouteModel, SpecModel, agent_events, default_route,
    asked_for, message_models, result_models, spec_models,
};
use crate::agent_messages::{copy_messages, copy_results};
#[allow(unused_imports)]
use crate::canonical::{
    law_canonical_texts_tell_arguments_apart, law_names_and_arguments_tell_calls_apart,
};
use crate::clock::{nanoseconds_since, now};
pub use crate::models::{
    EventSink, EventStream, Model, ModelRouter, ModelSelection, RouteError, ScriptedModel,
};
use crate::models::{consult, consult_streaming, pass_on};
#[allow(unused_imports)]
use crate::models::{StreamModel, replies, replies_streaming, reply_seen, sends, told_text, with_reply};
pub use crate::process_model::ProcessModel;
#[allow(unused_imports)]
use crate::text::texts;
#[allow(unused_imports)]
use crate::tool_values::arguments_json;
pub use crate::toolbox::{Tool, ToolRegistry, Toolbox};
use crate::toolbox::make_result;
#[allow(unused_imports)]
use crate::toolbox::{
    Registered, call_result, carries_out, registered, tool_outcome, tool_specs, unknown_result,
};
use crate::turns::{Turn, bounded_context};
#[allow(unused_imports)]
use crate::turns::{
    TurnModel, answered_turn, bounded, call_key, called_turn, fresh_turn, kept_from, loop_period,
    loops, message_size, repeats, resulted_turn, stopped_turn,
};
pub use crate::vm_tools::vm_tool_registry;

verus! {

pub const DEFAULT_CONTEXT_MESSAGES: usize = 24;

pub const DEFAULT_CONTEXT_CHARS: usize = 32 * 1024;

pub const DEFAULT_TURN_NANOSECONDS: u128 = 300_000_000_000;

// ---------------------------------------------------------------------------
// What a turn does
// ---------------------------------------------------------------------------

/// What an agent goes by.
#[verifier::ext_equal]
pub struct AgentModel {
    pub tools: Registered,
    pub max_steps: nat,
    pub max_tool_calls: nat,
    pub turn_timeout: u128,
    pub route: RouteModel,
    pub system_prompt: Seq<char>,
    pub conversation: Seq<MessageModel>,
    pub max_context_messages: nat,
    pub max_context_chars: nat,
}

/// What comes from outside in one step: the time that has passed, the model's reply and whether it
/// emitted text before, and for a tool call the permission that the tool asks for, the decision on
/// it and what the tool returns.
#[verifier::ext_equal]
pub struct ReplyModel {
    pub elapsed: u128,
    pub response: Result<ResponseModel, Seq<char>>,
    pub emitted: bool,
    pub permission: Option<RequestedModel>,
    pub decision: DecisionModel,
    pub outcome: Result<Seq<char>, Seq<char>>,
}

/// How a turn ended, and the conversation after it.
#[verifier::ext_equal]
pub struct EndModel {
    pub result: Result<Seq<EventModel>, AgentTrouble>,
    pub conversation: Seq<MessageModel>,
}

/// Where a step leads.
#[verifier::ext_equal]
pub enum StepModel {
    Going(TurnModel),
    Ended(EndModel),
}

/// What the model is asked in a turn.
pub open spec fn request_of(a: AgentModel, t: TurnModel) -> ModelRequestModel {
    ModelRequestModel {
        system_prompt: a.system_prompt,
        prompt: t.prompt,
        tool_results: t.tool_results,
        tools: tool_specs(a.tools),
        conversation: bounded(a.conversation, a.max_context_messages, a.max_context_chars),
        route: a.route,
    }
}

/// The conversation after a turn that was answered.
pub open spec fn committed(a: AgentModel, context: Seq<MessageModel>) -> Seq<MessageModel> {
    bounded(a.conversation + context, a.max_context_messages, a.max_context_chars)
}

/// The result of a call: the reason of a denial, or what the tool returns.
pub open spec fn outcome_with(
    a: AgentModel,
    call: CallModel,
    guarded: bool,
    decision: DecisionModel,
    outcome: Result<Seq<char>, Seq<char>>,
) -> ResultModel {
    if guarded && decision is Deny {
        call_result(call, Err(decision->reason))
    } else if registered(a.tools, call.name) {
        call_result(call, outcome)
    } else {
        unknown_result(call)
    }
}

/// A turn with the result of a call noted.
pub open spec fn concluded(
    a: AgentModel,
    t: TurnModel,
    call: CallModel,
    guarded: bool,
    decision: DecisionModel,
    outcome: Result<Seq<char>, Seq<char>>,
) -> TurnModel {
    resulted_turn(t, call, outcome_with(a, call, guarded, decision, outcome))
}

/// A turn that failed: the conversation stays as it was.
pub open spec fn failed(a: AgentModel, trouble: AgentTrouble) -> StepModel {
    StepModel::Ended(EndModel { result: Err(trouble), conversation: a.conversation })
}

/// One step of a turn.
pub open spec fn step_of(
    a: AgentModel,
    t: TurnModel,
    reply: ReplyModel,
    streaming: bool,
) -> StepModel {
    if reply.elapsed >= a.turn_timeout {
        failed(a, AgentTrouble::TurnTimeoutExceeded)
    } else {
        match reply.response {
            Err(message) => failed(a, AgentTrouble::Model(message)),
            Ok(ResponseModel::Text(content)) => {
                let told = !streaming || !reply.emitted && content.len() > 0;
                let after = answered_turn(t, content, told);
                StepModel::Ended(
                    EndModel { result: Ok(after.events), conversation: committed(a, after.context) },
                )
            },
            Ok(ResponseModel::ToolCall(call)) => if t.executed.len() >= a.max_tool_calls {
                failed(a, AgentTrouble::ToolCallLimitExceeded { limit: a.max_tool_calls })
            } else if repeats(t, call) {
                StepModel::Ended(
                    EndModel {
                        result: Ok(stopped_turn(t, call).events),
                        conversation: a.conversation,
                    },
                )
            } else {
                let after = concluded(
                    a,
                    called_turn(t, call, reply.permission),
                    call,
                    reply.permission is Some,
                    reply.decision,
                    reply.outcome,
                );
                match loop_period(after.executed) {
                    Some(period) => failed(a, AgentTrouble::PatternLoopDetected { period }),
                    None => StepModel::Going(after),
                }
            },
        }
    }
}

/// The turn as a step leaves it.
pub open spec fn step_turn(
    a: AgentModel,
    t: TurnModel,
    reply: ReplyModel,
    streaming: bool,
) -> TurnModel {
    if reply.elapsed >= a.turn_timeout {
        t
    } else {
        match reply.response {
            Err(_) => t,
            Ok(ResponseModel::Text(content)) => answered_turn(
                t,
                content,
                !streaming || !reply.emitted && content.len() > 0,
            ),
            Ok(ResponseModel::ToolCall(call)) => if t.executed.len() >= a.max_tool_calls {
                t
            } else if repeats(t, call) {
                stopped_turn(t, call)
            } else {
                concluded(
                    a,
                    called_turn(t, call, reply.permission),
                    call,
                    reply.permission is Some,
                    reply.decision,
                    reply.outcome,
                )
            },
        }
    }
}

/// Whether a reply leads to a call of a tool.
pub open spec fn calls(a: AgentModel, t: TurnModel, reply: ReplyModel) -> bool {
    reply.elapsed < a.turn_timeout && (reply.response matches Ok(ResponseModel::ToolCall(call))
        && t.executed.len() < a.max_tool_calls && !repeats(t, call))
}

/// Whether the call in a reply is denied.
pub open spec fn denied(reply: ReplyModel) -> bool {
    reply.permission is Some && reply.decision is Deny
}

/// The turn after these replies, while it goes on.
pub open spec fn advance(
    a: AgentModel,
    prompt: Seq<char>,
    replies: Seq<ReplyModel>,
    streaming: bool,
) -> Option<TurnModel>
    decreases replies.len(),
{
    if replies.len() == 0 {
        Some(fresh_turn(prompt))
    } else {
        match advance(a, prompt, replies.drop_last(), streaming) {
            None => None,
            Some(t) => match step_of(a, t, replies.last(), streaming) {
                StepModel::Going(after) => Some(after),
                StepModel::Ended(_) => None,
            },
        }
    }
}

/// How the turn ends with these replies, when it ends with the last of them or for want of steps.
pub open spec fn turn_end(
    a: AgentModel,
    prompt: Seq<char>,
    replies: Seq<ReplyModel>,
    streaming: bool,
) -> Option<EndModel> {
    if replies.len() == a.max_steps && advance(a, prompt, replies, streaming) is Some {
        Some(
            EndModel {
                result: Err(AgentTrouble::StepLimitExceeded { limit: a.max_steps }),
                conversation: a.conversation,
            },
        )
    } else if 0 < replies.len() <= a.max_steps {
        match advance(a, prompt, replies.drop_last(), streaming) {
            None => None,
            Some(t) => match step_of(a, t, replies.last(), streaming) {
                StepModel::Ended(end) => Some(end),
                StepModel::Going(_) => None,
            },
        }
    } else {
        None
    }
}

/// Whether `approve` can decide so on what was asked for.
pub open spec fn allowed_by<F: FnMut(&PermissionRequest) -> PermissionDecision>(
    approve: F,
    asked: RequestedModel,
    answer: DecisionModel,
) -> bool {
    exists|request: PermissionRequest, decision: PermissionDecision| #[trigger]
        approve.ensures((&request,), decision) && request@ == asked && decision@ == answer
}

/// Whether the decision in a reply is one that `approve` can give on what was asked for.
pub open spec fn decided<F: FnMut(&PermissionRequest) -> PermissionDecision>(
    approve: F,
    reply: ReplyModel,
) -> bool {
    reply.permission matches Some(asked) ==> allowed_by(approve, asked, reply.decision)
}

/// The course of a turn: the turn before each step, what came from outside in it, what the model
/// was asked and returned, and the model and the tools before and after it.
pub struct CourseModel<M> {
    pub turns: Seq<TurnModel>,
    pub replies: Seq<ReplyModel>,
    pub requests: Seq<ModelRequest>,
    pub results: Seq<Result<ModelResponse, ModelError>>,
    pub models: Seq<M>,
    pub toolsets: Seq<ToolRegistry>,
}

/// The call that a model asks for.
pub open spec fn call_of(result: Result<ModelResponse, ModelError>) -> ToolCall {
    result->Ok_0->ToolCall_0
}

/// Whether tools may ask for this permission before a call.
pub open spec fn asks(
    tools: ToolRegistry,
    call: ToolCall,
    permission: Option<RequestedModel>,
) -> bool {
    exists|asked: Option<PermissionRequest>| #[trigger]
        call_ensures(ToolRegistry::permission_request, (&tools, &call), asked) && asked_for(asked)
            == permission
}

/// Whether step `i` of a course is what the agent does: before the time is over, the model is asked
/// about the turn and its answer is taken; a call is put to the tools as it stands, and leaves them
/// alone when it is denied.
pub open spec fn took_place<M>(a: AgentModel, course: CourseModel<M>, i: int) -> bool {
    let t = course.turns[i];
    let reply = course.replies[i];
    &&& reply.elapsed >= a.turn_timeout ==> course.models[i + 1] == course.models[i]
    &&& reply.elapsed < a.turn_timeout ==> course.requests[i]@ == request_of(a, t)
        && reply.response == reply_seen(course.results[i])
    &&& calls(a, t, reply) ==> asks(
        course.toolsets[i],
        call_of(course.results[i]),
        reply.permission,
    )
    &&& !calls(a, t, reply) || denied(reply) ==> course.toolsets[i + 1] == course.toolsets[i]
}

/// Whether a course is one that the agent takes: it begins with a fresh turn, and each step leads
/// from one turn to the next.
pub open spec fn takes_course<M>(
    a: AgentModel,
    prompt: Seq<char>,
    course: CourseModel<M>,
    streaming: bool,
) -> bool {
    let n = course.replies.len();
    &&& course.turns.len() > 0
    &&& course.turns.len() >= n
    &&& course.requests.len() == n
    &&& course.results.len() == n
    &&& course.models.len() == n + 1
    &&& course.toolsets.len() == n + 1
    &&& course.turns[0] == fresh_turn(prompt)
    &&& forall|i: int|
        #![trigger course.replies[i]]
        0 <= i < n ==> took_place(a, course, i) && (i + 1 < course.turns.len() ==> step_of(
            a,
            course.turns[i],
            course.replies[i],
            streaming,
        ) == StepModel::Going(course.turns[i + 1]))
}

/// Whether a course leads from one state of the agent to another.
pub open spec fn leads<M>(course: CourseModel<M>, before: Agent<M>, after: Agent<M>) -> bool {
    &&& course.models[0] == before.held_model()
    &&& course.toolsets[0] == before.held_tools()
    &&& course.models.last() == after.held_model()
    &&& course.toolsets.last() == after.held_tools()
}

/// A stream that has taken these events.
pub open spec fn with_events(s: StreamModel, events: Seq<EventModel>) -> StreamModel {
    if s.keeps {
        StreamModel { events: s.events + events, ..s }
    } else {
        s
    }
}

/// Whether a stream takes the events of a turn as they come: `streams` stands for it before and
/// after each time that the model was asked. The events of a step follow what the model emitted in
/// it.
#[verifier::opaque]
pub open spec fn streamed<M>(
    a: AgentModel,
    prompt: Seq<char>,
    course: CourseModel<M>,
    streams: Seq<(EventStream, EventStream)>,
    before: StreamModel,
    after: StreamModel,
) -> bool {
    let n = course.replies.len() as int;
    &&& streams.len() == n
    &&& forall|i: int|
        #![trigger streams[i]]
        0 <= i < n ==> {
            &&& streams[i].0@ == stream_at(a, prompt, course, streams, before, i)
            &&& course.replies[i].elapsed >= a.turn_timeout ==> streams[i].1 == streams[i].0
            &&& course.replies[i].emitted == (streams[i].1@.deltas != streams[i].0@.deltas)
        }
    &&& after == stream_at(a, prompt, course, streams, before, n)
}

/// What a stream has taken before step `i`.
pub open spec fn stream_at<M>(
    a: AgentModel,
    prompt: Seq<char>,
    course: CourseModel<M>,
    streams: Seq<(EventStream, EventStream)>,
    before: StreamModel,
    i: int,
) -> StreamModel {
    with_events(
        if i <= 0 {
            before
        } else {
            streams[i - 1].1@
        },
        news_at(a, prompt, course, i),
    )
}

/// The events that are new before step `i` of a streaming turn: those that it begins with, or those
/// of the step before.
pub open spec fn news_at<M>(
    a: AgentModel,
    prompt: Seq<char>,
    course: CourseModel<M>,
    i: int,
) -> Seq<EventModel> {
    if i <= 0 {
        fresh_turn(prompt).events
    } else {
        let t = course.turns[i - 1];
        step_turn(a, t, course.replies[i - 1], true).events.skip(t.events.len() as int)
    }
}

/// An event that a stream takes, and the stream before and after.
pub struct Passage {
    pub before: EventStream,
    pub event: AgentEvent,
    pub after: EventStream,
}

/// Whether passages lead a stream from one state to another, one for each of `news`.
#[verifier::opaque]
pub open spec fn carried(
    passages: Seq<Passage>,
    news: Seq<EventModel>,
    from: EventStream,
    to: EventStream,
) -> bool {
    &&& passages.len() == news.len()
    &&& forall|j: int| 0 <= j < news.len() ==> (#[trigger] passages[j]).event@ == news[j]
    &&& news.len() == 0 ==> from == to
    &&& news.len() > 0 ==> passages[0].before == from && passages.last().after == to
    &&& forall|j: int|
        0 <= j < news.len() - 1 ==> (#[trigger] passages[j].after) == passages[j + 1].before
}

/// Whether the new events of a turn pass through a stream one by one: `passages[i]` are those of the
/// events that are new before step `i`.
#[verifier::opaque]
pub open spec fn passed_on<M>(
    a: AgentModel,
    prompt: Seq<char>,
    course: CourseModel<M>,
    streams: Seq<(EventStream, EventStream)>,
    passages: Seq<Seq<Passage>>,
    before: EventStream,
    after: EventStream,
) -> bool {
    let n = course.replies.len() as int;
    &&& passages.len() == n + 1
    &&& forall|i: int|
        0 <= i <= n ==> carried(
            #[trigger] passages[i],
            news_at(a, prompt, course, i),
            if i == 0 {
                before
            } else {
                streams[i - 1].1
            },
            if i == n {
                after
            } else {
                streams[i].0
            },
        )
}

/// Whether the parts of a course that goes on have their lengths.
spec fn in_step<M>(course: CourseModel<M>) -> bool {
    let n = course.replies.len();
    &&& course.turns.len() == n + 1
    &&& course.requests.len() == n
    &&& course.results.len() == n
    &&& course.models.len() == n + 1
    &&& course.toolsets.len() == n + 1
}

/// What comes from outside in a step: all of it, what the model was asked and what it returned.
struct StepRecord {
    reply: ReplyModel,
    request: ModelRequest,
    result: Result<ModelResponse, ModelError>,
}

/// Whether a step is what the agent does.
spec fn stepped<M>(
    a: AgentModel,
    t: TurnModel,
    record: StepRecord,
    before: Agent<M>,
    after: Agent<M>,
) -> bool {
    let reply = record.reply;
    &&& reply.elapsed >= a.turn_timeout ==> after.held_model() == before.held_model()
    &&& reply.elapsed < a.turn_timeout ==> record.request@ == request_of(a, t) && reply.response
        == reply_seen(record.result)
    &&& calls(a, t, reply) ==> asks(before.held_tools(), call_of(record.result), reply.permission)
    &&& !calls(a, t, reply) || denied(reply) ==> after.held_tools() == before.held_tools()
}

/// A course with one step more, and the turn after it where it goes on.
spec fn with_step<M>(
    course: CourseModel<M>,
    record: StepRecord,
    model: M,
    tools: ToolRegistry,
    turn: Option<TurnModel>,
) -> CourseModel<M> {
    CourseModel {
        turns: match turn {
            Some(turn) => course.turns.push(turn),
            None => course.turns,
        },
        replies: course.replies.push(record.reply),
        requests: course.requests.push(record.request),
        results: course.results.push(record.result),
        models: course.models.push(model),
        toolsets: course.toolsets.push(tools),
    }
}

proof fn lemma_with_step<M>(
    earlier: CourseModel<M>,
    record: StepRecord,
    model: M,
    tools: ToolRegistry,
    turn: Option<TurnModel>,
)
    ensures
        ({
            let course = with_step(earlier, record, model, tools, turn);
            &&& extends(earlier, course)
            &&& course.replies.last() == record.reply
            &&& course.requests.last() == record.request
            &&& course.results.last() == record.result
            &&& course.models.last() == model
            &&& course.toolsets.last() == tools
            &&& turn matches Some(turn) ==> course.turns.last() == turn
        }),
{
}

/// Whether one course goes on where the other ends.
spec fn extends<M>(earlier: CourseModel<M>, course: CourseModel<M>) -> bool {
    &&& course.replies.len() == earlier.replies.len() + 1
    &&& course.requests.len() == earlier.requests.len() + 1
    &&& course.results.len() == earlier.results.len() + 1
    &&& course.models.len() == earlier.models.len() + 1
    &&& course.toolsets.len() == earlier.toolsets.len() + 1
    &&& course.turns.len() >= earlier.turns.len()
    &&& forall|i: int|
        0 <= i < earlier.replies.len() ==> #[trigger] course.replies[i] == earlier.replies[i]
    &&& forall|i: int|
        0 <= i < earlier.requests.len() ==> #[trigger] course.requests[i] == earlier.requests[i]
    &&& forall|i: int|
        0 <= i < earlier.results.len() ==> #[trigger] course.results[i] == earlier.results[i]
    &&& forall|i: int|
        0 <= i < earlier.models.len() ==> #[trigger] course.models[i] == earlier.models[i]
    &&& forall|i: int|
        0 <= i < earlier.toolsets.len() ==> #[trigger] course.toolsets[i] == earlier.toolsets[i]
    &&& forall|i: int|
        0 <= i < earlier.turns.len() ==> #[trigger] course.turns[i] == earlier.turns[i]
}

proof fn lemma_course_goes_on<M>(
    a: AgentModel,
    prompt: Seq<char>,
    earlier: CourseModel<M>,
    course: CourseModel<M>,
    streaming: bool,
)
    requires
        takes_course(a, prompt, earlier, streaming),
        earlier.turns.len() == earlier.replies.len() + 1,
        extends(earlier, course),
        took_place(a, course, earlier.replies.len() as int),
        course.turns.len() <= course.replies.len() + 1,
        course.turns.len() == course.replies.len() + 1 ==> step_of(
            a,
            course.turns[earlier.replies.len() as int],
            course.replies[earlier.replies.len() as int],
            streaming,
        ) == StepModel::Going(course.turns[course.replies.len() as int]),
    ensures
        takes_course(a, prompt, course, streaming),
{
    let n = earlier.replies.len();
    assert forall|i: int|
        #![trigger course.replies[i]]
        0 <= i < course.replies.len() implies took_place(a, course, i) && (i + 1
        < course.turns.len() ==> step_of(a, course.turns[i], course.replies[i], streaming)
        == StepModel::Going(course.turns[i + 1])) by {
        if i < n {
            assert(course.replies[i] == earlier.replies[i]);
            assert(course.turns[i] == earlier.turns[i]);
            assert(course.turns[i + 1] == earlier.turns[i + 1]);
            assert(course.models[i] == earlier.models[i]);
            assert(course.models[i + 1] == earlier.models[i + 1]);
            assert(course.toolsets[i] == earlier.toolsets[i]);
            assert(course.toolsets[i + 1] == earlier.toolsets[i + 1]);
            assert(course.requests[i] == earlier.requests[i]);
            assert(course.results[i] == earlier.results[i]);
        }
    }
    assert(course.turns[0] == earlier.turns[0]);
}

proof fn lemma_streamed_goes_on<M>(
    a: AgentModel,
    prompt: Seq<char>,
    earlier: CourseModel<M>,
    course: CourseModel<M>,
    passed: Seq<(EventStream, EventStream)>,
    heard: (EventStream, EventStream),
    before: StreamModel,
    after: StreamModel,
)
    requires
        streamed(a, prompt, earlier, passed, before, heard.0@),
        earlier.turns.len() == earlier.replies.len() + 1,
        extends(earlier, course),
        course.replies.last().elapsed >= a.turn_timeout ==> heard.1 == heard.0,
        course.replies.last().emitted == (heard.1@.deltas != heard.0@.deltas),
        ({
            let t = earlier.turns.last();
            after == with_events(
                heard.1@,
                step_turn(a, t, course.replies.last(), true).events.skip(t.events.len() as int),
            )
        }),
    ensures
        streamed(a, prompt, course, passed.push(heard), before, after),
{
    reveal(streamed);
    let n = earlier.replies.len() as int;
    let streams = passed.push(heard);
    assert(course.turns[n] == earlier.turns[n]);
    assert forall|i: int| #![trigger streams[i]] 0 <= i < course.replies.len() implies {
        &&& streams[i].0@ == stream_at(a, prompt, course, streams, before, i)
        &&& course.replies[i].elapsed >= a.turn_timeout ==> streams[i].1 == streams[i].0
        &&& course.replies[i].emitted == (streams[i].1@.deltas != streams[i].0@.deltas)
    } by {
        if i > 0 {
            assert(streams[i - 1] == passed[i - 1]);
            assert(course.replies[i - 1] == earlier.replies[i - 1]);
            assert(course.turns[i - 1] == earlier.turns[i - 1]);
        }
        if i < n {
            assert(streams[i] == passed[i]);
            assert(course.replies[i] == earlier.replies[i]);
        }
    }
}

/// A reply that asks for no permission.
pub open spec fn plain_reply(
    elapsed: u128,
    response: Result<ResponseModel, Seq<char>>,
    emitted: bool,
) -> ReplyModel {
    ReplyModel {
        elapsed,
        response,
        emitted,
        permission: None,
        decision: DecisionModel::Allow,
        outcome: Err(Seq::empty()),
    }
}

/// Whether a streaming turn ended so.
pub open spec fn ended_as(
    end: Option<EndModel>,
    r: Result<(), AgentError>,
    conversation: Seq<MessageModel>,
) -> bool {
    end matches Some(end) && end.conversation == conversation && match r {
        Ok(_) => end.result is Ok,
        Err(error) => end.result == Err::<Seq<EventModel>, AgentTrouble>(error@),
    }
}

/// What a reply of the model leads to.
enum Considered {
    End(Result<Vec<AgentEvent>, AgentError>),
    Call(ToolCall, Option<PermissionRequest>),
}

proof fn lemma_ends(
    a: AgentModel,
    prompt: Seq<char>,
    replies: Seq<ReplyModel>,
    t: TurnModel,
    reply: ReplyModel,
    streaming: bool,
)
    requires
        replies.len() < a.max_steps,
        advance(a, prompt, replies, streaming) == Some(t),
        step_of(a, t, reply, streaming) is Ended,
    ensures
        turn_end(a, prompt, replies.push(reply), streaming) == Some(
            step_of(a, t, reply, streaming)->Ended_0,
        ),
{
    assert(replies.push(reply).drop_last() =~= replies);
}

proof fn lemma_goes_on(
    a: AgentModel,
    prompt: Seq<char>,
    replies: Seq<ReplyModel>,
    t: TurnModel,
    reply: ReplyModel,
    streaming: bool,
)
    requires
        advance(a, prompt, replies, streaming) == Some(t),
        step_of(a, t, reply, streaming) is Going,
    ensures
        advance(a, prompt, replies.push(reply), streaming) == Some(
            step_of(a, t, reply, streaming)->Going_0,
        ),
{
    assert(replies.push(reply).drop_last() =~= replies);
}

proof fn lemma_one_more<F: FnMut(&PermissionRequest) -> PermissionDecision>(
    approve: F,
    replies: Seq<ReplyModel>,
    reply: ReplyModel,
)
    requires
        forall|i: int| 0 <= i < replies.len() ==> decided(approve, #[trigger] replies[i]),
        decided(approve, reply),
    ensures
        replies.push(reply).drop_last() == replies,
        replies.push(reply).last() == reply,
        replies.push(reply).len() == replies.len() + 1,
        forall|i: int|
            0 <= i < replies.push(reply).len() ==> decided(
                approve,
                #[trigger] replies.push(reply)[i],
            ),
{
    assert(replies.push(reply).drop_last() =~= replies);
}

proof fn lemma_replied<M: Model>(
    a: AgentModel,
    earlier: CourseModel<M>,
    course: CourseModel<M>,
)
    requires
        in_step(earlier),
        extends(earlier, course),
        forall|i: int|
            #![trigger earlier.replies[i]]
            0 <= i < earlier.replies.len()
                && earlier.replies[i].elapsed < a.turn_timeout ==> exists|m: &mut M| #[trigger]
                replies(m, &earlier.requests[i], earlier.results[i])
                    && *m == earlier.models[i] && *final(m) == earlier.models[i + 1],
        course.replies.last().elapsed < a.turn_timeout ==> exists|m: &mut M| #[trigger]
            replies(m, &course.requests.last(), course.results.last())
                && *m == earlier.models.last() && *final(m) == course.models.last(),
    ensures
        forall|i: int|
            #![trigger course.replies[i]]
            0 <= i < course.replies.len()
                && course.replies[i].elapsed < a.turn_timeout ==> exists|m: &mut M| #[trigger]
                replies(m, &course.requests[i], course.results[i]) && *m == course.models[i]
                    && *final(m) == course.models[i + 1],
{
    assert forall|i: int|
        #![trigger course.replies[i]]
        0 <= i < course.replies.len()
            && course.replies[i].elapsed < a.turn_timeout implies exists|m: &mut M| #[trigger]
            replies(m, &course.requests[i], course.results[i]) && *m == course.models[i]
                && *final(m) == course.models[i + 1] by {
        if i < earlier.replies.len() {
            assert(course.replies[i] == earlier.replies[i]);
            assert(course.requests[i] == earlier.requests[i]);
            assert(course.results[i] == earlier.results[i]);
            assert(course.models[i] == earlier.models[i]);
            assert(course.models[i + 1] == earlier.models[i + 1]);
        } else {
            assert(course.models[i] == earlier.models[i]);
        }
    }
}

proof fn lemma_replied_streaming<M: Model>(
    a: AgentModel,
    earlier: CourseModel<M>,
    course: CourseModel<M>,
    passed: Seq<(EventStream, EventStream)>,
    streams: Seq<(EventStream, EventStream)>,
)
    requires
        in_step(earlier),
        extends(earlier, course),
        passed.len() == earlier.replies.len(),
        streams.len() == course.replies.len(),
        forall|i: int| 0 <= i < passed.len() ==> #[trigger] streams[i] == passed[i],
        forall|i: int|
            #![trigger earlier.replies[i]]
            0 <= i < earlier.replies.len()
                && earlier.replies[i].elapsed < a.turn_timeout
                ==> exists|m: &mut M, e: &mut EventStream| #[trigger]
                replies_streaming(m, &earlier.requests[i], e, earlier.results[i])
                    && *m == earlier.models[i] && *final(m) == earlier.models[i + 1]
                    && *e == passed[i].0 && *final(e) == passed[i].1,
        course.replies.last().elapsed < a.turn_timeout
            ==> exists|m: &mut M, e: &mut EventStream| #[trigger]
            replies_streaming(m, &course.requests.last(), e, course.results.last())
                && *m == earlier.models.last() && *final(m) == course.models.last()
                && *e == streams.last().0 && *final(e) == streams.last().1,
    ensures
        forall|i: int|
            #![trigger course.replies[i]]
            0 <= i < course.replies.len()
                && course.replies[i].elapsed < a.turn_timeout
                ==> exists|m: &mut M, e: &mut EventStream| #[trigger]
                replies_streaming(m, &course.requests[i], e, course.results[i])
                    && *m == course.models[i] && *final(m) == course.models[i + 1]
                    && *e == streams[i].0 && *final(e) == streams[i].1,
{
    assert forall|i: int|
        #![trigger course.replies[i]]
        0 <= i < course.replies.len()
            && course.replies[i].elapsed < a.turn_timeout
            implies exists|m: &mut M, e: &mut EventStream| #[trigger]
            replies_streaming(m, &course.requests[i], e, course.results[i])
                && *m == course.models[i] && *final(m) == course.models[i + 1]
                && *e == streams[i].0 && *final(e) == streams[i].1 by {
        if i < earlier.replies.len() {
            assert(course.replies[i] == earlier.replies[i]);
            assert(course.requests[i] == earlier.requests[i]);
            assert(course.results[i] == earlier.results[i]);
            assert(course.models[i] == earlier.models[i]);
            assert(course.models[i + 1] == earlier.models[i + 1]);
            assert(streams[i] == passed[i]);
        } else {
            assert(course.models[i] == earlier.models[i]);
        }
    }
}

proof fn lemma_carried_out<M: Model>(
    a: AgentModel,
    earlier: CourseModel<M>,
    course: CourseModel<M>,
)
    requires
        in_step(earlier),
        extends(earlier, course),
        forall|i: int|
            #![trigger earlier.replies[i]]
            0 <= i < earlier.replies.len() && calls(a, earlier.turns[i], earlier.replies[i])
                && !denied(earlier.replies[i]) ==> exists|
                t: &mut ToolRegistry,
                result: ToolResult,
            | #[trigger]
                carries_out(t, &call_of(earlier.results[i]), result)
                    && *t == earlier.toolsets[i] && *final(t)
                    == earlier.toolsets[i + 1] && result@ == outcome_with(
                    a,
                    call_of(earlier.results[i])@,
                    earlier.replies[i].permission is Some,
                    earlier.replies[i].decision,
                    earlier.replies[i].outcome,
                ),
        calls(a, earlier.turns.last(), course.replies.last()) && !denied(course.replies.last())
            ==> exists|t: &mut ToolRegistry, result: ToolResult| #[trigger]
            carries_out(t, &call_of(course.results.last()), result) && *t == earlier.toolsets.last()
                && *final(t) == course.toolsets.last() && result@ == outcome_with(
                a,
                call_of(course.results.last())@,
                course.replies.last().permission is Some,
                course.replies.last().decision,
                course.replies.last().outcome,
            ),
    ensures
        forall|i: int|
            #![trigger course.replies[i]]
            0 <= i < course.replies.len() && calls(a, course.turns[i], course.replies[i])
                && !denied(course.replies[i]) ==> exists|
                t: &mut ToolRegistry,
                result: ToolResult,
            | #[trigger]
                carries_out(t, &call_of(course.results[i]), result)
                    && *t == course.toolsets[i] && *final(t)
                    == course.toolsets[i + 1] && result@ == outcome_with(
                    a,
                    call_of(course.results[i])@,
                    course.replies[i].permission is Some,
                    course.replies[i].decision,
                    course.replies[i].outcome,
                ),
{
    assert forall|i: int|
        #![trigger course.replies[i]]
        0 <= i < course.replies.len() && calls(a, course.turns[i], course.replies[i])
            && !denied(course.replies[i]) implies exists|
            t: &mut ToolRegistry,
            result: ToolResult,
        | #[trigger]
            carries_out(t, &call_of(course.results[i]), result) && *t == course.toolsets[i]
                && *final(t)
                == course.toolsets[i + 1] && result@ == outcome_with(
                a,
                call_of(course.results[i])@,
                course.replies[i].permission is Some,
                course.replies[i].decision,
                course.replies[i].outcome,
            ) by {
        if i < earlier.replies.len() {
            assert(course.replies[i] == earlier.replies[i]);
            assert(course.results[i] == earlier.results[i]);
            assert(course.turns[i] == earlier.turns[i]);
            assert(course.toolsets[i] == earlier.toolsets[i]);
            assert(course.toolsets[i + 1] == earlier.toolsets[i + 1]);
        } else {
            assert(course.turns[i] == earlier.turns[i]);
            assert(course.toolsets[i] == earlier.toolsets[i]);
        }
    }
}

/// What a turn returned, as a model of it.
pub open spec fn events_seen(r: Result<Vec<AgentEvent>, AgentError>) -> Result<
    Seq<EventModel>,
    AgentTrouble,
> {
    match r {
        Ok(events) => Ok(agent_events(events@)),
        Err(error) => Err(error@),
    }
}

// ---------------------------------------------------------------------------
// The agent
// ---------------------------------------------------------------------------

/// A bounded model-tool execution loop.
pub struct Agent<M> {
    model: M,
    tools: ToolRegistry,
    max_steps: usize,
    max_tool_calls: usize,
    turn_timeout: u128,
    route_request: RouteRequest,
    system_prompt: String,
    conversation: Vec<ConversationMessage>,
    max_context_messages: usize,
    max_context_chars: usize,
}

impl<M> View for Agent<M> {
    type V = AgentModel;

    closed spec fn view(&self) -> AgentModel {
        AgentModel {
            tools: self.tools@,
            max_steps: self.max_steps as nat,
            max_tool_calls: self.max_tool_calls as nat,
            turn_timeout: self.turn_timeout,
            route: self.route_request@,
            system_prompt: self.system_prompt@,
            conversation: message_models(self.conversation@),
            max_context_messages: self.max_context_messages as nat,
            max_context_chars: self.max_context_chars as nat,
        }
    }
}

impl<M> Agent<M> {
    /// The model, as it now is.
    pub closed spec fn held_model(&self) -> M {
        self.model
    }

    /// The tools, as they now are.
    pub closed spec fn held_tools(&self) -> ToolRegistry {
        self.tools
    }
}

/// Two agents with the same model and the same tools.
pub open spec fn same_parts<M>(a: Agent<M>, b: Agent<M>) -> bool {
    a.held_model() == b.held_model() && a.held_tools() == b.held_tools()
}

/// An agent with these tools and nothing else set.
pub open spec fn fresh_agent(tools: Registered) -> AgentModel {
    AgentModel {
        tools,
        max_steps: 8,
        max_tool_calls: 24,
        turn_timeout: DEFAULT_TURN_NANOSECONDS,
        route: default_route(),
        system_prompt: DEFAULT_SYSTEM_PROMPT@,
        conversation: Seq::empty(),
        max_context_messages: DEFAULT_CONTEXT_MESSAGES as nat,
        max_context_chars: DEFAULT_CONTEXT_CHARS as nat,
    }
}

fn copy_events(events: &Vec<AgentEvent>) -> (r: Vec<AgentEvent>)
    ensures
        agent_events(r@) == agent_events(events@),
{
    let mut r: Vec<AgentEvent> = Vec::new();
    let mut i: usize = 0;
    while i < events.len()
        invariant
            i <= events@.len(),
            r@.len() == i,
            forall|k: int| 0 <= k < i ==> (#[trigger] r@[k])@ == events@[k]@,
        decreases events@.len() - i,
    {
        r.push(events[i].clone());
        i += 1;
    }
    assert(agent_events(r@) =~= agent_events(events@));
    r
}

/// Hands the events of a turn from index `sent` on to a stream.
fn flush(turn: &Turn, sent: usize, stream: &mut EventStream) -> (r: (usize, Ghost<Seq<Passage>>))
    requires
        sent <= turn@.events.len(),
    ensures
        r.0 == turn@.events.len(),
        final(stream)@ == with_events(old(stream)@, turn@.events.skip(sent as int)),
        carried(r.1@, turn@.events.skip(sent as int), *old(stream), *final(stream)),
        forall|j: int|
            #![trigger r.1@[j]]
            0 <= j < r.1@.len() ==> exists|s: &mut EventStream| #[trigger]
                sends(s, r.1@[j].event) && *s == r.1@[j].before && *final(s) == r.1@[j].after,
{
    let ghost all = turn@.events;
    let ghost news = all.skip(sent as int);
    let ghost before = stream@;
    let ghost mut passages: Seq<Passage> = Seq::empty();
    let mut i: usize = sent;
    assert(news.take(0) =~= Seq::<EventModel>::empty());
    proof {
        reveal(carried);
    }
    assert(before.events + Seq::<EventModel>::empty() =~= before.events);
    while i < turn.events.len()
        invariant
            sent <= i <= all.len(),
            all == turn@.events,
            news == all.skip(sent as int),
            all.len() == turn.events@.len(),
            stream@ == with_events(before, news.take(i - sent)),
            carried(passages, news.take(i - sent), *old(stream), *stream),
            forall|j: int|
                #![trigger passages[j]]
                0 <= j < passages.len() ==> exists|s: &mut EventStream| #[trigger]
                    sends(s, passages[j].event) && *s == passages[j].before && *final(s)
                        == passages[j].after,
        decreases turn.events@.len() - i,
    {
        assert(all[i as int] == turn.events@[i as int]@);
        let event = turn.events[i].clone();
        let ghost k = i - sent;
        let ghost earlier = passages;
        let ghost passage = Passage { before: *stream, event, after: *stream };
        pass_on(stream, event);
        proof {
            let passage = Passage { after: *stream, ..passage };
            passages = earlier.push(passage);
            assert(news.take(k + 1) =~= news.take(k).push(all[i as int]));
            assert(before.events + news.take(k + 1) =~= (before.events + news.take(k)).push(
                all[i as int],
            ));
            assert forall|j: int| #![trigger passages[j]] 0 <= j < passages.len() implies exists|
                s: &mut EventStream,
            | #[trigger]
                sends(s, passages[j].event) && *s == passages[j].before && *final(s)
                    == passages[j].after by {
                if j < earlier.len() {
                    assert(passages[j] == earlier[j]);
                }
            }
            lemma_carried_on(earlier, news.take(k), passage, *old(stream));
        }
        i += 1;
    }
    assert(news.take(i - sent) =~= news);
    (i, Ghost(passages))
}

proof fn lemma_carried_on(
    passages: Seq<Passage>,
    news: Seq<EventModel>,
    passage: Passage,
    from: EventStream,
)
    requires
        carried(passages, news, from, passage.before),
    ensures
        carried(passages.push(passage), news.push(passage.event@), from, passage.after),
{
    reveal(carried);
    let longer = passages.push(passage);
    assert forall|j: int| 0 <= j < news.len() implies (#[trigger] longer[j].after) == longer[j
        + 1].before by {
        assert(longer[j] == passages[j]);
        if j + 1 < news.len() {
            assert(passages[j].after == passages[j + 1].before);
            assert(longer[j + 1] == passages[j + 1]);
        }
    }
}

/// Events that passed through a stream in two parts passed through it as a whole.
proof fn lemma_passages_in_parts(
    first: Seq<Passage>,
    second: Seq<Passage>,
    news: Seq<EventModel>,
    more: Seq<EventModel>,
    from: EventStream,
    middle: EventStream,
    to: EventStream,
)
    requires
        carried(first, news, from, middle),
        carried(second, more, middle, to),
        forall|j: int|
            #![trigger first[j]]
            0 <= j < first.len() ==> exists|s: &mut EventStream| #[trigger]
                sends(s, first[j].event) && *s == first[j].before && *final(s) == first[j].after,
        forall|j: int|
            #![trigger second[j]]
            0 <= j < second.len() ==> exists|s: &mut EventStream| #[trigger]
                sends(s, second[j].event) && *s == second[j].before && *final(s) == second[j].after,
    ensures
        carried(first + second, news + more, from, to),
        forall|j: int|
            #![trigger (first + second)[j]]
            0 <= j < (first + second).len() ==> exists|s: &mut EventStream| #[trigger]
                sends(s, (first + second)[j].event) && *s == (first + second)[j].before && *final(s)
                    == (first + second)[j].after,
{
    reveal(carried);
    let whole = first + second;
    let n = first.len() as int;
    assert forall|j: int| #![trigger whole[j]] 0 <= j < whole.len() implies exists|
        s: &mut EventStream,
    | #[trigger]
        sends(s, whole[j].event) && *s == whole[j].before && *final(s) == whole[j].after by {
        if j < n {
            assert(whole[j] == first[j]);
        } else {
            assert(whole[j] == second[j - n]);
        }
    }
    assert forall|j: int| 0 <= j < whole.len() - 1 implies (#[trigger] whole[j].after) == whole[j
        + 1].before by {
        if j < n - 1 {
            assert(first[j].after == first[j + 1].before);
            assert(whole[j] == first[j]);
            assert(whole[j + 1] == first[j + 1]);
        } else if j == n - 1 {
            assert(whole[j] == first.last());
            assert(whole[j + 1] == second[0]);
        } else {
            assert(second[j - n].after == second[j - n + 1].before);
            assert(whole[j] == second[j - n]);
            assert(whole[j + 1] == second[j - n + 1]);
        }
    }
    if more.len() == 0 {
        assert(whole =~= first);
    } else {
        assert(whole.last() == second.last());
    }
}

/// A turn whose events have passed through a stream goes on.
proof fn lemma_passed_goes_on<M>(
    a: AgentModel,
    prompt: Seq<char>,
    earlier: CourseModel<M>,
    course: CourseModel<M>,
    streams: Seq<(EventStream, EventStream)>,
    passages: Seq<Seq<Passage>>,
    heard: (EventStream, EventStream),
    added: Seq<Passage>,
    before: EventStream,
    after: EventStream,
    longer: Seq<Seq<Passage>>,
)
    requires
        passed_on(a, prompt, earlier, streams, passages, before, heard.0),
        in_step(earlier),
        extends(earlier, course),
        streams.len() == earlier.replies.len(),
        forall|i: int, j: int|
            #![trigger passages[i][j]]
            0 <= i < passages.len() && 0 <= j < passages[i].len() ==> exists|s: &mut EventStream|
                #[trigger]
                sends(s, passages[i][j].event) && *s == passages[i][j].before && *final(s)
                    == passages[i][j].after,
        ({
            let t = earlier.turns.last();
            carried(
                added,
                step_turn(a, t, course.replies.last(), true).events.skip(t.events.len() as int),
                heard.1,
                after,
            )
        }),
        forall|j: int|
            #![trigger added[j]]
            0 <= j < added.len() ==> exists|s: &mut EventStream| #[trigger]
                sends(s, added[j].event) && *s == added[j].before && *final(s) == added[j].after,
        longer == passages.push(added),
    ensures
        passed_on(a, prompt, course, streams.push(heard), longer, before, after),
        forall|i: int, j: int|
            #![trigger longer[i][j]]
            0 <= i < longer.len() && 0 <= j < longer[i].len() ==> exists|s: &mut EventStream|
                #[trigger]
                sends(s, longer[i][j].event) && *s == longer[i][j].before && *final(s)
                    == longer[i][j].after,
{
    reveal(passed_on);
    let n = earlier.replies.len() as int;
    let more = streams.push(heard);
    assert(course.turns[n] == earlier.turns[n]);
    assert forall|i: int| 0 <= i <= n + 1 implies carried(
        #[trigger] longer[i],
        news_at(a, prompt, course, i),
        if i == 0 {
            before
        } else {
            more[i - 1].1
        },
        if i == n + 1 {
            after
        } else {
            more[i].0
        },
    ) by {
        if i <= n {
            assert(longer[i] == passages[i]);
            if i > 0 {
                assert(course.turns[i - 1] == earlier.turns[i - 1]);
                assert(course.replies[i - 1] == earlier.replies[i - 1]);
                assert(more[i - 1] == streams[i - 1]);
            }
            if i < n {
                assert(more[i] == streams[i]);
            }
        } else {
            assert(longer[i] == added);
            assert(more[n] == heard);
        }
    }
    assert forall|i: int, j: int|
        #![trigger longer[i][j]]
        0 <= i < longer.len() && 0 <= j < longer[i].len() implies exists|s: &mut EventStream|
        #[trigger]
        sends(s, longer[i][j].event) && *s == longer[i][j].before && *final(s)
            == longer[i][j].after by {
        if i <= n {
            assert(longer[i] == passages[i]);
            assert(longer[i][j] == passages[i][j]);
        } else {
            assert(longer[i][j] == added[j]);
        }
    }
}

/// Events that were handed on in two parts were handed on as a whole.
proof fn lemma_events_in_parts(
    s: StreamModel,
    events: Seq<EventModel>,
    middle: Seq<EventModel>,
    from: int,
)
    requires
        0 <= from <= middle.len() <= events.len(),
        middle == events.take(middle.len() as int),
    ensures
        with_events(with_events(s, middle.skip(from)), events.skip(middle.len() as int))
            == with_events(s, events.skip(from)),
        middle.skip(from) + events.skip(middle.len() as int) == events.skip(from),
{
    assert(middle.skip(from) + events.skip(middle.len() as int) =~= events.skip(from)) by {
        assert forall|i: int| 0 <= i < middle.len() implies middle[i] == events[i] by {
            assert(events.take(middle.len() as int)[i] == events[i]);
        }
    }
    assert(s.events + middle.skip(from) + events.skip(middle.len() as int) =~= s.events
        + events.skip(from)) by {
        assert forall|i: int| 0 <= i < middle.len() implies middle[i] == events[i] by {
            assert(events.take(middle.len() as int)[i] == events[i]);
        }
    }
}

impl<M: Model> Agent<M> {
    pub fn new(model: M, tools: ToolRegistry) -> (r: Self)
        ensures
            r@ == fresh_agent(tools@),
            r.held_model() == model,
            r.held_tools() == tools,
    {
        let r = Agent {
            model,
            tools,
            max_steps: 8,
            max_tool_calls: 24,
            turn_timeout: DEFAULT_TURN_NANOSECONDS,
            route_request: RouteRequest::default(),
            system_prompt: DEFAULT_SYSTEM_PROMPT.to_owned(),
            conversation: Vec::new(),
            max_context_messages: DEFAULT_CONTEXT_MESSAGES,
            max_context_chars: DEFAULT_CONTEXT_CHARS,
        };
        assert(r@ =~= fresh_agent(tools@));
        r
    }

    pub fn with_max_steps(self, max_steps: usize) -> (r: Self)
        ensures
            same_parts(self, r),
            r@ == (AgentModel { max_steps: max_steps as nat, ..self@ }),
    {
        let mut r = self;
        r.max_steps = max_steps;
        r
    }

    pub fn with_max_tool_calls(self, max_tool_calls: usize) -> (r: Self)
        ensures
            same_parts(self, r),
            r@ == (AgentModel { max_tool_calls: max_tool_calls as nat, ..self@ }),
    {
        let mut r = self;
        r.max_tool_calls = max_tool_calls;
        r
    }

    /// Limits a turn to a number of nanoseconds.
    pub fn with_turn_timeout(self, turn_timeout: u128) -> (r: Self)
        ensures
            same_parts(self, r),
            r@ == (AgentModel { turn_timeout, ..self@ }),
    {
        let mut r = self;
        r.turn_timeout = turn_timeout;
        r
    }

    pub fn with_route_request(self, route_request: RouteRequest) -> (r: Self)
        ensures
            same_parts(self, r),
            r@ == (AgentModel { route: route_request@, ..self@ }),
    {
        let mut r = self;
        r.route_request = route_request;
        r
    }

    pub fn set_route_request(&mut self, route_request: RouteRequest)
        ensures
            same_parts(*old(self), *final(self)),
            final(self)@ == (AgentModel { route: route_request@, ..old(self)@ }),
    {
        self.route_request = route_request;
    }

    pub fn route_request(&self) -> (r: &RouteRequest)
        ensures
            r@ == self@.route,
    {
        &self.route_request
    }

    pub fn with_system_prompt(self, system_prompt: &str) -> (r: Self)
        ensures
            same_parts(self, r),
            r@ == (AgentModel { system_prompt: system_prompt@, ..self@ }),
    {
        let mut r = self;
        r.system_prompt = system_prompt.to_owned();
        r
    }

    pub fn set_system_prompt(&mut self, system_prompt: &str)
        ensures
            same_parts(*old(self), *final(self)),
            final(self)@ == (AgentModel { system_prompt: system_prompt@, ..old(self)@ }),
    {
        self.system_prompt = system_prompt.to_owned();
    }

    pub fn system_prompt(&self) -> (r: &str)
        ensures
            r@ == self@.system_prompt,
    {
        self.system_prompt.as_str()
    }

    pub fn with_context_limits(self, max_messages: usize, max_chars: usize) -> (r: Self)
        ensures
            same_parts(self, r),
            r@ == (AgentModel {
                max_context_messages: max_messages as nat,
                max_context_chars: max_chars as nat,
                ..self@
            }),
    {
        let mut r = self;
        r.max_context_messages = max_messages;
        r.max_context_chars = max_chars;
        r
    }

    pub fn conversation(&self) -> (r: &[ConversationMessage])
        ensures
            message_models(r@) == self@.conversation,
    {
        self.conversation.as_slice()
    }

    pub fn clear_conversation(&mut self)
        ensures
            same_parts(*old(self), *final(self)),
            final(self)@ == (AgentModel { conversation: Seq::empty(), ..old(self)@ }),
    {
        self.conversation = Vec::new();
        assert(message_models(self.conversation@) =~= Seq::<MessageModel>::empty());
    }

    /// Takes up a conversation that was held before.
    pub fn set_conversation(&mut self, conversation: Vec<ConversationMessage>)
        ensures
            same_parts(*old(self), *final(self)),
            final(self)@ == (AgentModel {
                conversation: message_models(conversation@),
                ..old(self)@
            }),
    {
        self.conversation = conversation;
    }

    /// What the model is asked in a turn.
    pub fn request(&self, turn: &Turn) -> (r: ModelRequest)
        ensures
            r@ == request_of(self@, turn@),
    {
        ModelRequest {
            system_prompt: self.system_prompt.clone(),
            prompt: turn.prompt.clone(),
            tool_results: copy_results(&turn.tool_results),
            tools: self.tools.specs(),
            conversation: bounded_context(
                &self.conversation,
                self.max_context_messages,
                self.max_context_chars,
            ),
            route: self.route_request.clone(),
        }
    }

    fn commit_turn(&mut self, messages: &Vec<ConversationMessage>)
        ensures
            same_parts(*old(self), *final(self)),
            final(self)@ == (AgentModel {
                conversation: committed(old(self)@, message_models(messages@)),
                ..old(self)@
            }),
    {
        let mut whole = copy_messages(&self.conversation);
        let mut more = copy_messages(messages);
        let ghost first = whole@;
        let ghost second = more@;
        whole.append(&mut more);
        assert(message_models(whole@) =~= message_models(first) + message_models(second));
        self.conversation =
        bounded_context(&whole, self.max_context_messages, self.max_context_chars);
    }

    pub fn run(&mut self, prompt: &str) -> (r: Result<Vec<AgentEvent>, AgentError>)
        ensures
            final(self)@ == (AgentModel { conversation: final(self)@.conversation, ..old(self)@ }),
            exists|course: CourseModel<M>|
                {
                    &&& #[trigger] turn_end(old(self)@, prompt@, course.replies, false) == Some(
                        EndModel {
                            result: events_seen(r),
                            conversation: final(self)@.conversation,
                        },
                    )
                    &&& takes_course(old(self)@, prompt@, course, false)
                    &&& leads(course, *old(self), *final(self))
                    &&& forall|i: int|
                        #![trigger course.replies[i]]
                        0 <= i < course.replies.len() && course.replies[i].permission is Some
                            ==> course.replies[i].decision == (DecisionModel::Deny {
                            reason: "tool requires host approval"@,
                        })
                    &&& forall|i: int|
                        #![trigger course.replies[i]]
                        0 <= i < course.replies.len()
                            && course.replies[i].elapsed < old(self)@.turn_timeout
                            ==> exists|m: &mut M| #[trigger]
                            replies(m, &course.requests[i], course.results[i])
                                && *m == course.models[i] && *final(m) == course.models[i + 1]
                    &&& forall|i: int|
                        #![trigger course.replies[i]]
                        0 <= i < course.replies.len()
                            && calls(old(self)@, course.turns[i], course.replies[i])
                            && !denied(course.replies[i]) ==> exists|
                            t: &mut ToolRegistry,
                            result: ToolResult,
                        | #[trigger]
                            carries_out(t, &call_of(course.results[i]), result)
                                && *t == course.toolsets[i] && *final(t)
                                == course.toolsets[i + 1] && result@ == outcome_with(
                                old(self)@,
                                call_of(course.results[i])@,
                                course.replies[i].permission is Some,
                                course.replies[i].decision,
                                course.replies[i].outcome,
                            )
                },
    {
        let deny = |_request: &PermissionRequest| -> (d: PermissionDecision)
            ensures
                d@ == (DecisionModel::Deny { reason: "tool requires host approval"@ }),
            { PermissionDecision::Deny { reason: "tool requires host approval".to_owned() } };
        self.run_with_approval(prompt, deny)
    }

    /// Run one turn with an explicit approval callback for guarded tools.
    pub fn run_with_approval<F: FnMut(&PermissionRequest) -> PermissionDecision>(
        &mut self,
        prompt: &str,
        approve: F,
    ) -> (r: Result<Vec<AgentEvent>, AgentError>)
        requires
            forall|request: PermissionRequest| approve.requires((&request,)),
        ensures
            final(self)@ == (AgentModel { conversation: final(self)@.conversation, ..old(self)@ }),
            exists|course: CourseModel<M>|
                {
                    &&& #[trigger] turn_end(old(self)@, prompt@, course.replies, false) == Some(
                        EndModel {
                            result: events_seen(r),
                            conversation: final(self)@.conversation,
                        },
                    )
                    &&& takes_course(old(self)@, prompt@, course, false)
                    &&& leads(course, *old(self), *final(self))
                    &&& forall|i: int|
                        0 <= i < course.replies.len()
                            ==> decided(approve, #[trigger] course.replies[i])
                    &&& forall|i: int|
                        #![trigger course.replies[i]]
                        0 <= i < course.replies.len()
                            && course.replies[i].elapsed < old(self)@.turn_timeout
                            ==> exists|m: &mut M| #[trigger]
                            replies(m, &course.requests[i], course.results[i])
                                && *m == course.models[i] && *final(m) == course.models[i + 1]
                    &&& forall|i: int|
                        #![trigger course.replies[i]]
                        0 <= i < course.replies.len()
                            && calls(old(self)@, course.turns[i], course.replies[i])
                            && !denied(course.replies[i]) ==> exists|
                            t: &mut ToolRegistry,
                            result: ToolResult,
                        | #[trigger]
                            carries_out(t, &call_of(course.results[i]), result)
                                && *t == course.toolsets[i] && *final(t)
                                == course.toolsets[i + 1] && result@ == outcome_with(
                                old(self)@,
                                call_of(course.results[i])@,
                                course.replies[i].permission is Some,
                                course.replies[i].decision,
                                course.replies[i].outcome,
                            )
                },
    {
        let ghost a = self@;
        let mut decide = approve;
        let mut turn = Turn::begin(prompt);
        let ghost mut course = CourseModel {
            turns: seq![turn@],
            replies: Seq::empty(),
            requests: Seq::empty(),
            results: Seq::empty(),
            models: seq![self.model],
            toolsets: seq![self.tools],
        };
        let started = now();
        let mut step: usize = 0;
        while step < self.max_steps
            invariant
                step <= self.max_steps,
                self@ == a,
                a == old(self)@,
                a.max_steps == self.max_steps,
                course.replies.len() == step,
                course.turns.len() == step + 1,
                course.turns.last() == turn@,
                takes_course(a, prompt@, course, false),
                leads(course, *old(self), *self),
                advance(a, prompt@, course.replies, false) == Some(turn@),
                decide == approve,
                forall|request: PermissionRequest| decide.requires((&request,)),
                forall|i: int|
                    0 <= i < course.replies.len()
                        ==> decided(approve, #[trigger] course.replies[i]),
                forall|i: int|
                    #![trigger course.replies[i]]
                    0 <= i < course.replies.len()
                        && course.replies[i].elapsed < a.turn_timeout
                        ==> exists|m: &mut M| #[trigger]
                        replies(m, &course.requests[i], course.results[i])
                            && *m == course.models[i] && *final(m) == course.models[i + 1],
                forall|i: int|
                    #![trigger course.replies[i]]
                    0 <= i < course.replies.len()
                        && calls(a, course.turns[i], course.replies[i])
                        && !denied(course.replies[i]) ==> exists|
                        t: &mut ToolRegistry,
                        result: ToolResult,
                    | #[trigger]
                        carries_out(t, &call_of(course.results[i]), result)
                            && *t == course.toolsets[i] && *final(t)
                            == course.toolsets[i + 1] && result@ == outcome_with(
                            a,
                            call_of(course.results[i])@,
                            course.replies[i].permission is Some,
                            course.replies[i].decision,
                            course.replies[i].outcome,
                        ),
            decreases self.max_steps - step,
        {
            let ghost t = turn@;
            let ghost earlier = course;
            let elapsed = nanoseconds_since(&started);
            let (next, ended, Ghost(record)) = self.step(&mut turn, elapsed, decide);
            decide = next;
            proof {
                lemma_one_more(approve, earlier.replies, record.reply);
                if ended is Some {
                    lemma_ends(a, prompt@, earlier.replies, t, record.reply, false);
                } else {
                    lemma_goes_on(a, prompt@, earlier.replies, t, record.reply, false);
                }
                course = with_step(
                    earlier,
                    record,
                    self.model,
                    self.tools,
                    if ended is Some {
                        None
                    } else {
                        Some(turn@)
                    },
                );
                lemma_with_step(
                    earlier,
                    record,
                    self.model,
                    self.tools,
                    if ended is Some {
                        None
                    } else {
                        Some(turn@)
                    },
                );
                lemma_course_goes_on(a, prompt@, earlier, course, false);
                lemma_replied(a, earlier, course);
                lemma_carried_out(a, earlier, course);
            }
            if let Some(ended) = ended {
                return ended;
            }
            step += 1;
        }
        assert(turn_end(a, prompt@, course.replies, false) is Some);
        Err(AgentError::StepLimitExceeded { limit: self.max_steps })
    }

    /// Run one turn and emit model text as it arrives.
    pub fn run_streaming(&mut self, prompt: &str, emit: &mut EventStream) -> (r: Result<
        (),
        AgentError,
    >)
        ensures
            final(self)@ == (AgentModel { conversation: final(self)@.conversation, ..old(self)@ }),
            exists|
                course: CourseModel<M>,
                streams: Seq<(EventStream, EventStream)>,
                passages: Seq<Seq<Passage>>,
            |
                {
                    &&& ended_as(
                        #[trigger] turn_end(old(self)@, prompt@, course.replies, true),
                        r,
                        final(self)@.conversation,
                    )
                    &&& #[trigger] streamed(
                        old(self)@,
                        prompt@,
                        course,
                        streams,
                        old(emit)@,
                        final(emit)@,
                    )
                    &&& #[trigger] passed_on(
                        old(self)@,
                        prompt@,
                        course,
                        streams,
                        passages,
                        *old(emit),
                        *final(emit),
                    )
                    &&& forall|i: int, j: int|
                        #![trigger passages[i][j]]
                        0 <= i < passages.len() && 0 <= j < passages[i].len() ==> exists|
                            s: &mut EventStream,
                        | #[trigger]
                            sends(s, passages[i][j].event) && *s == passages[i][j].before
                                && *final(s) == passages[i][j].after
                    &&& takes_course(old(self)@, prompt@, course, true)
                    &&& leads(course, *old(self), *final(self))
                    &&& forall|i: int|
                        #![trigger course.replies[i]]
                        0 <= i < course.replies.len() && course.replies[i].permission is Some
                            ==> course.replies[i].decision == (DecisionModel::Deny {
                            reason: "tool requires host approval"@,
                        })
                    &&& forall|i: int|
                        #![trigger course.replies[i]]
                        0 <= i < course.replies.len()
                            && course.replies[i].elapsed < old(self)@.turn_timeout
                            ==> exists|m: &mut M, e: &mut EventStream| #[trigger]
                            replies_streaming(m, &course.requests[i], e, course.results[i])
                                && *m == course.models[i] && *final(m) == course.models[i + 1]
                                && *e == streams[i].0 && *final(e) == streams[i].1
                    &&& forall|i: int|
                        #![trigger course.replies[i]]
                        0 <= i < course.replies.len()
                            && calls(old(self)@, course.turns[i], course.replies[i])
                            && !denied(course.replies[i]) ==> exists|
                            t: &mut ToolRegistry,
                            result: ToolResult,
                        | #[trigger]
                            carries_out(t, &call_of(course.results[i]), result)
                                && *t == course.toolsets[i] && *final(t)
                                == course.toolsets[i + 1] && result@ == outcome_with(
                                old(self)@,
                                call_of(course.results[i])@,
                                course.replies[i].permission is Some,
                                course.replies[i].decision,
                                course.replies[i].outcome,
                            )
                },
    {
        let deny = |_request: &PermissionRequest| -> (d: PermissionDecision)
            ensures
                d@ == (DecisionModel::Deny { reason: "tool requires host approval"@ }),
            { PermissionDecision::Deny { reason: "tool requires host approval".to_owned() } };
        self.run_streaming_with_approval(prompt, deny, emit)
    }

    /// Run one streaming turn with an explicit approval callback.
    pub fn run_streaming_with_approval<F: FnMut(&PermissionRequest) -> PermissionDecision>(
        &mut self,
        prompt: &str,
        approve: F,
        emit: &mut EventStream,
    ) -> (r: Result<(), AgentError>)
        requires
            forall|request: PermissionRequest| approve.requires((&request,)),
        ensures
            final(self)@ == (AgentModel { conversation: final(self)@.conversation, ..old(self)@ }),
            exists|
                course: CourseModel<M>,
                streams: Seq<(EventStream, EventStream)>,
                passages: Seq<Seq<Passage>>,
            |
                {
                    &&& ended_as(
                        #[trigger] turn_end(old(self)@, prompt@, course.replies, true),
                        r,
                        final(self)@.conversation,
                    )
                    &&& #[trigger] streamed(
                        old(self)@,
                        prompt@,
                        course,
                        streams,
                        old(emit)@,
                        final(emit)@,
                    )
                    &&& #[trigger] passed_on(
                        old(self)@,
                        prompt@,
                        course,
                        streams,
                        passages,
                        *old(emit),
                        *final(emit),
                    )
                    &&& forall|i: int, j: int|
                        #![trigger passages[i][j]]
                        0 <= i < passages.len() && 0 <= j < passages[i].len() ==> exists|
                            s: &mut EventStream,
                        | #[trigger]
                            sends(s, passages[i][j].event) && *s == passages[i][j].before
                                && *final(s) == passages[i][j].after
                    &&& takes_course(old(self)@, prompt@, course, true)
                    &&& leads(course, *old(self), *final(self))
                    &&& forall|i: int|
                        0 <= i < course.replies.len()
                            ==> decided(approve, #[trigger] course.replies[i])
                    &&& forall|i: int|
                        #![trigger course.replies[i]]
                        0 <= i < course.replies.len()
                            && course.replies[i].elapsed < old(self)@.turn_timeout
                            ==> exists|m: &mut M, e: &mut EventStream| #[trigger]
                            replies_streaming(m, &course.requests[i], e, course.results[i])
                                && *m == course.models[i] && *final(m) == course.models[i + 1]
                                && *e == streams[i].0 && *final(e) == streams[i].1
                    &&& forall|i: int|
                        #![trigger course.replies[i]]
                        0 <= i < course.replies.len()
                            && calls(old(self)@, course.turns[i], course.replies[i])
                            && !denied(course.replies[i]) ==> exists|
                            t: &mut ToolRegistry,
                            result: ToolResult,
                        | #[trigger]
                            carries_out(t, &call_of(course.results[i]), result)
                                && *t == course.toolsets[i] && *final(t)
                                == course.toolsets[i + 1] && result@ == outcome_with(
                                old(self)@,
                                call_of(course.results[i])@,
                                course.replies[i].permission is Some,
                                course.replies[i].decision,
                                course.replies[i].outcome,
                            )
                },
    {
        let ghost a = self@;
        let mut decide = approve;
        let mut turn = Turn::begin(prompt);
        let ghost mut course = CourseModel {
            turns: seq![turn@],
            replies: Seq::empty(),
            requests: Seq::empty(),
            results: Seq::empty(),
            models: seq![self.model],
            toolsets: seq![self.tools],
        };
        let ghost mut streams: Seq<(EventStream, EventStream)> = Seq::empty();
        let ghost began = emit@;
        let (told, Ghost(opening)) = flush(&turn, 0, emit);
        let mut sent = told;
        let ghost mut passages = seq![opening];
        proof {
            reveal(streamed);
            reveal(passed_on);
            assert(turn@.events.skip(0) =~= turn@.events);
            assert(passages[0] == opening);
            assert forall|i: int, j: int|
                #![trigger passages[i][j]]
                0 <= i < passages.len() && 0 <= j < passages[i].len() implies exists|
                s: &mut EventStream,
            | #[trigger]
                sends(s, passages[i][j].event) && *s == passages[i][j].before && *final(s)
                    == passages[i][j].after by {
                assert(passages[i][j] == opening[j]);
            }
        }
        let started = now();
        let mut step: usize = 0;
        while step < self.max_steps
            invariant
                step <= self.max_steps,
                self@ == a,
                a == old(self)@,
                a.max_steps == self.max_steps,
                course.replies.len() == step,
                course.turns.len() == step + 1,
                course.turns.last() == turn@,
                takes_course(a, prompt@, course, true),
                leads(course, *old(self), *self),
                advance(a, prompt@, course.replies, true) == Some(turn@),
                decide == approve,
                forall|request: PermissionRequest| decide.requires((&request,)),
                sent == turn@.events.len(),
                began == old(emit)@,
                streams.len() == step,
                streamed(a, prompt@, course, streams, began, emit@),
                passed_on(a, prompt@, course, streams, passages, *old(emit), *emit),
                forall|i: int, j: int|
                    #![trigger passages[i][j]]
                    0 <= i < passages.len() && 0 <= j < passages[i].len() ==> exists|
                        s: &mut EventStream,
                    | #[trigger]
                        sends(s, passages[i][j].event) && *s == passages[i][j].before && *final(s)
                            == passages[i][j].after,
                forall|i: int|
                    0 <= i < course.replies.len()
                        ==> decided(approve, #[trigger] course.replies[i]),
                forall|i: int|
                    #![trigger course.replies[i]]
                    0 <= i < course.replies.len()
                        && course.replies[i].elapsed < a.turn_timeout
                        ==> exists|m: &mut M, e: &mut EventStream| #[trigger]
                        replies_streaming(m, &course.requests[i], e, course.results[i])
                            && *m == course.models[i] && *final(m) == course.models[i + 1]
                            && *e == streams[i].0 && *final(e) == streams[i].1,
                forall|i: int|
                    #![trigger course.replies[i]]
                    0 <= i < course.replies.len()
                        && calls(a, course.turns[i], course.replies[i])
                        && !denied(course.replies[i]) ==> exists|
                        t: &mut ToolRegistry,
                        result: ToolResult,
                    | #[trigger]
                        carries_out(t, &call_of(course.results[i]), result)
                            && *t == course.toolsets[i] && *final(t)
                            == course.toolsets[i + 1] && result@ == outcome_with(
                            a,
                            call_of(course.results[i])@,
                            course.replies[i].permission is Some,
                            course.replies[i].decision,
                            course.replies[i].outcome,
                        ),
            decreases self.max_steps - step,
        {
            let ghost t = turn@;
            let ghost earlier = course;
            let elapsed = nanoseconds_since(&started);
            let ghost hearing = *emit;
            let ghost passed = streams;
            let ghost handed = passages;
            let (next, ended, Ghost(record), Ghost(heard), Ghost(added)) = self.step_streaming(
                &mut turn,
                elapsed,
                decide,
                sent,
                emit,
            );
            sent = turn.events.len();
            decide = next;
            proof {
                lemma_one_more(approve, earlier.replies, record.reply);
                if ended is Some {
                    lemma_ends(a, prompt@, earlier.replies, t, record.reply, true);
                } else {
                    lemma_goes_on(a, prompt@, earlier.replies, t, record.reply, true);
                }
                course = with_step(
                    earlier,
                    record,
                    self.model,
                    self.tools,
                    if ended is Some {
                        None
                    } else {
                        Some(turn@)
                    },
                );
                streams = passed.push((hearing, heard));
                lemma_with_step(
                    earlier,
                    record,
                    self.model,
                    self.tools,
                    if ended is Some {
                        None
                    } else {
                        Some(turn@)
                    },
                );
                lemma_course_goes_on(a, prompt@, earlier, course, true);
                lemma_streamed_goes_on(
                    a,
                    prompt@,
                    earlier,
                    course,
                    passed,
                    (hearing, heard),
                    began,
                    emit@,
                );
                passages = handed.push(added);
                lemma_passed_goes_on(
                    a,
                    prompt@,
                    earlier,
                    course,
                    passed,
                    handed,
                    (hearing, heard),
                    added,
                    *old(emit),
                    *emit,
                    passages,
                );
                lemma_replied_streaming(a, earlier, course, passed, streams);
                lemma_carried_out(a, earlier, course);
            }
            if let Some(ended) = ended {
                let r = match ended {
                    Ok(_) => Ok(()),
                    Err(error) => Err(error),
                };
                assert(ended_as(turn_end(a, prompt@, course.replies, true), r, self@.conversation));
                return r;
            }
            step += 1;
        }
        let r = Err(AgentError::StepLimitExceeded { limit: self.max_steps });
        assert(ended_as(turn_end(a, prompt@, course.replies, true), r, self@.conversation));
        r
    }

    /// One step of a turn: asks the model, and carries out the call that it asks for; how the
    /// turn ends, when it does.
    fn step<F: FnMut(&PermissionRequest) -> PermissionDecision>(
        &mut self,
        turn: &mut Turn,
        elapsed: u128,
        decide: F,
    ) -> (r: (F, Option<Result<Vec<AgentEvent>, AgentError>>, Ghost<StepRecord>))
        requires
            forall|request: PermissionRequest| decide.requires((&request,)),
        ensures
            r.0 == decide,
            r.2@.reply.elapsed == elapsed,
            decided(decide, r.2@.reply),
            stepped(old(self)@, old(turn)@, r.2@, *old(self), *final(self)),
            final(self)@ == (AgentModel { conversation: final(self)@.conversation, ..old(self)@ }),
            match r.1 {
                None => final(self)@ == old(self)@ && step_of(
                    old(self)@,
                    old(turn)@,
                    r.2@.reply,
                    false,
                ) == StepModel::Going(final(turn)@),
                Some(ended) => step_of(old(self)@, old(turn)@, r.2@.reply, false)
                    == StepModel::Ended(
                    EndModel {
                        result: events_seen(ended),
                        conversation: final(self)@.conversation,
                    },
                ),
            },
            elapsed < old(self)@.turn_timeout ==> exists|m: &mut M| #[trigger]
                replies(m, &r.2@.request, r.2@.result) && *m == old(self).held_model()
                    && *final(m) == final(self).held_model(),
            calls(old(self)@, old(turn)@, r.2@.reply) && !denied(r.2@.reply) ==> exists|
                t: &mut ToolRegistry,
                result: ToolResult,
            | #[trigger]
                carries_out(t, &call_of(r.2@.result), result) && *t == old(self).held_tools()
                    && *final(t) == final(self).held_tools() && result@ == outcome_with(
                    old(self)@,
                    call_of(r.2@.result)@,
                    r.2@.reply.permission is Some,
                    r.2@.reply.decision,
                    r.2@.reply.outcome,
                ),
    {
        let ghost a = self@;
        let ghost t = turn@;
        let ghost mut asked: ModelRequest = arbitrary();
        let response = if elapsed >= self.turn_timeout {
            Err(ModelError::new(""))
        } else {
            let request = self.request(turn);
            proof {
                asked = request;
            }
            consult(&mut self.model, &request)
        };
        let ghost result = response;
        let considered = self.consider(turn, elapsed, response, false, false);
        let (call, permission) = match considered {
            Considered::End(ended) => {
                let ghost record = StepRecord {
                    reply: plain_reply(elapsed, reply_seen(result), false),
                    request: asked,
                    result,
                };
                return (decide, Some(ended), Ghost(record));
            },
            Considered::Call(call, permission) => (call, permission),
        };
        let ghost wanted = asked_for(permission);
        let guarded = permission.is_some();
        let mut deciding = decide;
        let decision = match permission {
            None => PermissionDecision::Allow,
            Some(request) => {
                let decision = deciding(&request);
                assert(allowed_by(decide, request@, decision@));
                decision
            },
        };
        let ghost answer = decision@;
        let ghost called = turn@;
        let (looped, Ghost(outcome)) = self.conclude(turn, &call, guarded, decision);
        proof {
            lemma_concluded(a, called, call@, guarded, answer, outcome);
        }
        let ghost record = StepRecord {
            reply: ReplyModel {
                permission: wanted,
                decision: answer,
                outcome,
                ..plain_reply(elapsed, reply_seen(result), false)
            },
            request: asked,
            result,
        };
        assert(call_of(record.result) == call);
        let ended = match looped {
            Some(error) => Some(Err(error)),
            None => None,
        };
        (deciding, ended, Ghost(record))
    }

    /// One step of a streaming turn: asks the model, and carries out the call that it asks for; how the
    /// turn ends, when it does.
    fn step_streaming<F: FnMut(&PermissionRequest) -> PermissionDecision>(
        &mut self,
        turn: &mut Turn,
        elapsed: u128,
        decide: F,
        sent: usize,
        emit: &mut EventStream,
    ) -> (r: (
        F,
        Option<Result<Vec<AgentEvent>, AgentError>>,
        Ghost<StepRecord>,
        Ghost<EventStream>,
        Ghost<Seq<Passage>>,
    ))
        requires
            forall|request: PermissionRequest| decide.requires((&request,)),
            sent == old(turn)@.events.len(),
        ensures
            r.0 == decide,
            r.2@.reply.elapsed == elapsed,
            decided(decide, r.2@.reply),
            stepped(old(self)@, old(turn)@, r.2@, *old(self), *final(self)),
            final(self)@ == (AgentModel { conversation: final(self)@.conversation, ..old(self)@ }),
            match r.1 {
                None => final(self)@ == old(self)@ && step_of(
                    old(self)@,
                    old(turn)@,
                    r.2@.reply,
                    true,
                ) == StepModel::Going(final(turn)@),
                Some(ended) => step_of(old(self)@, old(turn)@, r.2@.reply, true)
                    == StepModel::Ended(
                    EndModel {
                        result: events_seen(ended),
                        conversation: final(self)@.conversation,
                    },
                ),
            },
            elapsed < old(self)@.turn_timeout ==> exists|m: &mut M, e: &mut EventStream| #[trigger]
                replies_streaming(m, &r.2@.request, e, r.2@.result)
                    && *m == old(self).held_model() && *final(m) == final(self).held_model()
                    && *e == *old(emit) && *final(e) == r.3@,
            calls(old(self)@, old(turn)@, r.2@.reply) && !denied(r.2@.reply) ==> exists|
                t: &mut ToolRegistry,
                result: ToolResult,
            | #[trigger]
                carries_out(t, &call_of(r.2@.result), result) && *t == old(self).held_tools()
                    && *final(t) == final(self).held_tools() && result@ == outcome_with(
                    old(self)@,
                    call_of(r.2@.result)@,
                    r.2@.reply.permission is Some,
                    r.2@.reply.decision,
                    r.2@.reply.outcome,
                ),
            final(turn)@.events == step_turn(old(self)@, old(turn)@, r.2@.reply, true).events,
            elapsed >= old(self)@.turn_timeout ==> r.3@ == *old(emit),
            r.2@.reply.emitted == (r.3@@.deltas != old(emit)@.deltas),
            final(emit)@ == with_events(
                r.3@@,
                final(turn)@.events.skip(old(turn)@.events.len() as int),
            ),
            carried(
                r.4@,
                final(turn)@.events.skip(old(turn)@.events.len() as int),
                r.3@,
                *final(emit),
            ),
            forall|j: int|
                #![trigger r.4@[j]]
                0 <= j < r.4@.len() ==> exists|s: &mut EventStream| #[trigger]
                    sends(s, r.4@[j].event) && *s == r.4@[j].before && *final(s) == r.4@[j].after,
    {
        let ghost a = self@;
        let ghost t = turn@;
        let ghost mut asked: ModelRequest = arbitrary();
        let before = emit.deltas();
        let response = if elapsed >= self.turn_timeout {
            Err(ModelError::new(""))
        } else {
            let request = self.request(turn);
            proof {
                asked = request;
            }
            consult_streaming(&mut self.model, &request, emit)
        };
        let emitted = emit.deltas() != before;
        let ghost heard = *emit;
        let ghost result = response;
        let considered = self.consider(turn, elapsed, response, emitted, true);
        let (sent, Ghost(first)) = flush(turn, sent, emit);
        let ghost middle = *emit;
        let (call, permission) = match considered {
            Considered::End(ended) => {
                let ghost record = StepRecord {
                    reply: plain_reply(elapsed, reply_seen(result), emitted),
                    request: asked,
                    result,
                };
                return (decide, Some(ended), Ghost(record), Ghost(heard), Ghost(first));
            },
            Considered::Call(call, permission) => (call, permission),
        };
        let ghost wanted = asked_for(permission);
        let guarded = permission.is_some();
        let mut deciding = decide;
        let decision = match permission {
            None => PermissionDecision::Allow,
            Some(request) => {
                let decision = deciding(&request);
                assert(allowed_by(decide, request@, decision@));
                decision
            },
        };
        let ghost answer = decision@;
        let ghost called = turn@;
        let (looped, Ghost(outcome)) = self.conclude(turn, &call, guarded, decision);
        let (_, Ghost(second)) = flush(turn, sent, emit);
        proof {
            lemma_concluded(a, called, call@, guarded, answer, outcome);
            lemma_events_in_parts(heard@, turn@.events, called.events, t.events.len() as int);
            lemma_passages_in_parts(
                first,
                second,
                called.events.skip(t.events.len() as int),
                turn@.events.skip(called.events.len() as int),
                heard,
                middle,
                *emit,
            );
        }
        let ghost record = StepRecord {
            reply: ReplyModel {
                permission: wanted,
                decision: answer,
                outcome,
                ..plain_reply(elapsed, reply_seen(result), emitted)
            },
            request: asked,
            result,
        };
        assert(call_of(record.result) == call);
        let ended = match looped {
            Some(error) => Some(Err(error)),
            None => None,
        };
        (deciding, ended, Ghost(record), Ghost(heard), Ghost(first + second))
    }

    /// What a reply of the model leads to: the end of the turn, or a call that is noted together
    /// with the permission it asks for.
    fn consider(
        &mut self,
        turn: &mut Turn,
        elapsed: u128,
        response: Result<ModelResponse, ModelError>,
        emitted: bool,
        streaming: bool,
    ) -> (r: Considered)
        ensures
            same_parts(*old(self), *final(self)),
            match r {
                Considered::End(result) => {
                    let reply = plain_reply(elapsed, reply_seen(response), emitted);
                    &&& final(self)@ == (AgentModel {
                        conversation: final(self)@.conversation,
                        ..old(self)@
                    })
                    &&& final(turn)@.events == step_turn(
                        old(self)@,
                        old(turn)@,
                        reply,
                        streaming,
                    ).events
                    &&& old(turn)@.events
                        == final(turn)@.events.take(old(turn)@.events.len() as int)
                    &&& !calls(old(self)@, old(turn)@, reply)
                    &&& step_of(old(self)@, old(turn)@, reply, streaming) == StepModel::Ended(
                        EndModel {
                            result: events_seen(result),
                            conversation: final(self)@.conversation,
                        },
                    )
                },
                Considered::Call(call, permission) => {
                    &&& final(self)@ == old(self)@
                    &&& elapsed < old(self)@.turn_timeout
                    &&& response == Ok::<ModelResponse, ModelError>(ModelResponse::ToolCall(call))
                    &&& old(turn)@.executed.len() < old(self)@.max_tool_calls
                    &&& !repeats(old(turn)@, call@)
                    &&& asks(old(self).held_tools(), call, asked_for(permission))
                    &&& final(turn)@ == called_turn(
                        old(turn)@,
                        call@,
                        asked_for(permission),
                    )
                },
            },
    {
        let ghost before = turn@.events;
        assert(before.take(before.len() as int) =~= before);
        if elapsed >= self.turn_timeout {
            return Considered::End(Err(AgentError::TurnTimeoutExceeded));
        }
        match response {
            Err(error) => Considered::End(Err(AgentError::Model(error))),
            Ok(ModelResponse::Text(content)) => {
                let told = !streaming || (!emitted && !content.as_str().is_empty());
                turn.answer(content, told);
                self.commit_turn(&turn.context);
                let events = copy_events(&turn.events);
                assert(turn@.events.take(before.len() as int) =~= before);
                Considered::End(Ok(events))
            },
            Ok(ModelResponse::ToolCall(call)) => {
                assert(turn@.executed.len() == turn.executed@.len());
                if turn.executed.len() >= self.max_tool_calls {
                    return Considered::End(
                        Err(AgentError::ToolCallLimitExceeded { limit: self.max_tool_calls }),
                    );
                }
                if turn.is_repeat(&call) {
                    turn.stop(&call);
                    let events = copy_events(&turn.events);
                    assert(turn@.events.take(before.len() as int) =~= before);
                    return Considered::End(Ok(events));
                }
                let permission = self.tools.permission_request(&call);
                assert(asks(self.tools, call, asked_for(permission)));
                turn.call(&call, &permission);
                Considered::Call(call, permission)
            },
        }
    }

    /// Carries a call out, unless it was denied, and notes its result; the error of a loop, when
    /// the calls have run into one.
    fn conclude(
        &mut self,
        turn: &mut Turn,
        call: &ToolCall,
        guarded: bool,
        decision: PermissionDecision,
    ) -> (r: (Option<AgentError>, Ghost<Result<Seq<char>, Seq<char>>>))
        ensures
            final(self)@ == old(self)@,
            final(self).held_model() == old(self).held_model(),
            final(turn)@ == concluded(
                old(self)@,
                old(turn)@,
                call@,
                guarded,
                decision@,
                r.1@,
            ),
            if guarded && decision is Deny {
                final(self).held_tools() == old(self).held_tools()
            } else {
                exists|t: &mut ToolRegistry, result: ToolResult| #[trigger]
                    carries_out(t, call, result) && *t == old(self).held_tools() && *final(t)
                        == final(self).held_tools() && result@ == outcome_with(
                        old(self)@,
                        call@,
                        guarded,
                        decision@,
                        r.1@,
                    )
            },
            match r.0 {
                Some(error) => loop_period(final(turn)@.executed) matches Some(period) && error@
                    == (AgentTrouble::PatternLoopDetected { period }),
                None => loop_period(final(turn)@.executed) is None,
            },
    {
        let ghost a = self@;
        let ghost answer = decision@;
        let result = match decision {
            PermissionDecision::Deny { reason } => if guarded {
                make_result(call, Err(ToolError { message: reason }))
            } else {
                self.execute(call)
            },
            PermissionDecision::Allow => self.execute(call),
        };
        let ghost outcome = choose|outcome: Result<Seq<char>, Seq<char>>|
            result@ == #[trigger] call_result(call@, outcome);
        assert(result@ == outcome_with(a, call@, guarded, answer, outcome));
        match turn.result(call, result) {
            Some(period) => (Some(AgentError::PatternLoopDetected { period }), Ghost(outcome)),
            None => (None, Ghost(outcome)),
        }
    }

    fn execute(&mut self, call: &ToolCall) -> (r: ToolResult)
        ensures
            final(self)@ == old(self)@,
            final(self).held_model() == old(self).held_model(),
            !registered(old(self)@.tools, call.name@) ==> r@ == unknown_result(call@),
            registered(old(self)@.tools, call.name@) ==> exists|
                outcome: Result<Seq<char>, Seq<char>>,
            | r@ == #[trigger] call_result(call@, outcome),
            exists|t: &mut ToolRegistry| #[trigger]
                carries_out(t, call, r) && *t == old(self).held_tools()
                    && *final(t) == final(self).held_tools(),
    {
        let r = self.tools.execute(call);
        assert(exists|t: &mut ToolRegistry| #[trigger]
            call_ensures(ToolRegistry::execute, (t, call), r) && carries_out(t, call, r) && *t
                == old(self).tools && *final(t) == self.tools);
        r
    }
}

/// The result that a turn notes is the last of its events.
proof fn lemma_concluded(
    a: AgentModel,
    t: TurnModel,
    call: CallModel,
    guarded: bool,
    decision: DecisionModel,
    outcome: Result<Seq<char>, Seq<char>>,
)
    ensures
        ({
            let after = concluded(a, t, call, guarded, decision, outcome);
            &&& t.events == after.events.take(t.events.len() as int)
            &&& after.events.last() == EventModel::ToolResult(
                outcome_with(a, call, guarded, decision, outcome),
            )
        }),
{
    let after = concluded(a, t, call, guarded, decision, outcome);
    assert(after.events.take(t.events.len() as int) =~= t.events);
}

// ---------------------------------------------------------------------------
// Laws
// ---------------------------------------------------------------------------

/// A turn that goes on has carried out one call for each reply, within the limit of calls, and
/// still begins with what the user said.
pub proof fn law_turns_stay_within_their_limits(
    a: AgentModel,
    prompt: Seq<char>,
    replies: Seq<ReplyModel>,
    streaming: bool,
)
    ensures
        advance(a, prompt, replies, streaming) matches Some(t) ==> {
            &&& t.executed.len() == replies.len()
            &&& t.tool_results.len() == replies.len()
            &&& replies.len() <= a.max_tool_calls
            &&& t.prompt == prompt
            &&& t.events.len() > 0
            &&& t.events[0] == EventModel::UserMessage { content: prompt }
        },
    decreases replies.len(),
{
    if replies.len() > 0 {
        law_turns_stay_within_their_limits(a, prompt, replies.drop_last(), streaming);
    }
}

/// A turn that succeeds begins with what the user said and ends with the end of the turn.
pub proof fn law_successful_turns_end_with_done(
    a: AgentModel,
    prompt: Seq<char>,
    replies: Seq<ReplyModel>,
    streaming: bool,
)
    ensures
        turn_end(a, prompt, replies, streaming) matches Some(end) ==> (end.result matches Ok(events)
            ==> events.len() >= 2 && events[0] == (EventModel::UserMessage { content: prompt })
            && events.last() == EventModel::Done),
{
    if replies.len() > 0 {
        law_turns_stay_within_their_limits(a, prompt, replies.drop_last(), streaming);
    }
}

/// A turn that fails leaves the conversation as it was.
pub proof fn law_failed_turns_keep_the_conversation(
    a: AgentModel,
    prompt: Seq<char>,
    replies: Seq<ReplyModel>,
    streaming: bool,
)
    ensures
        turn_end(a, prompt, replies, streaming) matches Some(end) ==> (end.result is Err
            ==> end.conversation == a.conversation),
{
}

/// A turn without time is over before the model is asked.
pub proof fn law_expired_turns_ask_nothing(
    a: AgentModel,
    prompt: Seq<char>,
    replies: Seq<ReplyModel>,
    streaming: bool,
)
    requires
        a.turn_timeout == 0,
        a.max_steps > 0,
    ensures
        turn_end(a, prompt, replies, streaming) matches Some(end) ==> end.result == Err::<
            Seq<EventModel>,
            AgentTrouble,
        >(AgentTrouble::TurnTimeoutExceeded),
{
}

/// A turn without steps fails at once.
pub proof fn law_turns_without_steps_fail(
    a: AgentModel,
    prompt: Seq<char>,
    replies: Seq<ReplyModel>,
    streaming: bool,
)
    requires
        a.max_steps == 0,
    ensures
        turn_end(a, prompt, replies, streaming) matches Some(end) ==> end.result == Err::<
            Seq<EventModel>,
            AgentTrouble,
        >(AgentTrouble::StepLimitExceeded { limit: 0 }),
{
}

/// The turns of a course are those that its replies lead to, one after the other.
pub proof fn law_courses_go_step_by_step<M>(
    a: AgentModel,
    prompt: Seq<char>,
    course: CourseModel<M>,
    streaming: bool,
    i: int,
)
    requires
        takes_course(a, prompt, course, streaming),
        0 <= i < course.turns.len(),
        i <= course.replies.len(),
    ensures
        advance(a, prompt, course.replies.take(i), streaming) == Some(course.turns[i]),
    decreases i,
{
    if i > 0 {
        law_courses_go_step_by_step(a, prompt, course, streaming, i - 1);
        assert(course.replies.take(i).drop_last() =~= course.replies.take(i - 1));
        assert(course.replies.take(i).last() == course.replies[i - 1]);
    }
}

proof fn lemma_streaming_goes_on_alike(a: AgentModel, prompt: Seq<char>, replies: Seq<ReplyModel>)
    ensures
        advance(a, prompt, replies, true) == advance(a, prompt, replies, false),
    decreases replies.len(),
{
    if replies.len() > 0 {
        lemma_streaming_goes_on_alike(a, prompt, replies.drop_last());
    }
}

/// A turn ends alike whether it is streamed or not: with the same conversation and the same error.
/// Of its events only the text of the answer is left out, when it was emitted before or is empty.
pub proof fn law_streamed_turns_end_alike(a: AgentModel, prompt: Seq<char>, replies: Seq<ReplyModel>)
    ensures
        match (turn_end(a, prompt, replies, false), turn_end(a, prompt, replies, true)) {
            (None, None) => true,
            (Some(plain), Some(streamed)) => {
                &&& plain.conversation == streamed.conversation
                &&& match (plain.result, streamed.result) {
                    (Err(trouble), Err(other)) => trouble == other,
                    (Ok(events), Ok(told)) => told == events || replies.len() > 0 && (
                    replies.last().response matches Ok(ResponseModel::Text(content)) && (
                    replies.last().emitted || content.len() == 0) && events
                        == told.drop_last().push(EventModel::AssistantText { content }).push(
                        EventModel::Done,
                    )),
                    _ => false,
                }
            },
            _ => false,
        },
{
    lemma_streaming_goes_on_alike(a, prompt, replies);
    if replies.len() > 0 {
        lemma_streaming_goes_on_alike(a, prompt, replies.drop_last());
        if let Some(t) = advance(a, prompt, replies.drop_last(), true) {
            assert(t.events.push(EventModel::Done).drop_last() =~= t.events);
        }
    }
}

/// How a model, the approvals and the tools answer when they always answer alike.
#[verifier::reject_recursive_types(M)]
pub struct Manners<M> {
    pub reply: spec_fn(M, ModelRequestModel) -> (Result<ResponseModel, Seq<char>>, M),
    pub permission: spec_fn(ToolRegistry, CallModel) -> Option<RequestedModel>,
    pub decision: spec_fn(RequestedModel) -> DecisionModel,
    pub result: spec_fn(ToolRegistry, CallModel) -> (ResultModel, ToolRegistry),
}

/// Whether everyone answers in a course by these manners, and in time.
pub open spec fn by_manners<M>(a: AgentModel, course: CourseModel<M>, manners: Manners<M>) -> bool {
    forall|i: int|
        #![trigger course.replies[i]]
        0 <= i < course.replies.len() ==> mannered(a, course, manners, i)
}

/// Whether everyone answers in step `i` of a course by these manners, and in time.
pub open spec fn mannered<M>(
    a: AgentModel,
    course: CourseModel<M>,
    manners: Manners<M>,
    i: int,
) -> bool {
    let t = course.turns[i];
    let reply = course.replies[i];
    &&& reply.elapsed < a.turn_timeout
    &&& (reply.response, course.models[i + 1]) == (manners.reply)(
        course.models[i],
        request_of(a, t),
    )
    &&& calls(a, t, reply) ==> {
        let call = reply.response->Ok_0->ToolCall_0;
        &&& reply.permission == (manners.permission)(course.toolsets[i], call)
        &&& reply.permission matches Some(asked) ==> reply.decision == (manners.decision)(asked)
        &&& !denied(reply) ==> (
            outcome_with(a, call, reply.permission is Some, reply.decision, reply.outcome),
            course.toolsets[i + 1],
        ) == (manners.result)(course.toolsets[i], call)
    }
    &&& !calls(a, t, reply) || denied(reply) ==> course.toolsets[i + 1] == course.toolsets[i]
}

/// Where the model, the tools and the approvals always answer alike, and in time, a turn that is not
/// streamed goes by their manners.
pub proof fn law_turns_go_by_manners<
    M: Model,
    F: FnMut(&PermissionRequest) -> PermissionDecision,
>(a: AgentModel, prompt: Seq<char>, course: CourseModel<M>, approve: F, manners: Manners<M>)
    requires
        takes_course(a, prompt, course, false),
        forall|i: int| 0 <= i < course.replies.len() ==> decided(approve, #[trigger] course.replies[i]),
        forall|i: int|
            #![trigger course.replies[i]]
            0 <= i < course.replies.len() && course.replies[i].elapsed < a.turn_timeout ==> exists|
                m: &mut M,
            | #[trigger]
                replies(m, &course.requests[i], course.results[i]) && *m == course.models[i]
                    && *final(m) == course.models[i + 1],
        forall|i: int|
            #![trigger course.replies[i]]
            0 <= i < course.replies.len() && calls(a, course.turns[i], course.replies[i])
                && !denied(course.replies[i]) ==> exists|t: &mut ToolRegistry, result: ToolResult|
                #[trigger]
                carries_out(t, &call_of(course.results[i]), result) && *t == course.toolsets[i]
                    && *final(t) == course.toolsets[i + 1] && result@ == outcome_with(
                    a,
                    call_of(course.results[i])@,
                    course.replies[i].permission is Some,
                    course.replies[i].decision,
                    course.replies[i].outcome,
                ),
        forall|i: int|
            0 <= i < course.replies.len() ==> (#[trigger] course.replies[i]).elapsed
                < a.turn_timeout,
        forall|m: &mut M, request: &ModelRequest, result: Result<ModelResponse, ModelError>|
            #[trigger]
            replies(m, request, result) ==> (reply_seen(result), *final(m)) == (manners.reply)(
                *m,
                request@,
            ),
        answers_by(approve, manners),
        forall|t: &mut ToolRegistry, call: &ToolCall, result: ToolResult| #[trigger]
            carries_out(t, call, result) ==> (result@, *final(t)) == (manners.result)(*t, call@),
    ensures
        by_manners(a, course, manners),
{
    assert forall|i: int|
        #![trigger course.replies[i]]
        0 <= i < course.replies.len() implies mannered(a, course, manners, i) by {
        let reply = course.replies[i];
        assert(took_place(a, course, i));
        assert(decided(approve, reply));
        assert(reply.elapsed < a.turn_timeout);
        assert(exists|m: &mut M| #[trigger]
            replies(m, &course.requests[i], course.results[i]) && *m == course.models[i]
                && *final(m) == course.models[i + 1]);
        if calls(a, course.turns[i], reply) {
            assert(call_of(course.results[i])@ == reply.response->Ok_0->ToolCall_0);
        }
    }
}

/// Whether tools ask for permissions, and approvals are given, by these manners.
pub open spec fn answers_by<M, F: FnMut(&PermissionRequest) -> PermissionDecision>(
    approve: F,
    manners: Manners<M>,
) -> bool {
    &&& forall|tools: ToolRegistry, call: ToolCall, asked: Option<RequestedModel>| #[trigger]
        asks(tools, call, asked) ==> asked == (manners.permission)(tools, call@)
    &&& forall|asked: RequestedModel, decision: DecisionModel| #[trigger]
        allowed_by(approve, asked, decision) ==> decision == (manners.decision)(asked)
}

/// Where the model, the tools and the approvals always answer alike, and in time, a streaming turn
/// goes by their manners. A model that emits its replies as a whole does so in every step.
pub proof fn law_streamed_turns_go_by_manners<
    M: Model,
    F: FnMut(&PermissionRequest) -> PermissionDecision,
>(
    a: AgentModel,
    prompt: Seq<char>,
    course: CourseModel<M>,
    streams: Seq<(EventStream, EventStream)>,
    approve: F,
    manners: Manners<M>,
)
    requires
        takes_course(a, prompt, course, true),
        streams.len() == course.replies.len(),
        forall|i: int| 0 <= i < course.replies.len() ==> decided(approve, #[trigger] course.replies[i]),
        forall|i: int|
            #![trigger course.replies[i]]
            0 <= i < course.replies.len() && course.replies[i].elapsed < a.turn_timeout ==> exists|
                m: &mut M,
                e: &mut EventStream,
            | #[trigger]
                replies_streaming(m, &course.requests[i], e, course.results[i]) && *m
                    == course.models[i] && *final(m) == course.models[i + 1] && *e == streams[i].0
                    && *final(e) == streams[i].1,
        forall|i: int|
            #![trigger course.replies[i]]
            0 <= i < course.replies.len() && calls(a, course.turns[i], course.replies[i])
                && !denied(course.replies[i]) ==> exists|t: &mut ToolRegistry, result: ToolResult|
                #[trigger]
                carries_out(t, &call_of(course.results[i]), result) && *t == course.toolsets[i]
                    && *final(t) == course.toolsets[i + 1] && result@ == outcome_with(
                    a,
                    call_of(course.results[i])@,
                    course.replies[i].permission is Some,
                    course.replies[i].decision,
                    course.replies[i].outcome,
                ),
        forall|i: int|
            0 <= i < course.replies.len() ==> (#[trigger] course.replies[i]).elapsed
                < a.turn_timeout,
        forall|
            m: &mut M,
            request: &ModelRequest,
            e: &mut EventStream,
            result: Result<ModelResponse, ModelError>,
        | #[trigger]
            replies_streaming(m, request, e, result) ==> (reply_seen(result), *final(m)) == (
            manners.reply)(*m, request@) && (*final(e))@ == with_reply((*e)@, reply_seen(result)),
        answers_by(approve, manners),
        forall|t: &mut ToolRegistry, call: &ToolCall, result: ToolResult| #[trigger]
            carries_out(t, call, result) ==> (result@, *final(t)) == (manners.result)(*t, call@),
    ensures
        by_manners(a, course, manners),
        forall|i: int|
            #![trigger streams[i]]
            0 <= i < streams.len() ==> streams[i].1@ == with_reply(
                streams[i].0@,
                course.replies[i].response,
            ),
{
    assert forall|i: int|
        #![trigger course.replies[i]]
        0 <= i < course.replies.len() implies mannered(a, course, manners, i) && streams[i].1@
        == with_reply(streams[i].0@, course.replies[i].response) by {
        let reply = course.replies[i];
        assert(took_place(a, course, i));
        assert(decided(approve, reply));
        assert(reply.elapsed < a.turn_timeout);
        assert(exists|m: &mut M, e: &mut EventStream| #[trigger]
            replies_streaming(m, &course.requests[i], e, course.results[i]) && *m
                == course.models[i] && *final(m) == course.models[i + 1] && *e == streams[i].0
                && *final(e) == streams[i].1);
        if calls(a, course.turns[i], reply) {
            assert(call_of(course.results[i])@ == reply.response->Ok_0->ToolCall_0);
        }
    }
    assert forall|i: int| #![trigger streams[i]] 0 <= i < streams.len() implies streams[i].1@
        == with_reply(streams[i].0@, course.replies[i].response) by {
        assert(course.replies[i].elapsed < a.turn_timeout);
    }
}

/// Two courses with the same beginnings and manners are alike as long as both last.
proof fn lemma_mannered_courses_are_alike<M>(
    a: AgentModel,
    prompt: Seq<char>,
    plain: CourseModel<M>,
    told: CourseModel<M>,
    manners: Manners<M>,
    i: int,
)
    requires
        takes_course(a, prompt, plain, false),
        takes_course(a, prompt, told, true),
        by_manners(a, plain, manners),
        by_manners(a, told, manners),
        plain.models[0] == told.models[0],
        plain.toolsets[0] == told.toolsets[0],
        0 <= i < plain.replies.len(),
        i < told.replies.len(),
    ensures
        plain.turns[i] == told.turns[i],
        plain.models[i] == told.models[i],
        plain.toolsets[i] == told.toolsets[i],
        plain.replies[i].response == told.replies[i].response,
        match (
            step_of(a, plain.turns[i], plain.replies[i], false),
            step_of(a, told.turns[i], told.replies[i], true),
        ) {
            (StepModel::Going(first), StepModel::Going(second)) => first == second,
            (StepModel::Ended(_), StepModel::Ended(_)) => true,
            _ => false,
        },
        plain.models[i + 1] == told.models[i + 1],
        plain.toolsets[i + 1] == told.toolsets[i + 1],
    decreases i,
{
    if i > 0 {
        lemma_mannered_courses_are_alike(a, prompt, plain, told, manners, i - 1);
        assert(step_of(a, plain.turns[i - 1], plain.replies[i - 1], false) == StepModel::Going(
            plain.turns[i],
        ));
        assert(step_of(a, told.turns[i - 1], told.replies[i - 1], true) == StepModel::Going(
            told.turns[i],
        ));
    }
    assert(mannered(a, plain, manners, i));
    assert(mannered(a, told, manners, i));
    let first = plain.replies[i];
    let second = told.replies[i];
    if calls(a, plain.turns[i], first) {
        let call = first.response->Ok_0->ToolCall_0;
        assert(outcome_with(a, call, first.permission is Some, first.decision, first.outcome)
            == outcome_with(a, call, second.permission is Some, second.decision, second.outcome));
    }
}

/// Events with the text of an answer as partial output, and without it where it is empty.
pub open spec fn retold(events: Seq<EventModel>) -> Seq<EventModel>
    decreases events.len(),
{
    if events.len() == 0 {
        Seq::empty()
    } else {
        let rest = retold(events.drop_last());
        match events.last() {
            EventModel::AssistantText { content } => if content.len() > 0 {
                rest.push(EventModel::AssistantDelta { content })
            } else {
                rest
            },
            event => rest.push(event),
        }
    }
}

/// What goes to the stream of a turn before step `i`, when the model emits its replies as a whole.
pub open spec fn heard_until<M>(
    a: AgentModel,
    prompt: Seq<char>,
    course: CourseModel<M>,
    i: int,
) -> Seq<EventModel>
    decreases i,
{
    if i <= 0 {
        news_at(a, prompt, course, 0)
    } else {
        heard_until(a, prompt, course, i - 1) + output_of(course.replies[i - 1].response) + news_at(
            a,
            prompt,
            course,
            i,
        )
    }
}

/// What a model emits that emits its reply as a whole.
pub open spec fn output_of(response: Result<ResponseModel, Seq<char>>) -> Seq<EventModel> {
    match told_text(response) {
        Some(content) => seq![EventModel::AssistantDelta { content }],
        None => Seq::empty(),
    }
}

spec fn untold(events: Seq<EventModel>) -> bool {
    forall|i: int| 0 <= i < events.len() ==> !((#[trigger] events[i]) is AssistantText)
}

proof fn lemma_retold(events: Seq<EventModel>)
    requires
        untold(events),
    ensures
        retold(events) == events,
    decreases events.len(),
{
    if events.len() > 0 {
        lemma_retold(events.drop_last());
        assert(!(events[events.len() - 1] is AssistantText));
        assert(events.drop_last().push(events.last()) =~= events);
    } else {
        assert(retold(events) =~= events);
    }
}

/// The events of a turn that goes on went to the stream, and no answer is among them.
proof fn lemma_heard<M>(a: AgentModel, prompt: Seq<char>, course: CourseModel<M>, i: int)
    requires
        takes_course(a, prompt, course, true),
        0 <= i < course.turns.len(),
        i <= course.replies.len(),
    ensures
        heard_until(a, prompt, course, i) == course.turns[i].events,
        untold(course.turns[i].events),
    decreases i,
{
    if i > 0 {
        lemma_heard(a, prompt, course, i - 1);
        let t = course.turns[i - 1];
        let reply = course.replies[i - 1];
        assert(step_of(a, t, reply, true) == StepModel::Going(course.turns[i]));
        let after = step_turn(a, t, reply, true).events;
        assert(output_of(reply.response) =~= Seq::<EventModel>::empty());
        assert(t.events + Seq::<EventModel>::empty() =~= t.events);
        assert(t.events + after.skip(t.events.len() as int) =~= after);
    }
}

proof fn lemma_streamed_at<M>(
    a: AgentModel,
    prompt: Seq<char>,
    course: CourseModel<M>,
    streams: Seq<(EventStream, EventStream)>,
    before: StreamModel,
    after: StreamModel,
    i: int,
)
    requires
        streamed(a, prompt, course, streams, before, after),
        0 <= i <= course.replies.len(),
    ensures
        streams.len() == course.replies.len(),
        i < streams.len() ==> streams[i].0@ == stream_at(a, prompt, course, streams, before, i)
            && course.replies[i].emitted == (streams[i].1@.deltas != streams[i].0@.deltas),
        i == streams.len() ==> after == stream_at(a, prompt, course, streams, before, i),
{
    reveal(streamed);
}

/// What a stream that keeps its events holds before step `i`, when the model emits its replies as a
/// whole: what it held, and the events up to there.
proof fn lemma_kept_events<M>(
    a: AgentModel,
    prompt: Seq<char>,
    course: CourseModel<M>,
    streams: Seq<(EventStream, EventStream)>,
    before: StreamModel,
    after: StreamModel,
    i: int,
)
    requires
        streamed(a, prompt, course, streams, before, after),
        forall|k: int|
            #![trigger streams[k]]
            0 <= k < streams.len() ==> streams[k].1@ == with_reply(
                streams[k].0@,
                course.replies[k].response,
            ),
        0 <= i <= course.replies.len(),
    ensures
        stream_at(a, prompt, course, streams, before, i).keeps == before.keeps,
        before.keeps ==> stream_at(a, prompt, course, streams, before, i).events == before.events
            + heard_until(a, prompt, course, i),
        (forall|k: int|
            #![trigger course.replies[k]]
            0 <= k < i ==> told_text(course.replies[k].response) is None) ==> stream_at(
            a,
            prompt,
            course,
            streams,
            before,
            i,
        ).deltas == before.deltas,
    decreases i,
{
    if i > 0 {
        lemma_kept_events(a, prompt, course, streams, before, after, i - 1);
        lemma_streamed_at(a, prompt, course, streams, before, after, i - 1);
        let earlier = heard_until(a, prompt, course, i - 1);
        let output = output_of(course.replies[i - 1].response);
        let news = news_at(a, prompt, course, i);
        let s = stream_at(a, prompt, course, streams, before, i - 1);
        assert(streams[i - 1].0@ == s);
        assert(streams[i - 1].1@ == with_reply(s, course.replies[i - 1].response));
        if before.keeps {
            assert(streams[i - 1].1@.events =~= before.events + earlier + output);
            assert(before.events + earlier + output + news =~= before.events + (earlier + output
                + news));
        }
    }
}

/// A turn ends alike whether it is streamed or not, for two agents that are built alike: with the
/// same conversation, the same error or the same success. What goes to the stream are then the
/// events of the turn that is not streamed, in their order, with the answer as partial output or
/// left out where it is empty. Everyone answers alike and in time, and the model emits its reply as
/// a whole. A stream that has counted as many partial outputs as it can count does not show that
/// there is one more.
pub proof fn law_streamed_turns_tell_the_same<M>(
    a: AgentModel,
    prompt: Seq<char>,
    plain: CourseModel<M>,
    told: CourseModel<M>,
    manners: Manners<M>,
    streams: Seq<(EventStream, EventStream)>,
    before: StreamModel,
    after: StreamModel,
)
    requires
        takes_course(a, prompt, plain, false),
        takes_course(a, prompt, told, true),
        turn_end(a, prompt, plain.replies, false) is Some,
        turn_end(a, prompt, told.replies, true) is Some,
        plain.models[0] == told.models[0],
        plain.toolsets[0] == told.toolsets[0],
        by_manners(a, plain, manners),
        by_manners(a, told, manners),
        streamed(a, prompt, told, streams, before, after),
        forall|k: int|
            #![trigger streams[k]]
            0 <= k < streams.len() ==> streams[k].1@ == with_reply(
                streams[k].0@,
                told.replies[k].response,
            ),
        before.deltas < u64::MAX,
    ensures
        ({
            let first = turn_end(a, prompt, plain.replies, false)->0;
            let second = turn_end(a, prompt, told.replies, true)->0;
            let n = told.replies.len() as int;
            &&& first.conversation == second.conversation
            &&& plain.models.last() == told.models.last()
            &&& plain.toolsets.last() == told.toolsets.last()
            &&& match first.result {
                Err(trouble) => second.result == Err::<Seq<EventModel>, AgentTrouble>(trouble),
                Ok(events) => {
                    &&& second.result is Ok
                    &&& heard_until(a, prompt, told, n) == retold(events)
                    &&& before.keeps ==> after.events == before.events + retold(events)
                },
            }
        }),
{
    let p = plain.replies.len() as int;
    let n = told.replies.len() as int;
    lemma_ends_in_course(a, prompt, plain, false);
    lemma_ends_in_course(a, prompt, told, true);
    if p < n {
        if p > 0 {
            lemma_mannered_courses_are_alike(a, prompt, plain, told, manners, p - 1);
            assert(step_of(a, told.turns[p - 1], told.replies[p - 1], true) == StepModel::Going(
                told.turns[p],
            ));
        }
        assert(false);
    }
    if n < p {
        if n > 0 {
            lemma_mannered_courses_are_alike(a, prompt, plain, told, manners, n - 1);
            assert(step_of(a, plain.turns[n - 1], plain.replies[n - 1], false) == StepModel::Going(
                plain.turns[n],
            ));
        }
        assert(false);
    }
    if n > 0 {
        lemma_mannered_courses_are_alike(a, prompt, plain, told, manners, n - 1);
        assert(mannered(a, told, manners, n - 1));
        assert(mannered(a, plain, manners, n - 1));
        let t = told.turns[n - 1];
        let reply = told.replies[n - 1];
        if step_of(a, t, reply, true) is Ended {
            lemma_heard(a, prompt, told, n - 1);
            lemma_kept_events(a, prompt, told, streams, before, after, n);
            lemma_kept_events(a, prompt, told, streams, before, after, n - 1);
            lemma_streamed_at(a, prompt, told, streams, before, after, n - 1);
            lemma_streamed_at(a, prompt, told, streams, before, after, n);
            assert forall|k: int| #![trigger told.replies[k]] 0 <= k < n - 1 implies told_text(
                told.replies[k].response,
            ) is None by {
                assert(step_of(a, told.turns[k], told.replies[k], true) == StepModel::Going(
                    told.turns[k + 1],
                ));
                assert(mannered(a, told, manners, k));
            }
            assert(streams[n - 1].0@.deltas == before.deltas);
            let ended = step_of(a, plain.turns[n - 1], plain.replies[n - 1], false)->Ended_0;
            if ended.result is Ok {
                let events = ended.result->Ok_0;
                lemma_told_end(a, t, reply, streams[n - 1].0@, streams[n - 1].1@, events);
                let news = step_turn(a, t, reply, true).events.skip(t.events.len() as int);
                assert(news_at(a, prompt, told, n) == news);
                assert(heard_until(a, prompt, told, n) == t.events + output_of(reply.response) + news);
            }
        }
    }
}

proof fn lemma_told_end(
    a: AgentModel,
    t: TurnModel,
    reply: ReplyModel,
    from: StreamModel,
    to: StreamModel,
    events: Seq<EventModel>,
)
    requires
        untold(t.events),
        reply.elapsed < a.turn_timeout,
        to == with_reply(from, reply.response),
        from.deltas < u64::MAX,
        reply.emitted == (to.deltas != from.deltas),
        match reply.response {
            Ok(ResponseModel::Text(content)) => events == answered_turn(t, content, true).events,
            Ok(ResponseModel::ToolCall(call)) => t.executed.len() < a.max_tool_calls && repeats(
                t,
                call,
            ) && events == stopped_turn(t, call).events,
            Err(_) => false,
        },
    ensures
        t.events + output_of(reply.response) + step_turn(a, t, reply, true).events.skip(
            t.events.len() as int,
        ) == retold(events),
{
    let told = step_turn(a, t, reply, true).events;
    let news = told.skip(t.events.len() as int);
    lemma_retold(t.events);
    match reply.response {
        Ok(ResponseModel::Text(content)) => {
            let middle = t.events.push(EventModel::AssistantText { content });
            assert(events =~= middle.push(EventModel::Done));
            assert(events.drop_last() =~= middle);
            assert(middle.drop_last() =~= t.events);
            assert(told =~= t.events.push(EventModel::Done));
            assert(news =~= seq![EventModel::Done]);
            assert(events.last() == EventModel::Done);
            assert(middle.last() == EventModel::AssistantText { content });
            assert(retold(middle) == if content.len() > 0 {
                t.events.push(EventModel::AssistantDelta { content })
            } else {
                t.events
            });
            assert(retold(events) == retold(middle).push(EventModel::Done));
            assert(t.events + output_of(reply.response) + news =~= retold(events));
        },
        Ok(ResponseModel::ToolCall(call)) => {
            assert(untold(events));
            lemma_retold(events);
            assert(t.events + output_of(reply.response) + news =~= events);
        },
        Err(_) => {},
    }
}

/// How a turn ends is what its last step leads to, or that there are no more steps.
proof fn lemma_ends_in_course<M>(
    a: AgentModel,
    prompt: Seq<char>,
    course: CourseModel<M>,
    streaming: bool,
)
    requires
        takes_course(a, prompt, course, streaming),
        turn_end(a, prompt, course.replies, streaming) is Some,
    ensures
        ({
            let n = course.replies.len() as int;
            let end = turn_end(a, prompt, course.replies, streaming)->0;
            let spent = EndModel {
                result: Err(AgentTrouble::StepLimitExceeded { limit: a.max_steps }),
                conversation: a.conversation,
            };
            &&& n <= a.max_steps
            &&& n == 0 ==> a.max_steps == 0 && end == spent
            &&& n > 0 ==> match step_of(
                a,
                course.turns[n - 1],
                course.replies[n - 1],
                streaming,
            ) {
                StepModel::Ended(ended) => end == ended,
                StepModel::Going(_) => n == a.max_steps && end == spent,
            }
        }),
{
    let n = course.replies.len() as int;
    if n > 0 {
        law_courses_go_step_by_step(a, prompt, course, streaming, n - 1);
        assert(course.replies.drop_last() =~= course.replies.take(n - 1));
        assert(course.replies.last() == course.replies[n - 1]);
    }
}

/// A scripted model emits each reply as a whole while it streams, and replies as it does when it
/// does not.
pub proof fn law_scripts_are_told_as_a_whole()
    ensures
        forall|
            m: &mut ScriptedModel,
            request: &ModelRequest,
            e: &mut EventStream,
            result: Result<ModelResponse, ModelError>,
        | #[trigger]
            replies_streaming(m, request, e, result) ==> (*final(e))@ == with_reply(
                (*e)@,
                reply_seen(result),
            ) && exists|k: &mut ScriptedModel| #[trigger]
                replies(k, request, result) && *k == *m && *final(k) == *final(m),
{
    assert forall|
        m: &mut ScriptedModel,
        request: &ModelRequest,
        e: &mut EventStream,
        result: Result<ModelResponse, ModelError>,
    | #[trigger]
        replies_streaming(m, request, e, result) implies (*final(e))@ == with_reply(
        (*e)@,
        reply_seen(result),
    ) && exists|k: &mut ScriptedModel| #[trigger]
        replies(k, request, result) && *k == *m && *final(k) == *final(m) by {
        assert(exists|k: &mut ScriptedModel| #[trigger]
            call_ensures(ScriptedModel::respond, (k, request), result) && replies(
                k,
                request,
                result,
            ) && *k == *m && *final(k) == *final(m));
    }
}

/// A scripted model replies with its script, one response in each step, until the script is over.
pub proof fn law_scripts_are_followed(
    a: AgentModel,
    prompt: Seq<char>,
    course: CourseModel<ScriptedModel>,
    i: int,
)
    requires
        takes_course(a, prompt, course, false),
        0 <= i <= course.replies.len(),
        forall|k: int|
            0 <= k < i ==> (#[trigger] course.replies[k]).elapsed < a.turn_timeout,
        forall|k: int|
            #![trigger course.replies[k]]
            0 <= k < course.replies.len() && course.replies[k].elapsed < a.turn_timeout ==> exists|
                m: &mut ScriptedModel,
            | #[trigger]
                replies(m, &course.requests[k], course.results[k]) && *m == course.models[k]
                    && *final(m) == course.models[k + 1],
    ensures
        ({
            let script = course.models[0]@;
            &&& course.models[i]@ == if i <= script.len() {
                script.skip(i)
            } else {
                Seq::empty()
            }
            &&& forall|k: int|
                #![trigger course.results[k]]
                0 <= k < i ==> if k < script.len() {
                    course.results[k] == Ok::<ModelResponse, ModelError>(script[k])
                } else {
                    course.results[k] is Err
                }
        }),
    decreases i,
{
    let script = course.models[0]@;
    if i == 0 {
        assert(script.skip(0) =~= script);
    } else {
        law_scripts_are_followed(a, prompt, course, i - 1);
        assert(course.replies[i - 1].elapsed < a.turn_timeout);
        assert(exists|m: &mut ScriptedModel| #[trigger]
            replies(m, &course.requests[i - 1], course.results[i - 1]) && *m == course.models[i - 1]
                && *final(m) == course.models[i]);
        if i <= script.len() {
            assert(script.skip(i - 1)[0] == script[i - 1]);
            assert(script.skip(i - 1).skip(1) =~= script.skip(i));
        } else {
            assert(script.skip(script.len() as int) =~= Seq::<ModelResponse>::empty());
        }
    }
}

/// The bytes of the last `n` messages.
pub open spec fn tail_size(conversation: Seq<MessageModel>, n: nat) -> nat
    decreases n,
{
    if n == 0 || n > conversation.len() {
        0
    } else {
        tail_size(conversation, (n - 1) as nat) + message_size(conversation[conversation.len() - n])
    }
}

proof fn lemma_kept(
    conversation: Seq<MessageModel>,
    max_messages: nat,
    max_chars: nat,
    kept: nat,
    used: nat,
)
    requires
        kept <= conversation.len(),
        kept <= max_messages,
        used == tail_size(conversation, kept),
        used <= max_chars,
    ensures
        ({
            let k = kept_from(conversation, max_messages, max_chars, kept, used);
            kept <= k <= conversation.len() && k <= max_messages && tail_size(conversation, k)
                <= max_chars
        }),
    decreases conversation.len() - kept,
{
    if kept < max_messages && kept < conversation.len() {
        let size = message_size(conversation[conversation.len() - 1 - kept]);
        if used + size <= max_chars {
            lemma_kept(conversation, max_messages, max_chars, kept + 1, used + size);
        }
    }
}

/// The context of a model is the end of the conversation, within both limits.
pub proof fn law_contexts_are_bounded(
    conversation: Seq<MessageModel>,
    max_messages: nat,
    max_chars: nat,
)
    ensures
        ({
            let context = bounded(conversation, max_messages, max_chars);
            &&& context.len() <= max_messages
            &&& context.len() <= conversation.len()
            &&& context == conversation.skip(conversation.len() - context.len())
            &&& tail_size(conversation, context.len()) <= max_chars
        }),
{
    lemma_kept(conversation, max_messages, max_chars, 0, 0);
    assert(conversation.skip(conversation.len() as int) =~= Seq::<MessageModel>::empty());
}

/// A call that was denied is answered with the reason of the denial, whatever the tool would have
/// returned.
pub proof fn law_denied_calls_are_not_carried_out(
    a: AgentModel,
    call: CallModel,
    reason: Seq<char>,
    outcome: Result<Seq<char>, Seq<char>>,
)
    ensures
        outcome_with(a, call, true, DecisionModel::Deny { reason }, outcome) == (ResultModel {
            id: call.id,
            name: call.name,
            content: reason,
            is_error: true,
        }),
{
}

// ---------------------------------------------------------------------------
// What turns come to
// ---------------------------------------------------------------------------

/// Whether two replies ask for the same call: the same tool with the same arguments. The ids of the
/// calls do not matter.
pub open spec fn same_call(x: ReplyModel, y: ReplyModel) -> bool {
    &&& x.response matches Ok(ResponseModel::ToolCall(a)) && y.response matches Ok(
        ResponseModel::ToolCall(b),
    ) && a.name == b.name && a.arguments == b.arguments
}

/// Whether the last calls are the ones before them again, `period` by `period`.
pub open spec fn called_in_circles(replies: Seq<ReplyModel>, period: int) -> bool {
    &&& 0 < period
    &&& 2 * period <= replies.len()
    &&& forall|k: int|
        replies.len() - period <= k < replies.len() ==> same_call(
            #[trigger] replies[k],
            replies[k - period],
        )
}

/// A turn that goes on was asked for a call in every step, and remembers each by its name and its
/// arguments.
proof fn lemma_calls_remembered(
    a: AgentModel,
    prompt: Seq<char>,
    replies: Seq<ReplyModel>,
    streaming: bool,
)
    requires
        advance(a, prompt, replies, streaming) is Some,
    ensures
        ({
            let t = advance(a, prompt, replies, streaming)->0;
            &&& t.executed.len() == replies.len()
            &&& forall|i: int|
                #![trigger replies[i]]
                0 <= i < replies.len() ==> {
                    &&& replies[i].elapsed < a.turn_timeout
                    &&& replies[i].response matches Ok(ResponseModel::ToolCall(call))
                        && t.executed[i] == call_key(call)
                }
            &&& replies.len() == 0 ==> t.last_call is None
            &&& replies.len() > 0 ==> (replies.last().response matches Ok(
                ResponseModel::ToolCall(call),
            ) && t.last_call == Some((call.name, arguments_json(call.arguments))))
        }),
    decreases replies.len(),
{
    if replies.len() > 0 {
        let front = replies.drop_last();
        lemma_calls_remembered(a, prompt, front, streaming);
        let t = advance(a, prompt, replies, streaming)->0;
        let before = advance(a, prompt, front, streaming)->0;
        assert forall|i: int| #![trigger replies[i]] 0 <= i < replies.len() implies {
            &&& replies[i].elapsed < a.turn_timeout
            &&& replies[i].response matches Ok(ResponseModel::ToolCall(call)) && t.executed[i]
                == call_key(call)
        } by {
            if i < front.len() {
                assert(front[i] == replies[i]);
                assert(t.executed[i] == before.executed[i]);
            }
        }
    }
}

/// Calls run in circles as the texts that they are remembered by do.
proof fn lemma_circles(replies: Seq<ReplyModel>, executed: Seq<Seq<char>>, period: nat)
    requires
        executed.len() == replies.len(),
        0 < period,
        forall|i: int|
            #![trigger replies[i]]
            0 <= i < replies.len() ==> (replies[i].response matches Ok(
                ResponseModel::ToolCall(call),
            ) && executed[i] == call_key(call)),
    ensures
        loops(executed, period) <==> called_in_circles(replies, period as int),
{
    let n = replies.len() as int;
    let p = period as int;
    if 2 * p <= n {
        let late = executed.skip(n - p);
        let early = executed.subrange(n - 2 * p, n - p);
        if loops(executed, period) {
            assert forall|k: int| n - p <= k < n implies same_call(
                #[trigger] replies[k],
                replies[k - p],
            ) by {
                assert(late[k - (n - p)] == early[k - (n - p)]);
                let x = replies[k].response->Ok_0->ToolCall_0;
                let y = replies[k - p].response->Ok_0->ToolCall_0;
                law_names_and_arguments_tell_calls_apart(x.name, x.arguments, y.name, y.arguments);
            }
        }
        if called_in_circles(replies, p) {
            assert forall|j: int| 0 <= j < p implies late[j] == early[j] by {
                let k = n - p + j;
                assert(same_call(replies[k], replies[k - p]));
            }
            assert(late =~= early);
        }
    }
}

/// A turn is stopped for calls that run in circles exactly where they do: the last four calls are
/// two calls twice, or the last six are three calls twice, each with the same name and the same
/// arguments. Calls that differ in their arguments are never taken for the same.
pub proof fn law_only_the_same_calls_are_a_loop(
    a: AgentModel,
    prompt: Seq<char>,
    replies: Seq<ReplyModel>,
    streaming: bool,
    period: nat,
)
    requires
        turn_end(a, prompt, replies, streaming) is Some,
        turn_end(a, prompt, replies, streaming)->0.result == Err::<Seq<EventModel>, AgentTrouble>(
            AgentTrouble::PatternLoopDetected { period },
        ),
    ensures
        period == 2 || period == 3,
        called_in_circles(replies, period as int),
{
    let front = replies.drop_last();
    let t = advance(a, prompt, front, streaming)->0;
    let reply = replies.last();
    lemma_calls_remembered(a, prompt, front, streaming);
    let call = reply.response->Ok_0->ToolCall_0;
    let executed = t.executed.push(call_key(call));
    assert forall|i: int| #![trigger replies[i]] 0 <= i < replies.len() implies (
    replies[i].response matches Ok(ResponseModel::ToolCall(call)) && executed[i] == call_key(call)) by {
        if i < front.len() {
            assert(front[i] == replies[i]);
        }
    }
    lemma_circles(replies, executed, 2);
    lemma_circles(replies, executed, 3);
}

/// What a call in a turn leads to, when it comes in time and within the limit of calls. The same
/// call as the one before ends the turn without being carried out; calls that run in circles end it
/// with an error; after any other call the turn goes on, and the call has been answered.
pub proof fn law_calls_repeat_loop_or_go_on(
    a: AgentModel,
    prompt: Seq<char>,
    replies: Seq<ReplyModel>,
    streaming: bool,
)
    requires
        0 < replies.len() <= a.max_steps,
        advance(a, prompt, replies.drop_last(), streaming) is Some,
        replies.last().elapsed < a.turn_timeout,
        replies.last().response matches Ok(ResponseModel::ToolCall(_)),
        replies.len() <= a.max_tool_calls,
    ensures
        ({
            let n = replies.len();
            let call = replies.last().response->Ok_0->ToolCall_0;
            let before = advance(a, prompt, replies.drop_last(), streaming)->0;
            let end = turn_end(a, prompt, replies, streaming);
            let after = advance(a, prompt, replies, streaming);
            if n > 1 && same_call(replies[n - 1], replies[n - 2]) {
                &&& after is None
                &&& end matches Some(end) && end.conversation == a.conversation && end.result == Ok::<
                    Seq<EventModel>,
                    AgentTrouble,
                >(
                    before.events + seq![
                        EventModel::RepeatedToolCall { tool: call.name, count: 2 },
                        EventModel::Done,
                    ],
                )
            } else if called_in_circles(replies, 2) || called_in_circles(replies, 3) {
                &&& after is None
                &&& end matches Some(end) && end.conversation == a.conversation && end.result
                    == Err::<Seq<EventModel>, AgentTrouble>(
                    AgentTrouble::PatternLoopDetected {
                        period: if called_in_circles(replies, 2) {
                            2
                        } else {
                            3
                        },
                    },
                )
            } else {
                &&& after matches Some(t) && t.tool_results.len() == n && t.tool_results.drop_last()
                    == before.tool_results && t.tool_results.last().id == call.id
                    && t.tool_results.last().name == call.name && t.events[before.events.len() as int]
                    == EventModel::ToolCall(call) && t.events.last() == EventModel::ToolResult(
                    t.tool_results.last(),
                ) && t.events.take(before.events.len() as int) == before.events
                &&& end is Some <==> n == a.max_steps
                &&& end matches Some(end) ==> end.result == Err::<Seq<EventModel>, AgentTrouble>(
                    AgentTrouble::StepLimitExceeded { limit: a.max_steps },
                )
            }
        }),
{
    let front = replies.drop_last();
    let n = replies.len() as int;
    let t = advance(a, prompt, front, streaming)->0;
    let reply = replies.last();
    let call = reply.response->Ok_0->ToolCall_0;
    lemma_calls_remembered(a, prompt, front, streaming);
    law_turns_stay_within_their_limits(a, prompt, front, streaming);
    let executed = t.executed.push(call_key(call));
    assert forall|i: int| #![trigger replies[i]] 0 <= i < replies.len() implies (
    replies[i].response matches Ok(ResponseModel::ToolCall(call)) && executed[i] == call_key(call)) by {
        if i < front.len() {
            assert(front[i] == replies[i]);
        }
    }
    lemma_circles(replies, executed, 2);
    lemma_circles(replies, executed, 3);
    if n > 1 {
        assert(front.last() == replies[n - 2]);
        let earlier = replies[n - 2].response->Ok_0->ToolCall_0;
        law_canonical_texts_tell_arguments_apart(call.arguments, earlier.arguments);
        assert(repeats(t, call) <==> same_call(replies[n - 1], replies[n - 2]));
    } else {
        assert(!repeats(t, call));
    }
    if repeats(t, call) {
        assert(stopped_turn(t, call).events =~= t.events + seq![
            EventModel::RepeatedToolCall { tool: call.name, count: 2 },
            EventModel::Done,
        ]);
    } else {
        let after = concluded(
            a,
            called_turn(t, call, reply.permission),
            call,
            reply.permission is Some,
            reply.decision,
            reply.outcome,
        );
        assert(after.executed =~= executed);
        assert(after.tool_results.drop_last() =~= t.tool_results);
        assert(after.events.take(t.events.len() as int) =~= t.events);
        assert(after.events[t.events.len() as int] == EventModel::ToolCall(call));
    }
}

/// Different calls are no loop: a turn whose calls all differ in their name or their arguments, and
/// whose model then answers, succeeds. Its events are what the user said, each call with its result,
/// the answer and the end; the same goes into the conversation.
pub proof fn law_different_calls_are_answered(
    a: AgentModel,
    prompt: Seq<char>,
    replies: Seq<ReplyModel>,
    content: Seq<char>,
)
    requires
        0 < replies.len() <= a.max_steps,
        replies.len() - 1 <= a.max_tool_calls,
        forall|i: int|
            #![trigger replies[i]]
            0 <= i < replies.len() ==> replies[i].elapsed < a.turn_timeout,
        forall|i: int|
            #![trigger replies[i]]
            0 <= i < replies.len() - 1 ==> replies[i].response matches Ok(
                ResponseModel::ToolCall(_),
            ),
        forall|i: int, j: int|
            #![trigger replies[i], replies[j]]
            0 <= i < j < replies.len() - 1 ==> !same_call(replies[i], replies[j]),
        replies.last().response == Ok::<ResponseModel, Seq<char>>(ResponseModel::Text(content)),
    ensures
        turn_end(a, prompt, replies, false) matches Some(end) && end.result matches Ok(events) && {
            &&& events.len() >= 2 * replies.len() + 1
            &&& events[0] == (EventModel::UserMessage { content: prompt })
            &&& events[events.len() - 2] == (EventModel::AssistantText { content })
            &&& events.last() == EventModel::Done
            &&& forall|i: int|
                #![trigger replies[i]]
                0 <= i < replies.len() - 1 ==> events.contains(
                    EventModel::ToolCall(replies[i].response->Ok_0->ToolCall_0),
                )
        },
{
    let front = replies.drop_last();
    lemma_different_calls_go_on(a, prompt, replies, replies.len() - 1);
    assert(replies.take(replies.len() - 1) =~= front);
    let t = advance(a, prompt, front, false)->0;
    law_turns_stay_within_their_limits(a, prompt, front, false);
    let events = answered_turn(t, content, true).events;
    assert forall|i: int| #![trigger replies[i]] 0 <= i < front.len() implies events.contains(
        EventModel::ToolCall(replies[i].response->Ok_0->ToolCall_0),
    ) by {
        let event = EventModel::ToolCall(replies[i].response->Ok_0->ToolCall_0);
        let k = choose|k: int| 0 <= k < t.events.len() && t.events[k] == event;
        assert(events[k] == event);
    }
}

proof fn lemma_different_calls_go_on(
    a: AgentModel,
    prompt: Seq<char>,
    replies: Seq<ReplyModel>,
    n: int,
)
    requires
        0 <= n < replies.len() <= a.max_steps,
        replies.len() - 1 <= a.max_tool_calls,
        forall|i: int|
            #![trigger replies[i]]
            0 <= i < replies.len() ==> replies[i].elapsed < a.turn_timeout,
        forall|i: int|
            #![trigger replies[i]]
            0 <= i < replies.len() - 1 ==> replies[i].response matches Ok(
                ResponseModel::ToolCall(_),
            ),
        forall|i: int, j: int|
            #![trigger replies[i], replies[j]]
            0 <= i < j < replies.len() - 1 ==> !same_call(replies[i], replies[j]),
    ensures
        advance(a, prompt, replies.take(n), false) matches Some(t) && t.events.len() >= 2 * n + 1
            && forall|i: int|
            #![trigger replies[i]]
            0 <= i < n ==> t.events.contains(
                EventModel::ToolCall(replies[i].response->Ok_0->ToolCall_0),
            ),
    decreases n,
{
    let some = replies.take(n);
    if n > 0 {
        lemma_different_calls_go_on(a, prompt, replies, n - 1);
        assert(some.drop_last() =~= replies.take(n - 1));
        assert(some.last() == replies[n - 1]);
        assert(!called_in_circles(some, 2)) by {
            if called_in_circles(some, 2) {
                assert(same_call(some[n - 1], some[n - 3]));
                assert(!same_call(replies[n - 3], replies[n - 1]));
            }
        }
        assert(!called_in_circles(some, 3)) by {
            if called_in_circles(some, 3) {
                assert(same_call(some[n - 1], some[n - 4]));
                assert(!same_call(replies[n - 4], replies[n - 1]));
            }
        }
        if n > 1 {
            assert(!same_call(replies[n - 2], replies[n - 1]));
            assert(some[n - 1] == replies[n - 1] && some[n - 2] == replies[n - 2]);
        }
        law_calls_repeat_loop_or_go_on(a, prompt, some, false);
        let before = advance(a, prompt, replies.take(n - 1), false)->0;
        let t = advance(a, prompt, some, false)->0;
        assert forall|i: int| #![trigger replies[i]] 0 <= i < n implies t.events.contains(
            EventModel::ToolCall(replies[i].response->Ok_0->ToolCall_0),
        ) by {
            let event = EventModel::ToolCall(replies[i].response->Ok_0->ToolCall_0);
            if i < n - 1 {
                let k = choose|k: int| 0 <= k < before.events.len() && before.events[k] == event;
                assert(t.events.take(before.events.len() as int)[k] == event);
                assert(t.events[k] == event);
            } else {
                assert(t.events[before.events.len() as int] == event);
            }
        }
        assert(t.events.len() >= before.events.len() + 2) by {
            assert(t.events[before.events.len() as int] != t.events.last());
        }
    }
}

/// How a turn ends at once: when its time is over, when its model fails, when a call is one too
/// many, and with an answer. Nothing but an answer changes the conversation.
pub proof fn law_turns_end_for_these_reasons(
    a: AgentModel,
    prompt: Seq<char>,
    replies: Seq<ReplyModel>,
    streaming: bool,
)
    requires
        0 < replies.len() <= a.max_steps,
        advance(a, prompt, replies.drop_last(), streaming) is Some,
    ensures
        ({
            let reply = replies.last();
            let end = turn_end(a, prompt, replies, streaming);
            let done = (replies.len() - 1) as nat;
            &&& reply.elapsed >= a.turn_timeout ==> end == Some(
                EndModel {
                    result: Err(AgentTrouble::TurnTimeoutExceeded),
                    conversation: a.conversation,
                },
            )
            &&& reply.elapsed < a.turn_timeout ==> match reply.response {
                Err(message) => end == Some(
                    EndModel {
                        result: Err(AgentTrouble::Model(message)),
                        conversation: a.conversation,
                    },
                ),
                Ok(ResponseModel::Text(content)) => end matches Some(end) && end.result is Ok,
                Ok(ResponseModel::ToolCall(_)) => done >= a.max_tool_calls ==> end == Some(
                    EndModel {
                        result: Err(
                            AgentTrouble::ToolCallLimitExceeded { limit: a.max_tool_calls },
                        ),
                        conversation: a.conversation,
                    },
                ),
            }
        }),
{
    law_turns_stay_within_their_limits(a, prompt, replies.drop_last(), streaming);
}

/// The conversation after an answer is what it was, then what the user said, then two messages for
/// each call and at last the answer, as far as the limits of the context allow.
pub proof fn law_answers_enter_the_conversation(
    a: AgentModel,
    prompt: Seq<char>,
    replies: Seq<ReplyModel>,
    streaming: bool,
    content: Seq<char>,
)
    requires
        0 < replies.len() <= a.max_steps,
        advance(a, prompt, replies.drop_last(), streaming) is Some,
        replies.last().elapsed < a.turn_timeout,
        replies.last().response == Ok::<ResponseModel, Seq<char>>(ResponseModel::Text(content)),
    ensures
        ({
            let end = turn_end(a, prompt, replies, streaming)->0;
            let added = advance(a, prompt, replies.drop_last(), streaming)->0.context.push(
                MessageModel { role: "assistant"@, content },
            );
            let whole = a.conversation + added;
            &&& added.len() == 2 * replies.len()
            &&& added[0] == (MessageModel { role: "user"@, content: prompt })
            &&& end.conversation.len() <= whole.len()
            &&& end.conversation == whole.skip(whole.len() - end.conversation.len())
            &&& whole.len() <= a.max_context_messages && 0 < a.max_context_chars && tail_size(
                whole,
                whole.len(),
            ) <= a.max_context_chars ==> end.conversation == whole
            &&& replies.len() == 1 ==> added == seq![
                MessageModel { role: "user"@, content: prompt },
                MessageModel { role: "assistant"@, content },
            ]
        }),
{
    let front = replies.drop_last();
    lemma_contexts_grow(a, prompt, front, streaming);
    let t = advance(a, prompt, front, streaming)->0;
    let added = t.context.push(MessageModel { role: "assistant"@, content });
    let whole = a.conversation + added;
    law_contexts_are_bounded(whole, a.max_context_messages, a.max_context_chars);
    if whole.len() <= a.max_context_messages && 0 < a.max_context_chars && tail_size(
        whole,
        whole.len(),
    ) <= a.max_context_chars {
        law_contexts_are_as_long_as_can_be(whole, a.max_context_messages, a.max_context_chars);
        let kept = bounded(whole, a.max_context_messages, a.max_context_chars);
        if kept.len() < whole.len() {
            lemma_tail_grows(whole, kept.len() + 1, whole.len());
        }
        assert(whole.skip(0) =~= whole);
    }
    if replies.len() == 1 {
        assert(front =~= Seq::<ReplyModel>::empty());
        assert(added =~= seq![
            MessageModel { role: "user"@, content: prompt },
            MessageModel { role: "assistant"@, content },
        ]);
    }
}

proof fn lemma_tail_grows(conversation: Seq<MessageModel>, few: nat, many: nat)
    requires
        few <= many <= conversation.len(),
    ensures
        tail_size(conversation, few) <= tail_size(conversation, many),
    decreases many,
{
    if few < many {
        lemma_tail_grows(conversation, few, (many - 1) as nat);
    }
}

proof fn lemma_contexts_grow(
    a: AgentModel,
    prompt: Seq<char>,
    replies: Seq<ReplyModel>,
    streaming: bool,
)
    requires
        advance(a, prompt, replies, streaming) is Some,
    ensures
        ({
            let t = advance(a, prompt, replies, streaming)->0;
            &&& t.context.len() == 1 + 2 * replies.len()
            &&& t.context[0] == (MessageModel { role: "user"@, content: prompt })
        }),
    decreases replies.len(),
{
    if replies.len() > 0 {
        lemma_contexts_grow(a, prompt, replies.drop_last(), streaming);
    }
}

proof fn lemma_kept_to_the_full(
    conversation: Seq<MessageModel>,
    max_messages: nat,
    max_chars: nat,
    kept: nat,
    used: nat,
)
    requires
        kept <= conversation.len(),
        used == tail_size(conversation, kept),
    ensures
        ({
            let k = kept_from(conversation, max_messages, max_chars, kept, used);
            k < max_messages && k < conversation.len() ==> tail_size(conversation, k + 1)
                > max_chars
        }),
    decreases conversation.len() - kept,
{
    if kept < max_messages && kept < conversation.len() {
        let size = message_size(conversation[conversation.len() - 1 - kept]);
        assert(tail_size(conversation, kept + 1) == used + size);
        if used + size <= max_chars {
            lemma_kept_to_the_full(conversation, max_messages, max_chars, kept + 1, used + size);
        }
    }
}

/// The context of a model leaves out no message that the limits have room for: with one more it
/// would be too long.
pub proof fn law_contexts_are_as_long_as_can_be(
    conversation: Seq<MessageModel>,
    max_messages: nat,
    max_chars: nat,
)
    requires
        max_messages > 0,
        max_chars > 0,
    ensures
        ({
            let n = bounded(conversation, max_messages, max_chars).len();
            n < max_messages && n < conversation.len() ==> tail_size(conversation, n + 1)
                > max_chars
        }),
{
    lemma_kept(conversation, max_messages, max_chars, 0, 0);
    lemma_kept_to_the_full(conversation, max_messages, max_chars, 0, 0);
}

/// The result of a call carries the id and the name of the call. A tool that is registered and not
/// denied gives its own answer, as an error or not; one that is not registered is unknown.
pub proof fn law_results_answer_their_calls(
    a: AgentModel,
    call: CallModel,
    guarded: bool,
    decision: DecisionModel,
    outcome: Result<Seq<char>, Seq<char>>,
)
    ensures
        ({
            let result = outcome_with(a, call, guarded, decision, outcome);
            let known = registered(a.tools, call.name);
            &&& result.id == call.id
            &&& result.name == call.name
            &&& !guarded || decision is Allow ==> {
                &&& known ==> match outcome {
                    Ok(content) => result.content == content && !result.is_error,
                    Err(message) => result.content == message && result.is_error,
                }
                &&& !known ==> result.content == "unknown tool: "@ + call.name && result.is_error
            }
        }),
{
}

/// What the model is asked: the system prompt, what the user said, the tools, and the results of
/// all calls of this turn in their order. Each result is there once its call was made.
pub proof fn law_results_are_fed_back(
    a: AgentModel,
    prompt: Seq<char>,
    replies: Seq<ReplyModel>,
    streaming: bool,
    i: int,
)
    requires
        advance(a, prompt, replies, streaming) is Some,
    ensures
        ({
            let request = request_of(a, advance(a, prompt, replies, streaming)->0);
            &&& request.prompt == prompt
            &&& request.system_prompt == a.system_prompt
            &&& request.route == a.route
            &&& request.tools.len() == a.tools.len()
            &&& request.tool_results.len() == replies.len()
            &&& 0 <= i < replies.len() ==> {
                let call = replies[i].response->Ok_0->ToolCall_0;
                request.tool_results[i] == outcome_with(
                    a,
                    call,
                    replies[i].permission is Some,
                    replies[i].decision,
                    replies[i].outcome,
                )
            }
        }),
    decreases replies.len(),
{
    if replies.len() > 0 {
        let front = replies.drop_last();
        law_results_are_fed_back(a, prompt, front, streaming, i);
        law_turns_stay_within_their_limits(a, prompt, replies, streaming);
        let before = advance(a, prompt, front, streaming)->0;
        let t = advance(a, prompt, replies, streaming)->0;
        if 0 <= i < front.len() {
            assert(front[i] == replies[i]);
            assert(t.tool_results[i] == before.tool_results[i]);
        }
    } else {
        law_turns_stay_within_their_limits(a, prompt, replies, streaming);
    }
}

} // verus!
