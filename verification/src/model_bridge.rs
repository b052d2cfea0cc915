//! The bridge from a local model runner to the events of a model process.

use vstd::prelude::*;

use crate::agent_messages::ModelResponse;
#[allow(unused_imports)]
use crate::agent_messages::{CallModel, ResponseModel};
use crate::json::{field, quoted, write_object};
#[allow(unused_imports)]
use crate::json::{field_models, json_string, object_text};
use crate::model_replies::{collect_runner_text, lossy_text, parse_bridge_response};
#[allow(unused_imports)]
use crate::model_replies::{bridge_reply, lossy, reply_seen, runner_text};
use crate::runtime_error::labelled;
use crate::text::{same_text, trimmed};
#[allow(unused_imports)]
use crate::text::{lines_of, texts, trim};
use crate::tool_values::canonical_arguments;
#[allow(unused_imports)]
use crate::tool_values::arguments_json;

verus! {

/// How often the runner is asked.
pub const MODEL_ATTEMPTS: usize = 2;

/// What follows a run of the runner.
#[derive(Debug, PartialEq, Eq)]
pub enum BridgeStep {
    Reply(ModelResponse),
    Retry,
    Failed(String),
}

/// What a [`BridgeStep`] says.
#[verifier::ext_equal]
pub enum BridgeModel {
    Reply(ResponseModel),
    Retry,
    Failed(Seq<char>),
}

impl View for BridgeStep {
    type V = BridgeModel;

    open spec fn view(&self) -> BridgeModel {
        match self {
            BridgeStep::Reply(response) => BridgeModel::Reply(response@),
            BridgeStep::Retry => BridgeModel::Retry,
            BridgeStep::Failed(message) => BridgeModel::Failed(message@),
        }
    }
}

/// What follows a reply: one without content is asked for again, as long as an attempt is left.
pub open spec fn after_reply(attempt: nat, reply: Result<ResponseModel, Seq<char>>) -> BridgeModel {
    match reply {
        Ok(response) => BridgeModel::Reply(response),
        Err(message) => if message == "model response was empty"@ && attempt + 1 < MODEL_ATTEMPTS {
            BridgeModel::Retry
        } else {
            BridgeModel::Failed(
                "local model returned an invalid A/RVM response: "@ + message,
            )
        },
    }
}

/// What follows a reply to the attempt with a number, counted from zero.
pub fn judge_reply(attempt: usize, reply: Result<ModelResponse, String>) -> (r: BridgeStep)
    requires
        attempt < MODEL_ATTEMPTS,
    ensures
        r@ == after_reply(attempt as nat, reply_seen(reply)),
{
    match reply {
        Ok(response) => BridgeStep::Reply(response),
        Err(message) => if same_text(message.as_str(), "model response was empty") && attempt + 1
            < MODEL_ATTEMPTS {
            BridgeStep::Retry
        } else {
            BridgeStep::Failed(
                labelled(
                    "local model returned an invalid A/RVM response: ",
                    message.as_str(),
                ),
            )
        },
    }
}

/// What follows a run of the runner.
pub open spec fn after_run(
    attempt: nat,
    success: bool,
    stdout: Seq<u8>,
    stderr: Seq<u8>,
) -> BridgeModel {
    if !success {
        BridgeModel::Failed("local model runner failed: "@ + trim(lossy(stderr)))
    } else {
        let all = lines_of(lossy(stdout));
        after_reply(attempt, bridge_reply(runner_text(all, all.len() as int)))
    }
}

/// What follows the run for the attempt with a number, counted from zero.
pub fn judge_run(attempt: usize, success: bool, stdout: &[u8], stderr: &[u8]) -> (r: BridgeStep)
    requires
        attempt < MODEL_ATTEMPTS,
    ensures
        r@ == after_run(attempt as nat, success, stdout@, stderr@),
{
    if !success {
        return BridgeStep::Failed(
            labelled(
                "local model runner failed: ",
                trimmed(lossy_text(stderr).as_str()).as_str(),
            ),
        );
    }
    judge_reply(attempt, parse_bridge_response(collect_runner_text(stdout).as_str()))
}

/// The last attempt is not followed by another.
pub proof fn law_attempts_are_bounded(
    attempt: nat,
    success: bool,
    stdout: Seq<u8>,
    stderr: Seq<u8>,
)
    requires
        attempt + 1 >= MODEL_ATTEMPTS,
    ensures
        !(after_run(attempt, success, stdout, stderr) is Retry),
{
}

/// A response as an event, with the keys in order.
pub open spec fn response_event(response: ResponseModel) -> Seq<char> {
    match response {
        ResponseModel::Text(text) => object_text(
            seq![("text"@, json_string(text)), ("type"@, json_string("text_delta"@))],
        ),
        ResponseModel::ToolCall(call) => object_text(
            seq![
                ("arguments"@, arguments_json(call.arguments)),
                ("id"@, json_string(call.id)),
                ("name"@, json_string(call.name)),
                ("type"@, json_string("tool_call"@)),
            ],
        ),
    }
}

/// The event behind a response.
pub open spec fn done_event() -> Seq<char> {
    object_text(seq![("type"@, json_string("done"@))])
}

/// The events that tell a response.
pub fn bridge_events(response: &ModelResponse) -> (r: Vec<String>)
    ensures
        texts(r@) == seq![response_event(response@), done_event()],
{
    let event = match response {
        ModelResponse::Text(text) => {
            let fields = vec![
                field("text", quoted(text.as_str())),
                field("type", quoted("text_delta")),
            ];
            assert(field_models(fields@) =~= seq![
                ("text"@, json_string(text@)),
                ("type"@, json_string("text_delta"@)),
            ]);
            write_object(&fields)
        },
        ModelResponse::ToolCall(call) => {
            let fields = vec![
                field("arguments", canonical_arguments(&call.arguments)),
                field("id", quoted(call.id.as_str())),
                field("name", quoted(call.name.as_str())),
                field("type", quoted("tool_call")),
            ];
            assert(field_models(fields@) =~= seq![
                ("arguments"@, arguments_json(call@.arguments)),
                ("id"@, json_string(call@.id)),
                ("name"@, json_string(call@.name)),
                ("type"@, json_string("tool_call"@)),
            ]);
            write_object(&fields)
        },
    };
    let fields = vec![field("type", quoted("done"))];
    assert(field_models(fields@) =~= seq![("type"@, json_string("done"@))]);
    let last = write_object(&fields);
    let r = vec![event, last];
    assert(texts(r@) =~= seq![response_event(response@), done_event()]);
    r
}

} // verus!
