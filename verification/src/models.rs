//! Models, and the router that selects one of them.

use std::collections::VecDeque;

use vstd::prelude::*;

use crate::agent_messages::{
    AgentEvent, ModelCapabilities, ModelError, ModelMode, ModelRequest, ModelResponse, ModelStreamEvent,
    RouteRequest,
};
#[allow(unused_imports)]
use crate::agent_messages::{CallModel, EventModel, ResponseModel, RouteModel, agent_events};
use crate::ordered::OrderedMap;
#[allow(unused_imports)]
use crate::ordered::{
    OrderedKey, keys_of, law_put_then_get, lemma_found, lemma_position, lemma_viewed_lookup,
    lemma_viewed_put, lookup, position, present, sorted, viewed, with_entry,
};
use crate::runtime_error::labelled;
#[allow(unused_imports)]
use crate::text::{all_white, blank, law_blank_texts_are_white, text_option, texts};
use crate::text::{copy_text_option, is_blank, same_text};

verus! {

/// What takes the events of a turn as they come.
pub trait EventSink {
    fn emit(&mut self, event: AgentEvent);
}

/// The way that the events of a streaming turn go: to a sink, or into a list where there is none.
pub struct EventStream {
    sink: Option<Box<dyn EventSink>>,
    events: Vec<AgentEvent>,
    deltas: u64,
}

/// What an [`EventStream`] has taken: the events it keeps, and the number of partial outputs.
#[verifier::ext_equal]
pub struct StreamModel {
    pub keeps: bool,
    pub events: Seq<EventModel>,
    pub deltas: u64,
}

impl View for EventStream {
    type V = StreamModel;

    closed spec fn view(&self) -> StreamModel {
        StreamModel {
            keeps: self.sink is None,
            events: agent_events(self.events@),
            deltas: self.deltas,
        }
    }
}

/// Whether a sink can take this event: `sink` stands for it before and after.
pub open spec fn takes<S: EventSink + ?Sized>(sink: &mut S, event: AgentEvent) -> bool {
    call_ensures(S::emit, (sink, event), ())
}

/// Hands an event to a sink.
fn hand_to<S: EventSink + ?Sized>(sink: &mut S, event: AgentEvent)
    ensures
        exists|k: &mut S| #[trigger]
            takes(k, event) && &*k == &*old(sink) && &*final(k) == &*final(sink),
{
    sink.emit(event);
    assert(exists|k: &mut S| #[trigger]
        call_ensures(S::emit, (k, event), ()) && takes(k, event) && &*k == &*old(sink)
            && &*final(k) == &*final(sink));
}

/// A stream that has taken one more event.
pub open spec fn taken(s: StreamModel, event: EventModel) -> StreamModel {
    if s.keeps {
        StreamModel { events: s.events.push(event), ..s }
    } else {
        s
    }
}

/// A stream that has taken one more piece of a model's output.
pub open spec fn with_delta(s: StreamModel, content: Seq<char>) -> StreamModel {
    StreamModel {
        deltas: if s.deltas < u64::MAX {
            (s.deltas + 1) as u64
        } else {
            u64::MAX
        },
        ..taken(s, EventModel::AssistantDelta { content })
    }
}

/// A stream that has taken a whole reply at once: its text, where there is some.
pub open spec fn with_reply(s: StreamModel, reply: Result<ResponseModel, Seq<char>>) -> StreamModel {
    match told_text(reply) {
        Some(content) => with_delta(s, content),
        None => s,
    }
}

impl EventStream {
    /// The sink that the events go to, as it now is.
    pub closed spec fn sink(&self) -> Option<Box<dyn EventSink>> {
        self.sink
    }

    /// A stream that keeps its events.
    pub fn recording() -> (r: Self)
        ensures
            r.sink() is None,
            r@ == (StreamModel { keeps: true, events: Seq::empty(), deltas: 0 }),
    {
        let r = EventStream { sink: None, events: Vec::new(), deltas: 0 };
        assert(agent_events(r.events@) =~= Seq::<EventModel>::empty());
        r
    }

    /// A stream that hands its events on.
    pub fn to(sink: Box<dyn EventSink>) -> (r: Self)
        ensures
            r.sink() == Some(sink),
            r@ == (StreamModel { keeps: false, events: Seq::empty(), deltas: 0 }),
    {
        let held = Some(sink);
        let r = EventStream { sink: held, events: Vec::new(), deltas: 0 };
        assert(agent_events(r.events@) =~= Seq::<EventModel>::empty());
        r
    }

    /// Takes an event of the turn: hands it to the sink, or keeps it where there is none.
    pub fn send(&mut self, event: AgentEvent)
        ensures
            final(self)@ == taken(old(self)@, event@),
            old(self)@.keeps == (old(self).sink() is None),
            match old(self).sink() {
                None => final(self).sink() is None,
                Some(sink) => final(self).sink() is Some && exists|
                    k: &mut (dyn EventSink + 'static),
                | #[trigger]
                    takes(k, event) && &*k == &*sink && &*final(k) == &*final(self).sink()->0,
            },
    {
        match &mut self.sink {
            Some(sink) => {
                hand_to(&mut **sink, event);
            },
            None => {
                let ghost before = self.events@;
                self.events.push(event);
                assert(agent_events(self.events@) =~= agent_events(before).push(event@));
            },
        }
    }

    /// Takes partial output of a model.
    pub fn emit(&mut self, event: ModelStreamEvent)
        ensures
            ({
                let ModelStreamEvent::TextDelta { content } = event;
                &&& final(self)@ == with_delta(old(self)@, content@)
                &&& old(self)@.keeps == (old(self).sink() is None)
                &&& match old(self).sink() {
                    None => final(self).sink() is None,
                    Some(sink) => final(self).sink() is Some && exists|
                        k: &mut (dyn EventSink + 'static),
                    | #[trigger]
                        takes(k, AgentEvent::AssistantDelta { content }) && &*k == &*sink
                            && &*final(k) == &*final(self).sink()->0,
                }
            }),
    {
        let ModelStreamEvent::TextDelta { content } = event;
        if self.deltas < u64::MAX {
            self.deltas = self.deltas + 1;
        }
        self.send(AgentEvent::AssistantDelta { content });
    }

    /// The number of partial outputs so far.
    pub fn deltas(&self) -> (r: u64)
        ensures
            r == self@.deltas,
    {
        self.deltas
    }

    /// The events that were kept.
    pub fn into_events(self) -> (r: Vec<AgentEvent>)
        ensures
            agent_events(r@) == self@.events,
    {
        self.events
    }
}

/// Whether a stream takes an event: `stream` stands for it before and after.
pub open spec fn sends(stream: &mut EventStream, event: AgentEvent) -> bool {
    call_ensures(EventStream::send, (stream, event), ())
}

/// Whether a stream takes a piece of a model's output: `stream` stands for it before and after.
pub open spec fn emits(stream: &mut EventStream, event: ModelStreamEvent) -> bool {
    call_ensures(EventStream::emit, (stream, event), ())
}

/// Hands an event to a stream.
pub(crate) fn pass_on(stream: &mut EventStream, event: AgentEvent)
    ensures
        final(stream)@ == taken(old(stream)@, event@),
        exists|s: &mut EventStream| #[trigger]
            sends(s, event) && *s == *old(stream) && *final(s) == *final(stream),
{
    stream.send(event);
    assert(exists|s: &mut EventStream| #[trigger]
        call_ensures(EventStream::send, (s, event), ()) && sends(s, event) && *s == *old(stream)
            && *final(s) == *final(stream));
}

/// Hands a piece of a model's output to a stream.
fn pass_output(stream: &mut EventStream, event: ModelStreamEvent)
    ensures
        ({
            let ModelStreamEvent::TextDelta { content } = event;
            final(stream)@ == with_delta(old(stream)@, content@)
        }),
        exists|s: &mut EventStream| #[trigger]
            emits(s, event) && *s == *old(stream) && *final(s) == *final(stream),
{
    stream.emit(event);
    assert(exists|s: &mut EventStream| #[trigger]
        call_ensures(EventStream::emit, (s, event), ()) && emits(s, event) && *s == *old(stream)
            && *final(s) == *final(stream));
}

/// The text of a piece of a model's output.
pub open spec fn output_text(event: ModelStreamEvent) -> Seq<char> {
    let ModelStreamEvent::TextDelta { content } = event;
    content@
}

/// The text of a reply, where there is some.
pub open spec fn told_text(reply: Result<ResponseModel, Seq<char>>) -> Option<Seq<char>> {
    match reply {
        Ok(ResponseModel::Text(content)) => if content.len() > 0 {
            Some(content)
        } else {
            None
        },
        _ => None,
    }
}

/// Provider-neutral model interface.
pub trait Model {
    fn respond(&mut self, request: &ModelRequest) -> Result<ModelResponse, ModelError>;

    fn respond_stream(&mut self, request: &ModelRequest, emit: &mut EventStream) -> (r: Result<
        ModelResponse,
        ModelError,
    >)
        default_ensures
            final(emit)@ == with_reply(old(emit)@, reply_seen(r)),
            match told_text(reply_seen(r)) {
                None => *final(emit) == *old(emit),
                Some(content) => exists|s: &mut EventStream, event: ModelStreamEvent| #[trigger]
                    emits(s, event) && output_text(event) == content && *s == *old(emit)
                        && *final(s) == *final(emit),
            },
            exists|m: &mut Self| #[trigger]
                call_ensures(Self::respond, (m, request), r) && &*m == &*old(self) && &*final(m)
                    == &*final(self),
    {
        let response = match self.respond(request) {
            Ok(response) => response,
            Err(error) => {
                return Err(error);
            },
        };
        if let ModelResponse::Text(content) = &response {
            if !content.as_str().is_empty() {
                let event = ModelStreamEvent::TextDelta { content: content.clone() };
                assert(output_text(event) == content@);
                pass_output(emit, event);
            }
        }
        Ok(response)
    }
}

/// Whether a model may reply this to a request: `model` stands for it before and after.
pub open spec fn replies<M: Model + ?Sized>(
    model: &mut M,
    request: &ModelRequest,
    reply: Result<ModelResponse, ModelError>,
) -> bool {
    call_ensures(M::respond, (model, request), reply)
}

/// Whether a model may reply this to a request while its output goes to a stream: `model` and
/// `emit` stand for the two before and after.
pub open spec fn replies_streaming<M: Model + ?Sized>(
    model: &mut M,
    request: &ModelRequest,
    emit: &mut EventStream,
    reply: Result<ModelResponse, ModelError>,
) -> bool {
    call_ensures(M::respond_stream, (model, request, emit), reply)
}

/// Asks a model.
pub(crate) fn consult<M: Model + ?Sized>(model: &mut M, request: &ModelRequest) -> (r: Result<
    ModelResponse,
    ModelError,
>)
    ensures
        exists|m: &mut M| #[trigger]
            replies(m, request, r) && &*m == &*old(model) && &*final(m) == &*final(model),
{
    let r = model.respond(request);
    assert(exists|m: &mut M| #[trigger]
        call_ensures(M::respond, (m, request), r) && replies(m, request, r) && &*m == &*old(model)
            && &*final(m) == &*final(model));
    r
}

/// Asks a model for its output as it comes.
pub(crate) fn consult_streaming<M: Model + ?Sized>(
    model: &mut M,
    request: &ModelRequest,
    emit: &mut EventStream,
) -> (r: Result<ModelResponse, ModelError>)
    ensures
        exists|m: &mut M, e: &mut EventStream| #[trigger]
            replies_streaming(m, request, e, r) && &*m == &*old(model) && &*final(m)
                == &*final(model) && *e == *old(emit) && *final(e) == *final(emit),
{
    let r = model.respond_stream(request, emit);
    assert(exists|m: &mut M, e: &mut EventStream| #[trigger]
        call_ensures(M::respond_stream, (m, request, e), r) && replies_streaming(m, request, e, r)
            && &*m == &*old(model) && &*final(m) == &*final(model) && *e == *old(emit) && *final(e)
            == *final(emit));
    r
}

// ---------------------------------------------------------------------------
// Routing
// ---------------------------------------------------------------------------

/// Profiles used by the router when the caller did not name a model.
#[derive(Debug, PartialEq, Eq)]
pub enum RouteError {
    NoModels,
    NoRoute { mode: ModelMode },
    MissingModel { model: String },
    MissingCapability { model: String, capability: &'static str },
    DuplicateModel { model: String },
}

/// What a [`RouteError`] says.
#[verifier::ext_equal]
pub enum RouteTrouble {
    NoModels,
    NoRoute { mode: ModelMode },
    MissingModel { model: Seq<char> },
    MissingCapability { model: Seq<char>, capability: Seq<char> },
    DuplicateModel { model: Seq<char> },
}

impl View for RouteError {
    type V = RouteTrouble;

    open spec fn view(&self) -> RouteTrouble {
        match self {
            RouteError::NoModels => RouteTrouble::NoModels,
            RouteError::NoRoute { mode } => RouteTrouble::NoRoute { mode: *mode },
            RouteError::MissingModel { model } => RouteTrouble::MissingModel { model: model@ },
            RouteError::MissingCapability { model, capability } => RouteTrouble::MissingCapability {
                model: model@,
                capability: capability@,
            },
            RouteError::DuplicateModel { model } => RouteTrouble::DuplicateModel { model: model@ },
        }
    }
}

pub open spec fn mode_text(mode: ModelMode) -> Seq<char> {
    match mode {
        ModelMode::Default => "Default"@,
        ModelMode::Fast => "Fast"@,
        ModelMode::Strong => "Strong"@,
    }
}

pub open spec fn route_trouble_text(trouble: RouteTrouble) -> Seq<char> {
    match trouble {
        RouteTrouble::NoModels => "no models are registered"@,
        RouteTrouble::NoRoute { mode } => "no model route is configured for "@ + mode_text(mode),
        RouteTrouble::MissingModel { model } => "model is not registered: "@ + model,
        RouteTrouble::MissingCapability { model, capability } => "model '"@ + model
            + "' does not support "@ + capability,
        RouteTrouble::DuplicateModel { model } => "model is already registered: "@ + model,
    }
}

impl RouteError {
    pub fn to_text(&self) -> (r: String)
        ensures
            r@ == route_trouble_text(self@),
    {
        match self {
            RouteError::NoModels => "no models are registered".to_owned(),
            RouteError::NoRoute { mode } => {
                let name = match *mode {
                    ModelMode::Default => "Default",
                    ModelMode::Fast => "Fast",
                    ModelMode::Strong => "Strong",
                };
                labelled("no model route is configured for ", name)
            },
            RouteError::MissingModel { model } => labelled(
                "model is not registered: ",
                model.as_str(),
            ),
            RouteError::MissingCapability { model, capability } => {
                let mut r = "model '".to_owned();
                r.push_str(model.as_str());
                r.push_str("' does not support ");
                r.push_str(capability);
                r
            },
            RouteError::DuplicateModel { model } => labelled(
                "model is already registered: ",
                model.as_str(),
            ),
        }
    }
}

/// The route selected by the router before a provider is called.
#[derive(Debug, PartialEq, Eq)]
pub struct ModelSelection {
    pub model: String,
    pub capabilities: ModelCapabilities,
}

/// The models of a router, in the order of their names, and its profiles.
#[verifier::ext_equal]
pub struct RouterModel {
    pub models: Seq<(Seq<char>, ModelCapabilities)>,
    pub default_model: Option<Seq<char>>,
    pub fast_model: Option<Seq<char>>,
    pub strong_model: Option<Seq<char>>,
    pub fallback_model: Option<Seq<char>>,
}

pub open spec fn empty_router() -> RouterModel {
    RouterModel {
        models: Seq::empty(),
        default_model: None,
        fast_model: None,
        strong_model: None,
        fallback_model: None,
    }
}

/// Whether a model with this name is registered.
pub open spec fn known_model(r: RouterModel, name: Seq<char>) -> bool {
    present::<String, ModelCapabilities>(r.models, name)
}

/// What registering a model does, or why it is refused.
pub open spec fn register_in(r: RouterModel, name: Seq<char>, capabilities: ModelCapabilities) -> (
    RouterModel,
    Option<RouteTrouble>,
) {
    if blank(name) {
        (r, Some(RouteTrouble::MissingModel { model: name }))
    } else if known_model(r, name) {
        (r, Some(RouteTrouble::DuplicateModel { model: name }))
    } else {
        (
            RouterModel {
                models: with_entry::<String, ModelCapabilities>(r.models, name, capabilities),
                ..r
            },
            None,
        )
    }
}

/// The first of two names that is there.
pub open spec fn first_of(a: Option<Seq<char>>, b: Option<Seq<char>>) -> Option<Seq<char>> {
    match a {
        Some(name) => Some(name),
        None => b,
    }
}

/// The model that a request prefers: the one it names, or that of its profile.
pub open spec fn preferred(r: RouterModel, request: RouteModel) -> Option<Seq<char>> {
    first_of(
        request.requested_model,
        match request.mode {
            ModelMode::Default => r.default_model,
            ModelMode::Fast => first_of(r.fast_model, r.default_model),
            ModelMode::Strong => first_of(r.strong_model, r.default_model),
        },
    )
}

/// The models to try: the preferred one, and the fallback where it is another.
pub open spec fn candidates(r: RouterModel, request: RouteModel) -> Seq<Seq<char>> {
    match (preferred(r, request), r.fallback_model) {
        (Some(model), Some(fallback)) => if model == fallback {
            seq![model]
        } else {
            seq![model, fallback]
        },
        (Some(model), None) => seq![model],
        (None, Some(fallback)) => seq![fallback],
        (None, None) => Seq::empty(),
    }
}

/// Why a model cannot take a request.
pub open spec fn unfit(r: RouterModel, model: Seq<char>, request: RouteModel) -> Option<
    RouteTrouble,
> {
    match lookup::<String, ModelCapabilities>(r.models, model) {
        None => Some(RouteTrouble::MissingModel { model }),
        Some(capabilities) => if request.requires_tools && !capabilities.tools {
            Some(RouteTrouble::MissingCapability { model, capability: "tool calls"@ })
        } else if request.requires_streaming && !capabilities.streaming {
            Some(RouteTrouble::MissingCapability { model, capability: "streaming"@ })
        } else {
            None
        },
    }
}

/// What is said when no candidate can take a request: what is wrong with the first.
pub open spec fn no_route(r: RouterModel, request: RouteModel) -> RouteTrouble {
    let names = candidates(r, request);
    if names.len() > 0 && unfit(r, names[0], request) is Some {
        unfit(r, names[0], request)->0
    } else {
        RouteTrouble::NoRoute { mode: request.mode }
    }
}

/// The first candidate from `index` on that can take a request.
pub open spec fn first_fit(r: RouterModel, request: RouteModel, index: int) -> Option<Seq<char>>
    decreases candidates(r, request).len() - index,
{
    let names = candidates(r, request);
    if !(0 <= index < names.len()) {
        None
    } else if unfit(r, names[index], request) is None {
        Some(names[index])
    } else {
        first_fit(r, request, index + 1)
    }
}

/// The selected model with what it can do, or why none is.
pub open spec fn select_in(r: RouterModel, request: RouteModel) -> Result<
    (Seq<char>, ModelCapabilities),
    RouteTrouble,
> {
    if r.models.len() == 0 {
        Err(RouteTrouble::NoModels)
    } else {
        match first_fit(r, request, 0) {
            Some(model) => Ok(
                (model, lookup::<String, ModelCapabilities>(r.models, model)->0),
            ),
            None => Err(no_route(r, request)),
        }
    }
}

/// What a candidate did with a request: its reply, and whether it had emitted output before.
#[verifier::ext_equal]
pub struct AnswerModel {
    pub reply: Result<ResponseModel, Seq<char>>,
    pub emitted: bool,
}

/// What a model returned, as a model of it.
pub open spec fn reply_seen(r: Result<ModelResponse, ModelError>) -> Result<
    ResponseModel,
    Seq<char>,
> {
    match r {
        Ok(response) => Ok(response@),
        Err(error) => Err(error@),
    }
}

/// Whether the first `n` candidates could not take the request or failed before any output.
pub open spec fn routes_failed(
    r: RouterModel,
    request: RouteModel,
    answers: Seq<AnswerModel>,
    n: int,
) -> bool {
    forall|i: int|
        #![trigger answers[i]]
        0 <= i < n ==> unfit(r, candidates(r, request)[i], request) is Some
            || answers[i].reply is Err && !answers[i].emitted
}

/// What went wrong with the candidate before `n`.
pub open spec fn route_failure(
    r: RouterModel,
    request: RouteModel,
    answers: Seq<AnswerModel>,
    n: int,
) -> Seq<char> {
    let model = candidates(r, request)[n - 1];
    match unfit(r, model, request) {
        Some(trouble) => route_trouble_text(trouble),
        None => model + ": "@ + answers[n - 1].reply->Err_0,
    }
}

/// Whether `result` is what the router makes of the answers, when the first `n` candidates fail:
/// the reply of the next one, or that all routes failed.
pub open spec fn routed(
    r: RouterModel,
    request: RouteModel,
    answers: Seq<AnswerModel>,
    n: int,
    result: Result<ResponseModel, Seq<char>>,
) -> bool {
    let names = candidates(r, request);
    if names.len() == 0 {
        result == Err::<ResponseModel, Seq<char>>(route_trouble_text(no_route(r, request)))
    } else if n == names.len() {
        routes_failed(r, request, answers, n) && result == Err::<ResponseModel, Seq<char>>(
            "all model routes failed: "@ + route_failure(r, request, answers, n),
        )
    } else {
        &&& 0 <= n < names.len()
        &&& routes_failed(r, request, answers, n)
        &&& unfit(r, names[n], request) is None
        &&& answers[n].reply is Ok || answers[n].emitted
        &&& result == answers[n].reply
    }
}

/// A selected model is one of the candidates, is registered and can take the request.
pub proof fn law_selected_models_are_fit(r: RouterModel, request: RouteModel)
    ensures
        select_in(r, request) matches Ok((model, capabilities)) ==> {
            &&& candidates(r, request).contains(model)
            &&& known_model(r, model)
            &&& lookup::<String, ModelCapabilities>(r.models, model) == Some(capabilities)
            &&& request.requires_tools ==> capabilities.tools
            &&& request.requires_streaming ==> capabilities.streaming
        },
{
    lemma_first_fit(r, request, 0);
}

proof fn lemma_first_fit(r: RouterModel, request: RouteModel, index: int)
    requires
        0 <= index,
    ensures
        first_fit(r, request, index) matches Some(model) ==> candidates(r, request).contains(model)
            && unfit(r, model, request) is None,
        first_fit(r, request, index) is None ==> forall|i: int|
            index <= i < candidates(r, request).len() ==> unfit(
                r,
                #[trigger] candidates(r, request)[i],
                request,
            ) is Some,
    decreases candidates(r, request).len() - index,
{
    if index < candidates(r, request).len() {
        lemma_first_fit(r, request, index + 1);
    }
}

/// Where no candidate can take a request, no model is asked: the router says what is wrong with
/// the last one.
pub proof fn law_unfit_requests_are_refused(
    r: RouterModel,
    request: RouteModel,
    answers: Seq<AnswerModel>,
    n: int,
    result: Result<ResponseModel, Seq<char>>,
)
    requires
        candidates(r, request).len() > 0,
        first_fit(r, request, 0) is None,
        routed(r, request, answers, n, result),
    ensures
        result == Err::<ResponseModel, Seq<char>>(
            "all model routes failed: "@ + route_trouble_text(
                unfit(r, candidates(r, request).last(), request)->0,
            ),
        ),
{
    lemma_first_fit(r, request, 0);
    if n < candidates(r, request).len() {
        assert(unfit(r, candidates(r, request)[n], request) is Some);
    }
}

/// A model that fails once it has emitted output ends the search: its error is the result, and the
/// fallback is not asked.
pub proof fn law_output_ends_the_search(
    r: RouterModel,
    request: RouteModel,
    answers: Seq<AnswerModel>,
    n: int,
    result: Result<ResponseModel, Seq<char>>,
)
    requires
        candidates(r, request).len() > 0,
        unfit(r, candidates(r, request)[0], request) is None,
        answers[0].emitted,
        routed(r, request, answers, n, result),
    ensures
        n == 0,
        tried(r, request, n) == 1,
        result == answers[0].reply,
{
    if n > 0 {
        assert(answers[0].emitted);
    }
}

/// A model that fails before any output is followed by the fallback, whose reply is the result when
/// it succeeds.
pub proof fn law_the_fallback_takes_over(
    r: RouterModel,
    request: RouteModel,
    answers: Seq<AnswerModel>,
    n: int,
    result: Result<ResponseModel, Seq<char>>,
)
    requires
        candidates(r, request).len() == 2,
        unfit(r, candidates(r, request)[1], request) is None,
        unfit(r, candidates(r, request)[0], request) is Some || answers[0].reply is Err
            && !answers[0].emitted,
        answers[1].reply is Ok,
        routed(r, request, answers, n, result),
    ensures
        n == 1,
        tried(r, request, n) == 2,
        result == answers[1].reply,
{
    if n == 2 {
        assert(answers[1].reply is Ok);
    }
}

/// A registered model: what it can do, and its index.
struct Slot {
    capabilities: ModelCapabilities,
    index: usize,
}

impl View for Slot {
    type V = ModelCapabilities;

    closed spec fn view(&self) -> ModelCapabilities {
        self.capabilities
    }
}

struct HeldModel {
    model: Box<dyn Model>,
}

fn push_model(models: &mut Vec<HeldModel>, held: HeldModel)
    ensures
        final(models)@.len() == old(models)@.len() + 1,
        forall|i: int|
            0 <= i < old(models)@.len() ==> #[trigger] final(models)@[i] == old(models)@[i],
        final(models)@[old(models)@.len() as int] == held,
{
    models.push(held);
}

/// Every entry has a model of its own.
spec fn slotted(slots: Seq<(Seq<char>, Slot)>, models: nat) -> bool {
    &&& forall|i: int| 0 <= i < slots.len() ==> (#[trigger] slots[i]).1.index < models
    &&& forall|i: int, j: int|
        0 <= i < j < slots.len() ==> (#[trigger] slots[i]).1.index != (#[trigger] slots[j]).1.index
}

/// The index of the model with this name.
spec fn index_in(slots: Seq<(Seq<char>, Slot)>, name: Seq<char>) -> int {
    lookup::<String, Slot>(slots, name)->0.index as int
}

proof fn lemma_slotted_put(slots: Seq<(Seq<char>, Slot)>, name: Seq<char>, slot: Slot, models: nat)
    requires
        slotted(slots, models),
        slot.index == models,
        !present::<String, Slot>(slots, name),
    ensures
        slotted(with_entry::<String, Slot>(slots, name, slot), models + 1),
{
    lemma_position::<String, Slot>(slots, name);
    let after = with_entry::<String, Slot>(slots, name, slot);
    let p = position::<String, Slot>(slots, name);
    assert forall|i: int| 0 <= i < after.len()
        implies (#[trigger] after[i]).1.index < models + 1 by {
        if i < p {
            assert(after[i] == slots[i]);
        } else if i > p {
            assert(after[i] == slots[i - 1]);
        }
    }
    assert forall|i: int, j: int| 0 <= i < j < after.len()
        implies (#[trigger] after[i]).1.index != (
    #[trigger] after[j]).1.index by {
        if i != p {
            assert(after[i] == slots[if i < p {
                i
            } else {
                i - 1
            }]);
        }
        if j != p {
            assert(after[j] == slots[if j < p {
                j
            } else {
                j - 1
            }]);
        }
    }
}

proof fn lemma_indices_put(
    slots: Seq<(Seq<char>, Slot)>,
    name: Seq<char>,
    slot: Slot,
    after: Seq<(Seq<char>, Slot)>,
)
    requires
        sorted::<String, Slot>(slots),
        after == with_entry::<String, Slot>(slots, name, slot),
    ensures
        forall|other: Seq<char>| #[trigger]
            index_in(after, other) == if other == name {
                slot.index as int
            } else {
                index_in(slots, other)
            },
{
    assert forall|other: Seq<char>| #[trigger]
        index_in(after, other) == if other == name {
            slot.index as int
        } else {
            index_in(slots, other)
        } by {
        law_put_then_get::<String, Slot>(slots, name, slot, other);
    }
}

/// Deterministic model selection with capability checks and safe fallback.
pub struct ModelRouter {
    slots: OrderedMap<String, Slot>,
    models: Vec<HeldModel>,
    default_model: Option<String>,
    fast_model: Option<String>,
    strong_model: Option<String>,
    fallback_model: Option<String>,
}

impl View for ModelRouter {
    type V = RouterModel;

    closed spec fn view(&self) -> RouterModel {
        RouterModel {
            models: viewed::<String, Slot>(self.slots@),
            default_model: text_option(self.default_model),
            fast_model: text_option(self.fast_model),
            strong_model: text_option(self.strong_model),
            fallback_model: text_option(self.fallback_model),
        }
    }
}

/// Two routers with the same models under the same names.
pub open spec fn same_models(a: ModelRouter, b: ModelRouter) -> bool {
    &&& a.held() == b.held()
    &&& forall|name: Seq<char>| #[trigger] b.place(name) == a.place(name)
}

/// Whether different names stand for different models.
pub open spec fn set_apart(r: ModelRouter) -> bool {
    &&& forall|a: Seq<char>| #[trigger]
        known_model(r@, a) ==> 0 <= r.place(a) < r.held().len()
    &&& forall|a: Seq<char>, b: Seq<char>|
        known_model(r@, a) && known_model(r@, b) && a != b ==> #[trigger] r.place(a)
            != #[trigger] r.place(b)
}

/// Whether a router is as it was, but for the model at `at`.
pub open spec fn asked_one(before: ModelRouter, after: ModelRouter, at: int) -> bool {
    &&& after@ == before@
    &&& forall|other: Seq<char>| #[trigger] after.place(other) == before.place(other)
    &&& 0 <= at < before.held().len()
    &&& after.held().len() == before.held().len()
    &&& forall|i: int|
        0 <= i < before.held().len() && i != at ==> #[trigger] after.held()[i] == before.held()[i]
}

/// The tries of a router to have a request answered: what came of each candidate, and the router
/// before and after each.
pub struct Attempts {
    pub answers: Seq<AnswerModel>,
    pub results: Seq<Result<ModelResponse, ModelError>>,
    pub routers: Seq<ModelRouter>,
}

/// The number of candidates that were tried when the first `n` failed.
pub open spec fn tried(r: RouterModel, request: RouteModel, n: int) -> int {
    if n < candidates(r, request).len() {
        n + 1
    } else {
        candidates(r, request).len() as int
    }
}

/// Whether the tries lead from one router to the other: a candidate that cannot take the request is
/// passed over, and of the others each answers with what its model returned.
pub open spec fn attempted(
    before: ModelRouter,
    request: RouteModel,
    attempts: Attempts,
    n: int,
    after: ModelRouter,
) -> bool {
    let names = candidates(before@, request);
    let count = tried(before@, request, n);
    &&& attempts.answers.len() == count
    &&& attempts.results.len() == count
    &&& attempts.routers.len() == count + 1
    &&& attempts.routers[0] == before
    &&& attempts.routers[count] == after
    &&& forall|i: int|
        #![trigger attempts.results[i]]
        0 <= i < count ==> tried_one(before, request, attempts, i)
}

/// Whether one list of tries goes on where the other ends.
spec fn extended(earlier: Attempts, attempts: Attempts) -> bool {
    &&& forall|i: int|
        0 <= i < earlier.answers.len() ==> #[trigger] attempts.answers[i] == earlier.answers[i]
    &&& forall|i: int|
        0 <= i < earlier.results.len() ==> #[trigger] attempts.results[i] == earlier.results[i]
    &&& forall|i: int|
        0 <= i < earlier.routers.len() ==> #[trigger] attempts.routers[i] == earlier.routers[i]
}

/// Whether the output of the models that were asked went through the stream, one after the other:
/// `streams` stands for the stream before and after each try.
pub open spec fn passed_through(
    r: ModelRouter,
    request: RouteModel,
    attempts: Attempts,
    streams: Seq<EventStream>,
    before: EventStream,
    after: EventStream,
) -> bool {
    &&& streams.len() == attempts.results.len() + 1
    &&& streams[0] == before
    &&& streams.last() == after
    &&& forall|i: int|
        #![trigger streams[i]]
        0 <= i < attempts.results.len() ==> passed_one(r, request, attempts, streams, i)
}

/// Whether a candidate that was passed over left the stream alone, and it is told of one that was
/// asked whether it emitted output.
pub open spec fn passed_one(
    r: ModelRouter,
    request: RouteModel,
    attempts: Attempts,
    streams: Seq<EventStream>,
    i: int,
) -> bool {
    match asked_at(r, request, i) {
        None => streams[i + 1] == streams[i],
        Some(_) => attempts.answers[i].emitted == (streams[i + 1]@.deltas != streams[i]@.deltas),
    }
}

/// Whether a try passes over a candidate, or has its model answer.
pub open spec fn tried_one(
    before: ModelRouter,
    request: RouteModel,
    attempts: Attempts,
    i: int,
) -> bool {
    match asked_at(before, request, i) {
        None => attempts.routers[i + 1] == attempts.routers[i],
        Some(at) => asked_one(attempts.routers[i], attempts.routers[i + 1], at)
            && attempts.answers[i].reply == reply_seen(attempts.results[i]),
    }
}

/// The index of the model of a candidate that can take the request.
pub open spec fn asked_at(r: ModelRouter, request: RouteModel, i: int) -> Option<int> {
    let name = candidates(r@, request)[i];
    if unfit(r@, name, request) is Some {
        None
    } else {
        Some(r.place(name))
    }
}

impl ModelRouter {
    #[verifier::type_invariant]
    closed spec fn inv(self) -> bool {
        slotted(self.slots@, self.models@.len())
    }

    /// The models, in the order in which they were registered.
    pub closed spec fn held(&self) -> Seq<Box<dyn Model>> {
        Seq::new(self.models@.len(), |i: int| self.models@[i].model)
    }

    /// The index of the model with this name.
    pub closed spec fn place(&self, name: Seq<char>) -> int {
        index_in(self.slots@, name)
    }

    pub fn new() -> (r: Self)
        ensures
            r@ == empty_router(),
            r.held() == Seq::<Box<dyn Model>>::empty(),
    {
        let r = ModelRouter {
            slots: OrderedMap::new(),
            models: Vec::new(),
            default_model: None,
            fast_model: None,
            strong_model: None,
            fallback_model: None,
        };
        assert(r@ =~= empty_router());
        r
    }

    pub fn register_model<M: Model + 'static>(
        &mut self,
        name: &str,
        capabilities: ModelCapabilities,
        model: M,
    ) -> (r: Result<(), RouteError>)
        ensures
            final(self)@ == register_in(old(self)@, name@, capabilities).0,
            match r {
                Ok(_) => {
                    &&& register_in(old(self)@, name@, capabilities).1 is None
                    &&& final(self).held().len() == old(self).held().len() + 1
                    &&& final(self).held().drop_last() == old(self).held()
                    &&& ({
                        let added: &(dyn Model + 'static) = &model;
                        &*final(self).held()[old(self).held().len() as int] == added
                    })
                    &&& forall|other: Seq<char>| #[trigger]
                        final(self).place(other) == if other == name@ {
                            old(self).held().len() as int
                        } else {
                            old(self).place(other)
                        }
                },
                Err(error) => register_in(old(self)@, name@, capabilities).1 == Some(error@)
                    && *final(self) == *old(self),
            },
    {
        let name = name.to_owned();
        if is_blank(name.as_str()) {
            return Err(RouteError::MissingModel { model: name });
        }
        proof {
            use_type_invariant(&*self);
            lemma_viewed_lookup::<String, Slot>(self.slots@, name@);
        }
        if self.slots.contains(&name) {
            return Err(RouteError::DuplicateModel { model: name });
        }
        self.slots.in_order();
        let mut taken = ModelRouter::new();
        std::mem::swap(&mut taken, self);
        let ModelRouter {
            slots: mut slots,
            models: mut models,
            default_model,
            fast_model,
            strong_model,
            fallback_model,
        } = taken;
        let index = models.len();
        push_model(&mut models, HeldModel { model: Box::new(model) });
        let slot = Slot { capabilities, index };
        proof {
            lemma_viewed_put::<String, Slot>(slots@, name@, slot);
            lemma_slotted_put(slots@, name@, slot, index as nat);
            lemma_indices_put(
                slots@,
                name@,
                slot,
                with_entry::<String, Slot>(slots@, name@, slot),
            );
        }
        slots.insert(name, slot);
        *self =
        ModelRouter { slots, models, default_model, fast_model, strong_model, fallback_model };
        assert(self.held().drop_last() =~= old(self).held());
        Ok(())
    }

    /// Different names stand for different models.
    pub fn apart(&self)
        ensures
            set_apart(*self),
    {
        proof {
            use_type_invariant(self);
            assert forall|a: Seq<char>| #[trigger] known_model(self@, a) implies 0 <= self.place(a)
                < self.held().len() by {
                lemma_viewed_lookup::<String, Slot>(self.slots@, a);
                lemma_position::<String, Slot>(self.slots@, a);
            }
            assert forall|a: Seq<char>, b: Seq<char>|
                known_model(self@, a) && known_model(self@, b)
                    && a != b implies #[trigger] self.place(a)
                != #[trigger] self.place(b) by {
                lemma_viewed_lookup::<String, Slot>(self.slots@, a);
                lemma_viewed_lookup::<String, Slot>(self.slots@, b);
                lemma_position::<String, Slot>(self.slots@, a);
                lemma_position::<String, Slot>(self.slots@, b);
                let i = position::<String, Slot>(self.slots@, a);
                let j = position::<String, Slot>(self.slots@, b);
                assert(self.slots@[i].0 == a && self.slots@[j].0 == b);
            }
        }
    }

    fn checked_model(&self, model: &str) -> (r: Result<String, RouteError>)
        ensures
            match r {
                Ok(name) => known_model(self@, model@) && name@ == model@,
                Err(error) => !known_model(self@, model@) && error@
                    == (RouteTrouble::MissingModel { model: model@ }),
            },
    {
        let model = model.to_owned();
        proof {
            lemma_viewed_lookup::<String, Slot>(self.slots@, model@);
        }
        if !self.slots.contains(&model) {
            return Err(RouteError::MissingModel { model });
        }
        Ok(model)
    }

    pub fn set_default(&mut self, model: &str) -> (r: Result<(), RouteError>)
        ensures
            same_models(*old(self), *final(self)),
            match r {
                Ok(_) => known_model(old(self)@, model@) && final(self)@ == (RouterModel {
                    default_model: Some(model@),
                    ..old(self)@
                }),
                Err(error) => !known_model(old(self)@, model@) && final(self)@ == old(self)@
                    && error@ == (RouteTrouble::MissingModel { model: model@ }),
            },
    {
        proof {
            use_type_invariant(&*self);
        }
        match self.checked_model(model) {
            Err(error) => Err(error),
            Ok(name) => {
                self.default_model = Some(name);
                Ok(())
            },
        }
    }

    pub fn set_fast(&mut self, model: &str) -> (r: Result<(), RouteError>)
        ensures
            same_models(*old(self), *final(self)),
            match r {
                Ok(_) => known_model(old(self)@, model@) && final(self)@ == (RouterModel {
                    fast_model: Some(model@),
                    ..old(self)@
                }),
                Err(error) => !known_model(old(self)@, model@) && final(self)@ == old(self)@
                    && error@ == (RouteTrouble::MissingModel { model: model@ }),
            },
    {
        proof {
            use_type_invariant(&*self);
        }
        match self.checked_model(model) {
            Err(error) => Err(error),
            Ok(name) => {
                self.fast_model = Some(name);
                Ok(())
            },
        }
    }

    pub fn set_strong(&mut self, model: &str) -> (r: Result<(), RouteError>)
        ensures
            same_models(*old(self), *final(self)),
            match r {
                Ok(_) => known_model(old(self)@, model@) && final(self)@ == (RouterModel {
                    strong_model: Some(model@),
                    ..old(self)@
                }),
                Err(error) => !known_model(old(self)@, model@) && final(self)@ == old(self)@
                    && error@ == (RouteTrouble::MissingModel { model: model@ }),
            },
    {
        proof {
            use_type_invariant(&*self);
        }
        match self.checked_model(model) {
            Err(error) => Err(error),
            Ok(name) => {
                self.strong_model = Some(name);
                Ok(())
            },
        }
    }

    pub fn set_fallback(&mut self, model: &str) -> (r: Result<(), RouteError>)
        ensures
            same_models(*old(self), *final(self)),
            match r {
                Ok(_) => known_model(old(self)@, model@) && final(self)@ == (RouterModel {
                    fallback_model: Some(model@),
                    ..old(self)@
                }),
                Err(error) => !known_model(old(self)@, model@) && final(self)@ == old(self)@
                    && error@ == (RouteTrouble::MissingModel { model: model@ }),
            },
    {
        proof {
            use_type_invariant(&*self);
        }
        match self.checked_model(model) {
            Err(error) => Err(error),
            Ok(name) => {
                self.fallback_model = Some(name);
                Ok(())
            },
        }
    }

    pub fn model_names(&self) -> (r: Vec<String>)
        ensures
            texts(r@) == keys_of::<String, ModelCapabilities>(self@.models),
    {
        let ghost all = keys_of::<String, ModelCapabilities>(self@.models);
        let n: usize = self.slots.len();
        let mut r: Vec<String> = Vec::new();
        let mut i: usize = 0;
        while i < n
            invariant
                i <= n,
                n == self.slots@.len(),
                all == keys_of::<String, ModelCapabilities>(self@.models),
                self@.models == viewed::<String, Slot>(self.slots@),
                r@.len() == i,
                forall|k: int| 0 <= k < i ==> (#[trigger] r@[k])@ == all[k],
            decreases n - i,
        {
            r.push(self.slots.key(i).clone());
            i += 1;
        }
        assert(texts(r@) =~= all);
        r
    }

    fn preferred_name(&self, request: &RouteRequest) -> (r: Option<String>)
        ensures
            text_option(r) == preferred(self@, request@),
    {
        match &request.requested_model {
            Some(name) => Some(name.clone()),
            None => match request.mode {
                ModelMode::Default => copy_text_option(&self.default_model),
                ModelMode::Fast => match &self.fast_model {
                    Some(name) => Some(name.clone()),
                    None => copy_text_option(&self.default_model),
                },
                ModelMode::Strong => match &self.strong_model {
                    Some(name) => Some(name.clone()),
                    None => copy_text_option(&self.default_model),
                },
            },
        }
    }

    fn candidate_names(&self, request: &RouteRequest) -> (r: Vec<String>)
        ensures
            texts(r@) == candidates(self@, request@),
    {
        let mut names: Vec<String> = Vec::new();
        if let Some(model) = self.preferred_name(request) {
            names.push(model);
        }
        if let Some(fallback) = &self.fallback_model {
            if names.len() == 0 || !same_text(names[0].as_str(), fallback.as_str()) {
                names.push(fallback.clone());
            }
        }
        assert(texts(names@) =~= candidates(self@, request@));
        names
    }

    /// The index of a model, when it can take a request.
    fn valid_entry(&self, model: &String, request: &RouteRequest) -> (r: Result<usize, RouteError>)
        ensures
            match r {
                Ok(i) => {
                    &&& unfit(self@, model@, request@) is None
                    &&& i < self.slots@.len()
                    &&& self.slots@[i as int].1.index == self.place(model@)
                    &&& lookup::<String, ModelCapabilities>(self@.models, model@) == Some(
                        self.slots@[i as int].1@,
                    )
                },
                Err(error) => unfit(self@, model@, request@) == Some(error@),
            },
    {
        proof {
            lemma_viewed_lookup::<String, Slot>(self.slots@, model@);
        }
        match self.slots.index(model) {
            None => Err(RouteError::MissingModel { model: model.clone() }),
            Some(i) => {
                let capabilities = self.slots.value(i).capabilities;
                if request.requires_tools && !capabilities.tools {
                    return Err(
                        RouteError::MissingCapability {
                            model: model.clone(),
                            capability: "tool calls",
                        },
                    );
                }
                if request.requires_streaming && !capabilities.streaming {
                    return Err(
                        RouteError::MissingCapability {
                            model: model.clone(),
                            capability: "streaming",
                        },
                    );
                }
                Ok(i)
            },
        }
    }

    fn last_route_error(&self, request: &RouteRequest) -> (r: RouteError)
        ensures
            r@ == no_route(self@, request@),
    {
        let names = self.candidate_names(request);
        assert(texts(names@).len() == names@.len());
        if names.len() > 0 {
            assert(texts(names@)[0] == names@[0]@);
            if let Err(error) = self.valid_entry(&names[0], request) {
                return error;
            }
        }
        RouteError::NoRoute { mode: request.mode }
    }

    pub fn select(&self, request: &RouteRequest) -> (r: Result<ModelSelection, RouteError>)
        ensures
            match r {
                Ok(selection) => select_in(self@, request@) == Ok::<
                    (Seq<char>, ModelCapabilities),
                    RouteTrouble,
                >((selection.model@, selection.capabilities)),
                Err(error) => select_in(self@, request@) == Err::<
                    (Seq<char>, ModelCapabilities),
                    RouteTrouble,
                >(error@),
            },
    {
        if self.slots.len() == 0 {
            return Err(RouteError::NoModels);
        }
        let names = self.candidate_names(request);
        let ghost all = candidates(self@, request@);
        let mut i: usize = 0;
        while i < names.len()
            invariant
                i <= names@.len(),
                all == candidates(self@, request@),
                all == texts(names@),
                self@.models.len() > 0,
                first_fit(self@, request@, 0) == first_fit(self@, request@, i as int),
            decreases names@.len() - i,
        {
            assert(all[i as int] == names@[i as int]@);
            if let Ok(index) = self.valid_entry(&names[i], request) {
                return Ok(
                    ModelSelection {
                        model: names[i].clone(),
                        capabilities: self.slots.value(index).capabilities,
                    },
                );
            }
            i += 1;
        }
        Err(self.last_route_error(request))
    }

    /// Asks the model at `index` of the entries.
    fn ask(&mut self, index: usize, request: &ModelRequest) -> (r: Result<
        ModelResponse,
        ModelError,
    >)
        requires
            index < old(self).slots@.len(),
        ensures
            ({
                let at = old(self).slots@[index as int].1.index as int;
                &&& asked_one(*old(self), *final(self), at)
                &&& exists|m: &mut (dyn Model + 'static)| #[trigger]
                    replies(m, request, r) && &*m == &*old(self).held()[at] && &*final(m)
                        == &*final(self).held()[at]
            }),
    {
        proof {
            use_type_invariant(&*self);
        }
        let at = self.slots.value(index).index;
        let mut taken = ModelRouter::new();
        std::mem::swap(&mut taken, self);
        let ModelRouter {
            slots,
            models: mut models,
            default_model,
            fast_model,
            strong_model,
            fallback_model,
        } = taken;
        let reply = consult(&mut *models[at].model, request);
        *self =
        ModelRouter { slots, models, default_model, fast_model, strong_model, fallback_model };
        assert(self.held()[at as int] == self.models@[at as int].model);
        assert(old(self).held()[at as int] == old(self).models@[at as int].model);
        reply
    }

    /// Asks the model at `index` of the entries for its output as it comes; whether there was
    /// some is told beside the reply.
    fn ask_stream(
        &mut self,
        index: usize,
        request: &ModelRequest,
        emit: &mut EventStream,
    ) -> (r: (Result<ModelResponse, ModelError>, bool))
        requires
            index < old(self).slots@.len(),
        ensures
            r.1 == (final(emit)@.deltas != old(emit)@.deltas),
            ({
                let at = old(self).slots@[index as int].1.index as int;
                &&& asked_one(*old(self), *final(self), at)
                &&& exists|m: &mut (dyn Model + 'static), e: &mut EventStream| #[trigger]
                    replies_streaming(m, request, e, r.0) && &*m == &*old(self).held()[at]
                        && &*final(m) == &*final(self).held()[at] && *e == *old(emit) && *final(e)
                        == *final(emit)
            }),
    {
        proof {
            use_type_invariant(&*self);
        }
        let at = self.slots.value(index).index;
        let mut taken = ModelRouter::new();
        std::mem::swap(&mut taken, self);
        let ModelRouter {
            slots,
            models: mut models,
            default_model,
            fast_model,
            strong_model,
            fallback_model,
        } = taken;
        let before = emit.deltas();
        let reply = consult_streaming(&mut *models[at].model, request, emit);
        let emitted = emit.deltas() != before;
        *self =
        ModelRouter { slots, models, default_model, fast_model, strong_model, fallback_model };
        assert(self.held()[at as int] == self.models@[at as int].model);
        assert(old(self).held()[at as int] == old(self).models@[at as int].model);
        let r = (reply, emitted);
        assert(r.0 == reply);
        r
    }
}

/// The message of a model that failed.
fn failed_route(model: &str, error: &ModelError) -> (r: String)
    ensures
        r@ == model@ + ": "@ + error@,
{
    let mut r = model.to_owned();
    r.push_str(": ");
    r.push_str(error.message.as_str());
    r
}

impl Model for ModelRouter {
    fn respond(&mut self, request: &ModelRequest) -> (r: Result<ModelResponse, ModelError>)
        ensures
            final(self)@ == old(self)@,
            set_apart(*old(self)),
            exists|attempts: Attempts, n: int|
                {
                    &&& #[trigger] routed(
                        old(self)@,
                        request.route@,
                        attempts.answers,
                        n,
                        reply_seen(r),
                    )
                    &&& attempted(*old(self), request.route@, attempts, n, *final(self))
                    &&& forall|i: int|
                        #![trigger attempts.results[i]]
                        #![trigger asked_at(*old(self), request.route@, i)]
                        0 <= i < attempts.results.len()
                            ==> (asked_at(*old(self), request.route@, i) matches Some(at)
                            ==> exists|m: &mut (dyn Model + 'static)| #[trigger]
                            replies(m, request, attempts.results[i])
                                && &*m == &*attempts.routers[i].held()[at] && &*final(m)
                                == &*attempts.routers[i + 1].held()[at])
                },
    {
        let names = self.candidate_names(&request.route);
        let ghost first = *self;
        let ghost route = request.route@;
        let ghost all = candidates(first@, route);
        let ghost mut attempts = Attempts {
            answers: Seq::empty(),
            results: Seq::empty(),
            routers: seq![*self],
        };
        self.apart();
        assert(texts(names@).len() == names@.len());
        if names.len() == 0 {
            let r = Err(
                ModelError { message: self.last_route_error(&request.route).to_text() },
            );
            assert(routed(first@, route, attempts.answers, 0, reply_seen(r)));
            assert(attempted(first, route, attempts, 0, *self));
            return r;
        }
        let mut last = String::new();
        let mut i: usize = 0;
        while i < names.len()
            invariant
                i <= names@.len(),
                names@.len() > 0,
                self@ == first@,
                first == *old(self),
                set_apart(first),
                route == request.route@,
                all == candidates(first@, route),
                all == texts(names@),
                attempts.answers.len() == i,
                attempts.results.len() == i,
                attempts.routers.len() == i + 1,
                attempts.routers[0] == first,
                attempts.routers[i as int] == *self,
                forall|name: Seq<char>| #[trigger] self.place(name) == first.place(name),
                routes_failed(first@, route, attempts.answers, i as int),
                i > 0 ==> last@ == route_failure(first@, route, attempts.answers, i as int),
                forall|k: int|
                    #![trigger attempts.results[k]]
                    0 <= k < i ==> tried_one(first, route, attempts, k),
                forall|i: int|
                        #![trigger attempts.results[i]]
                        #![trigger asked_at(first, request.route@, i)]
                        0 <= i < attempts.results.len()
                            ==> (asked_at(first, request.route@, i) matches Some(at)
                            ==> exists|m: &mut (dyn Model + 'static)| #[trigger]
                            replies(m, request, attempts.results[i])
                                && &*m == &*attempts.routers[i].held()[at] && &*final(m)
                                == &*attempts.routers[i + 1].held()[at]),
            decreases names@.len() - i,
        {
            let name = names[i].clone();
            assert(all[i as int] == name@);
            let ghost earlier = attempts;
            match self.valid_entry(&name, &request.route) {
                Err(error) => {
                    last = error.to_text();
                    proof {
                        attempts =
                        Attempts {
                            answers: earlier.answers.push(
                                AnswerModel { reply: Err(Seq::empty()), emitted: false },
                            ),
                            results: earlier.results.push(arbitrary()),
                            routers: earlier.routers.push(*self),
                        };
                    }
                    assert(extended(earlier, attempts));
                    assert forall|k: int|
                        #![trigger attempts.results[k]]
                        #![trigger asked_at(first, request.route@, k)]
                        0 <= k < attempts.results.len() implies (asked_at(
                        first,
                        request.route@,
                        k,
                    ) matches Some(at) ==> exists|m: &mut (dyn Model + 'static)| #[trigger]
                        replies(m, request, attempts.results[k])
                            && &*m == &*attempts.routers[k].held()[at] && &*final(m)
                            == &*attempts.routers[k + 1].held()[at]) by {
                        assert(attempts.routers[k] == earlier.routers[k]);
                        if k < i {
                            assert(attempts.results[k] == earlier.results[k]);
                            assert(attempts.routers[k + 1] == earlier.routers[k + 1]);
                        }
                    }
                },
                Ok(index) => {
                    let reply = self.ask(index, request);
                    proof {
                        attempts =
                        Attempts {
                            answers: earlier.answers.push(
                                AnswerModel { reply: reply_seen(reply), emitted: false },
                            ),
                            results: earlier.results.push(reply),
                            routers: earlier.routers.push(*self),
                        };
                    }
                    assert(extended(earlier, attempts));
                    assert forall|k: int|
                        #![trigger attempts.results[k]]
                        #![trigger asked_at(first, request.route@, k)]
                        0 <= k < attempts.results.len() implies (asked_at(
                        first,
                        request.route@,
                        k,
                    ) matches Some(at) ==> exists|m: &mut (dyn Model + 'static)| #[trigger]
                        replies(m, request, attempts.results[k])
                            && &*m == &*attempts.routers[k].held()[at] && &*final(m)
                            == &*attempts.routers[k + 1].held()[at]) by {
                        assert(attempts.routers[k] == earlier.routers[k]);
                        if k < i {
                            assert(attempts.results[k] == earlier.results[k]);
                            assert(attempts.routers[k + 1] == earlier.routers[k + 1]);
                        } else {
                            assert(attempts.results[k] == reply);
                            assert(attempts.routers[k + 1] == *self);
                            assert(all[k] == name@);
                        }
                    }
                    assert(tried_one(first, route, attempts, i as int));
                    match reply {
                        Ok(response) => {
                            let r = Ok(response);
                            assert(routed(first@, route, attempts.answers, i as int, reply_seen(r)));
                            assert(attempted(first, route, attempts, i as int, *self));
                            return r;
                        },
                        Err(error) => {
                            last = failed_route(name.as_str(), &error);
                        },
                    }
                },
            }
            i += 1;
        }
        let r = Err(ModelError { message: labelled("all model routes failed: ", last.as_str()) });
        assert(routed(first@, route, attempts.answers, i as int, reply_seen(r)));
        assert(attempted(first, route, attempts, i as int, *self));
        r
    }

    #[verifier::rlimit(40)]
    fn respond_stream(&mut self, request: &ModelRequest, emit: &mut EventStream) -> (r: Result<
        ModelResponse,
        ModelError,
    >)
        ensures
            final(self)@ == old(self)@,
            set_apart(*old(self)),
            exists|attempts: Attempts, n: int, streams: Seq<EventStream>|
                {
                    &&& #[trigger] routed(
                        old(self)@,
                        request.route@,
                        attempts.answers,
                        n,
                        reply_seen(r),
                    )
                    &&& attempted(*old(self), request.route@, attempts, n, *final(self))
                    &&& #[trigger] passed_through(
                        *old(self),
                        request.route@,
                        attempts,
                        streams,
                        *old(emit),
                        *final(emit),
                    )
                    &&& forall|i: int|
                        #![trigger attempts.results[i]]
                        #![trigger asked_at(*old(self), request.route@, i)]
                        0 <= i < attempts.results.len()
                            ==> (asked_at(*old(self), request.route@, i) matches Some(at)
                            ==> exists|m: &mut (dyn Model + 'static), e: &mut EventStream| #[trigger]
                            replies_streaming(m, request, e, attempts.results[i])
                                && &*m == &*attempts.routers[i].held()[at] && &*final(m)
                                == &*attempts.routers[i + 1].held()[at]
                                && *e == streams[i] && *final(e) == streams[i + 1])
                },
    {
        let names = self.candidate_names(&request.route);
        let ghost first = *self;
        let ghost route = request.route@;
        let ghost all = candidates(first@, route);
        let ghost mut attempts = Attempts {
            answers: Seq::empty(),
            results: Seq::empty(),
            routers: seq![*self],
        };
        let ghost mut streams: Seq<EventStream> = seq![*emit];
        self.apart();
        assert(texts(names@).len() == names@.len());
        if names.len() == 0 {
            let r = Err(
                ModelError { message: self.last_route_error(&request.route).to_text() },
            );
            assert(routed(first@, route, attempts.answers, 0, reply_seen(r)));
            assert(attempted(first, route, attempts, 0, *self));
            assert(passed_through(first, route, attempts, streams, *old(emit), *emit));
            return r;
        }
        let mut last = String::new();
        let mut i: usize = 0;
        while i < names.len()
            invariant
                i <= names@.len(),
                names@.len() > 0,
                self@ == first@,
                first == *old(self),
                set_apart(first),
                route == request.route@,
                all == candidates(first@, route),
                all == texts(names@),
                attempts.answers.len() == i,
                attempts.results.len() == i,
                attempts.routers.len() == i + 1,
                attempts.routers[0] == first,
                attempts.routers[i as int] == *self,
                forall|name: Seq<char>| #[trigger] self.place(name) == first.place(name),
                routes_failed(first@, route, attempts.answers, i as int),
                i > 0 ==> last@ == route_failure(first@, route, attempts.answers, i as int),
                forall|k: int|
                    #![trigger attempts.results[k]]
                    0 <= k < i ==> tried_one(first, route, attempts, k),
                streams.len() == i + 1,
                streams[0] == *old(emit),
                streams[i as int] == *emit,
                forall|k: int|
                    #![trigger streams[k]]
                    0 <= k < i ==> passed_one(first, route, attempts, streams, k),
                forall|i: int|
                        #![trigger attempts.results[i]]
                        #![trigger asked_at(first, request.route@, i)]
                        0 <= i < attempts.results.len()
                            ==> (asked_at(first, request.route@, i) matches Some(at)
                            ==> exists|m: &mut (dyn Model + 'static), e: &mut EventStream| #[trigger]
                            replies_streaming(m, request, e, attempts.results[i])
                                && &*m == &*attempts.routers[i].held()[at] && &*final(m)
                                == &*attempts.routers[i + 1].held()[at]
                                && *e == streams[i] && *final(e) == streams[i + 1]),
            decreases names@.len() - i,
        {
            let name = names[i].clone();
            assert(all[i as int] == name@);
            let ghost earlier = attempts;
            let ghost before = streams;
            match self.valid_entry(&name, &request.route) {
                Err(error) => {
                    last = error.to_text();
                    proof {
                        attempts =
                        Attempts {
                            answers: earlier.answers.push(
                                AnswerModel { reply: Err(Seq::empty()), emitted: false },
                            ),
                            results: earlier.results.push(arbitrary()),
                            routers: earlier.routers.push(*self),
                        };
                        streams = before.push(*emit);
                    }
                    assert(extended(earlier, attempts));
                    assert forall|k: int|
                        #![trigger attempts.results[k]]
                        #![trigger asked_at(first, request.route@, k)]
                        0 <= k < attempts.results.len() implies (asked_at(
                        first,
                        request.route@,
                        k,
                    ) matches Some(at) ==> exists|m: &mut (dyn Model + 'static), e: &mut EventStream| #[trigger]
                        replies_streaming(m, request, e, attempts.results[k])
                            && &*m == &*attempts.routers[k].held()[at] && &*final(m)
                            == &*attempts.routers[k + 1].held()[at] && *e == streams[k]
                                && *final(e) == streams[k + 1]) by {
                        assert(attempts.routers[k] == earlier.routers[k]);
                        if k < i {
                            assert(attempts.results[k] == earlier.results[k]);
                            assert(attempts.routers[k + 1] == earlier.routers[k + 1]);
                            assert(streams[k] == before[k] && streams[k + 1] == before[k + 1]);
                        }
                    }
                },
                Ok(index) => {
                    let (reply, emitted) = self.ask_stream(index, request, emit);
                    proof {
                        attempts =
                        Attempts {
                            answers: earlier.answers.push(
                                AnswerModel { reply: reply_seen(reply), emitted },
                            ),
                            results: earlier.results.push(reply),
                            routers: earlier.routers.push(*self),
                        };
                        streams = before.push(*emit);
                    }
                    assert(extended(earlier, attempts));
                    assert forall|k: int|
                        #![trigger attempts.results[k]]
                        #![trigger asked_at(first, request.route@, k)]
                        0 <= k < attempts.results.len() implies (asked_at(
                        first,
                        request.route@,
                        k,
                    ) matches Some(at) ==> exists|m: &mut (dyn Model + 'static), e: &mut EventStream| #[trigger]
                        replies_streaming(m, request, e, attempts.results[k])
                            && &*m == &*attempts.routers[k].held()[at] && &*final(m)
                            == &*attempts.routers[k + 1].held()[at] && *e == streams[k]
                                && *final(e) == streams[k + 1]) by {
                        assert(attempts.routers[k] == earlier.routers[k]);
                        if k < i {
                            assert(attempts.results[k] == earlier.results[k]);
                            assert(attempts.routers[k + 1] == earlier.routers[k + 1]);
                            assert(streams[k] == before[k] && streams[k + 1] == before[k + 1]);
                        } else {
                            assert(attempts.results[k] == reply);
                            assert(attempts.routers[k + 1] == *self);
                            assert(all[k] == name@);
                            assert(streams[k] == before[k] && streams[k + 1] == *emit);
                        }
                    }
                    assert(tried_one(first, route, attempts, i as int));
                    match reply {
                        Ok(response) => {
                            let r = Ok(response);
                            assert(routed(first@, route, attempts.answers, i as int, reply_seen(r)));
                            assert(attempted(first, route, attempts, i as int, *self));
                            assert(passed_through(first, route, attempts, streams, *old(emit), *emit));
                            return r;
                        },
                        Err(error) => {
                            if emitted {
                                let r = Err(error);
                                assert(routed(
                                    first@,
                                    route,
                                    attempts.answers,
                                    i as int,
                                    reply_seen(r),
                                ));
                                assert(attempted(first, route, attempts, i as int, *self));
                                assert(passed_through(first, route, attempts, streams, *old(emit), *emit));
                                return r;
                            }
                            last = failed_route(name.as_str(), &error);
                        },
                    }
                },
            }
            i += 1;
        }
        let r = Err(ModelError { message: labelled("all model routes failed: ", last.as_str()) });
        assert(routed(first@, route, attempts.answers, i as int, reply_seen(r)));
        assert(attempted(first, route, attempts, i as int, *self));
        assert(passed_through(first, route, attempts, streams, *old(emit), *emit));
        r
    }
}

impl Default for ModelRouter {
    fn default() -> (r: Self)
        ensures
            r@ == empty_router(),
    {
        ModelRouter::new()
    }
}

// ---------------------------------------------------------------------------
// A scripted model
// ---------------------------------------------------------------------------

/// A deterministic model for tests, demos, and offline development.
#[derive(Debug)]
pub struct ScriptedModel {
    responses: VecDeque<ModelResponse>,
}

impl View for ScriptedModel {
    type V = Seq<ModelResponse>;

    closed spec fn view(&self) -> Seq<ModelResponse> {
        self.responses@
    }
}

impl ScriptedModel {
    pub fn new(responses: Vec<ModelResponse>) -> (r: Self)
        ensures
            r@ == responses@,
    {
        let mut responses = responses;
        let ghost all = responses@;
        let mut queue: VecDeque<ModelResponse> = VecDeque::new();
        let n: usize = responses.len();
        let mut i: usize = 0;
        while i < n
            invariant
                i <= n,
                n == all.len(),
                responses@ == all.take(n - i),
                queue@ == all.skip(n - i),
            decreases n - i,
        {
            let last = responses.pop();
            match last {
                Some(response) => {
                    let ghost before = queue@;
                    queue.push_front(response);
                    assert(response == all[n - i - 1]);
                    assert(queue@ =~= all.skip(n - i - 1));
                },
                None => {},
            }
            assert(responses@ =~= all.take(n - i - 1));
            i += 1;
        }
        assert(queue@ =~= all);
        ScriptedModel { responses: queue }
    }
}

impl Default for ScriptedModel {
    fn default() -> (r: Self)
        ensures
            r@ == Seq::<ModelResponse>::empty(),
    {
        ScriptedModel { responses: VecDeque::new() }
    }
}

impl Model for ScriptedModel {
    fn respond(&mut self, _request: &ModelRequest) -> (r: Result<ModelResponse, ModelError>)
        ensures
            old(self)@.len() > 0 ==> r == Ok::<ModelResponse, ModelError>(old(self)@[0])
                && final(self)@ == old(self)@.skip(1),
            old(self)@.len() == 0 ==> final(self)@ == old(self)@ && (r matches Err(error) && error@
                == "scripted model has no response left"@),
    {
        match self.responses.pop_front() {
            Some(response) => {
                assert(self@ =~= old(self)@.skip(1));
                Ok(response)
            },
            None => Err(ModelError::new("scripted model has no response left")),
        }
    }
}

/// Whether a model is registered and can do what a request asks for.
pub open spec fn serves(r: RouterModel, model: Seq<char>, request: RouteModel) -> bool {
    lookup::<String, ModelCapabilities>(r.models, model) matches Some(c) && (request.requires_tools
        ==> c.tools) && (request.requires_streaming ==> c.streaming)
}

/// The model that a request asks for by name comes first, else the one of its mode, else the default
/// one; the fallback is chosen where that model does not serve.
pub proof fn law_requests_choose_their_model(r: RouterModel, request: RouteModel, model: Seq<char>)
    requires
        ({
            ||| request.requested_model == Some(model)
            ||| request.requested_model is None && request.mode == ModelMode::Fast && r.fast_model
                == Some(model)
            ||| request.requested_model is None && request.mode == ModelMode::Strong
                && r.strong_model == Some(model)
            ||| request.requested_model is None && request.mode == ModelMode::Default
                && r.default_model == Some(model)
            ||| request.requested_model is None && request.mode == ModelMode::Fast && r.fast_model
                is None && r.default_model == Some(model)
            ||| request.requested_model is None && request.mode == ModelMode::Strong
                && r.strong_model is None && r.default_model == Some(model)
        }),
    ensures
        serves(r, model, request) ==> (select_in(r, request) matches Ok(chosen) && chosen.0
            == model),
        !serves(r, model, request) ==> match r.fallback_model {
            Some(fallback) => if serves(r, fallback, request) {
                select_in(r, request) matches Ok(chosen) && chosen.0 == fallback
            } else {
                select_in(r, request) is Err
            },
            None => select_in(r, request) is Err,
        },
        candidates(r, request)[0] == model,
        r.fallback_model matches Some(fallback) ==> candidates(r, request).last() == fallback,
        1 <= candidates(r, request).len() <= 2,
{
    reveal_with_fuel(first_fit, 3);
}

/// A registered model is known under its name with what it can do, the others as before; a blank or
/// a taken name is refused.
pub proof fn law_models_are_registered_once(
    r: RouterModel,
    name: Seq<char>,
    capabilities: ModelCapabilities,
    other: Seq<char>,
)
    requires
        sorted::<String, ModelCapabilities>(r.models),
    ensures
        register_in(r, name, capabilities).1 is None <==> !all_white(name) && lookup::<
            String,
            ModelCapabilities,
        >(r.models, name) is None,
        register_in(r, name, capabilities).1 is None ==> lookup::<String, ModelCapabilities>(
            register_in(r, name, capabilities).0.models,
            other,
        ) == (if other == name {
            Some(capabilities)
        } else {
            lookup::<String, ModelCapabilities>(r.models, other)
        }),
        register_in(r, name, capabilities).1 is Some ==> register_in(r, name, capabilities).0 == r,
{
    law_blank_texts_are_white(name, ' ');
    law_put_then_get::<String, ModelCapabilities>(r.models, name, capabilities, other);
}

/// A router passes on the first reply, and tries the next model only where one failed in silence.
pub proof fn law_the_first_reply_is_passed_on(
    r: RouterModel,
    request: RouteModel,
    answers: Seq<AnswerModel>,
    n: int,
    result: Result<ResponseModel, Seq<char>>,
)
    requires
        candidates(r, request).len() > 0,
        serves(r, candidates(r, request)[0], request),
        routed(r, request, answers, n, result),
    ensures
        answers[0].reply is Ok ==> result == answers[0].reply && n == 0,
        answers[0].reply is Err && !answers[0].emitted ==> n > 0,
        answers[0].reply is Err && !answers[0].emitted && candidates(r, request).len() == 1
            ==> result is Err,
{
    if n > 0 {
        let first = answers[0];
        assert(0 <= 0 < n);
    }
}

/// Text that a model tells is counted and shown; a call and an error show nothing.
pub proof fn law_told_text_is_shown(s: StreamModel, content: Seq<char>, call: CallModel, e: Seq<char>)
    ensures
        content.len() > 0 && s.keeps ==> with_reply(s, Ok(ResponseModel::Text(content))).events
            == s.events.push(EventModel::AssistantDelta { content }),
        content.len() > 0 && s.deltas < 100 ==> with_reply(
            s,
            Ok(ResponseModel::Text(content)),
        ).deltas == s.deltas + 1,
        content.len() == 0 ==> with_reply(s, Ok(ResponseModel::Text(content))) == s,
        with_reply(s, Ok(ResponseModel::ToolCall(call))) == s,
        with_reply(s, Err(e)) == s,
{
}

} // verus!
