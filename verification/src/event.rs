//! Session events: what users, models and tools produce during a turn.
use vstd::prelude::*;
use crate::content::{BlockModel, ContentBlock, blocks_model, clone_blocks};
use crate::json::{JsonModel, JsonValue, json_model};

verus! {

broadcast use vstd::string::group_string_axioms;

/// Token counts reported for one model response.
#[derive(Clone, Copy, Debug, PartialEq, Eq, Structural)]
pub struct TokenUsage {
    pub prompt_token_count: i32,
    pub candidates_token_count: i32,
    pub total_token_count: i32,
    pub cache_read_input_token_count: Option<i32>,
    pub cache_creation_input_token_count: Option<i32>,
    pub thinking_token_count: Option<i32>,
}

/// Why a turn stopped.
#[derive(Clone, Debug)]
pub enum StopReason {
    EndTurn,
    MaxTokens,
    MaxTurnRequests,
    Refusal,
    Cancelled,
    Error(String),
}

/// The model of a stop reason.
pub enum StopReasonModel {
    EndTurn,
    MaxTokens,
    MaxTurnRequests,
    Refusal,
    Cancelled,
    Error(Seq<char>),
}

pub open spec fn stop_reason_model(r: StopReason) -> StopReasonModel {
    match r {
        StopReason::EndTurn => StopReasonModel::EndTurn,
        StopReason::MaxTokens => StopReasonModel::MaxTokens,
        StopReason::MaxTurnRequests => StopReasonModel::MaxTurnRequests,
        StopReason::Refusal => StopReasonModel::Refusal,
        StopReason::Cancelled => StopReasonModel::Cancelled,
        StopReason::Error(e) => StopReasonModel::Error(e@),
    }
}

impl View for StopReason {
    type V = StopReasonModel;

    open spec fn view(&self) -> StopReasonModel {
        stop_reason_model(*self)
    }
}

impl StopReason {
    /// A copy with the same model.
    pub fn deep_clone(&self) -> (r: StopReason)
        ensures
            r@ == self@,
    {
        match self {
            StopReason::EndTurn => StopReason::EndTurn,
            StopReason::MaxTokens => StopReason::MaxTokens,
            StopReason::MaxTurnRequests => StopReason::MaxTurnRequests,
            StopReason::Refusal => StopReason::Refusal,
            StopReason::Cancelled => StopReason::Cancelled,
            StopReason::Error(e) => StopReason::Error(e.clone()),
        }
    }
}

impl PartialEq for StopReason {
    fn eq(&self, other: &StopReason) -> (r: bool) {
        match (self, other) {
            (StopReason::EndTurn, StopReason::EndTurn) => true,
            (StopReason::MaxTokens, StopReason::MaxTokens) => true,
            (StopReason::MaxTurnRequests, StopReason::MaxTurnRequests) => true,
            (StopReason::Refusal, StopReason::Refusal) => true,
            (StopReason::Cancelled, StopReason::Cancelled) => true,
            (StopReason::Error(a), StopReason::Error(b)) => a.eq(b),
            _ => false,
        }
    }
}

impl vstd::std_specs::cmp::PartialEqSpecImpl for StopReason {
    open spec fn obeys_eq_spec() -> bool {
        true
    }

    open spec fn eq_spec(&self, other: &StopReason) -> bool {
        self@ == other@
    }
}

/// One event of a session.
#[derive(Clone, Debug)]
#[allow(inconsistent_fields)]
pub enum Event {
    UserMessage { id: String, content: Vec<ContentBlock> },
    ModelMessageDelta { id: String, text: String },
    ModelMessage { id: String, content: Vec<ContentBlock> },
    ModelThoughtDelta { id: String, text: String },
    ModelThought { id: String, text: String },
    FunctionCall { id: String, call_id: String, name: String, args: JsonValue },
    FunctionOutputDelta { id: String, call_id: String, name: String, text: String },
    FunctionResult {
        id: String,
        call_id: String,
        name: String,
        content: Option<Vec<ContentBlock>>,
        code: Option<i32>,
    },
    TurnStop { id: String, stop_reason: StopReason, token_usage: Option<TokenUsage> },
    StateUpdate { id: String, name: String, data: JsonValue },
}

/// The model of an event.
#[allow(inconsistent_fields)]
pub enum EventModel {
    UserMessage { id: Seq<char>, content: Seq<BlockModel> },
    ModelMessageDelta { id: Seq<char>, text: Seq<char> },
    ModelMessage { id: Seq<char>, content: Seq<BlockModel> },
    ModelThoughtDelta { id: Seq<char>, text: Seq<char> },
    ModelThought { id: Seq<char>, text: Seq<char> },
    FunctionCall { id: Seq<char>, call_id: Seq<char>, name: Seq<char>, args: JsonModel },
    FunctionOutputDelta { id: Seq<char>, call_id: Seq<char>, name: Seq<char>, text: Seq<char> },
    FunctionResult {
        id: Seq<char>,
        call_id: Seq<char>,
        name: Seq<char>,
        content: Option<Seq<BlockModel>>,
        code: Option<i32>,
    },
    TurnStop { id: Seq<char>, stop_reason: StopReasonModel, token_usage: Option<TokenUsage> },
    StateUpdate { id: Seq<char>, name: Seq<char>, data: JsonModel },
}

pub open spec fn opt_blocks_model(c: Option<Vec<ContentBlock>>) -> Option<Seq<BlockModel>> {
    match c {
        Some(v) => Some(blocks_model(v@)),
        None => None,
    }
}

pub open spec fn event_model(e: Event) -> EventModel {
    match e {
        Event::UserMessage { id, content } => EventModel::UserMessage {
            id: id@,
            content: blocks_model(content@),
        },
        Event::ModelMessageDelta { id, text } => EventModel::ModelMessageDelta {
            id: id@,
            text: text@,
        },
        Event::ModelMessage { id, content } => EventModel::ModelMessage {
            id: id@,
            content: blocks_model(content@),
        },
        Event::ModelThoughtDelta { id, text } => EventModel::ModelThoughtDelta {
            id: id@,
            text: text@,
        },
        Event::ModelThought { id, text } => EventModel::ModelThought { id: id@, text: text@ },
        Event::FunctionCall { id, call_id, name, args } => EventModel::FunctionCall {
            id: id@,
            call_id: call_id@,
            name: name@,
            args: json_model(args),
        },
        Event::FunctionOutputDelta { id, call_id, name, text } =>
            EventModel::FunctionOutputDelta {
            id: id@,
            call_id: call_id@,
            name: name@,
            text: text@,
        },
        Event::FunctionResult { id, call_id, name, content, code } => EventModel::FunctionResult {
            id: id@,
            call_id: call_id@,
            name: name@,
            content: opt_blocks_model(content),
            code,
        },
        Event::TurnStop { id, stop_reason, token_usage } => EventModel::TurnStop {
            id: id@,
            stop_reason: stop_reason@,
            token_usage,
        },
        Event::StateUpdate { id, name, data } => EventModel::StateUpdate {
            id: id@,
            name: name@,
            data: json_model(data),
        },
    }
}

impl View for Event {
    type V = EventModel;

    open spec fn view(&self) -> EventModel {
        event_model(*self)
    }
}

/// The models of a sequence of events.
pub open spec fn events_model(es: Seq<Event>) -> Seq<EventModel> {
    es.map_values(|e: Event| event_model(e))
}

/// The store-assigned id of an event (every variant has one).
pub open spec fn event_id_of(e: Event) -> String {
    match e {
        Event::UserMessage { id, .. } => id,
        Event::ModelMessageDelta { id, .. } => id,
        Event::ModelMessage { id, .. } => id,
        Event::ModelThoughtDelta { id, .. } => id,
        Event::ModelThought { id, .. } => id,
        Event::FunctionCall { id, .. } => id,
        Event::FunctionOutputDelta { id, .. } => id,
        Event::FunctionResult { id, .. } => id,
        Event::TurnStop { id, .. } => id,
        Event::StateUpdate { id, .. } => id,
    }
}

/// The event with its id replaced by `id` and every other field kept.
pub open spec fn with_id_spec(e: Event, id: String) -> Event {
    match e {
        Event::UserMessage { content, .. } => Event::UserMessage { id, content },
        Event::ModelMessage { content, .. } => Event::ModelMessage { id, content },
        Event::ModelThought { text, .. } => Event::ModelThought { id, text },
        Event::FunctionCall { call_id, name, args, .. } => Event::FunctionCall {
            id,
            call_id,
            name,
            args,
        },
        Event::FunctionResult { call_id, name, content, code, .. } => Event::FunctionResult {
            id,
            call_id,
            name,
            content,
            code,
        },
        Event::FunctionOutputDelta { call_id, name, text, .. } => Event::FunctionOutputDelta {
            id,
            call_id,
            name,
            text,
        },
        Event::TurnStop { stop_reason, token_usage, .. } => Event::TurnStop {
            id,
            stop_reason,
            token_usage,
        },
        Event::StateUpdate { name, data, .. } => Event::StateUpdate { id, name, data },
        Event::ModelMessageDelta { text, .. } => Event::ModelMessageDelta { id, text },
        Event::ModelThoughtDelta { text, .. } => Event::ModelThoughtDelta { id, text },
    }
}

/// Whether two events are of the same variant.
pub open spec fn same_variant(a: Event, b: Event) -> bool {
    ||| (a is UserMessage && b is UserMessage)
    ||| (a is ModelMessageDelta && b is ModelMessageDelta)
    ||| (a is ModelMessage && b is ModelMessage)
    ||| (a is ModelThoughtDelta && b is ModelThoughtDelta)
    ||| (a is ModelThought && b is ModelThought)
    ||| (a is FunctionCall && b is FunctionCall)
    ||| (a is FunctionOutputDelta && b is FunctionOutputDelta)
    ||| (a is FunctionResult && b is FunctionResult)
    ||| (a is TurnStop && b is TurnStop)
    ||| (a is StateUpdate && b is StateUpdate)
}

impl Event {
    /// The store-assigned id of the event.
    pub fn event_id(&self) -> (r: Option<&str>)
        ensures
            r is Some,
            r.unwrap()@ == event_id_of(*self)@,
    {
        match self {
            Event::UserMessage { id, .. }
            | Event::ModelMessage { id, .. }
            | Event::ModelThought { id, .. }
            | Event::FunctionCall { id, .. }
            | Event::FunctionOutputDelta { id, .. }
            | Event::FunctionResult { id, .. }
            | Event::TurnStop { id, .. }
            | Event::ModelMessageDelta { id, .. }
            | Event::ModelThoughtDelta { id, .. } => Some(id.as_str()),
            Event::StateUpdate { id, .. } => Some(id.as_str()),
        }
    }

    /// The event with the store-assigned id `id`; every other field is kept.
    pub fn with_id(self, id: String) -> (r: Event)
        ensures
            r == with_id_spec(self, id),
    {
        match self {
            Event::UserMessage { content, .. } => Event::UserMessage { id, content },
            Event::ModelMessage { content, .. } => Event::ModelMessage { id, content },
            Event::ModelThought { text, .. } => Event::ModelThought { id, text },
            Event::FunctionCall { call_id, name, args, .. } => Event::FunctionCall {
                id,
                call_id,
                name,
                args,
            },
            Event::FunctionResult { call_id, name, content, code, .. } => Event::FunctionResult {
                id,
                call_id,
                name,
                content,
                code,
            },
            Event::FunctionOutputDelta { call_id, name, text, .. } => Event::FunctionOutputDelta {
                id,
                call_id,
                name,
                text,
            },
            Event::TurnStop { stop_reason, token_usage, .. } => Event::TurnStop {
                id,
                stop_reason,
                token_usage,
            },
            Event::StateUpdate { name, data, .. } => Event::StateUpdate { id, name, data },
            Event::ModelMessageDelta { text, .. } => Event::ModelMessageDelta { id, text },
            Event::ModelThoughtDelta { text, .. } => Event::ModelThoughtDelta { id, text },
        }
    }

    /// A copy of the event with the same model.
    pub fn deep_clone(&self) -> (r: Event)
        ensures
            r@ == self@,
    {
        match self {
            Event::UserMessage { id, content } => Event::UserMessage {
                id: id.clone(),
                content: clone_blocks(content),
            },
            Event::ModelMessageDelta { id, text } => Event::ModelMessageDelta {
                id: id.clone(),
                text: text.clone(),
            },
            Event::ModelMessage { id, content } => Event::ModelMessage {
                id: id.clone(),
                content: clone_blocks(content),
            },
            Event::ModelThoughtDelta { id, text } => Event::ModelThoughtDelta {
                id: id.clone(),
                text: text.clone(),
            },
            Event::ModelThought { id, text } => Event::ModelThought {
                id: id.clone(),
                text: text.clone(),
            },
            Event::FunctionCall { id, call_id, name, args } => Event::FunctionCall {
                id: id.clone(),
                call_id: call_id.clone(),
                name: name.clone(),
                args: args.deep_clone(),
            },
            Event::FunctionOutputDelta { id, call_id, name, text } => Event::FunctionOutputDelta {
                id: id.clone(),
                call_id: call_id.clone(),
                name: name.clone(),
                text: text.clone(),
            },
            Event::FunctionResult { id, call_id, name, content, code } => Event::FunctionResult {
                id: id.clone(),
                call_id: call_id.clone(),
                name: name.clone(),
                content: match content {
                    Some(c) => Some(clone_blocks(c)),
                    None => None,
                },
                code: *code,
            },
            Event::TurnStop { id, stop_reason, token_usage } => Event::TurnStop {
                id: id.clone(),
                stop_reason: stop_reason.deep_clone(),
                token_usage: *token_usage,
            },
            Event::StateUpdate { id, name, data } => Event::StateUpdate {
                id: id.clone(),
                name: name.clone(),
                data: data.deep_clone(),
            },
        }
    }
}

/// Assigning an id and then reading it gives back that id, the variant is kept, and
/// assigning twice is the same as assigning the last id once.
pub proof fn law_with_id(e: Event, a: String, b: String)
    ensures
        event_id_of(with_id_spec(e, a)) == a,
        same_variant(with_id_spec(e, a), e),
        with_id_spec(with_id_spec(e, a), b) == with_id_spec(e, b),
        with_id_spec(e, event_id_of(e)) == e,
{
}

} // verus!
