//! The decisions of the agent's tool loop: which events are persisted, when the loop
//! goes on, what a tool call results in, and how a session's history is repaired.
use vstd::prelude::*;
use crate::content::{BlockModel, ContentBlock, blocks_model, text_model};
use crate::event::{Event, EventModel, StopReason, StopReasonModel, event_model, events_model};
use crate::json::{JsonModel, JsonValue, json_model};
use crate::text::{chars_eq, chars_of, push_str, string_of};

verus! {

broadcast use vstd::string::group_string_axioms;

/// Session state key of the profile name.
pub const PROFILE_STATE_KEY_NAME: &'static str = "agent-profile:name";

/// Session state key of the model profile.
pub const PROFILE_STATE_KEY_MODEL_PROFILE: &'static str = "agent-profile:model-profile";

/// Session state key of the instruction.
pub const PROFILE_STATE_KEY_INSTRUCTION: &'static str = "agent-profile:instruction";

/// Session state key of the tool schema.
pub const PROFILE_STATE_KEY_TOOL_SCHEMA: &'static str = "agent-profile:tool-schema";

/// The most model requests one run makes.
pub const MAX_TURNS: usize = 200;

/// The name of an event's kind, as persistence errors report it.
pub open spec fn event_kind_spec(e: EventModel) -> Seq<char> {
    match e {
        EventModel::UserMessage { .. } => "user_message"@,
        EventModel::ModelMessage { .. } => "model_message"@,
        EventModel::ModelMessageDelta { .. } => "model_message"@,
        EventModel::ModelThought { .. } => "model_thought"@,
        EventModel::ModelThoughtDelta { .. } => "model_thought"@,
        EventModel::FunctionCall { .. } => "function_call"@,
        EventModel::FunctionOutputDelta { .. } => "function_output"@,
        EventModel::FunctionResult { .. } => "function_result"@,
        EventModel::TurnStop { .. } => "turn_stop"@,
        EventModel::StateUpdate { .. } => "state"@,
    }
}

/// The name of an event's kind.
pub fn event_kind(event: &Event) -> (r: &'static str)
    ensures
        r@ == event_kind_spec(event@),
{
    match event {
        Event::UserMessage { .. } => "user_message",
        Event::ModelMessage { .. } | Event::ModelMessageDelta { .. } => "model_message",
        Event::ModelThought { .. } | Event::ModelThoughtDelta { .. } => "model_thought",
        Event::FunctionCall { .. } => "function_call",
        Event::FunctionOutputDelta { .. } => "function_output",
        Event::FunctionResult { .. } => "function_result",
        Event::TurnStop { .. } => "turn_stop",
        Event::StateUpdate { .. } => "state",
    }
}

/// A turn stop without id or usage.
pub fn stop_event(reason: StopReason) -> (r: Event)
    ensures
        r@ == (EventModel::TurnStop { id: Seq::empty(), stop_reason: reason@, token_usage: None }),
{
    Event::TurnStop { id: String::new(), stop_reason: reason, token_usage: None }
}

// ── one turn ────────────────────────────────────────────────────────

/// A tool call the model asked for and that has not run yet.
#[derive(Debug)]
pub struct PendingCall {
    pub id: String,
    pub call_id: String,
    pub name: String,
    pub args: JsonValue,
}

/// What to do with an event of the model's output.
#[derive(Clone, Copy, Debug, PartialEq, Eq, Structural)]
pub enum EventAction {
    /// Send it to the client only.
    EmitOnly,
    /// Send it and persist it in the session.
    EmitAndPersist,
}

/// What one turn of the model produced so far.
pub struct TurnConsumer {
    pub pending: Vec<PendingCall>,
    pub saw_thought: bool,
    pub saw_message: bool,
    pub saw_call: bool,
}

pub struct PendingModel {
    pub id: Seq<char>,
    pub call_id: Seq<char>,
    pub name: Seq<char>,
    pub args: JsonModel,
}

pub open spec fn pending_model(p: PendingCall) -> PendingModel {
    PendingModel { id: p.id@, call_id: p.call_id@, name: p.name@, args: json_model(p.args) }
}

pub open spec fn pendings_model(s: Seq<PendingCall>) -> Seq<PendingModel> {
    s.map_values(|p: PendingCall| pending_model(p))
}

pub struct TurnModel {
    pub pending: Seq<PendingModel>,
    pub saw_thought: bool,
    pub saw_message: bool,
    pub saw_call: bool,
}

impl View for TurnConsumer {
    type V = TurnModel;

    open spec fn view(&self) -> TurnModel {
        TurnModel {
            pending: pendings_model(self.pending@),
            saw_thought: self.saw_thought,
            saw_message: self.saw_message,
            saw_call: self.saw_call,
        }
    }
}

/// Deltas are only sent; a turn stop is only sent while tool calls are pending (the turn
/// goes on); thoughts, messages and calls are recorded and persisted, and a call becomes
/// pending; everything else is persisted.
pub open spec fn turn_step(m: TurnModel, e: EventModel) -> (TurnModel, EventAction) {
    match e {
        EventModel::ModelMessageDelta { .. } => (m, EventAction::EmitOnly),
        EventModel::ModelThoughtDelta { .. } => (m, EventAction::EmitOnly),
        EventModel::TurnStop { .. } => if m.pending.len() > 0 {
            (m, EventAction::EmitOnly)
        } else {
            (m, EventAction::EmitAndPersist)
        },
        EventModel::ModelThought { .. } => (
            TurnModel { saw_thought: true, ..m },
            EventAction::EmitAndPersist,
        ),
        EventModel::ModelMessage { .. } => (
            TurnModel { saw_message: true, ..m },
            EventAction::EmitAndPersist,
        ),
        EventModel::FunctionCall { id, call_id, name, args } => (
            TurnModel {
                saw_call: true,
                pending: m.pending.push(PendingModel { id, call_id, name, args }),
                ..m
            },
            EventAction::EmitAndPersist,
        ),
        _ => (m, EventAction::EmitAndPersist),
    }
}

/// What the loop does after a turn.
#[derive(Clone, Copy, Debug, PartialEq, Eq, Structural)]
pub enum TurnDecision {
    /// The model only thought: ask it again.
    Retry,
    /// The run is over.
    Stop,
    /// Run the pending tool calls, then ask the model again.
    RunTools,
}

/// A turn with neither message nor call is retried when the model thought, else ends the
/// run; a turn without pending calls ends it; otherwise the calls run.
pub open spec fn turn_decision_spec(m: TurnModel) -> TurnDecision {
    if !m.saw_message && !m.saw_call {
        if m.saw_thought {
            TurnDecision::Retry
        } else {
            TurnDecision::Stop
        }
    } else if m.pending.len() == 0 {
        TurnDecision::Stop
    } else {
        TurnDecision::RunTools
    }
}

fn clone_string(s: &String) -> (r: String)
    ensures
        r@ == s@,
{
    s.clone()
}

impl TurnConsumer {
    /// Nothing produced yet.
    pub fn new() -> (r: TurnConsumer)
        ensures
            r@.pending.len() == 0,
            !r@.saw_thought && !r@.saw_message && !r@.saw_call,
    {
        TurnConsumer { pending: Vec::new(), saw_thought: false, saw_message: false, saw_call: false }
    }

    /// Takes one event of the model's output; says what to do with it (see `turn_step`).
    pub fn classify(&mut self, event: &Event) -> (r: EventAction)
        ensures
            (final(self)@, r) == turn_step(old(self)@, event@),
    {
        match event {
            Event::ModelMessageDelta { .. } | Event::ModelThoughtDelta { .. } => {
                EventAction::EmitOnly
            },
            Event::TurnStop { .. } => {
                if self.pending.len() > 0 {
                    EventAction::EmitOnly
                } else {
                    EventAction::EmitAndPersist
                }
            },
            Event::ModelThought { .. } => {
                self.saw_thought = true;
                EventAction::EmitAndPersist
            },
            Event::ModelMessage { .. } => {
                self.saw_message = true;
                EventAction::EmitAndPersist
            },
            Event::FunctionCall { id, call_id, name, args } => {
                self.saw_call = true;
                let p = PendingCall {
                    id: clone_string(id),
                    call_id: clone_string(call_id),
                    name: clone_string(name),
                    args: args.deep_clone(),
                };
                let ghost before = self.pending@;
                self.pending.push(p);
                assert(pendings_model(self.pending@) =~= pendings_model(before).push(
                    pending_model(p),
                ));
                EventAction::EmitAndPersist
            },
            _ => EventAction::EmitAndPersist,
        }
    }

    /// What the loop does after this turn (see `turn_decision_spec`).
    pub fn decision(&self) -> (r: TurnDecision)
        ensures
            r == turn_decision_spec(self@),
    {
        if !self.saw_message && !self.saw_call {
            if self.saw_thought {
                TurnDecision::Retry
            } else {
                TurnDecision::Stop
            }
        } else if self.pending.len() == 0 {
            TurnDecision::Stop
        } else {
            TurnDecision::RunTools
        }
    }
}

// ── tool results ────────────────────────────────────────────────────

/// How running a tool call went.
#[derive(Debug)]
pub enum ToolOutcome {
    /// The tool ran and gave these blocks.
    Done(Vec<ContentBlock>),
    /// The tool failed with this message.
    Failed(String),
    /// No tool of that name is available.
    NotFound,
}

pub enum OutcomeModel {
    Done(Seq<BlockModel>),
    Failed(Seq<char>),
    NotFound,
}

pub open spec fn outcome_model(o: ToolOutcome) -> OutcomeModel {
    match o {
        ToolOutcome::Done(bs) => OutcomeModel::Done(blocks_model(bs@)),
        ToolOutcome::Failed(e) => OutcomeModel::Failed(e@),
        ToolOutcome::NotFound => OutcomeModel::NotFound,
    }
}

/// The function result recorded for a call: the tool's blocks; or `tool error: <message>`
/// with code -1; or `无效的工具: <name>` with code -1.
pub open spec fn tool_result_spec(p: PendingModel, o: OutcomeModel) -> EventModel {
    match o {
        OutcomeModel::Done(bs) => EventModel::FunctionResult {
            id: p.id,
            call_id: p.call_id,
            name: p.name,
            content: Some(bs),
            code: None,
        },
        OutcomeModel::Failed(e) => EventModel::FunctionResult {
            id: p.id,
            call_id: p.call_id,
            name: p.name,
            content: Some(seq![text_model("tool error: "@ + e)]),
            code: Some(-1i32),
        },
        OutcomeModel::NotFound => EventModel::FunctionResult {
            id: p.id,
            call_id: p.call_id,
            name: p.name,
            content: Some(seq![text_model("无效的工具: "@ + p.name)]),
            code: Some(-1i32),
        },
    }
}

fn single_block(b: ContentBlock) -> (r: Vec<ContentBlock>)
    ensures
        blocks_model(r@) == seq![b@],
{
    let mut v: Vec<ContentBlock> = Vec::new();
    v.push(b);
    assert(blocks_model(v@) =~= seq![b@]);
    v
}

/// The function result recorded for a call (see `tool_result_spec`).
pub fn tool_result_event(call: &PendingCall, outcome: ToolOutcome) -> (r: Event)
    ensures
        r@ == tool_result_spec(pending_model(*call), outcome_model(outcome)),
{
    let (content, code) = match outcome {
        ToolOutcome::Done(bs) => (bs, None),
        ToolOutcome::Failed(e) => {
            let mut t: Vec<char> = Vec::new();
            push_str(&mut t, "tool error: ");
            push_str(&mut t, e.as_str());
            (single_block(ContentBlock::text_of(&t)), Some(-1i32))
        },
        ToolOutcome::NotFound => {
            let mut t: Vec<char> = Vec::new();
            push_str(&mut t, "无效的工具: ");
            push_str(&mut t, call.name.as_str());
            (single_block(ContentBlock::text_of(&t)), Some(-1i32))
        },
    };
    Event::FunctionResult {
        id: clone_string(&call.id),
        call_id: clone_string(&call.call_id),
        name: clone_string(&call.name),
        content: Some(content),
        code,
    }
}

/// The text recorded for a tool call that was cancelled.
pub open spec fn cancelled_text() -> Seq<char> {
    "工具调用已取消"@
}

/// The function result recorded for a call that was cancelled before it ran.
pub fn cancelled_result_event(id: &String, call_id: &String, name: &String) -> (r: Event)
    ensures
        r@ == (EventModel::FunctionResult {
            id: id@,
            call_id: call_id@,
            name: name@,
            content: Some(seq![text_model(cancelled_text())]),
            code: None,
        }),
{
    let b = ContentBlock::text("工具调用已取消");
    Event::FunctionResult {
        id: clone_string(id),
        call_id: clone_string(call_id),
        name: clone_string(name),
        content: Some(single_block(b)),
        code: None,
    }
}

/// The function results recorded for pending calls when the run is cancelled, in order.
pub fn cancelled_results(calls: &Vec<PendingCall>) -> (r: Vec<Event>)
    ensures
        r@.len() == calls@.len(),
        forall|k: int|
            0 <= k < calls@.len() ==> (#[trigger] r@[k])@ == (EventModel::FunctionResult {
                id: calls@[k].id@,
                call_id: calls@[k].call_id@,
                name: calls@[k].name@,
                content: Some(seq![text_model(cancelled_text())]),
                code: None,
            }),
{
    let mut out: Vec<Event> = Vec::new();
    let mut i: usize = 0;
    while i < calls.len()
        invariant
            i <= calls.len(),
            out@.len() == i,
            forall|k: int|
                0 <= k < i ==> (#[trigger] out@[k])@ == (EventModel::FunctionResult {
                    id: calls@[k].id@,
                    call_id: calls@[k].call_id@,
                    name: calls@[k].name@,
                    content: Some(seq![text_model(cancelled_text())]),
                    code: None,
                }),
        decreases calls.len() - i,
    {
        let c = &calls[i];
        out.push(cancelled_result_event(&c.id, &c.call_id, &c.name));
        i = i + 1;
    }
    out
}

// ── history repair ──────────────────────────────────────────────────

/// The event is a function result for the call id.
pub open spec fn answers(e: EventModel, call_id: Seq<char>) -> bool {
    e matches EventModel::FunctionResult { call_id: c, .. } && c == call_id
}

/// Some function result answers the call id.
pub open spec fn has_result_for(es: Seq<EventModel>, call_id: Seq<char>) -> bool {
    exists|i: int| 0 <= i < es.len() && #[trigger] answers(es[i], call_id)
}

/// The cancelled results that answer every function call without a result, in the order
/// of the calls.
pub open spec fn orphan_repairs_spec(es: Seq<EventModel>, n: nat) -> Seq<EventModel>
    decreases n,
{
    if n == 0 || n > es.len() {
        Seq::empty()
    } else {
        orphan_repairs_spec(es, (n - 1) as nat) + match es[n - 1] {
            EventModel::FunctionCall { id, call_id, name, .. } => if has_result_for(es, call_id) {
                Seq::empty()
            } else {
                seq![
                    EventModel::FunctionResult {
                        id,
                        call_id,
                        name,
                        content: Some(seq![text_model(cancelled_text())]),
                        code: None,
                    },
                ]
            },
            _ => Seq::empty(),
        }
    }
}

pub open spec fn orphan_repairs(es: Seq<EventModel>) -> Seq<EventModel> {
    orphan_repairs_spec(es, es.len())
}

/// Some function result among the first `n` events answers the call id.
pub open spec fn answered_before(es: Seq<EventModel>, n: int, call_id: Seq<char>) -> bool {
    exists|i: int| 0 <= i < n && i < es.len() && #[trigger] answers(es[i], call_id)
}

/// The id is among the ids.
pub open spec fn ids_contain(ids: Seq<Vec<char>>, id: Seq<char>) -> bool {
    exists|k: int| 0 <= k < ids.len() && #[trigger] ids[k]@ == id
}

fn result_ids(events: &Vec<Event>) -> (r: Vec<Vec<char>>)
    ensures
        forall|c: Seq<char>| #[trigger] has_result_for(events_model(events@), c) <==> ids_contain(r@, c),
{
    let ghost es = events_model(events@);
    let mut out: Vec<Vec<char>> = Vec::new();
    let mut i: usize = 0;
    while i < events.len()
        invariant
            i <= events.len(),
            es == events_model(events@),
            forall|c: Seq<char>| #[trigger] answered_before(es, i as int, c) <==> ids_contain(out@, c),
        decreases events.len() - i,
    {
        let ghost before = out@;
        assert(es[i as int] == events@[i as int]@);
        match &events[i] {
            Event::FunctionResult { call_id, .. } => {
                out.push(chars_of(call_id.as_str()));
                proof {
                    assert forall|c: Seq<char>| #[trigger] answered_before(es, i + 1, c) <==> ids_contain(out@, c) by {
                        assert(answered_before(es, i as int, c) <==> ids_contain(before, c));
                        if answered_before(es, i + 1, c) {
                            let j = choose|j: int| 0 <= j < i + 1 && j < es.len() && #[trigger] answers(es[j], c);
                            if j < i {
                                assert(answered_before(es, i as int, c));
                                let k = choose|k: int| 0 <= k < before.len() && #[trigger] before[k]@ == c;
                                assert(out@[k] == before[k]);
                            } else {
                                assert(out@[before.len() as int]@ == c);
                            }
                        }
                        if ids_contain(out@, c) {
                            let k = choose|k: int| 0 <= k < out@.len() && #[trigger] out@[k]@ == c;
                            if k < before.len() {
                                assert(before[k]@ == c);
                                assert(ids_contain(before, c));
                            } else {
                                assert(answers(es[i as int], c));
                            }
                        }
                    }
                }
            },
            _ => {
                proof {
                    assert forall|c: Seq<char>| #[trigger] answered_before(es, i + 1, c) <==> ids_contain(out@, c) by {
                        assert(answered_before(es, i as int, c) <==> ids_contain(before, c));
                        if answered_before(es, i + 1, c) {
                            let j = choose|j: int| 0 <= j < i + 1 && j < es.len() && #[trigger] answers(es[j], c);
                            if j < i {
                                assert(answered_before(es, i as int, c));
                            }
                        }
                        if ids_contain(out@, c) {
                            assert(ids_contain(before, c));
                            let k = choose|k: int| 0 <= k < before.len() && #[trigger] before[k]@ == c;
                            let j = choose|j: int| 0 <= j < i && j < es.len() && #[trigger] answers(es[j], c);
                            assert(answers(es[j], c));
                        }
                    }
                }
            },
        }
        i = i + 1;
    }
    proof {
        assert forall|c: Seq<char>| #[trigger] has_result_for(es, c) <==> ids_contain(out@, c) by {
            assert(has_result_for(es, c) == answered_before(es, es.len() as int, c));
        }
    }
    out
}

fn contains_id(ids: &Vec<Vec<char>>, id: &Vec<char>) -> (r: bool)
    ensures
        r == exists|k: int| 0 <= k < ids@.len() && #[trigger] ids@[k]@ == id@,
{
    let mut i: usize = 0;
    while i < ids.len()
        invariant
            i <= ids.len(),
            forall|k: int| 0 <= k < i ==> ids@[k]@ != id@,
        decreases ids.len() - i,
    {
        if chars_eq(&ids[i], id) {
            return true;
        }
        i = i + 1;
    }
    false
}

/// The cancelled results that repair a session's history: one for every function call
/// that no function result answers.
pub fn orphan_function_call_repairs(events: &Vec<Event>) -> (r: Vec<Event>)
    ensures
        events_model(r@) == orphan_repairs(events_model(events@)),
{
    let ghost es = events_model(events@);
    let ids = result_ids(events);
    let mut out: Vec<Event> = Vec::new();
    let mut i: usize = 0;
    while i < events.len()
        invariant
            i <= events.len(),
            es == events_model(events@),
            forall|c: Seq<char>| #[trigger] has_result_for(es, c) <==> ids_contain(ids@, c),
            events_model(out@) == orphan_repairs_spec(es, i as nat),
        decreases events.len() - i,
    {
        let ghost before = out@;
        assert(es[i as int] == events@[i as int]@);
        match &events[i] {
            Event::FunctionCall { id, call_id, name, .. } => {
                let cid = chars_of(call_id.as_str());
                if !contains_id(&ids, &cid) {
                    out.push(cancelled_result_event(id, call_id, name));
                    assert(events_model(out@) =~= events_model(before).push(event_model(out@.last())));
                } else {
                    assert(events_model(out@) =~= events_model(before) + Seq::<EventModel>::empty());
                }
            },
            _ => {
                assert(events_model(out@) =~= events_model(before) + Seq::<EventModel>::empty());
            },
        }
        i = i + 1;
    }
    out
}

/// Whether a function call is answered by some function result.
pub open spec fn call_is_answered(es: Seq<EventModel>, e: EventModel) -> bool {
    match e {
        EventModel::FunctionCall { call_id, .. } => has_result_for(es, call_id),
        _ => true,
    }
}

/// The events without the function calls that no function result answers.
pub open spec fn answered_only(es: Seq<EventModel>) -> Seq<EventModel> {
    es.filter(|e: EventModel| call_is_answered(es, e))
}

/// The events without the function calls that no function result answers, in order.
pub fn drop_unanswered_calls(events: Vec<Event>) -> (r: Vec<Event>)
    ensures
        events_model(r@) == answered_only(events_model(events@)),
{
    let ghost es = events_model(events@);
    let ids = result_ids(&events);
    let mut out: Vec<Event> = Vec::new();
    let mut rest = events;
    let ghost all = rest@;
    let mut i: usize = 0;
    proof {
        reveal_with_fuel(Seq::<EventModel>::filter, 1);
        assert(es.take(0).filter(|e: EventModel| call_is_answered(es, e)) =~= Seq::empty());
    }
    let n = rest.len();
    let mut reversed: Vec<Event> = Vec::new();
    while rest.len() > 0
        invariant
            rest@ =~= all.take(rest@.len() as int),
            reversed@.len() + rest@.len() == all.len(),
            forall|k: int| 0 <= k < reversed@.len() ==> reversed@[k] == all[all.len() - 1 - k],
        decreases rest.len(),
    {
        let e = rest.pop().unwrap();
        reversed.push(e);
    }
    while reversed.len() > 0
        invariant
            i <= n,
            n == all.len(),
            es == events_model(all),
            reversed@.len() + i == n,
            forall|k: int| 0 <= k < reversed@.len() ==> reversed@[k] == all[n - 1 - k],
            forall|c: Seq<char>| #[trigger] has_result_for(es, c) <==> ids_contain(ids@, c),
            events_model(out@) == es.take(i as int).filter(|e: EventModel| call_is_answered(es, e)),
        decreases reversed.len(),
    {
        let e = reversed.pop().unwrap();
        assert(e == all[i as int]);
        let ghost before = out@;
        let keep = match &e {
            Event::FunctionCall { call_id, .. } => {
                let cid = chars_of(call_id.as_str());
                contains_id(&ids, &cid)
            },
            _ => true,
        };
        proof {
            reveal_with_fuel(Seq::<EventModel>::filter, 1);
            assert(es.take(i + 1).drop_last() =~= es.take(i as int));
            assert(es.take(i + 1).last() == e@);
            assert(keep == call_is_answered(es, e@));
        }
        if keep {
            out.push(e);
            assert(events_model(out@) =~= events_model(before).push(event_model(e)));
        }
        i = i + 1;
    }
    assert(es.take(n as int) =~= es);
    out
}

/// Repairing a history twice repairs nothing the second time: after the repairs are
/// appended, every function call has a result.
pub proof fn law_repair_is_idempotent(es: Seq<EventModel>)
    ensures
        orphan_repairs(es + orphan_repairs(es)) == Seq::<EventModel>::empty(),
{
    let rep = orphan_repairs(es);
    let all = es + rep;
    lemma_repairs_are_results(es, es.len());
    lemma_repairs_cover(es, es.len());
    lemma_no_repairs(all, all.len(), es, rep);
}

proof fn lemma_repairs_are_results(es: Seq<EventModel>, n: nat)
    ensures
        forall|k: int| 0 <= k < orphan_repairs_spec(es, n).len() ==> #[trigger] orphan_repairs_spec(es, n)[k] is FunctionResult,
    decreases n,
{
    if n > 0 && n <= es.len() {
        lemma_repairs_are_results(es, (n - 1) as nat);
        let prev = orphan_repairs_spec(es, (n - 1) as nat);
        assert forall|k: int| 0 <= k < orphan_repairs_spec(es, n).len() implies #[trigger] orphan_repairs_spec(es, n)[k] is FunctionResult by {
            if k < prev.len() {
                assert(orphan_repairs_spec(es, n)[k] == prev[k]);
            }
        }
    }
}

proof fn lemma_repairs_cover(es: Seq<EventModel>, n: nat)
    requires
        n <= es.len(),
    ensures
        forall|j: int|
            0 <= j < n && j < es.len() && (es[j] is FunctionCall) && !has_result_for(es, es[j]->FunctionCall_call_id)
                ==> has_result_for(orphan_repairs_spec(es, n), es[j]->FunctionCall_call_id),
    decreases n,
{
    if n > 0 && n <= es.len() {
        lemma_repairs_cover(es, (n - 1) as nat);
        let prev = orphan_repairs_spec(es, (n - 1) as nat);
        let cur = orphan_repairs_spec(es, n);
        assert forall|j: int|
            0 <= j < n && j < es.len() && (es[j] is FunctionCall) && !has_result_for(es, es[j]->FunctionCall_call_id)
                implies has_result_for(cur, es[j]->FunctionCall_call_id) by {
            let c = es[j]->FunctionCall_call_id;
            if j < n - 1 {
                let i = choose|i: int| 0 <= i < prev.len() && #[trigger] answers(prev[i], c);
                assert(cur[i] == prev[i]);
                assert(answers(cur[i], c));
            } else {
                assert(answers(cur[prev.len() as int], c));
            }
        }
    }
}

proof fn lemma_no_repairs(all: Seq<EventModel>, n: nat, es: Seq<EventModel>, rep: Seq<EventModel>)
    requires
        all == es + rep,
        rep == orphan_repairs(es),
        n <= all.len(),
        forall|k: int| 0 <= k < rep.len() ==> #[trigger] rep[k] is FunctionResult,
        forall|j: int|
            0 <= j < es.len() && (es[j] is FunctionCall) && !has_result_for(es, es[j]->FunctionCall_call_id)
                ==> has_result_for(rep, es[j]->FunctionCall_call_id),
    ensures
        orphan_repairs_spec(all, n) == Seq::<EventModel>::empty(),
    decreases n,
{
    if n > 0 {
        lemma_no_repairs(all, (n - 1) as nat, es, rep);
        let e = all[n - 1];
        if e is FunctionCall {
            let c = e->FunctionCall_call_id;
            assert(n - 1 < es.len()) by {
                if n - 1 >= es.len() {
                    assert(rep[n - 1 - es.len()] is FunctionResult);
                }
            }
            assert(es[n - 1] == e);
            if has_result_for(es, c) {
                let i = choose|i: int| 0 <= i < es.len() && answers(es[i], c);
                assert(all[i] == es[i]);
            } else {
                let i = choose|i: int| 0 <= i < rep.len() && answers(rep[i], c);
                assert(all[es.len() + i] == rep[i]);
            }
            assert(has_result_for(all, c));
        }
    }
}

/// After unanswered calls are dropped, every function call left has a result.
pub proof fn law_no_unanswered_calls_left(es: Seq<EventModel>)
    ensures
        forall|k: int|
            0 <= k < answered_only(es).len() ==> call_is_answered(es, #[trigger] answered_only(es)[k]),
{
    let p = |e: EventModel| call_is_answered(es, e);
    es.filter_lemma(p);
}

// ── profile selection on resume ─────────────────────────────────────

/// The profile to resume with: the first one with the saved name, else the first one.
pub open spec fn select_profile_spec(names: Seq<Seq<char>>, wanted: Seq<char>) -> Option<int> {
    if exists|i: int| 0 <= i < names.len() && names[i] == wanted {
        Some(choose|i: int| 0 <= i < names.len() && names[i] == wanted && forall|j: int| 0 <= j < i ==> names[j] != wanted)
    } else if names.len() > 0 {
        Some(0)
    } else {
        None
    }
}

pub open spec fn names_model(v: Seq<String>) -> Seq<Seq<char>> {
    v.map_values(|s: String| s@)
}

/// The index of the profile to resume with (see `select_profile_spec`).
pub fn select_profile(names: &Vec<String>, wanted: &str) -> (r: Option<usize>)
    ensures
        match r {
            Some(i) => select_profile_spec(names_model(names@), wanted@) == Some(i as int),
            None => select_profile_spec(names_model(names@), wanted@) is None,
        },
{
    let w = chars_of(wanted);
    let ghost ns = names_model(names@);
    let mut i: usize = 0;
    while i < names.len()
        invariant
            i <= names.len(),
            w@ == wanted@,
            ns == names_model(names@),
            forall|j: int| 0 <= j < i ==> ns[j] != wanted@,
        decreases names.len() - i,
    {
        let c = chars_of(names[i].as_str());
        if chars_eq(&c, &w) {
            proof {
                let k = choose|k: int| 0 <= k < ns.len() && ns[k] == wanted@ && forall|j: int| 0 <= j < k ==> ns[j] != wanted@;
                assert(ns[i as int] == wanted@);
                if k < i {
                } else if k > i {
                    assert(ns[i as int] != wanted@);
                }
            }
            return Some(i);
        }
        i = i + 1;
    }
    if names.len() > 0 {
        Some(0)
    } else {
        None
    }
}

// ── session state ───────────────────────────────────────────────────

/// A state update to persist: no id, the key, the value.
pub fn state_update(name: &str, data: JsonValue) -> (r: Event)
    ensures
        r@ == (EventModel::StateUpdate { id: Seq::empty(), name: name@, data: data@ }),
{
    Event::StateUpdate { id: String::new(), name: name.to_owned(), data }
}

/// What a run persists before it starts: the profile's name, then its model profile.
pub fn profile_state_events(profile_name: &str, model_profile: &crate::model::ModelProfile) -> (r: Vec<
    Event,
>)
    ensures
        events_model(r@) == seq![
            EventModel::StateUpdate {
                id: Seq::empty(),
                name: "agent-profile:name"@,
                data: JsonModel::Str(profile_name@),
            },
            EventModel::StateUpdate {
                id: Seq::empty(),
                name: "agent-profile:model-profile"@,
                data: crate::model::model_profile_json(*model_profile),
            },
        ],
{
    let mut v: Vec<Event> = Vec::new();
    v.push(state_update(PROFILE_STATE_KEY_NAME, JsonValue::Str(profile_name.to_owned())));
    v.push(state_update(PROFILE_STATE_KEY_MODEL_PROFILE, model_profile.to_json()));
    assert(events_model(v@) =~= seq![event_model(v@[0]), event_model(v@[1])]);
    v
}

/// The text a saved state value holds, or `default` where it is missing or not a string.
pub fn state_text_or(value: Option<&JsonValue>, default: &str) -> (r: String)
    ensures
        r@ == match value {
            Some(v) => match v@ {
                JsonModel::Str(s) => s,
                _ => default@,
            },
            None => default@,
        },
{
    match value {
        Some(JsonValue::Str(s)) => s.clone(),
        _ => default.to_owned(),
    }
}

/// The instruction of a run: the one saved in the session (empty where it is not a
/// string); where none is saved, the profile's.
pub fn stored_instruction(saved: Option<&JsonValue>, profile_instructions: String) -> (r: String)
    ensures
        r@ == match saved {
            Some(v) => match v@ {
                JsonModel::Str(s) => s,
                _ => Seq::empty(),
            },
            None => profile_instructions@,
        },
{
    match saved {
        Some(v) => {
            let r = state_text_or(Some(v), "");
            proof {
                reveal_strlit("");
            }
            r
        },
        None => profile_instructions,
    }
}

/// The names among `names` of the tools the profile has on, in order.
pub open spec fn enabled_names(names: Seq<String>, profile: crate::profile::LocalAgentProfile) -> Seq<
    Seq<char>,
>
    decreases names.len(),
{
    if names.len() == 0 {
        Seq::empty()
    } else {
        let n = names.last()@;
        enabled_names(names.drop_last(), profile) + if (if profile.cfg.tools@.contains_key(n) {
            profile.cfg.tools@[n]
        } else {
            true
        }) {
            seq![n]
        } else {
            Seq::empty()
        }
    }
}

/// The tools a run offers: those the profile has on, in order.
pub fn enabled_tools(names: &Vec<String>, profile: &crate::profile::LocalAgentProfile) -> (r: Vec<String>)
    ensures
        crate::text::strings_model(r@) == enabled_names(names@, *profile),
{
    let mut out: Vec<String> = Vec::new();
    let mut i: usize = 0;
    while i < names.len()
        invariant
            i <= names.len(),
            crate::text::strings_model(out@) == enabled_names(names@.take(i as int), *profile),
        decreases names.len() - i,
    {
        let ghost before = out@;
        let on = profile.tool_enabled(names[i].as_str());
        if on {
            out.push(names[i].clone());
        }
        i = i + 1;
        proof {
            assert(names@.take(i as int).drop_last() =~= names@.take(i - 1));
            assert(names@.take(i as int).last() == names@[i - 1]);
            assert(crate::text::strings_model(out@) =~= crate::text::strings_model(before) + if on {
                seq![names@[i - 1]@]
            } else {
                Seq::empty()
            });
        }
    }
    assert(names@.take(names.len() as int) =~= names@);
    out
}

/// What a run needs before it asks the model: the client configured for the profile's
/// model (see `config_for`: the provider's address without trailing `/`, its API key, the
/// model and the provider's description of it) and the request's extra parameters (with
/// the model's answer limit where the provider describes it). A provider that is not
/// configured stops the run with an error.
pub fn prepare_run(settings: &crate::config::Settings, model_profile: &crate::model::ModelProfile) -> (r:
    Result<(crate::client::LlmClient, Option<JsonValue>), StopReason>)
    ensures
        ({
            let (p, m) = crate::model::model_key_spec(model_profile.model@);
            match r {
                Ok((client, params)) => crate::client::config_for(*settings, *model_profile, client.spec_config())
                    && match (params, crate::client::additional_params_spec(
                    crate::client::is_compat_spec(m),
                    match model_profile.top_p {
                        Some(t) => Some(t@),
                        None => None,
                    },
                    model_profile.thinking_level,
                    match client.spec_config().model_config {
                        Some(mc) => Some(mc.max_tokens),
                        None => None,
                    },
                )) {
                    (Some(v), Some(j)) => v@ == j,
                    (None, None) => true,
                    _ => false,
                },
                Err(reason) => !settings.model_providers@.contains_key(p) && reason@
                    == StopReasonModel::Error("provider "@ + p + " not configured"@),
            }
        }),
{
    match crate::client::LlmConfig::from_settings(settings, model_profile) {
        Ok(config) => {
            let max_tokens = match &config.model_config {
                Some(mc) => Some(mc.max_tokens),
                None => None,
            };
            let client = crate::client::LlmClient::new(config);
            let params = client.build_additional_params(model_profile, max_tokens);
            Ok((client, params))
        },
        Err(e) => Err(StopReason::Error(e)),
    }
}

/// The error of a resume whose session does not exist.
pub fn session_not_found_message(id: &str) -> (r: String)
    ensures
        r@ == "session "@ + id@ + " 不存在"@,
{
    let mut t: Vec<char> = Vec::new();
    push_str(&mut t, "session ");
    push_str(&mut t, id);
    push_str(&mut t, " 不存在");
    string_of(&t)
}

/// The error of a resume that finds no profile.
pub fn profile_not_found_message(name: &str) -> (r: String)
    ensures
        r@ == "profile '"@ + name@ + "' not found"@,
{
    let mut t: Vec<char> = Vec::new();
    push_str(&mut t, "profile '");
    push_str(&mut t, name);
    push_str(&mut t, "' not found");
    string_of(&t)
}

/// The message a rewind goes back to: of the user's events of a session, the last one
/// when it is a user message, its id; `None` when there is none or the last is another kind.
pub fn rewind_target(user_events: &Vec<Event>) -> (r: Option<String>)
    ensures
        r == (if user_events@.len() > 0 && user_events@.last() is UserMessage {
            Some(user_events@.last()->UserMessage_id)
        } else {
            None::<String>
        }),
{
    let n = user_events.len();
    if n == 0 {
        return None;
    }
    match &user_events[n - 1] {
        Event::UserMessage { id, .. } => Some(id.clone()),
        _ => None,
    }
}

} // verus!
