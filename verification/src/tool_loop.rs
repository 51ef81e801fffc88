//! The agent's tool loop as a state machine: the caller performs each step (load the
//! history, open the model's stream, read, send and persist its events, run a tool,
//! write a result) and hands back what happened; the loop says what comes next and which
//! turn stop, if any, to send.
use vstd::prelude::*;
use crate::event::{Event, EventModel, StopReason, StopReasonModel};
use crate::runner::{EventAction, TurnConsumer, TurnDecision, TurnModel, event_kind, event_kind_spec, turn_decision_spec, turn_step};
use crate::text::{chars_of, push_str, string_of};

verus! {

broadcast use vstd::string::group_string_axioms;

/// Where the loop stands.
#[derive(Clone, Copy, Debug, PartialEq, Eq, Structural)]
pub enum LoopPhase {
    /// Before a turn: the caller says whether the run was cancelled.
    Start,
    /// The history is being loaded.
    Loading,
    /// The model's stream is being opened.
    Requesting,
    /// The events of the model's stream are being read.
    Streaming,
    /// The last event read is being persisted.
    Persisting,
    /// The pending call of this index is running.
    RunningTool(usize),
    /// The cancelled result of the pending call of this index is being written.
    Cancelling(usize),
    /// The run is over.
    Done,
}

/// What the caller does next.
#[derive(Clone, Copy, Debug, PartialEq, Eq, Structural)]
pub enum NextStep {
    /// Load the session's history (answered by `HistoryLoaded` or `HistoryFailed`).
    LoadHistory,
    /// Open the model's stream (answered by `StreamOpened` or `StreamFailed`).
    OpenStream,
    /// Check for a cancel and read the next event (`CancelSeen`, `Next`, `StreamEnded`).
    ReadEvent,
    /// Send the event just read to the client and read the next one.
    Send,
    /// Send and persist the event just read (answered by `Persisted` or `PersistFailed`).
    SendAndPersist,
    /// Run the pending call of this index and write its result (answered by `ToolRan`).
    RunTool(usize),
    /// Write the cancelled result of the pending call of this index (answered by
    /// `CancelledResultWritten`).
    WriteCancelled(usize),
    /// Check for a cancel and begin the next turn (answered by `TurnBegins`).
    NextTurn,
    /// Send and persist a turn stop `EndTurn`: the turns are used up. The run is over.
    PersistEndTurn,
    /// The run is over.
    Finish,
}

/// What happened in the step the caller performed.
#[derive(Debug)]
pub enum LoopEvent {
    TurnBegins { cancelled: bool },
    HistoryLoaded { messages: usize },
    HistoryFailed(String),
    StreamOpened,
    StreamFailed(String),
    /// A cancel was seen before the next event of the stream.
    CancelSeen,
    Next(Event),
    Persisted,
    PersistFailed(String),
    StreamEnded,
    /// A call ran: whether a tool of its name was found, and the error of writing its
    /// result, if writing failed.
    ToolRan { found: bool, append_error: Option<String> },
    CancelledResultWritten { append_error: Option<String> },
}

pub enum LoopEventModel {
    TurnBegins { cancelled: bool },
    HistoryLoaded { messages: usize },
    HistoryFailed(Seq<char>),
    StreamOpened,
    StreamFailed(Seq<char>),
    CancelSeen,
    Next(EventModel),
    Persisted,
    PersistFailed(Seq<char>),
    StreamEnded,
    ToolRan { found: bool, append_error: Option<Seq<char>> },
    CancelledResultWritten { append_error: Option<Seq<char>> },
}

pub open spec fn opt_text(o: Option<String>) -> Option<Seq<char>> {
    match o {
        Some(s) => Some(s@),
        None => None,
    }
}

impl View for LoopEvent {
    type V = LoopEventModel;

    open spec fn view(&self) -> LoopEventModel {
        match *self {
            LoopEvent::TurnBegins { cancelled } => LoopEventModel::TurnBegins { cancelled },
            LoopEvent::HistoryLoaded { messages } => LoopEventModel::HistoryLoaded { messages },
            LoopEvent::HistoryFailed(e) => LoopEventModel::HistoryFailed(e@),
            LoopEvent::StreamOpened => LoopEventModel::StreamOpened,
            LoopEvent::StreamFailed(e) => LoopEventModel::StreamFailed(e@),
            LoopEvent::CancelSeen => LoopEventModel::CancelSeen,
            LoopEvent::Next(ev) => LoopEventModel::Next(ev@),
            LoopEvent::Persisted => LoopEventModel::Persisted,
            LoopEvent::PersistFailed(e) => LoopEventModel::PersistFailed(e@),
            LoopEvent::StreamEnded => LoopEventModel::StreamEnded,
            LoopEvent::ToolRan { found, append_error } => LoopEventModel::ToolRan {
                found,
                append_error: opt_text(append_error),
            },
            LoopEvent::CancelledResultWritten { append_error } =>
                LoopEventModel::CancelledResultWritten { append_error: opt_text(append_error) },
        }
    }
}

/// The turn stop to send, if any, and the next step.
#[derive(Debug)]
pub struct LoopAction {
    pub send_stop: Option<StopReason>,
    pub next: NextStep,
}

pub struct LoopActionModel {
    pub send_stop: Option<StopReasonModel>,
    pub next: NextStep,
}

impl View for LoopAction {
    type V = LoopActionModel;

    open spec fn view(&self) -> LoopActionModel {
        LoopActionModel {
            send_stop: match self.send_stop {
                Some(r) => Some(r@),
                None => None,
            },
            next: self.next,
        }
    }
}

/// The loop: its phase, the turns begun and allowed, the turn being read, and the kind of
/// the event being persisted.
pub struct ToolLoop {
    pub phase: LoopPhase,
    pub turn: usize,
    pub max_turns: usize,
    pub current: TurnConsumer,
    pub persisting_kind: String,
}

pub struct LoopModel {
    pub phase: LoopPhase,
    pub turn: usize,
    pub max_turns: usize,
    pub current: TurnModel,
    pub persisting_kind: Seq<char>,
}

impl View for ToolLoop {
    type V = LoopModel;

    open spec fn view(&self) -> LoopModel {
        LoopModel {
            phase: self.phase,
            turn: self.turn,
            max_turns: self.max_turns,
            current: self.current@,
            persisting_kind: self.persisting_kind@,
        }
    }
}

/// A turn in progress is one of the turns allowed, and a call index is one of the
/// pending calls.
pub open spec fn loop_wf(m: LoopModel) -> bool {
    &&& (m.phase is Start || m.phase is Done) || m.turn < m.max_turns
    &&& (m.phase matches LoopPhase::RunningTool(i) ==> i < m.current.pending.len())
    &&& (m.phase matches LoopPhase::Cancelling(i) ==> i < m.current.pending.len())
}

pub open spec fn act(stop: Option<StopReasonModel>, next: NextStep) -> LoopActionModel {
    LoopActionModel { send_stop: stop, next }
}

pub open spec fn end_with(m: LoopModel, stop: Option<StopReasonModel>) -> (LoopModel, LoopActionModel) {
    (LoopModel { phase: LoopPhase::Done, ..m }, act(stop, NextStep::Finish))
}

/// The error a failed write of an event of this kind reports.
pub open spec fn persist_error(kind: Seq<char>, msg: Seq<char>) -> StopReasonModel {
    StopReasonModel::Error(kind + " persist failed: "@ + msg)
}

pub open spec fn empty_turn() -> TurnModel {
    TurnModel { pending: Seq::empty(), saw_thought: false, saw_message: false, saw_call: false }
}

/// After the call of index `i` ran (or failed to be written, where the loop goes on): the
/// next call runs, or the next turn begins.
pub open spec fn after_call(m: LoopModel, i: usize, stop: Option<StopReasonModel>) -> (LoopModel, LoopActionModel) {
    if i + 1 < m.current.pending.len() {
        (
            LoopModel { phase: LoopPhase::RunningTool((i + 1) as usize), ..m },
            act(stop, NextStep::RunTool((i + 1) as usize)),
        )
    } else {
        (
            LoopModel { phase: LoopPhase::Start, turn: (m.turn + 1) as usize, ..m },
            act(stop, NextStep::NextTurn),
        )
    }
}

/// One step of the loop:
/// - a turn begins: when the turns are used up, an `EndTurn` stop is persisted and the run
///   ends; when the run was cancelled, it ends with `Cancelled`; else the history loads;
/// - the history: an error, or an empty history (`no messages to send`), ends the run
///   with that error; else the model's stream opens;
/// - the stream: an error ends the run with it; once open, the turn starts afresh and
///   events are read;
/// - a cancel while reading ends the run with `Cancelled`, after a cancelled result is
///   written for each pending call, in order;
/// - an event read is sent, or sent and persisted, as `turn_step` says; a failed write
///   ends the run with `<kind> persist failed: <error>`;
/// - the end of the stream: the turn's decision (`turn_decision_spec`) retries, ends the
///   run, or runs the pending calls in order;
/// - a call whose result could not be written ends the run with that error, except a call
///   of an unknown tool, after which the error is sent and the loop goes on;
/// - a cancelled result that could not be written ends the run with that error;
/// - in any other phase the event ends the run.
pub open spec fn loop_step_spec(m: LoopModel, e: LoopEventModel) -> (LoopModel, LoopActionModel) {
    match m.phase {
        LoopPhase::Start => match e {
            LoopEventModel::TurnBegins { cancelled } => if m.turn >= m.max_turns {
                (LoopModel { phase: LoopPhase::Done, ..m }, act(None, NextStep::PersistEndTurn))
            } else if cancelled {
                end_with(m, Some(StopReasonModel::Cancelled))
            } else {
                (LoopModel { phase: LoopPhase::Loading, ..m }, act(None, NextStep::LoadHistory))
            },
            _ => end_with(m, None),
        },
        LoopPhase::Loading => match e {
            LoopEventModel::HistoryLoaded { messages } => if messages == 0 {
                end_with(m, Some(StopReasonModel::Error("no messages to send"@)))
            } else {
                (LoopModel { phase: LoopPhase::Requesting, ..m }, act(None, NextStep::OpenStream))
            },
            LoopEventModel::HistoryFailed(msg) => end_with(m, Some(StopReasonModel::Error(msg))),
            _ => end_with(m, None),
        },
        LoopPhase::Requesting => match e {
            LoopEventModel::StreamOpened => (
                LoopModel { phase: LoopPhase::Streaming, current: empty_turn(), ..m },
                act(None, NextStep::ReadEvent),
            ),
            LoopEventModel::StreamFailed(msg) => end_with(m, Some(StopReasonModel::Error(msg))),
            _ => end_with(m, None),
        },
        LoopPhase::Streaming => match e {
            LoopEventModel::CancelSeen => if m.current.pending.len() == 0 {
                end_with(m, Some(StopReasonModel::Cancelled))
            } else {
                (
                    LoopModel { phase: LoopPhase::Cancelling(0), ..m },
                    act(None, NextStep::WriteCancelled(0)),
                )
            },
            LoopEventModel::Next(ev) => {
                let (t, a) = turn_step(m.current, ev);
                match a {
                    EventAction::EmitOnly => (
                        LoopModel { current: t, ..m },
                        act(None, NextStep::Send),
                    ),
                    EventAction::EmitAndPersist => (
                        LoopModel {
                            phase: LoopPhase::Persisting,
                            current: t,
                            persisting_kind: event_kind_spec(ev),
                            ..m
                        },
                        act(None, NextStep::SendAndPersist),
                    ),
                }
            },
            LoopEventModel::StreamEnded => match turn_decision_spec(m.current) {
                TurnDecision::Retry => (
                    LoopModel { phase: LoopPhase::Start, turn: (m.turn + 1) as usize, ..m },
                    act(None, NextStep::NextTurn),
                ),
                TurnDecision::Stop => end_with(m, None),
                TurnDecision::RunTools => (
                    LoopModel { phase: LoopPhase::RunningTool(0), ..m },
                    act(None, NextStep::RunTool(0)),
                ),
            },
            _ => end_with(m, None),
        },
        LoopPhase::Persisting => match e {
            LoopEventModel::Persisted => (
                LoopModel { phase: LoopPhase::Streaming, ..m },
                act(None, NextStep::ReadEvent),
            ),
            LoopEventModel::PersistFailed(msg) => end_with(
                m,
                Some(persist_error(m.persisting_kind, msg)),
            ),
            _ => end_with(m, None),
        },
        LoopPhase::RunningTool(i) => match e {
            LoopEventModel::ToolRan { found, append_error } => match append_error {
                Some(msg) => if found {
                    end_with(m, Some(persist_error("function_result"@, msg)))
                } else {
                    after_call(m, i, Some(persist_error("function_result"@, msg)))
                },
                None => after_call(m, i, None),
            },
            _ => end_with(m, None),
        },
        LoopPhase::Cancelling(i) => match e {
            LoopEventModel::CancelledResultWritten { append_error } => match append_error {
                Some(msg) => end_with(m, Some(persist_error("function_result"@, msg))),
                None => if i + 1 < m.current.pending.len() {
                    (
                        LoopModel { phase: LoopPhase::Cancelling((i + 1) as usize), ..m },
                        act(None, NextStep::WriteCancelled((i + 1) as usize)),
                    )
                } else {
                    end_with(m, Some(StopReasonModel::Cancelled))
                },
            },
            _ => end_with(m, None),
        },
        LoopPhase::Done => end_with(m, None),
    }
}

fn persist_error_reason(kind: &str, msg: &String) -> (r: StopReason)
    ensures
        r@ == persist_error(kind@, msg@),
{
    let mut v: Vec<char> = Vec::new();
    push_str(&mut v, kind);
    push_str(&mut v, " persist failed: ");
    push_str(&mut v, msg.as_str());
    StopReason::Error(string_of(&v))
}

impl ToolLoop {
    /// A loop that may begin `max_turns` turns; it stands before its first turn.
    pub fn new(max_turns: usize) -> (r: ToolLoop)
        ensures
            r@.phase == LoopPhase::Start,
            r@.turn == 0,
            r@.max_turns == max_turns,
            r@.current == empty_turn(),
            loop_wf(r@),
    {
        let current = TurnConsumer::new();
        assert(current@.pending =~= Seq::<crate::runner::PendingModel>::empty());
        ToolLoop { phase: LoopPhase::Start, turn: 0, max_turns, current, persisting_kind: String::new() }
    }

    fn finish_with(&mut self, stop: Option<StopReason>) -> (r: LoopAction)
        ensures
            final(self)@ == (LoopModel { phase: LoopPhase::Done, ..old(self)@ }),
            r@ == act(
                match stop {
                    Some(s) => Some(s@),
                    None => None,
                },
                NextStep::Finish,
            ),
    {
        self.phase = LoopPhase::Done;
        LoopAction { send_stop: stop, next: NextStep::Finish }
    }

    fn next_call(&mut self, i: usize, stop: Option<StopReason>) -> (r: LoopAction)
        requires
            loop_wf(old(self)@),
            old(self)@.phase == LoopPhase::RunningTool(i),
        ensures
            (final(self)@, r@) == after_call(
                old(self)@,
                i,
                match stop {
                    Some(s) => Some(s@),
                    None => None,
                },
            ),
            loop_wf(final(self)@),
    {
        let n = self.current.pending.len();
        assert(self.current@.pending.len() == n);
        if i + 1 < n {
            self.phase = LoopPhase::RunningTool(i + 1);
            LoopAction { send_stop: stop, next: NextStep::RunTool(i + 1) }
        } else {
            self.phase = LoopPhase::Start;
            self.turn = self.turn + 1;
            LoopAction { send_stop: stop, next: NextStep::NextTurn }
        }
    }

    /// Takes what happened in the step just performed; says what to do next (see
    /// `loop_step_spec`).
    pub fn step(&mut self, e: LoopEvent) -> (r: LoopAction)
        requires
            loop_wf(old(self)@),
        ensures
            (final(self)@, r@) == loop_step_spec(old(self)@, e@),
            loop_wf(final(self)@),
    {
        match self.phase {
            LoopPhase::Start => match e {
                LoopEvent::TurnBegins { cancelled } => {
                    if self.turn >= self.max_turns {
                        self.phase = LoopPhase::Done;
                        LoopAction { send_stop: None, next: NextStep::PersistEndTurn }
                    } else if cancelled {
                        self.finish_with(Some(StopReason::Cancelled))
                    } else {
                        self.phase = LoopPhase::Loading;
                        LoopAction { send_stop: None, next: NextStep::LoadHistory }
                    }
                },
                _ => self.finish_with(None),
            },
            LoopPhase::Loading => match e {
                LoopEvent::HistoryLoaded { messages } => {
                    if messages == 0 {
                        let t = chars_of("no messages to send");
                        self.finish_with(Some(StopReason::Error(string_of(&t))))
                    } else {
                        self.phase = LoopPhase::Requesting;
                        LoopAction { send_stop: None, next: NextStep::OpenStream }
                    }
                },
                LoopEvent::HistoryFailed(msg) => self.finish_with(Some(StopReason::Error(msg))),
                _ => self.finish_with(None),
            },
            LoopPhase::Requesting => match e {
                LoopEvent::StreamOpened => {
                    self.phase = LoopPhase::Streaming;
                    self.current = TurnConsumer::new();
                    assert(self.current@.pending =~= Seq::<crate::runner::PendingModel>::empty());
                    LoopAction { send_stop: None, next: NextStep::ReadEvent }
                },
                LoopEvent::StreamFailed(msg) => self.finish_with(Some(StopReason::Error(msg))),
                _ => self.finish_with(None),
            },
            LoopPhase::Streaming => match e {
                LoopEvent::CancelSeen => {
                    if self.current.pending.len() == 0 {
                        self.finish_with(Some(StopReason::Cancelled))
                    } else {
                        self.phase = LoopPhase::Cancelling(0);
                        LoopAction { send_stop: None, next: NextStep::WriteCancelled(0) }
                    }
                },
                LoopEvent::Next(ev) => {
                    let a = self.current.classify(&ev);
                    match a {
                        EventAction::EmitOnly => LoopAction { send_stop: None, next: NextStep::Send },
                        EventAction::EmitAndPersist => {
                            let k = event_kind(&ev);
                            let kv = chars_of(k);
                            self.persisting_kind = string_of(&kv);
                            self.phase = LoopPhase::Persisting;
                            LoopAction { send_stop: None, next: NextStep::SendAndPersist }
                        },
                    }
                },
                LoopEvent::StreamEnded => match self.current.decision() {
                    TurnDecision::Retry => {
                        self.phase = LoopPhase::Start;
                        self.turn = self.turn + 1;
                        LoopAction { send_stop: None, next: NextStep::NextTurn }
                    },
                    TurnDecision::Stop => self.finish_with(None),
                    TurnDecision::RunTools => {
                        self.phase = LoopPhase::RunningTool(0);
                        LoopAction { send_stop: None, next: NextStep::RunTool(0) }
                    },
                },
                _ => self.finish_with(None),
            },
            LoopPhase::Persisting => match e {
                LoopEvent::Persisted => {
                    self.phase = LoopPhase::Streaming;
                    LoopAction { send_stop: None, next: NextStep::ReadEvent }
                },
                LoopEvent::PersistFailed(msg) => {
                    let r = persist_error_reason(self.persisting_kind.as_str(), &msg);
                    self.finish_with(Some(r))
                },
                _ => self.finish_with(None),
            },
            LoopPhase::RunningTool(i) => match e {
                LoopEvent::ToolRan { found, append_error } => match append_error {
                    Some(msg) => {
                        let r = persist_error_reason("function_result", &msg);
                        if found {
                            self.finish_with(Some(r))
                        } else {
                            self.next_call(i, Some(r))
                        }
                    },
                    None => self.next_call(i, None),
                },
                _ => self.finish_with(None),
            },
            LoopPhase::Cancelling(i) => match e {
                LoopEvent::CancelledResultWritten { append_error } => match append_error {
                    Some(msg) => {
                        let r = persist_error_reason("function_result", &msg);
                        self.finish_with(Some(r))
                    },
                    None => {
                        let n = self.current.pending.len();
                        assert(self.current@.pending.len() == n);
                        if i + 1 < n {
                            self.phase = LoopPhase::Cancelling(i + 1);
                            LoopAction { send_stop: None, next: NextStep::WriteCancelled(i + 1) }
                        } else {
                            self.finish_with(Some(StopReason::Cancelled))
                        }
                    },
                },
                _ => self.finish_with(None),
            },
            LoopPhase::Done => self.finish_with(None),
        }
    }
}

/// The loop fed events in order: its state after them and the actions it gave.
pub open spec fn loop_run(m: LoopModel, es: Seq<LoopEventModel>) -> (LoopModel, Seq<LoopActionModel>)
    decreases es.len(),
{
    if es.len() == 0 {
        (m, Seq::empty())
    } else {
        let (m1, a) = loop_step_spec(m, es[0]);
        let (m2, rest) = loop_run(m1, es.skip(1));
        (m2, seq![a] + rest)
    }
}

/// `n` cancelled results written without error.
pub open spec fn written(n: nat) -> Seq<LoopEventModel> {
    Seq::new(n, |i: int| LoopEventModel::CancelledResultWritten { append_error: None })
}

/// The actions asking for the cancelled results of the calls `from` to `to - 1`.
pub open spec fn cancel_writes(from: int, to: int) -> Seq<LoopActionModel> {
    Seq::new((to - from) as nat, |i: int| act(None, NextStep::WriteCancelled((from + i) as usize)))
}

proof fn lemma_cancelling_run(m: LoopModel, i: usize)
    requires
        m.phase == LoopPhase::Cancelling(i),
        i < m.current.pending.len(),
        m.current.pending.len() <= usize::MAX,
    ensures
        loop_run(m, written((m.current.pending.len() - i) as nat)).1 == cancel_writes(i + 1, m.current.pending.len() as int)
            + seq![act(Some(StopReasonModel::Cancelled), NextStep::Finish)],
    decreases m.current.pending.len() - i,
{
    let k = m.current.pending.len();
    let es = written((k - i) as nat);
    assert(es[0] == LoopEventModel::CancelledResultWritten { append_error: None });
    let (m1, a) = loop_step_spec(m, es[0]);
    assert(loop_run(m, es).1 == seq![a] + loop_run(m1, es.skip(1)).1);
    if i + 1 < k {
        assert(m1 == LoopModel { phase: LoopPhase::Cancelling((i + 1) as usize), ..m });
        assert(es.skip(1) =~= written((k - (i + 1)) as nat));
        lemma_cancelling_run(m1, (i + 1) as usize);
        assert(seq![a] + cancel_writes(i + 2, k as int) =~= cancel_writes(i + 1, k as int));
        assert(seq![a] + (cancel_writes(i + 2, k as int) + seq![act(Some(StopReasonModel::Cancelled), NextStep::Finish)])
            =~= cancel_writes(i + 1, k as int) + seq![act(Some(StopReasonModel::Cancelled), NextStep::Finish)]);
    } else {
        assert(es.skip(1) =~= Seq::<LoopEventModel>::empty());
        assert(loop_run(m1, es.skip(1)).1 == Seq::<LoopActionModel>::empty());
        assert(cancel_writes(i + 1, k as int) =~= Seq::<LoopActionModel>::empty());
        assert(seq![a] + Seq::<LoopActionModel>::empty() =~= seq![a]);
        assert(Seq::<LoopActionModel>::empty() + seq![a] =~= seq![a]);
    }
}

/// A cancel while a turn is read ends the run only after a cancelled result is asked for
/// each call pending then, in order: the cancel and the `n` writes that follow it give
/// `WriteCancelled(0)` to `WriteCancelled(n - 1)`, then the `Cancelled` stop. Without
/// pending calls the cancel gives the `Cancelled` stop at once.
pub proof fn law_cancel_answers_pending_calls(m: LoopModel)
    requires
        m.phase == LoopPhase::Streaming,
        m.current.pending.len() <= usize::MAX,
    ensures
        m.current.pending.len() == 0 ==> loop_run(m, seq![LoopEventModel::CancelSeen]).1 == seq![
            act(Some(StopReasonModel::Cancelled), NextStep::Finish),
        ],
        m.current.pending.len() > 0 ==> loop_run(
            m,
            seq![LoopEventModel::CancelSeen] + written(m.current.pending.len()),
        ).1 == cancel_writes(0, m.current.pending.len() as int) + seq![
            act(Some(StopReasonModel::Cancelled), NextStep::Finish),
        ],
{
    let k = m.current.pending.len();
    if k == 0 {
        let es = seq![LoopEventModel::CancelSeen];
        assert(es[0] == LoopEventModel::CancelSeen);
        assert(es.skip(1) =~= Seq::<LoopEventModel>::empty());
        let (m1, a) = loop_step_spec(m, es[0]);
        assert(a == act(Some(StopReasonModel::Cancelled), NextStep::Finish));
        assert(loop_run(m1, es.skip(1)).1 == Seq::<LoopActionModel>::empty());
        assert(loop_run(m, es).1 == seq![a] + loop_run(m1, es.skip(1)).1);
        assert(seq![a] + Seq::<LoopActionModel>::empty() =~= seq![a]);
    } else {
        let es = seq![LoopEventModel::CancelSeen] + written(k);
        assert(es[0] == LoopEventModel::CancelSeen);
        assert(es.skip(1) =~= written(k));
        let (m1, a) = loop_step_spec(m, es[0]);
        assert(loop_run(m, es).1 == seq![a] + loop_run(m1, es.skip(1)).1);
        assert(m1 == LoopModel { phase: LoopPhase::Cancelling(0), ..m });
        assert(written((k - 0) as nat) =~= written(k));
        lemma_cancelling_run(m1, 0);
        assert(seq![a] + (cancel_writes(1, k as int) + seq![act(Some(StopReasonModel::Cancelled), NextStep::Finish)])
            =~= cancel_writes(0, k as int) + seq![act(Some(StopReasonModel::Cancelled), NextStep::Finish)]);
    }
}

/// Tool runs that all wrote their results: one `ToolRan` per pending call, whether the
/// tool was found as `found` says.
pub open spec fn all_ran(found: Seq<bool>) -> Seq<LoopEventModel> {
    Seq::new(found.len(), |i: int| LoopEventModel::ToolRan { found: found[i], append_error: None })
}

/// The actions asking to run the calls `from` to `to - 1`.
pub open spec fn run_calls(from: int, to: int) -> Seq<LoopActionModel> {
    Seq::new((to - from) as nat, |i: int| act(None, NextStep::RunTool((from + i) as usize)))
}

proof fn lemma_running_run(m: LoopModel, i: usize, found: Seq<bool>)
    requires
        m.phase == LoopPhase::RunningTool(i),
        i < m.current.pending.len(),
        m.current.pending.len() <= usize::MAX,
        found.len() == m.current.pending.len() - i,
    ensures
        loop_run(m, all_ran(found)).1 == run_calls(i + 1, m.current.pending.len() as int) + seq![
            act(None, NextStep::NextTurn),
        ],
        loop_run(m, all_ran(found)).0 == (LoopModel { phase: LoopPhase::Start, turn: (m.turn + 1) as usize, ..m }),
    decreases m.current.pending.len() - i,
{
    let k = m.current.pending.len();
    let es = all_ran(found);
    assert(es[0] == LoopEventModel::ToolRan { found: found[0], append_error: None });
    let (m1, a) = loop_step_spec(m, es[0]);
    assert(loop_run(m, es) == (loop_run(m1, es.skip(1)).0, seq![a] + loop_run(m1, es.skip(1)).1));
    if i + 1 < k {
        assert(m1 == LoopModel { phase: LoopPhase::RunningTool((i + 1) as usize), ..m });
        assert(es.skip(1) =~= all_ran(found.skip(1)));
        lemma_running_run(m1, (i + 1) as usize, found.skip(1));
        assert(seq![a] + (run_calls(i + 2, k as int) + seq![act(None, NextStep::NextTurn)])
            =~= run_calls(i + 1, k as int) + seq![act(None, NextStep::NextTurn)]);
    } else {
        assert(es.skip(1) =~= Seq::<LoopEventModel>::empty());
        assert(loop_run(m1, es.skip(1)) == (m1, Seq::<LoopActionModel>::empty()));
        assert(run_calls(i + 1, k as int) =~= Seq::<LoopActionModel>::empty());
        assert(seq![a] + Seq::<LoopActionModel>::empty() =~= seq![a]);
        assert(Seq::<LoopActionModel>::empty() + seq![a] =~= seq![a]);
    }
}

/// Every call of a turn runs exactly once, in order, before the next turn: when the
/// stream of a turn with `n` pending calls ends, and each run writes its result, the loop
/// asks for `RunTool(0)` to `RunTool(n - 1)`, each once, and only then begins the next
/// turn.
pub proof fn law_each_call_runs_once(m: LoopModel, found: Seq<bool>)
    requires
        loop_wf(m),
        m.phase == LoopPhase::Streaming,
        turn_decision_spec(m.current) == TurnDecision::RunTools,
        m.current.pending.len() <= usize::MAX,
        found.len() == m.current.pending.len(),
    ensures
        loop_run(m, seq![LoopEventModel::StreamEnded] + all_ran(found)).1 == run_calls(
            0,
            m.current.pending.len() as int,
        ) + seq![act(None, NextStep::NextTurn)],
        loop_run(m, seq![LoopEventModel::StreamEnded] + all_ran(found)).0.phase == LoopPhase::Start,
        loop_run(m, seq![LoopEventModel::StreamEnded] + all_ran(found)).0.turn == m.turn + 1,
{
    let k = m.current.pending.len();
    let es = seq![LoopEventModel::StreamEnded] + all_ran(found);
    assert(es[0] == LoopEventModel::StreamEnded);
    assert(es.skip(1) =~= all_ran(found));
    let (m1, a) = loop_step_spec(m, es[0]);
    assert(loop_run(m, es) == (loop_run(m1, es.skip(1)).0, seq![a] + loop_run(m1, es.skip(1)).1));
    assert(m1 == LoopModel { phase: LoopPhase::RunningTool(0), ..m });
    assert(k > 0);
    lemma_running_run(m1, 0, found);
    assert(seq![a] + (run_calls(1, k as int) + seq![act(None, NextStep::NextTurn)])
        =~= run_calls(0, k as int) + seq![act(None, NextStep::NextTurn)]);
}

/// Events that all report a tool run (found or not, written or not).
pub open spec fn all_tool_runs(es: Seq<LoopEventModel>) -> bool {
    forall|q: int| 0 <= q < es.len() ==> (#[trigger] es[q]) is ToolRan
}

/// How the calls from index `i + 1` on are asked for: the first `t` actions ask for
/// `RunTool(i + 1)` to `RunTool(i + t)`, in order; the action after them, if any, begins
/// the next turn once every call was asked for, or ends the run after a found tool whose
/// result could not be written.
pub open spec fn calls_asked_from(
    i: int,
    k: int,
    es: Seq<LoopEventModel>,
    acts: Seq<LoopActionModel>,
    t: int,
) -> bool {
    &&& 0 <= t <= acts.len()
    &&& forall|q: int| 0 <= q < t ==> (#[trigger] acts[q]).next == NextStep::RunTool((i + 1 + q) as usize) && i + 1 + q < k
    &&& t < acts.len() ==> (acts[t].next == NextStep::NextTurn && i + 1 + t == k) || (acts[t].next
        == NextStep::Finish && es[t] matches LoopEventModel::ToolRan { found: true, append_error: Some(_) })
}

proof fn lemma_run_len(m: LoopModel, es: Seq<LoopEventModel>)
    ensures
        loop_run(m, es).1.len() == es.len(),
    decreases es.len(),
{
    if es.len() > 0 {
        let (m1, a) = loop_step_spec(m, es[0]);
        lemma_run_len(m1, es.skip(1));
    }
}

proof fn lemma_tool_phase(m: LoopModel, i: usize, es: Seq<LoopEventModel>)
    requires
        m.phase == LoopPhase::RunningTool(i),
        i < m.current.pending.len(),
        m.current.pending.len() <= usize::MAX,
        all_tool_runs(es),
    ensures
        exists|t: int| calls_asked_from(i as int, m.current.pending.len() as int, es, loop_run(m, es).1, t),
    decreases es.len(),
{
    let k = m.current.pending.len() as int;
    let acts = loop_run(m, es).1;
    if es.len() == 0 {
        assert(calls_asked_from(i as int, k, es, acts, 0));
    } else {
        let (m1, a) = loop_step_spec(m, es[0]);
        assert(es[0] is ToolRan);
        assert(acts == seq![a] + loop_run(m1, es.skip(1)).1);
        assert(acts[0] == a);
        let stops = match es[0] {
            LoopEventModel::ToolRan { found, append_error } => append_error is Some && found,
            _ => false,
        };
        if stops {
            assert(a.next == NextStep::Finish);
            assert(calls_asked_from(i as int, k, es, acts, 0));
        } else if i + 1 < k {
            assert(a.next == NextStep::RunTool((i + 1) as usize));
            assert(m1.phase == LoopPhase::RunningTool((i + 1) as usize));
            assert(m1.current == m.current);
            assert forall|q: int| 0 <= q < es.skip(1).len() implies (#[trigger] es.skip(1)[q]) is ToolRan by {
                assert(es.skip(1)[q] == es[q + 1]);
            }
            lemma_tool_phase(m1, (i + 1) as usize, es.skip(1));
            let rest = loop_run(m1, es.skip(1)).1;
            let i1: int = i + 1;
            let es1 = es.skip(1);
            let t2 = choose|t2: int| #[trigger] calls_asked_from(i1, k, es1, rest, t2);
            assert forall|q: int| 0 <= q < t2 + 1 implies (#[trigger] acts[q]).next == NextStep::RunTool((i + 1 + q) as usize) && i + 1 + q < k by {
                if q > 0 {
                    assert(acts[q] == rest[q - 1]);
                }
            }
            if t2 < rest.len() {
                lemma_run_len(m1, es1);
                assert(acts[t2 + 1] == rest[t2]);
                assert(es[t2 + 1] == es.skip(1)[t2]);
            }
            assert(calls_asked_from(i as int, k, es, acts, t2 + 1));
        } else {
            assert(a.next == NextStep::NextTurn);
            assert(calls_asked_from(i as int, k, es, acts, 0));
        }
    }
}

/// Every call of a turn is answered exactly once, in order, before the next turn: once
/// the stream of a turn with `n` pending calls ends, whatever the tool runs report, the
/// loop asks for `RunTool(0)`, `RunTool(1)`, ... each once and in order; the next turn
/// begins only after `RunTool(n - 1)`, and the run ends early only after a found tool
/// whose result could not be written. (A cancel answers the pending calls in the same
/// way: see `law_cancel_answers_pending_calls`.)
pub proof fn law_calls_answered_once(m: LoopModel, es: Seq<LoopEventModel>)
    requires
        m.phase == LoopPhase::Streaming,
        turn_decision_spec(m.current) == TurnDecision::RunTools,
        m.current.pending.len() <= usize::MAX,
        all_tool_runs(es),
    ensures
        ({
            let acts = loop_run(m, seq![LoopEventModel::StreamEnded] + es).1;
            &&& acts[0].next == NextStep::RunTool(0)
            &&& exists|t: int| calls_asked_from(0, m.current.pending.len() as int, es, acts.skip(1), t)
        }),
{
    let all = seq![LoopEventModel::StreamEnded] + es;
    assert(all[0] == LoopEventModel::StreamEnded);
    assert(all.skip(1) =~= es);
    let (m1, a) = loop_step_spec(m, all[0]);
    let acts = loop_run(m, all).1;
    assert(acts == seq![a] + loop_run(m1, es).1);
    assert(m1.phase == LoopPhase::RunningTool(0));
    assert(m.current.pending.len() > 0);
    lemma_tool_phase(m1, 0, es);
    assert(acts.skip(1) =~= loop_run(m1, es).1);
}

} // verus!
