//! Sub-agents: what a finished sub-agent run hands back to the agent that spawned it.
use vstd::prelude::*;
use crate::content::{BlockModel, ContentBlock};
use crate::convert::text_blocks_concat;
use crate::event::{Event, EventModel, StopReasonModel, event_model, events_model};
use crate::content::blocks_model;
use crate::text::{push_str, string_of, trim, trimmed};

verus! {

broadcast use vstd::string::group_string_axioms;

/// The meta key under which a spawn result carries the sub-agent's session info.
pub const SUBAGENT_SESSION_INFO_META_KEY: &'static str = "subagent_session_info";

/// What one sub-agent run gives back.
#[derive(Debug)]
pub struct SubagentOutput {
    /// The text of the sub-agent's final message.
    pub text: String,
    /// The index of the last visible entry of the session after the run.
    pub message_end_index: usize,
}

/// Events that make an entry a user sees: user and model messages, thoughts and calls.
pub open spec fn is_visible_entry(e: EventModel) -> bool {
    e is UserMessage || e is ModelMessage || e is ModelThought || e is FunctionCall
}

/// The number of visible entries among some events.
pub open spec fn visible_count(es: Seq<EventModel>) -> nat
    decreases es.len(),
{
    if es.len() == 0 {
        0
    } else {
        visible_count(es.drop_last()) + if is_visible_entry(es.last()) {
            1nat
        } else {
            0nat
        }
    }
}

/// The number of visible entries of a session's events.
pub fn entry_count(events: &Vec<Event>) -> (r: usize)
    ensures
        r == visible_count(events_model(events@)),
{
    let mut n: usize = 0;
    let mut i: usize = 0;
    while i < events.len()
        invariant
            i <= events.len(),
            n == visible_count(events_model(events@.take(i as int))),
            n <= i,
        decreases events.len() - i,
    {
        proof {
            let m = events_model(events@.take(i + 1));
            assert(m.drop_last() =~= events_model(events@.take(i as int)));
            assert(m.last() == events@[i as int]@);
        }
        match &events[i] {
            Event::UserMessage { .. }
            | Event::ModelMessage { .. }
            | Event::ModelThought { .. }
            | Event::FunctionCall { .. } => {
                n = n + 1;
            },
            _ => {},
        }
        i = i + 1;
    }
    assert(events@.take(events.len() as int) =~= events@);
    n
}

/// The state of a sub-agent run as its events arrive: the text of the last model message,
/// the error the last turn stop reported, and the text of the last tool output that was
/// not blank.
pub struct SubagentCollector {
    pub output: String,
    pub error: Option<String>,
    pub last_tool_output: String,
}

pub struct CollectorModel {
    pub output: Seq<char>,
    pub error: Option<Seq<char>>,
    pub last_tool_output: Seq<char>,
}

impl View for SubagentCollector {
    type V = CollectorModel;

    open spec fn view(&self) -> CollectorModel {
        CollectorModel {
            output: self.output@,
            error: match self.error {
                Some(e) => Some(e@),
                None => None,
            },
            last_tool_output: self.last_tool_output@,
        }
    }
}

/// The error a turn stop reports: its error text, or a fixed text for a cancelled or
/// refused run, or none.
pub open spec fn stop_error(r: StopReasonModel) -> Option<Seq<char>> {
    match r {
        StopReasonModel::Error(e) => Some(e),
        StopReasonModel::Cancelled => Some("子代理被取消"@),
        StopReasonModel::Refusal => Some("子代理拒绝处理该消息"@),
        _ => None,
    }
}

/// One event of the run: a model message sets the output to its text; a function result
/// whose text is not blank becomes the last tool output; a turn stop sets the error (a
/// later turn stop replaces an earlier one).
pub open spec fn collect_step(m: CollectorModel, e: EventModel) -> CollectorModel {
    match e {
        EventModel::ModelMessage { content, .. } => CollectorModel {
            output: text_blocks_concat(content),
            ..m
        },
        EventModel::FunctionResult { content, .. } => match content {
            Some(bs) => if trim(text_blocks_concat(bs)).len() > 0 {
                CollectorModel { last_tool_output: text_blocks_concat(bs), ..m }
            } else {
                m
            },
            None => m,
        },
        EventModel::TurnStop { stop_reason, .. } => CollectorModel {
            error: stop_error(stop_reason),
            ..m
        },
        _ => m,
    }
}

/// The result of a run: the error, when one was reported; else the output, or, when it
/// is blank, a note that holds the last tool output (or says there was none).
pub open spec fn collect_result(m: CollectorModel) -> Result<Seq<char>, Seq<char>> {
    match m.error {
        Some(e) => Err(e),
        None => if trim(m.output).len() > 0 {
            Ok(m.output)
        } else if trim(m.last_tool_output).len() > 0 {
            Ok("（子代理仅执行了工具调用，无文本总结。最后工具输出：\n"@ + m.last_tool_output + "）"@)
        } else {
            Ok("（子代理已完成任务，未返回文本消息）"@)
        },
    }
}

/// The error recorded when the parent session is cancelled.
pub open spec fn parent_cancel_error() -> Seq<char> {
    "父会话已取消，子代理随之取消"@
}

fn text_of_blocks(bs: &Vec<ContentBlock>) -> (r: Vec<char>)
    ensures
        r@ == text_blocks_concat(blocks_model(bs@)),
{
    let mut out: Vec<char> = Vec::new();
    let mut i: usize = 0;
    while i < bs.len()
        invariant
            i <= bs.len(),
            out@ == text_blocks_concat(blocks_model(bs@.take(i as int))),
        decreases bs.len() - i,
    {
        let ghost before = out@;
        match &bs[i] {
            ContentBlock::Text(t) => push_str(&mut out, t.text.as_str()),
            _ => {},
        }
        i = i + 1;
        proof {
            let m = blocks_model(bs@.take(i as int));
            assert(m.drop_last() =~= blocks_model(bs@.take(i - 1)));
            assert(m.last() == bs@[i - 1]@);
            match bs@[i - 1] {
                ContentBlock::Text(_) => {},
                _ => {
                    assert(out@ =~= before + Seq::<char>::empty());
                },
            }
        }
    }
    assert(bs@.take(bs.len() as int) =~= bs@);
    out
}

impl SubagentCollector {
    /// Nothing seen yet.
    pub fn new() -> (r: SubagentCollector)
        ensures
            r@ == (CollectorModel {
                output: Seq::empty(),
                error: None,
                last_tool_output: Seq::empty(),
            }),
    {
        SubagentCollector { output: String::new(), error: None, last_tool_output: String::new() }
    }

    /// Takes one event of the run (see `collect_step`).
    pub fn observe(&mut self, event: &Event)
        ensures
            final(self)@ == collect_step(old(self)@, event@),
    {
        match event {
            Event::ModelMessage { content, .. } => {
                let t = text_of_blocks(content);
                self.output = string_of(&t);
            },
            Event::FunctionResult { content, .. } => {
                match content {
                    Some(bs) => {
                        let t = text_of_blocks(bs);
                        let tt = trimmed(&t);
                        if tt.len() > 0 {
                            self.last_tool_output = string_of(&t);
                        }
                    },
                    None => {},
                }
            },
            Event::TurnStop { stop_reason, .. } => {
                self.error = match stop_reason {
                    crate::event::StopReason::Error(e) => Some(e.clone()),
                    crate::event::StopReason::Cancelled => Some("子代理被取消".to_owned()),
                    crate::event::StopReason::Refusal => Some("子代理拒绝处理该消息".to_owned()),
                    _ => None,
                };
            },
            _ => {},
        }
    }

    /// Records that the parent session was cancelled; the run stops here.
    pub fn parent_cancelled(&mut self)
        ensures
            final(self)@ == (CollectorModel { error: Some(parent_cancel_error()), ..old(self)@ }),
    {
        self.error = Some("父会话已取消，子代理随之取消".to_owned());
    }

    /// The result of the run (see `collect_result`); `entries` is the number of visible
    /// entries of the session after the run, and the end index is the last of them.
    pub fn finish(self, entries: usize) -> (r: Result<SubagentOutput, String>)
        ensures
            match (r, collect_result(self@)) {
                (Ok(o), Ok(t)) => o.text@ == t && o.message_end_index == if entries > 0 {
                    entries - 1
                } else {
                    0
                },
                (Err(e), Err(t)) => e@ == t,
                _ => false,
            },
    {
        let message_end_index = if entries > 0 {
            entries - 1
        } else {
            0
        };
        match self.error {
            Some(e) => Err(e),
            None => {
                let out = crate::text::chars_of(self.output.as_str());
                if trimmed(&out).len() > 0 {
                    Ok(SubagentOutput { text: self.output, message_end_index })
                } else {
                    let last = crate::text::chars_of(self.last_tool_output.as_str());
                    if trimmed(&last).len() > 0 {
                        let mut t: Vec<char> = Vec::new();
                        push_str(&mut t, "（子代理仅执行了工具调用，无文本总结。最后工具输出：\n");
                        push_str(&mut t, self.last_tool_output.as_str());
                        push_str(&mut t, "）");
                        Ok(SubagentOutput { text: string_of(&t), message_end_index })
                    } else {
                        Ok(
                            SubagentOutput {
                                text: "（子代理已完成任务，未返回文本消息）".to_owned(),
                                message_end_index,
                            },
                        )
                    }
                }
            },
        }
    }
}

/// A run that reported an error gives that error, whatever the messages before it; a
/// later turn stop without error clears an earlier error.
pub proof fn law_last_turn_stop_decides(m: CollectorModel, e: EventModel)
    requires
        e is TurnStop,
    ensures
        collect_step(m, e).error == stop_error(e->TurnStop_stop_reason),
        collect_step(m, e).output == m.output,
{
}

// ── a whole run ─────────────────────────────────────────────────────

pub open spec fn initial_collector() -> CollectorModel {
    CollectorModel { output: Seq::empty(), error: None, last_tool_output: Seq::empty() }
}

/// The collector after all events of a run, in order.
pub open spec fn collect_all(es: Seq<EventModel>) -> CollectorModel
    decreases es.len(),
{
    if es.len() == 0 {
        initial_collector()
    } else {
        collect_step(collect_all(es.drop_last()), es.last())
    }
}

/// The error of the last turn stop of a run (none without a turn stop).
pub open spec fn last_stop_error(es: Seq<EventModel>) -> Option<Seq<char>>
    decreases es.len(),
{
    if es.len() == 0 {
        None
    } else {
        match es.last() {
            EventModel::TurnStop { stop_reason, .. } => stop_error(stop_reason),
            _ => last_stop_error(es.drop_last()),
        }
    }
}

/// The text of the last model message of a run (empty without one).
pub open spec fn last_message_text(es: Seq<EventModel>) -> Seq<char>
    decreases es.len(),
{
    if es.len() == 0 {
        Seq::empty()
    } else {
        match es.last() {
            EventModel::ModelMessage { content, .. } => text_blocks_concat(content),
            _ => last_message_text(es.drop_last()),
        }
    }
}

/// The text of the last function result of a run whose text is not blank (empty without
/// one).
pub open spec fn last_tool_text(es: Seq<EventModel>) -> Seq<char>
    decreases es.len(),
{
    if es.len() == 0 {
        Seq::empty()
    } else {
        match es.last() {
            EventModel::FunctionResult { content: Some(bs), .. } if trim(text_blocks_concat(bs)).len() > 0 =>
                text_blocks_concat(bs),
            _ => last_tool_text(es.drop_last()),
        }
    }
}

/// What a sub-agent's run gives, from all the events it streamed (`parent_cancelled`: the
/// parent session was cancelled after them): the parent's cancel error; else the error of
/// the last turn stop, if it reported one; else the text of the last model message, or,
/// when it is blank, a note with the last tool output that was not blank, or a note that
/// there was none.
pub open spec fn run_result(es: Seq<EventModel>, parent_cancelled: bool) -> Result<Seq<char>, Seq<char>> {
    if parent_cancelled {
        Err(parent_cancel_error())
    } else {
        match last_stop_error(es) {
            Some(e) => Err(e),
            None => if trim(last_message_text(es)).len() > 0 {
                Ok(last_message_text(es))
            } else if trim(last_tool_text(es)).len() > 0 {
                Ok("（子代理仅执行了工具调用，无文本总结。最后工具输出：\n"@ + last_tool_text(es) + "）"@)
            } else {
                Ok("（子代理已完成任务，未返回文本消息）"@)
            },
        }
    }
}

proof fn lemma_collect_all(es: Seq<EventModel>)
    ensures
        collect_all(es).error == last_stop_error(es),
        collect_all(es).output == last_message_text(es),
        collect_all(es).last_tool_output == last_tool_text(es),
    decreases es.len(),
{
    if es.len() > 0 {
        lemma_collect_all(es.drop_last());
    }
}

/// The collector fed a whole run gives `run_result`: the last turn stop decides the
/// error, the last model message the text, the last non-blank tool output the fallback.
pub proof fn law_run_result(es: Seq<EventModel>, parent_cancelled: bool)
    ensures
        collect_result(
            if parent_cancelled {
                CollectorModel { error: Some(parent_cancel_error()), ..collect_all(es) }
            } else {
                collect_all(es)
            },
        ) == run_result(es, parent_cancelled),
{
    lemma_collect_all(es);
}

/// The result of a sub-agent's run from the events it streamed (see `run_result`);
/// `entries` is the number of visible entries of its session after the run.
pub fn collect_run(events: &Vec<Event>, parent_cancelled: bool, entries: usize) -> (r: Result<
    SubagentOutput,
    String,
>)
    ensures
        match (r, run_result(events_model(events@), parent_cancelled)) {
            (Ok(o), Ok(t)) => o.text@ == t && o.message_end_index == if entries > 0 {
                entries - 1
            } else {
                0
            },
            (Err(e), Err(t)) => e@ == t,
            _ => false,
        },
{
    let ghost es = events_model(events@);
    let mut c = SubagentCollector::new();
    let mut i: usize = 0;
    while i < events.len()
        invariant
            i <= events.len(),
            es == events_model(events@),
            c@ == collect_all(es.take(i as int)),
        decreases events.len() - i,
    {
        c.observe(&events[i]);
        i = i + 1;
        proof {
            assert(es.take(i as int).drop_last() =~= es.take(i - 1));
            assert(es.take(i as int).last() == events@[i - 1]@);
        }
    }
    assert(es.take(events.len() as int) =~= es);
    if parent_cancelled {
        c.parent_cancelled();
    }
    proof {
        law_run_result(es, parent_cancelled);
    }
    c.finish(entries)
}

} // verus!
