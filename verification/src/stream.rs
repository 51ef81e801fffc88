//! A model's streamed response → session events.
//!
//! The converter is a state machine: the caller feeds it the chunks of the stream in
//! order and then finishes it, handing in a fresh event id with every call; it hands
//! back the events to emit, in order.
use vstd::prelude::*;
use crate::content::{ContentBlock, text_model};
use crate::event::{Event, EventModel, StopReason, StopReasonModel, TokenUsage, event_model, events_model};
use crate::json::{JsonModel, JsonValue, json_model};

verus! {

broadcast use vstd::string::group_string_axioms;

/// Why the completion API says a response ended.
#[derive(Clone, Debug)]
pub enum FinishReason {
    Stop,
    Length,
    ContentFilter,
    ToolCalls,
    Other(String),
}

/// Token counts as the completion API reports them.
#[derive(Clone, Copy, Debug, PartialEq, Eq, Structural)]
pub struct CompletionUsage {
    pub input_tokens: u64,
    pub output_tokens: u64,
    pub total_tokens: u64,
    pub cached_input_tokens: u64,
    pub cache_creation_input_tokens: u64,
    pub tool_use_prompt_tokens: u64,
    pub reasoning_tokens: u64,
}

impl CompletionUsage {
    /// All counts zero.
    pub fn new() -> (r: CompletionUsage)
        ensures
            r.input_tokens == 0 && r.output_tokens == 0 && r.total_tokens == 0
                && r.cached_input_tokens == 0 && r.cache_creation_input_tokens == 0
                && r.tool_use_prompt_tokens == 0 && r.reasoning_tokens == 0,
    {
        CompletionUsage {
            input_tokens: 0,
            output_tokens: 0,
            total_tokens: 0,
            cached_input_tokens: 0,
            cache_creation_input_tokens: 0,
            tool_use_prompt_tokens: 0,
            reasoning_tokens: 0,
        }
    }
}

/// What the final chunk of a stream told.
#[derive(Clone, Debug)]
pub struct FinalResponseInfo {
    pub token_usage: Option<TokenUsage>,
    pub finish_reason: Option<FinishReason>,
}

pub enum FinishReasonKind {
    Stop,
    Length,
    ContentFilter,
    ToolCalls,
    Other,
}

pub open spec fn finish_kind(f: FinishReason) -> FinishReasonKind {
    match f {
        FinishReason::Stop => FinishReasonKind::Stop,
        FinishReason::Length => FinishReasonKind::Length,
        FinishReason::ContentFilter => FinishReasonKind::ContentFilter,
        FinishReason::ToolCalls => FinishReasonKind::ToolCalls,
        FinishReason::Other(_) => FinishReasonKind::Other,
    }
}

/// `length` ends with `MaxTokens`, a content filter with `Refusal`; no reason, `stop`,
/// `tool_calls` and any other reason end the turn normally.
pub open spec fn stop_reason_for(fr: Option<FinishReasonKind>) -> StopReasonModel {
    match fr {
        Some(FinishReasonKind::Length) => StopReasonModel::MaxTokens,
        Some(FinishReasonKind::ContentFilter) => StopReasonModel::Refusal,
        _ => StopReasonModel::EndTurn,
    }
}

pub open spec fn opt_finish_kind(fr: Option<FinishReason>) -> Option<FinishReasonKind> {
    match fr {
        Some(f) => Some(finish_kind(f)),
        None => None,
    }
}

/// The stop reason for the finish reason the completion API gave.
pub fn finish_reason_to_stop_reason(fr: Option<&FinishReason>) -> (r: StopReason)
    ensures
        r@ == stop_reason_for(
            match fr {
                Some(f) => Some(finish_kind(*f)),
                None => None,
            },
        ),
{
    match fr {
        None => StopReason::EndTurn,
        Some(FinishReason::Stop) => StopReason::EndTurn,
        Some(FinishReason::Length) => StopReason::MaxTokens,
        Some(FinishReason::ContentFilter) => StopReason::Refusal,
        Some(FinishReason::ToolCalls) => StopReason::EndTurn,
        Some(FinishReason::Other(_)) => StopReason::EndTurn,
    }
}

pub open spec fn positive_or_none(v: i32) -> Option<i32> {
    if v > 0 {
        Some(v)
    } else {
        None
    }
}

/// The token usage to record: none when neither input nor output tokens were counted;
/// else each count converted to `i32` (as `as i32` converts), the optional counts kept
/// only when positive.
pub open spec fn usage_spec(u: CompletionUsage) -> Option<TokenUsage> {
    if u.output_tokens > 0 || u.input_tokens > 0 {
        Some(
            TokenUsage {
                prompt_token_count: u.input_tokens as i32,
                candidates_token_count: u.output_tokens as i32,
                total_token_count: u.total_tokens as i32,
                cache_read_input_token_count: positive_or_none(u.cached_input_tokens as i32),
                cache_creation_input_token_count: positive_or_none(
                    u.cache_creation_input_tokens as i32,
                ),
                thinking_token_count: positive_or_none(u.reasoning_tokens as i32),
            },
        )
    } else {
        None
    }
}

fn positive(v: i32) -> (r: Option<i32>)
    ensures
        r == positive_or_none(v),
{
    if v > 0 {
        Some(v)
    } else {
        None
    }
}

/// The token usage to record for what the completion API reported.
pub fn usage_to_playpen(usage: &CompletionUsage) -> (r: Option<TokenUsage>)
    ensures
        r == usage_spec(*usage),
{
    if usage.output_tokens > 0 || usage.input_tokens > 0 {
        Some(
            TokenUsage {
                prompt_token_count: usage.input_tokens as i32,
                candidates_token_count: usage.output_tokens as i32,
                total_token_count: usage.total_tokens as i32,
                cache_read_input_token_count: positive(usage.cached_input_tokens as i32),
                cache_creation_input_token_count: positive(
                    usage.cache_creation_input_tokens as i32,
                ),
                thinking_token_count: positive(usage.reasoning_tokens as i32),
            },
        )
    } else {
        None
    }
}

// ── the converter ───────────────────────────────────────────────────

/// One chunk of a streamed response.
#[derive(Clone, Debug)]
pub enum StreamChunk {
    /// A piece of the answer text.
    Text(String),
    /// A whole reasoning block (not emitted: providers send reasoning as deltas).
    Reasoning,
    /// A piece of reasoning.
    ReasoningDelta(String),
    /// A complete tool call.
    ToolCall { call_id: String, name: String, args: JsonValue },
    /// A piece of a tool call (the complete call follows).
    ToolCallDelta,
    /// The end of the response, with usage and finish reason.
    Final { usage: CompletionUsage, finish_reason: Option<FinishReason> },
    /// A field the converter does not know.
    Unknown,
    /// A chunk that failed to arrive; it is skipped.
    Error(String),
}

/// Text accumulated since the last flush, with the id its deltas carry.
#[derive(Clone, Debug)]
pub struct AccumulatedText {
    pub id: String,
    pub text: String,
}

/// The converter's state.
pub struct StreamConverter {
    pub full_text: AccumulatedText,
    pub reasoning_text: AccumulatedText,
    pub info: FinalResponseInfo,
}

pub struct ConverterModel {
    pub text_id: Seq<char>,
    pub text: Seq<char>,
    pub reasoning_id: Seq<char>,
    pub reasoning: Seq<char>,
    pub usage: Option<TokenUsage>,
    pub finish: Option<FinishReasonKind>,
}

impl View for StreamConverter {
    type V = ConverterModel;

    open spec fn view(&self) -> ConverterModel {
        ConverterModel {
            text_id: self.full_text.id@,
            text: self.full_text.text@,
            reasoning_id: self.reasoning_text.id@,
            reasoning: self.reasoning_text.text@,
            usage: self.info.token_usage,
            finish: opt_finish_kind(self.info.finish_reason),
        }
    }
}

pub enum ChunkModel {
    Text(Seq<char>),
    Reasoning,
    ReasoningDelta(Seq<char>),
    ToolCall { call_id: Seq<char>, name: Seq<char>, args: JsonModel },
    ToolCallDelta,
    Final { usage: CompletionUsage, finish: Option<FinishReasonKind> },
    Unknown,
    Error,
}

pub open spec fn chunk_model(c: StreamChunk) -> ChunkModel {
    match c {
        StreamChunk::Text(t) => ChunkModel::Text(t@),
        StreamChunk::Reasoning => ChunkModel::Reasoning,
        StreamChunk::ReasoningDelta(t) => ChunkModel::ReasoningDelta(t@),
        StreamChunk::ToolCall { call_id, name, args } => ChunkModel::ToolCall {
            call_id: call_id@,
            name: name@,
            args: json_model(args),
        },
        StreamChunk::ToolCallDelta => ChunkModel::ToolCallDelta,
        StreamChunk::Final { usage, finish_reason } => ChunkModel::Final {
            usage,
            finish: opt_finish_kind(finish_reason),
        },
        StreamChunk::Unknown => ChunkModel::Unknown,
        StreamChunk::Error(_) => ChunkModel::Error,
    }
}

/// An id: the current one, or the fresh one when there is none yet.
pub open spec fn ensure_id(id: Seq<char>, fresh: Seq<char>) -> Seq<char> {
    if id.len() == 0 {
        fresh
    } else {
        id
    }
}

/// The accumulated thought and text flushed as complete events, thought first; empty
/// accumulations flush nothing.
pub open spec fn flush_events(m: ConverterModel) -> Seq<EventModel> {
    (if m.reasoning.len() > 0 {
        seq![EventModel::ModelThought { id: m.reasoning_id, text: m.reasoning }]
    } else {
        Seq::empty()
    }) + (if m.text.len() > 0 {
        seq![EventModel::ModelMessage { id: m.text_id, content: seq![text_model(m.text)] }]
    } else {
        Seq::empty()
    })
}

/// The model with the flushed accumulations reset (a flushed accumulation gets a new id
/// the next time).
pub open spec fn after_flush(m: ConverterModel) -> ConverterModel {
    ConverterModel {
        text_id: if m.text.len() > 0 {
            Seq::empty()
        } else {
            m.text_id
        },
        text: Seq::empty(),
        reasoning_id: if m.reasoning.len() > 0 {
            Seq::empty()
        } else {
            m.reasoning_id
        },
        reasoning: Seq::empty(),
        ..m
    }
}

/// A freshly drawn id: not empty, and none of the ids in use.
pub open spec fn fresh_for(m: ConverterModel, fresh: Seq<char>) -> bool {
    fresh.len() > 0 && fresh != m.text_id && fresh != m.reasoning_id
}

/// One chunk:
/// - text: append to the text, emit a text delta with the text's id;
/// - reasoning delta: append to the reasoning, emit a thought delta with its id;
/// - tool call: flush the thought and the text, then emit the call with the fresh id;
/// - final: record usage and finish reason, emit nothing;
/// - anything else: nothing.
pub open spec fn chunk_step(m: ConverterModel, c: ChunkModel, fresh: Seq<char>) -> (
    ConverterModel,
    Seq<EventModel>,
) {
    match c {
        ChunkModel::Text(t) => {
            let id = ensure_id(m.text_id, fresh);
            (
                ConverterModel { text_id: id, text: m.text + t, ..m },
                seq![EventModel::ModelMessageDelta { id, text: t }],
            )
        },
        ChunkModel::ReasoningDelta(t) => {
            let id = ensure_id(m.reasoning_id, fresh);
            (
                ConverterModel { reasoning_id: id, reasoning: m.reasoning + t, ..m },
                seq![EventModel::ModelThoughtDelta { id, text: t }],
            )
        },
        ChunkModel::ToolCall { call_id, name, args } => (
            after_flush(m),
            flush_events(m) + seq![EventModel::FunctionCall { id: fresh, call_id, name, args }],
        ),
        ChunkModel::Final { usage, finish } => (
            ConverterModel { usage: usage_spec(usage), finish, ..m },
            Seq::empty(),
        ),
        _ => (m, Seq::empty()),
    }
}

/// The end of the stream: the thought and the text flushed, then the turn stop with the
/// fresh id, the stop reason for the finish reason and the usage.
pub open spec fn finish_step(m: ConverterModel, fresh: Seq<char>) -> (ConverterModel, Seq<
    EventModel,
>) {
    (
        after_flush(m),
        flush_events(m) + seq![
            EventModel::TurnStop {
                id: fresh,
                stop_reason: stop_reason_for(m.finish),
                token_usage: m.usage,
            },
        ],
    )
}

impl StreamConverter {
    /// A converter that has seen nothing.
    pub fn new() -> (r: StreamConverter)
        ensures
            r@ == (ConverterModel {
                text_id: Seq::empty(),
                text: Seq::empty(),
                reasoning_id: Seq::empty(),
                reasoning: Seq::empty(),
                usage: None,
                finish: None,
            }),
    {
        StreamConverter {
            full_text: AccumulatedText { id: String::new(), text: String::new() },
            reasoning_text: AccumulatedText { id: String::new(), text: String::new() },
            info: FinalResponseInfo { token_usage: None, finish_reason: None },
        }
    }

    fn flush_into(&mut self, out: &mut Vec<Event>)
        ensures
            final(self)@ == after_flush(old(self)@),
            events_model(final(out)@) == events_model(old(out)@) + flush_events(old(self)@),
    {
        let ghost m = self@;
        let ghost before = out@;
        if self.reasoning_text.text.as_str().is_empty() {
            assert(self.reasoning_text.text@ =~= Seq::<char>::empty());
        } else {
            let mut id = String::new();
            let mut text = String::new();
            std::mem::swap(&mut id, &mut self.reasoning_text.id);
            std::mem::swap(&mut text, &mut self.reasoning_text.text);
            out.push(Event::ModelThought { id, text });
        }
        let ghost mid = out@;
        if self.full_text.text.as_str().is_empty() {
            assert(self.full_text.text@ =~= Seq::<char>::empty());
        } else {
            let mut id = String::new();
            let mut text = String::new();
            std::mem::swap(&mut id, &mut self.full_text.id);
            std::mem::swap(&mut text, &mut self.full_text.text);
            let mut content: Vec<ContentBlock> = Vec::new();
            let block = ContentBlock::text(text.as_str());
            content.push(block);
            assert(crate::content::blocks_model(content@) =~= seq![text_model(text@)]);
            out.push(Event::ModelMessage { id, content });
        }
        proof {
            let f = flush_events(m);
            assert(events_model(out@) =~= events_model(before) + f);
        }
    }

    /// Takes one chunk; returns the events to emit (see `chunk_step`).
    pub fn on_chunk(&mut self, chunk: StreamChunk, fresh: String) -> (r: Vec<Event>)
        requires
            fresh_for(old(self)@, fresh@),
        ensures
            (final(self)@, events_model(r@)) == chunk_step(old(self)@, chunk_model(chunk), fresh@),
    {
        let mut out: Vec<Event> = Vec::new();
        match chunk {
            StreamChunk::Text(t) => {
                if self.full_text.id.as_str().is_empty() {
                    self.full_text.id = fresh;
                }
                self.full_text.text.append(t.as_str());
                out.push(Event::ModelMessageDelta { id: self.full_text.id.clone(), text: t });
            },
            StreamChunk::ReasoningDelta(t) => {
                if self.reasoning_text.id.as_str().is_empty() {
                    self.reasoning_text.id = fresh;
                }
                self.reasoning_text.text.append(t.as_str());
                out.push(
                    Event::ModelThoughtDelta { id: self.reasoning_text.id.clone(), text: t },
                );
            },
            StreamChunk::ToolCall { call_id, name, args } => {
                self.flush_into(&mut out);
                let ghost before = out@;
                out.push(Event::FunctionCall { id: fresh, call_id, name, args });
                assert(events_model(out@) =~= events_model(before).push(event_model(out@.last())));
            },
            StreamChunk::Final { usage, finish_reason } => {
                self.info.token_usage = usage_to_playpen(&usage);
                self.info.finish_reason = finish_reason;
            },
            _ => {},
        }
        proof {
            if out@.len() == 1 {
                assert(events_model(out@) =~= seq![event_model(out@[0])]);
            } else if out@.len() == 0 {
                assert(events_model(out@) =~= Seq::<EventModel>::empty());
            }
        }
        out
    }

    /// Ends the stream; returns the closing events (see `finish_step`).
    pub fn finish(&mut self, fresh: String) -> (r: Vec<Event>)
        requires
            fresh_for(old(self)@, fresh@),
        ensures
            (final(self)@, events_model(r@)) == finish_step(old(self)@, fresh@),
    {
        let mut out: Vec<Event> = Vec::new();
        let ghost m = self@;
        self.flush_into(&mut out);
        let stop_reason = finish_reason_to_stop_reason(self.info.finish_reason.as_ref());
        let ghost before = out@;
        out.push(Event::TurnStop { id: fresh, stop_reason, token_usage: self.info.token_usage });
        assert(events_model(out@) =~= events_model(before).push(event_model(out@.last())));
        out
    }
}

/// Text deltas keep the id of the text they belong to, and the message flushed at a tool
/// call or at the end carries that same id: once the text has an id, further text
/// chunks emit deltas with it and leave it unchanged, and the flush emits the message
/// with it.
pub proof fn law_text_deltas_share_id(m: ConverterModel, t: Seq<char>, fresh: Seq<char>, fresh2: Seq<char>)
    requires
        m.text_id.len() > 0,
    ensures
        chunk_step(m, ChunkModel::Text(t), fresh).0.text_id == m.text_id,
        chunk_step(m, ChunkModel::Text(t), fresh).1 == seq![
            EventModel::ModelMessageDelta { id: m.text_id, text: t },
        ],
        m.text.len() + t.len() > 0 ==> finish_step(chunk_step(m, ChunkModel::Text(t), fresh).0, fresh2).1.contains(
            EventModel::ModelMessage { id: m.text_id, content: seq![text_model(m.text + t)] },
        ),
{
    let m2 = chunk_step(m, ChunkModel::Text(t), fresh).0;
    if m.text.len() + t.len() > 0 {
        let evs = finish_step(m2, fresh2).1;
        let e = EventModel::ModelMessage { id: m.text_id, content: seq![text_model(m.text + t)] };
        if m2.reasoning.len() > 0 {
            assert(evs[1] == e);
        } else {
            assert(evs[0] == e);
        }
    }
}

/// The first text chunk takes the fresh id, and text and thought take separate fresh ids:
/// a text id and a reasoning id come from different calls.
pub proof fn law_first_text_takes_fresh_id(m: ConverterModel, t: Seq<char>, fresh: Seq<char>)
    requires
        m.text_id.len() == 0,
    ensures
        chunk_step(m, ChunkModel::Text(t), fresh).0.text_id == fresh,
        chunk_step(m, ChunkModel::Text(t), fresh).0.reasoning_id == m.reasoning_id,
{
}

// ── whole streams ───────────────────────────────────────────────────

/// The converter run over chunks in order, chunk `i` handed the fresh id `fresh[i]`: the
/// state after them and the events they emitted.
pub open spec fn run_chunks(m: ConverterModel, cs: Seq<ChunkModel>, fresh: Seq<Seq<char>>) -> (
    ConverterModel,
    Seq<EventModel>,
)
    decreases cs.len(),
{
    if cs.len() == 0 {
        (m, Seq::empty())
    } else {
        let (m1, e1) = chunk_step(m, cs[0], fresh[0]);
        let (m2, e2) = run_chunks(m1, cs.skip(1), fresh.skip(1));
        (m2, e1 + e2)
    }
}

/// All events of a stream: those of its chunks, then those of its end, which is handed
/// the fresh id after the chunks'.
pub open spec fn stream_events(m: ConverterModel, cs: Seq<ChunkModel>, fresh: Seq<Seq<char>>) -> Seq<
    EventModel,
> {
    let (m1, e1) = run_chunks(m, cs, fresh);
    e1 + finish_step(m1, fresh[cs.len() as int]).1
}

/// The converter before any chunk.
pub open spec fn initial_converter() -> ConverterModel {
    ConverterModel {
        text_id: Seq::empty(),
        text: Seq::empty(),
        reasoning_id: Seq::empty(),
        reasoning: Seq::empty(),
        usage: None,
        finish: None,
    }
}

/// The usage and finish reason of the last final chunk, if there is one.
pub open spec fn last_final(cs: Seq<ChunkModel>) -> Option<(Option<TokenUsage>, Option<FinishReasonKind>)>
    decreases cs.len(),
{
    if cs.len() == 0 {
        None
    } else {
        match last_final(cs.skip(1)) {
            Some(x) => Some(x),
            None => match cs[0] {
                ChunkModel::Final { usage, finish } => Some((usage_spec(usage), finish)),
                _ => None,
            },
        }
    }
}

/// A chunk the converter skips: a whole reasoning block, a tool call delta, an unknown
/// chunk, an error.
pub open spec fn is_inert(c: ChunkModel) -> bool {
    c is Reasoning || c is ToolCallDelta || c is Unknown || c is Error
}

proof fn lemma_run_no_stop(m: ConverterModel, cs: Seq<ChunkModel>, fresh: Seq<Seq<char>>)
    ensures
        forall|i: int|
            0 <= i < run_chunks(m, cs, fresh).1.len() ==> !(#[trigger] run_chunks(m, cs, fresh).1[i] is TurnStop),
    decreases cs.len(),
{
    if cs.len() > 0 {
        let (m1, e1) = chunk_step(m, cs[0], fresh[0]);
        lemma_run_no_stop(m1, cs.skip(1), fresh.skip(1));
        let e2 = run_chunks(m1, cs.skip(1), fresh.skip(1)).1;
        assert forall|i: int| 0 <= i < e1.len() implies !(#[trigger] e1[i] is TurnStop) by {
            match cs[0] {
                ChunkModel::ToolCall { .. } => {
                    let f = flush_events(m);
                    if i < f.len() {
                        if m.reasoning.len() > 0 && i == 0 {
                        } else {
                        }
                    }
                },
                _ => {},
            }
        }
        assert forall|i: int| 0 <= i < (e1 + e2).len() implies !(#[trigger] (e1 + e2)[i] is TurnStop) by {
            if i < e1.len() {
                assert((e1 + e2)[i] == e1[i]);
            } else {
                assert((e1 + e2)[i] == e2[i - e1.len()]);
            }
        }
    }
}

proof fn lemma_run_final(m: ConverterModel, cs: Seq<ChunkModel>, fresh: Seq<Seq<char>>)
    ensures
        ({
            let m2 = run_chunks(m, cs, fresh).0;
            match last_final(cs) {
                Some((u, f)) => m2.usage == u && m2.finish == f,
                None => m2.usage == m.usage && m2.finish == m.finish,
            }
        }),
    decreases cs.len(),
{
    if cs.len() > 0 {
        let (m1, e1) = chunk_step(m, cs[0], fresh[0]);
        lemma_run_final(m1, cs.skip(1), fresh.skip(1));
    }
}

/// One turn stop closes every stream, and it is the last event: no chunk emits one, and
/// the end emits exactly one. It carries the stop reason and usage of the last final
/// chunk, as `finish_reason_to_stop_reason` and `usage_to_playpen` give them
/// (`stop_reason_for`, `usage_spec`), and `EndTurn` without usage when there is none.
pub proof fn law_one_stop_last(cs: Seq<ChunkModel>, fresh: Seq<Seq<char>>)
    ensures
        ({
            let es = stream_events(initial_converter(), cs, fresh);
            &&& es.len() > 0
            &&& (forall|i: int| 0 <= i < es.len() - 1 ==> !(#[trigger] es[i] is TurnStop))
            &&& es.last() matches EventModel::TurnStop { stop_reason, token_usage, .. }
                && match last_final(cs) {
                Some((u, f)) => stop_reason == stop_reason_for(f) && token_usage == u,
                None => stop_reason == StopReasonModel::EndTurn && token_usage.is_none(),
            }
        }),
{
    let m0 = initial_converter();
    let (m1, e1) = run_chunks(m0, cs, fresh);
    lemma_run_no_stop(m0, cs, fresh);
    lemma_run_final(m0, cs, fresh);
    let fin = finish_step(m1, fresh[cs.len() as int]).1;
    let es = e1 + fin;
    let f = flush_events(m1);
    assert(fin == f + seq![
        EventModel::TurnStop {
            id: fresh[cs.len() as int],
            stop_reason: stop_reason_for(m1.finish),
            token_usage: m1.usage,
        },
    ]);
    assert forall|i: int| 0 <= i < es.len() - 1 implies !(#[trigger] es[i] is TurnStop) by {
        if i < e1.len() {
            assert(es[i] == e1[i]);
        } else {
            assert(es[i] == fin[i - e1.len()]);
            assert(fin[i - e1.len()] == f[i - e1.len()]);
        }
    }
    assert(es.last() == fin.last());
}

proof fn lemma_run_append(m: ConverterModel, a: Seq<ChunkModel>, b: Seq<ChunkModel>, fa: Seq<Seq<char>>, fb: Seq<Seq<char>>)
    requires
        fa.len() == a.len(),
    ensures
        run_chunks(m, a + b, fa + fb) == ({
            let (m1, e1) = run_chunks(m, a, fa);
            let (m2, e2) = run_chunks(m1, b, fb);
            (m2, e1 + e2)
        }),
    decreases a.len(),
{
    if a.len() == 0 {
        assert(a + b =~= b);
        assert(fa + fb =~= fb);
        let (m2, e2) = run_chunks(m, b, fb);
        assert(Seq::<EventModel>::empty() + e2 =~= e2);
    } else {
        assert((a + b).skip(1) =~= a.skip(1) + b);
        assert((fa + fb).skip(1) =~= fa.skip(1) + fb);
        assert((a + b)[0] == a[0]);
        assert((fa + fb)[0] == fa[0]);
        let (m1, e1) = chunk_step(m, a[0], fa[0]);
        lemma_run_append(m1, a.skip(1), b, fa.skip(1), fb);
        let (ma, ea) = run_chunks(m1, a.skip(1), fa.skip(1));
        let (mb, eb) = run_chunks(ma, b, fb);
        assert(e1 + (ea + eb) =~= (e1 + ea) + eb);
    }
}

/// Chunks the converter skips may be left out of a stream: the stream without such a
/// chunk gives the same events, the fresh id that chunk was handed left out too.
pub proof fn law_inert_chunk_dropped(
    m: ConverterModel,
    pre: Seq<ChunkModel>,
    c: ChunkModel,
    post: Seq<ChunkModel>,
    fpre: Seq<Seq<char>>,
    f: Seq<char>,
    fpost: Seq<Seq<char>>,
)
    requires
        is_inert(c),
        fpre.len() == pre.len(),
    ensures
        run_chunks(m, pre + seq![c] + post, fpre + seq![f] + fpost) == run_chunks(m, pre + post, fpre + fpost),
{
    lemma_run_append(m, pre, seq![c] + post, fpre, seq![f] + fpost);
    lemma_run_append(m, pre, post, fpre, fpost);
    assert(pre + seq![c] + post =~= pre + (seq![c] + post));
    assert(fpre + seq![f] + fpost =~= fpre + (seq![f] + fpost));
    let m1 = run_chunks(m, pre, fpre).0;
    let cp = seq![c] + post;
    let fp = seq![f] + fpost;
    assert(cp.skip(1) =~= post);
    assert(fp.skip(1) =~= fpost);
    assert(cp[0] == c);
    assert(fp[0] == f);
    assert(chunk_step(m1, c, f) == (m1, Seq::<EventModel>::empty()));
    let (m2, e2) = run_chunks(m1, post, fpost);
    assert(Seq::<EventModel>::empty() + e2 =~= e2);
}

fn copy_chunk(c: &StreamChunk) -> (r: StreamChunk)
    ensures
        chunk_model(r) == chunk_model(*c),
{
    match c {
        StreamChunk::Text(t) => StreamChunk::Text(t.clone()),
        StreamChunk::Reasoning => StreamChunk::Reasoning,
        StreamChunk::ReasoningDelta(t) => StreamChunk::ReasoningDelta(t.clone()),
        StreamChunk::ToolCall { call_id, name, args } => StreamChunk::ToolCall {
            call_id: call_id.clone(),
            name: name.clone(),
            args: args.deep_clone(),
        },
        StreamChunk::ToolCallDelta => StreamChunk::ToolCallDelta,
        StreamChunk::Final { usage, finish_reason } => {
            let f = match finish_reason {
                Some(FinishReason::Stop) => Some(FinishReason::Stop),
                Some(FinishReason::Length) => Some(FinishReason::Length),
                Some(FinishReason::ContentFilter) => Some(FinishReason::ContentFilter),
                Some(FinishReason::ToolCalls) => Some(FinishReason::ToolCalls),
                Some(FinishReason::Other(o)) => Some(FinishReason::Other(o.clone())),
                None => None,
            };
            StreamChunk::Final { usage: *usage, finish_reason: f }
        },
        StreamChunk::Unknown => StreamChunk::Unknown,
        StreamChunk::Error(e) => StreamChunk::Error(e.clone()),
    }
}

pub open spec fn chunks_model(cs: Seq<StreamChunk>) -> Seq<ChunkModel> {
    cs.map_values(|c: StreamChunk| chunk_model(c))
}

pub open spec fn ids_view(v: Seq<String>) -> Seq<Seq<char>> {
    v.map_values(|s: String| s@)
}

/// Ids drawn afresh for each chunk and for the end: none empty, no two alike.
pub open spec fn fresh_ids(f: Seq<Seq<char>>) -> bool {
    &&& forall|i: int| 0 <= i < f.len() ==> (#[trigger] f[i]).len() > 0
    &&& forall|i: int, j: int| 0 <= i < j < f.len() ==> #[trigger] f[i] != #[trigger] f[j]
}

/// An id in use is empty or one of the first `n` fresh ids.
pub open spec fn id_drawn(id: Seq<char>, f: Seq<Seq<char>>, n: int) -> bool {
    id.len() == 0 || exists|k: int| 0 <= k < n && f[k] == id
}

proof fn lemma_run_one(m: ConverterModel, c: ChunkModel, f: Seq<char>)
    ensures
        run_chunks(m, seq![c], seq![f]) == chunk_step(m, c, f),
{
    let cs = seq![c];
    let fs = seq![f];
    assert(cs[0] == c);
    assert(fs[0] == f);
    assert(cs.skip(1) =~= Seq::<ChunkModel>::empty());
    let (m1, e1) = chunk_step(m, c, f);
    assert(run_chunks(m1, cs.skip(1), fs.skip(1)) == (m1, Seq::<EventModel>::empty()));
    assert(e1 + Seq::<EventModel>::empty() =~= e1);
}

/// A whole stream converted: the chunks in order, each handed its fresh id, then the end
/// (see `stream_events`; `law_one_stop_last` and `law_inert_chunk_dropped` say what such a
/// run gives).
pub fn convert_stream(chunks: &Vec<StreamChunk>, fresh: &Vec<String>) -> (r: Vec<Event>)
    requires
        fresh@.len() == chunks@.len() + 1,
        fresh_ids(ids_view(fresh@)),
    ensures
        events_model(r@) == stream_events(initial_converter(), chunks_model(chunks@), ids_view(fresh@)),
        messages_join_deltas(events_model(r@)),
        message_ids_distinct(events_model(r@)),
        thoughts_join_deltas(events_model(r@)),
        thought_ids_distinct(events_model(r@)),
        events_model(r@).last() matches EventModel::TurnStop { stop_reason, token_usage, .. } && match last_final(
            chunks_model(chunks@),
        ) {
            Some((u, f)) => stop_reason == stop_reason_for(f) && token_usage == u,
            None => stop_reason == StopReasonModel::EndTurn && token_usage.is_none(),
        },
        forall|i: int| 0 <= i < r@.len() - 1 ==> !((#[trigger] events_model(r@)[i]) is TurnStop),
{
    let ghost cs = chunks_model(chunks@);
    let ghost fs = ids_view(fresh@);
    let mut c = StreamConverter::new();
    let mut out: Vec<Event> = Vec::new();
    let mut i: usize = 0;
    assert(cs.take(0) =~= Seq::<ChunkModel>::empty());
    assert(fs.take(0) =~= Seq::<Seq<char>>::empty());
    assert(events_model(out@) =~= Seq::<EventModel>::empty());
    while i < chunks.len()
        invariant
            i <= chunks.len(),
            fresh@.len() == chunks@.len() + 1,
            cs == chunks_model(chunks@),
            fs == ids_view(fresh@),
            fresh_ids(fs),
            (c@, events_model(out@)) == run_chunks(initial_converter(), cs.take(i as int), fs.take(i as int)),
            id_drawn(c@.text_id, fs, i as int),
            id_drawn(c@.reasoning_id, fs, i as int),
        decreases chunks.len() - i,
    {
        let ghost m = c@;
        let ghost before = out@;
        let ch = copy_chunk(&chunks[i]);
        let f = fresh[i].clone();
        assert(f@ == fs[i as int]);
        assert(fresh_for(m, f@)) by {
            if m.text_id.len() > 0 {
                let k = choose|k: int| 0 <= k < i && fs[k] == m.text_id;
                assert(fs[k] != fs[i as int]);
            }
            if m.reasoning_id.len() > 0 {
                let k = choose|k: int| 0 <= k < i && fs[k] == m.reasoning_id;
                assert(fs[k] != fs[i as int]);
            }
        }
        let evs = c.on_chunk(ch, f);
        let ghost step = chunk_step(m, cs[i as int], fs[i as int]);
        assert(chunk_model(ch) == cs[i as int]);
        let mut j: usize = 0;
        while j < evs.len()
            invariant
                j <= evs.len(),
                events_model(out@) == events_model(before) + events_model(evs@.take(j as int)),
            decreases evs.len() - j,
        {
            let e = evs[j].deep_clone();
            let ghost b2 = out@;
            out.push(e);
            j = j + 1;
            assert(events_model(evs@.take(j as int)) =~= events_model(evs@.take(j - 1)).push(evs@[j - 1]@));
            assert(events_model(out@) =~= events_model(b2).push(e@));
        }
        assert(evs@.take(evs.len() as int) =~= evs@);
        proof {
            lemma_run_append(initial_converter(), cs.take(i as int), seq![cs[i as int]], fs.take(i as int), seq![fs[i as int]]);
            lemma_run_one(m, cs[i as int], fs[i as int]);
            assert(cs.take(i as int) + seq![cs[i as int]] =~= cs.take(i + 1));
            assert(fs.take(i as int) + seq![fs[i as int]] =~= fs.take(i + 1));
            if c@.text_id.len() > 0 && c@.text_id != m.text_id {
                assert(c@.text_id == fs[i as int]);
            }
            if c@.reasoning_id.len() > 0 && c@.reasoning_id != m.reasoning_id {
                assert(c@.reasoning_id == fs[i as int]);
            }
            if m.text_id.len() > 0 {
                let k = choose|k: int| 0 <= k < i && fs[k] == m.text_id;
                assert(0 <= k < i + 1 && fs[k] == m.text_id);
            }
            if m.reasoning_id.len() > 0 {
                let k = choose|k: int| 0 <= k < i && fs[k] == m.reasoning_id;
                assert(0 <= k < i + 1 && fs[k] == m.reasoning_id);
            }
        }
        i = i + 1;
    }
    assert(cs.take(chunks.len() as int) =~= cs);
    proof {
        lemma_run_prefix(initial_converter(), cs, fs);
    }
    let ghost m = c@;
    let ghost before = out@;
    let f = fresh[chunks.len()].clone();
    assert(f@ == fs[cs.len() as int]);
    assert(fresh_for(m, f@)) by {
        let n = chunks.len() as int;
        if m.text_id.len() > 0 {
            let k = choose|k: int| 0 <= k < n && fs[k] == m.text_id;
            assert(fs[k] != fs[n]);
        }
        if m.reasoning_id.len() > 0 {
            let k = choose|k: int| 0 <= k < n && fs[k] == m.reasoning_id;
            assert(fs[k] != fs[n]);
        }
    }
    let evs = c.finish(f);
    let mut j: usize = 0;
    while j < evs.len()
        invariant
            j <= evs.len(),
            events_model(out@) == events_model(before) + events_model(evs@.take(j as int)),
        decreases evs.len() - j,
    {
        let e = evs[j].deep_clone();
        let ghost b2 = out@;
        out.push(e);
        j = j + 1;
        assert(events_model(evs@.take(j as int)) =~= events_model(evs@.take(j - 1)).push(evs@[j - 1]@));
        assert(events_model(out@) =~= events_model(b2).push(e@));
    }
    assert(evs@.take(evs.len() as int) =~= evs@);
    proof {
        law_messages_join_deltas(cs, fs);
        law_thoughts_join_deltas(cs, fs);
        law_one_stop_last(cs, fs);
    }
    out
}

/// The fresh ids past the chunks' do not change what the chunks emit.
proof fn lemma_run_prefix(m: ConverterModel, cs: Seq<ChunkModel>, fs: Seq<Seq<char>>)
    requires
        fs.len() >= cs.len(),
    ensures
        run_chunks(m, cs, fs.take(cs.len() as int)) == run_chunks(m, cs, fs),
    decreases cs.len(),
{
    if cs.len() > 0 {
        let t = fs.take(cs.len() as int);
        assert(t[0] == fs[0]);
        assert(t.skip(1) =~= fs.skip(1).take(cs.len() - 1));
        let (m1, e1) = chunk_step(m, cs[0], fs[0]);
        lemma_run_prefix(m1, cs.skip(1), fs.skip(1));
    }
}

// ── a message joins its deltas ──────────────────────────────────────

/// The texts of the message deltas carrying `id`, in order.
pub open spec fn message_deltas(es: Seq<EventModel>, id: Seq<char>) -> Seq<char>
    decreases es.len(),
{
    if es.len() == 0 {
        Seq::empty()
    } else {
        message_deltas(es.drop_last(), id) + match es.last() {
            EventModel::ModelMessageDelta { id: d, text } => if d == id {
                text
            } else {
                Seq::empty()
            },
            _ => Seq::empty(),
        }
    }
}

/// Every complete message among the events holds the text of the deltas before it that
/// carry its id, and no delta after it carries that id.
pub open spec fn messages_join_deltas(es: Seq<EventModel>) -> bool {
    forall|k: int|
        0 <= k < es.len() && (#[trigger] es[k]) is ModelMessage ==> {
            &&& es[k]->ModelMessage_content == seq![
                text_model(message_deltas(es.take(k), es[k]->ModelMessage_id)),
            ]
            &&& message_deltas(es.skip(k + 1), es[k]->ModelMessage_id) == Seq::<char>::empty()
        }
}

/// No two complete messages carry the same id: each id is flushed at most once.
pub open spec fn message_ids_distinct(es: Seq<EventModel>) -> bool {
    forall|a: int, b: int|
        0 <= a < b < es.len() && (#[trigger] es[a]) is ModelMessage && (#[trigger] es[b]) is ModelMessage
            ==> es[a]->ModelMessage_id != es[b]->ModelMessage_id
}

proof fn lemma_deltas_concat(a: Seq<EventModel>, b: Seq<EventModel>, id: Seq<char>)
    ensures
        message_deltas(a + b, id) == message_deltas(a, id) + message_deltas(b, id),
    decreases b.len(),
{
    if b.len() == 0 {
        assert(a + b =~= a);
        assert(message_deltas(a, id) + Seq::<char>::empty() =~= message_deltas(a, id));
    } else {
        assert((a + b).drop_last() =~= a + b.drop_last());
        lemma_deltas_concat(a, b.drop_last(), id);
        assert((a + b).last() == b.last());
        let x = message_deltas(a, id);
        let y = message_deltas(b.drop_last(), id);
        let z = match b.last() {
            EventModel::ModelMessageDelta { id: d, text } => if d == id {
                text
            } else {
                Seq::<char>::empty()
            },
            _ => Seq::<char>::empty(),
        };
        assert(x + y + z =~= x + (y + z));
    }
}

proof fn lemma_deltas_absent(es: Seq<EventModel>, id: Seq<char>)
    requires
        forall|k: int|
            0 <= k < es.len() && (#[trigger] es[k]) is ModelMessageDelta ==> es[k]->ModelMessageDelta_id != id,
    ensures
        message_deltas(es, id) == Seq::<char>::empty(),
    decreases es.len(),
{
    if es.len() > 0 {
        assert forall|k: int|
            0 <= k < es.drop_last().len() && (#[trigger] es.drop_last()[k]) is ModelMessageDelta implies es.drop_last()[k]->ModelMessageDelta_id != id by {
            assert(es.drop_last()[k] == es[k]);
        }
        lemma_deltas_absent(es.drop_last(), id);
        assert(es.last() == es[es.len() - 1]);
        assert(message_deltas(es, id) =~= Seq::<char>::empty());
    }
}

/// What holds after the first `n` chunks, `es` the events so far: the accumulated text is
/// that of the deltas carrying the text's id; the ids of deltas, messages and the text
/// were drawn among the first `n` fresh ids; each message so far joins its deltas and
/// is not the text's current id.
pub open spec fn join_inv(m: ConverterModel, es: Seq<EventModel>, fs: Seq<Seq<char>>, n: int) -> bool {
    &&& (m.text_id.len() == 0 ==> m.text.len() == 0)
    &&& (m.text_id.len() > 0 ==> m.text == message_deltas(es, m.text_id))
    &&& id_drawn(m.text_id, fs, n)
    &&& forall|k: int|
        0 <= k < es.len() && (#[trigger] es[k]) is ModelMessageDelta ==> exists|j: int|
            0 <= j < n && #[trigger] fs[j] == es[k]->ModelMessageDelta_id
    &&& forall|k: int|
        0 <= k < es.len() && (#[trigger] es[k]) is ModelMessage ==> {
            &&& exists|j: int| 0 <= j < n && #[trigger] fs[j] == es[k]->ModelMessage_id
            &&& es[k]->ModelMessage_id != m.text_id
        }
    &&& messages_join_deltas(es)
    &&& message_ids_distinct(es)
}

/// Appending events without message deltas keeps the joins of the messages before them.
proof fn lemma_join_extend(es: Seq<EventModel>, e2: Seq<EventModel>, live: Seq<char>)
    requires
        messages_join_deltas(es),
        forall|k: int|
            0 <= k < e2.len() && (#[trigger] e2[k]) is ModelMessageDelta ==> e2[k]->ModelMessageDelta_id == live,
        forall|k: int|
            0 <= k < es.len() && (#[trigger] es[k]) is ModelMessage ==> es[k]->ModelMessage_id != live,
    ensures
        forall|k: int|
            0 <= k < es.len() && (#[trigger] (es + e2)[k]) is ModelMessage ==> {
                &&& (es + e2)[k]->ModelMessage_content == seq![
                    text_model(message_deltas((es + e2).take(k), (es + e2)[k]->ModelMessage_id)),
                ]
                &&& message_deltas((es + e2).skip(k + 1), (es + e2)[k]->ModelMessage_id) == Seq::<char>::empty()
            },
{
    let all = es + e2;
    assert forall|k: int| 0 <= k < es.len() && (#[trigger] all[k]) is ModelMessage implies {
        &&& all[k]->ModelMessage_content == seq![text_model(message_deltas(all.take(k), all[k]->ModelMessage_id))]
        &&& message_deltas(all.skip(k + 1), all[k]->ModelMessage_id) == Seq::<char>::empty()
    } by {
        assert(all[k] == es[k]);
        let id = es[k]->ModelMessage_id;
        assert(all.take(k) =~= es.take(k));
        assert(all.skip(k + 1) =~= es.skip(k + 1) + e2);
        lemma_deltas_concat(es.skip(k + 1), e2, id);
        assert forall|q: int| 0 <= q < e2.len() && (#[trigger] e2[q]) is ModelMessageDelta implies e2[q]->ModelMessageDelta_id != id by {}
        lemma_deltas_absent(e2, id);
        assert(Seq::<char>::empty() + Seq::<char>::empty() =~= Seq::<char>::empty());
    }
}

proof fn lemma_join_grow(m: ConverterModel, es: Seq<EventModel>, fs: Seq<Seq<char>>, n: int, n2: int)
    requires
        join_inv(m, es, fs, n),
        n <= n2,
    ensures
        join_inv(m, es, fs, n2),
{
    if m.text_id.len() > 0 {
        let j = choose|j: int| 0 <= j < n && fs[j] == m.text_id;
        assert(0 <= j < n2 && fs[j] == m.text_id);
    }
    assert forall|k: int| 0 <= k < es.len() && (#[trigger] es[k]) is ModelMessageDelta implies exists|j: int|
        0 <= j < n2 && #[trigger] fs[j] == es[k]->ModelMessageDelta_id by {
        let j = choose|j: int| 0 <= j < n && #[trigger] fs[j] == es[k]->ModelMessageDelta_id;
        assert(0 <= j < n2);
    }
    assert forall|k: int| 0 <= k < es.len() && (#[trigger] es[k]) is ModelMessage implies {
        &&& exists|j: int| 0 <= j < n2 && #[trigger] fs[j] == es[k]->ModelMessage_id
        &&& es[k]->ModelMessage_id != m.text_id
    } by {
        let j = choose|j: int| 0 <= j < n && #[trigger] fs[j] == es[k]->ModelMessage_id;
        assert(0 <= j < n2);
    }
}

/// The flush of the accumulations, followed by `tail` (a call or a stop, no message and
/// no delta), keeps the invariant.
proof fn lemma_join_flush(
    m: ConverterModel,
    es: Seq<EventModel>,
    fs: Seq<Seq<char>>,
    n: int,
    tail: Seq<EventModel>,
)
    requires
        join_inv(m, es, fs, n),
        fresh_ids(fs),
        n <= fs.len(),
        forall|k: int|
            0 <= k < tail.len() ==> !((#[trigger] tail[k]) is ModelMessage) && !(tail[k] is ModelMessageDelta),
    ensures
        join_inv(after_flush(m), es + flush_events(m) + tail, fs, n),
{
    let m2 = after_flush(m);
    let f = flush_events(m);
    let th: Seq<EventModel> = if m.reasoning.len() > 0 {
        seq![EventModel::ModelThought { id: m.reasoning_id, text: m.reasoning }]
    } else {
        Seq::empty()
    };
    let ms: Seq<EventModel> = if m.text.len() > 0 {
        seq![EventModel::ModelMessage { id: m.text_id, content: seq![text_model(m.text)] }]
    } else {
        Seq::empty()
    };
    assert(f == th + ms);
    let e2 = f + tail;
    let all = es + e2;
    assert(es + f + tail =~= all);
    // no message delta after `es`
    assert forall|k: int| 0 <= k < e2.len() implies !((#[trigger] e2[k]) is ModelMessageDelta) by {
        if k < th.len() {
            assert(e2[k] == th[k]);
        } else if k < f.len() {
            assert(e2[k] == ms[k - th.len()]);
        } else {
            assert(e2[k] == tail[k - f.len()]);
        }
    }
    // message ids so far are not empty
    assert forall|k: int| 0 <= k < es.len() && (#[trigger] es[k]) is ModelMessage implies es[k]->ModelMessage_id.len() > 0 by {
        let j = choose|j: int| 0 <= j < n && #[trigger] fs[j] == es[k]->ModelMessage_id;
        assert(fs[j].len() > 0);
    }
    lemma_deltas_absent(e2, m.text_id);
    lemma_deltas_concat(es, e2, m.text_id);
    assert(message_deltas(es, m.text_id) + Seq::<char>::empty() =~= message_deltas(es, m.text_id));
    lemma_join_extend(es, e2, Seq::<char>::empty());
    // deltas of `all` are those of `es`
    assert forall|k: int| 0 <= k < all.len() && (#[trigger] all[k]) is ModelMessageDelta implies exists|j: int|
        0 <= j < n && #[trigger] fs[j] == all[k]->ModelMessageDelta_id by {
        if k < es.len() {
            assert(all[k] == es[k]);
        } else {
            assert(all[k] == e2[k - es.len()]);
        }
    }
    let big_k = es.len() + th.len();
    assert forall|k: int| 0 <= k < all.len() && (#[trigger] all[k]) is ModelMessage implies {
        &&& exists|j: int| 0 <= j < n && #[trigger] fs[j] == all[k]->ModelMessage_id
        &&& all[k]->ModelMessage_id != m2.text_id
    } by {
        if k < es.len() {
            assert(all[k] == es[k]);
        } else if k < es.len() + th.len() {
            assert(all[k] == th[k - es.len()]);
        } else if k < es.len() + f.len() {
            assert(all[k] == ms[k - big_k]);
            assert(m.text.len() > 0);
            let j = choose|j: int| 0 <= j < n && fs[j] == m.text_id;
            assert(fs[j] == all[k]->ModelMessage_id);
        } else {
            assert(all[k] == tail[k - es.len() - f.len()]);
        }
    }
    assert forall|k: int|
        0 <= k < all.len() && (#[trigger] all[k]) is ModelMessage implies {
            &&& all[k]->ModelMessage_content == seq![
                text_model(message_deltas(all.take(k), all[k]->ModelMessage_id)),
            ]
            &&& message_deltas(all.skip(k + 1), all[k]->ModelMessage_id) == Seq::<char>::empty()
        } by {
        if k < es.len() {
        } else if k < es.len() + th.len() {
            assert(all[k] == th[k - es.len()]);
        } else if k < es.len() + f.len() {
            assert(all[k] == ms[k - big_k]);
            assert(k == big_k);
            assert(all.take(k) =~= es + th);
            lemma_deltas_concat(es, th, m.text_id);
            lemma_deltas_absent(th, m.text_id);
            assert(message_deltas(es, m.text_id) + Seq::<char>::empty() =~= message_deltas(es, m.text_id));
            assert(all.skip(k + 1) =~= tail);
            assert forall|q: int| 0 <= q < tail.len() && (#[trigger] tail[q]) is ModelMessageDelta implies tail[q]->ModelMessageDelta_id != m.text_id by {}
            lemma_deltas_absent(tail, m.text_id);
        } else {
            assert(all[k] == tail[k - es.len() - f.len()]);
        }
    }
    assert forall|x: int, y: int|
        0 <= x < y < all.len() && (#[trigger] all[x]) is ModelMessage && (#[trigger] all[y]) is ModelMessage
            implies all[x]->ModelMessage_id != all[y]->ModelMessage_id by {
        if y < es.len() {
            assert(all[x] == es[x]);
            assert(all[y] == es[y]);
        } else if y < es.len() + th.len() {
            assert(all[y] == th[y - es.len()]);
        } else if y < es.len() + f.len() {
            assert(all[y] == ms[y - big_k]);
            if x < es.len() {
                assert(all[x] == es[x]);
            } else if x < es.len() + th.len() {
                assert(all[x] == th[x - es.len()]);
            } else {
                assert(all[x] == ms[x - big_k]);
            }
        } else {
            assert(all[y] == tail[y - es.len() - f.len()]);
        }
    }
}

proof fn lemma_join_step(m: ConverterModel, es: Seq<EventModel>, fs: Seq<Seq<char>>, n: int, c: ChunkModel)
    requires
        join_inv(m, es, fs, n),
        fresh_ids(fs),
        0 <= n < fs.len(),
    ensures
        join_inv(chunk_step(m, c, fs[n]).0, es + chunk_step(m, c, fs[n]).1, fs, n + 1),
{
    let f = fs[n];
    let (m2, e2) = chunk_step(m, c, f);
    lemma_join_grow(m, es, fs, n, n + 1);
    assert forall|k: int| 0 <= k < es.len() && (#[trigger] es[k]) is ModelMessage implies es[k]->ModelMessage_id.len() > 0 by {
        let j = choose|j: int| 0 <= j < n && #[trigger] fs[j] == es[k]->ModelMessage_id;
        assert(fs[j].len() > 0);
    }
    match c {
        ChunkModel::Text(t) => {
            let id2 = ensure_id(m.text_id, f);
            assert(e2 == seq![EventModel::ModelMessageDelta { id: id2, text: t }]);
            let all = es + e2;
            // the new id is no message's and, when fresh, no delta's
            if m.text_id.len() == 0 {
                assert forall|k: int| 0 <= k < es.len() && (#[trigger] es[k]) is ModelMessageDelta implies es[k]->ModelMessageDelta_id != f by {
                    let j = choose|j: int| 0 <= j < n && #[trigger] fs[j] == es[k]->ModelMessageDelta_id;
                    assert(fs[j] != fs[n]);
                }
                lemma_deltas_absent(es, f);
                assert forall|k: int| 0 <= k < es.len() && (#[trigger] es[k]) is ModelMessage implies es[k]->ModelMessage_id != id2 by {
                    let j = choose|j: int| 0 <= j < n && #[trigger] fs[j] == es[k]->ModelMessage_id;
                    assert(fs[j] != fs[n]);
                }
            }
            lemma_deltas_concat(es, e2, id2);
            assert(e2.drop_last() =~= Seq::<EventModel>::empty());
            assert(message_deltas(e2.drop_last(), id2) == Seq::<char>::empty());
            assert(e2.last() == (EventModel::ModelMessageDelta { id: id2, text: t }));
            assert(Seq::<char>::empty() + t =~= t);
            assert(message_deltas(e2, id2) == t);
            lemma_join_extend(es, e2, id2);
            assert forall|k: int| 0 <= k < all.len() && (#[trigger] all[k]) is ModelMessageDelta implies exists|j: int|
                0 <= j < n + 1 && #[trigger] fs[j] == all[k]->ModelMessageDelta_id by {
                if k < es.len() {
                    assert(all[k] == es[k]);
                } else {
                    assert(all[k] == e2[0]);
                    if m.text_id.len() == 0 {
                        assert(fs[n] == id2);
                    } else {
                        let j = choose|j: int| 0 <= j < n + 1 && fs[j] == m.text_id;
                        assert(fs[j] == id2);
                    }
                }
            }
            assert forall|k: int| 0 <= k < all.len() && (#[trigger] all[k]) is ModelMessage implies {
                &&& exists|j: int| 0 <= j < n + 1 && #[trigger] fs[j] == all[k]->ModelMessage_id
                &&& all[k]->ModelMessage_id != m2.text_id
            } by {
                if k < es.len() {
                    assert(all[k] == es[k]);
                } else {
                    assert(all[k] == e2[0]);
                }
            }
            if m.text_id.len() == 0 {
                assert(fs[n] == m2.text_id);
            }
            assert(m.text + t == message_deltas(all, id2));
            assert forall|x: int, y: int|
                0 <= x < y < all.len() && (#[trigger] all[x]) is ModelMessage && (#[trigger] all[y]) is ModelMessage
                    implies all[x]->ModelMessage_id != all[y]->ModelMessage_id by {
                if y < es.len() {
                    assert(all[x] == es[x]);
                    assert(all[y] == es[y]);
                } else {
                    assert(all[y] == e2[0]);
                }
            }
        },
        ChunkModel::ToolCall { call_id, name, args } => {
            let tail = seq![EventModel::FunctionCall { id: f, call_id, name, args }];
            lemma_join_flush(m, es, fs, n + 1, tail);
            assert(es + e2 =~= es + flush_events(m) + tail);
        },
        _ => {
            assert forall|q: int| 0 <= q < e2.len() && (#[trigger] e2[q]) is ModelMessageDelta implies e2[q]->ModelMessageDelta_id != m.text_id by {}
            lemma_deltas_absent(e2, m.text_id);
            lemma_deltas_concat(es, e2, m.text_id);
            assert(message_deltas(es, m.text_id) + Seq::<char>::empty() =~= message_deltas(es, m.text_id));
            lemma_join_extend(es, e2, Seq::<char>::empty());
            let all = es + e2;
            assert forall|k: int| 0 <= k < all.len() && (#[trigger] all[k]) is ModelMessageDelta implies exists|j: int|
                0 <= j < n + 1 && #[trigger] fs[j] == all[k]->ModelMessageDelta_id by {
                if k < es.len() {
                    assert(all[k] == es[k]);
                } else {
                    assert(all[k] == e2[k - es.len()]);
                }
            }
            assert forall|k: int| 0 <= k < all.len() && (#[trigger] all[k]) is ModelMessage implies {
                &&& exists|j: int| 0 <= j < n + 1 && #[trigger] fs[j] == all[k]->ModelMessage_id
                &&& all[k]->ModelMessage_id != m2.text_id
            } by {
                if k < es.len() {
                    assert(all[k] == es[k]);
                } else {
                    assert(all[k] == e2[k - es.len()]);
                }
            }
            assert forall|x: int, y: int|
                0 <= x < y < all.len() && (#[trigger] all[x]) is ModelMessage && (#[trigger] all[y]) is ModelMessage
                    implies all[x]->ModelMessage_id != all[y]->ModelMessage_id by {
                if y < es.len() {
                    assert(all[x] == es[x]);
                    assert(all[y] == es[y]);
                } else {
                    assert(all[y] == e2[y - es.len()]);
                }
            }
        },
    }
}

proof fn lemma_join_run(cs: Seq<ChunkModel>, fs: Seq<Seq<char>>, i: nat)
    requires
        fresh_ids(fs),
        i <= cs.len(),
        cs.len() < fs.len(),
    ensures
        join_inv(
            run_chunks(initial_converter(), cs.take(i as int), fs.take(i as int)).0,
            run_chunks(initial_converter(), cs.take(i as int), fs.take(i as int)).1,
            fs,
            i as int,
        ),
    decreases i,
{
    let m0 = initial_converter();
    if i == 0 {
        assert(cs.take(0) =~= Seq::<ChunkModel>::empty());
        let (m, es) = run_chunks(m0, cs.take(0), fs.take(0));
        assert(es.len() == 0);
        assert(id_drawn(m.text_id, fs, 0));
    } else {
        let p = (i - 1) as nat;
        lemma_join_run(cs, fs, p);
        let (m, es) = run_chunks(m0, cs.take(p as int), fs.take(p as int));
        lemma_join_step(m, es, fs, p as int, cs[p as int]);
        lemma_run_append(m0, cs.take(p as int), seq![cs[p as int]], fs.take(p as int), seq![fs[p as int]]);
        lemma_run_one(m, cs[p as int], fs[p as int]);
        assert(cs.take(p as int) + seq![cs[p as int]] =~= cs.take(i as int));
        assert(fs.take(p as int) + seq![fs[p as int]] =~= fs.take(i as int));
    }
}

/// Each complete message of a stream holds exactly the text of the deltas before it that
/// carry its id, in order; no delta after it carries that id, and no other message does
/// (each id is flushed at most once; the ids drawn afresh, none empty and no two alike).
pub proof fn law_messages_join_deltas(cs: Seq<ChunkModel>, fs: Seq<Seq<char>>)
    requires
        fresh_ids(fs),
        fs.len() > cs.len(),
    ensures
        messages_join_deltas(stream_events(initial_converter(), cs, fs)),
        message_ids_distinct(stream_events(initial_converter(), cs, fs)),
{
    let m0 = initial_converter();
    lemma_join_run(cs, fs, cs.len());
    assert(cs.take(cs.len() as int) =~= cs);
    lemma_run_prefix(m0, cs, fs);
    let (m, es) = run_chunks(m0, cs, fs);
    let tail = seq![
        EventModel::TurnStop {
            id: fs[cs.len() as int],
            stop_reason: stop_reason_for(m.finish),
            token_usage: m.usage,
        },
    ];
    lemma_join_flush(m, es, fs, cs.len() as int, tail);
    assert(stream_events(m0, cs, fs) =~= es + flush_events(m) + tail);
}

// ── a thought joins its deltas ──────────────────────────────────────

/// The texts of the thought deltas carrying `id`, in order.
pub open spec fn thought_deltas(es: Seq<EventModel>, id: Seq<char>) -> Seq<char>
    decreases es.len(),
{
    if es.len() == 0 {
        Seq::empty()
    } else {
        thought_deltas(es.drop_last(), id) + match es.last() {
            EventModel::ModelThoughtDelta { id: d, text } => if d == id {
                text
            } else {
                Seq::empty()
            },
            _ => Seq::empty(),
        }
    }
}

/// Every complete thought among the events holds the text of the deltas before it that
/// carry its id, and no delta after it carries that id.
pub open spec fn thoughts_join_deltas(es: Seq<EventModel>) -> bool {
    forall|k: int|
        0 <= k < es.len() && (#[trigger] es[k]) is ModelThought ==> {
            &&& es[k]->ModelThought_text == thought_deltas(es.take(k), es[k]->ModelThought_id)
            &&& thought_deltas(es.skip(k + 1), es[k]->ModelThought_id) == Seq::<char>::empty()
        }
}

/// No two complete thoughts carry the same id: each id is flushed at most once.
pub open spec fn thought_ids_distinct(es: Seq<EventModel>) -> bool {
    forall|a: int, b: int|
        0 <= a < b < es.len() && (#[trigger] es[a]) is ModelThought && (#[trigger] es[b]) is ModelThought
            ==> es[a]->ModelThought_id != es[b]->ModelThought_id
}

proof fn lemma_tdeltas_concat(a: Seq<EventModel>, b: Seq<EventModel>, id: Seq<char>)
    ensures
        thought_deltas(a + b, id) == thought_deltas(a, id) + thought_deltas(b, id),
    decreases b.len(),
{
    if b.len() == 0 {
        assert(a + b =~= a);
        assert(thought_deltas(a, id) + Seq::<char>::empty() =~= thought_deltas(a, id));
    } else {
        assert((a + b).drop_last() =~= a + b.drop_last());
        lemma_tdeltas_concat(a, b.drop_last(), id);
        assert((a + b).last() == b.last());
        let x = thought_deltas(a, id);
        let y = thought_deltas(b.drop_last(), id);
        let z = match b.last() {
            EventModel::ModelThoughtDelta { id: d, text } => if d == id {
                text
            } else {
                Seq::<char>::empty()
            },
            _ => Seq::<char>::empty(),
        };
        assert(x + y + z =~= x + (y + z));
    }
}

proof fn lemma_tdeltas_absent(es: Seq<EventModel>, id: Seq<char>)
    requires
        forall|k: int|
            0 <= k < es.len() && (#[trigger] es[k]) is ModelThoughtDelta ==> es[k]->ModelThoughtDelta_id != id,
    ensures
        thought_deltas(es, id) == Seq::<char>::empty(),
    decreases es.len(),
{
    if es.len() > 0 {
        assert forall|k: int|
            0 <= k < es.drop_last().len() && (#[trigger] es.drop_last()[k]) is ModelThoughtDelta implies es.drop_last()[k]->ModelThoughtDelta_id != id by {
            assert(es.drop_last()[k] == es[k]);
        }
        lemma_tdeltas_absent(es.drop_last(), id);
        assert(es.last() == es[es.len() - 1]);
        assert(thought_deltas(es, id) =~= Seq::<char>::empty());
    }
}

/// What holds after the first `n` chunks, `es` the events so far: the accumulated
/// reasoning is that of the thought deltas carrying its id; the ids of thought deltas,
/// thoughts and the reasoning were drawn among the first `n` fresh ids; each thought so far
/// joins its deltas and is not the reasoning's current id.
pub open spec fn tjoin_inv(m: ConverterModel, es: Seq<EventModel>, fs: Seq<Seq<char>>, n: int) -> bool {
    &&& (m.reasoning_id.len() == 0 ==> m.reasoning.len() == 0)
    &&& (m.reasoning_id.len() > 0 ==> m.reasoning == thought_deltas(es, m.reasoning_id))
    &&& id_drawn(m.reasoning_id, fs, n)
    &&& forall|k: int|
        0 <= k < es.len() && (#[trigger] es[k]) is ModelThoughtDelta ==> exists|j: int|
            0 <= j < n && #[trigger] fs[j] == es[k]->ModelThoughtDelta_id
    &&& forall|k: int|
        0 <= k < es.len() && (#[trigger] es[k]) is ModelThought ==> {
            &&& exists|j: int| 0 <= j < n && #[trigger] fs[j] == es[k]->ModelThought_id
            &&& es[k]->ModelThought_id != m.reasoning_id
        }
    &&& thoughts_join_deltas(es)
    &&& thought_ids_distinct(es)
}

/// Appending events without message deltas keeps the joins of the messages before them.
proof fn lemma_tjoin_extend(es: Seq<EventModel>, e2: Seq<EventModel>, live: Seq<char>)
    requires
        thoughts_join_deltas(es),
        forall|k: int|
            0 <= k < e2.len() && (#[trigger] e2[k]) is ModelThoughtDelta ==> e2[k]->ModelThoughtDelta_id == live,
        forall|k: int|
            0 <= k < es.len() && (#[trigger] es[k]) is ModelThought ==> es[k]->ModelThought_id != live,
    ensures
        forall|k: int|
            0 <= k < es.len() && (#[trigger] (es + e2)[k]) is ModelThought ==> {
                &&& (es + e2)[k]->ModelThought_text == thought_deltas((es + e2).take(k), (es + e2)[k]->ModelThought_id)
                &&& thought_deltas((es + e2).skip(k + 1), (es + e2)[k]->ModelThought_id) == Seq::<char>::empty()
            },
{
    let all = es + e2;
    assert forall|k: int| 0 <= k < es.len() && (#[trigger] all[k]) is ModelThought implies {
        &&& all[k]->ModelThought_text == thought_deltas(all.take(k), all[k]->ModelThought_id)
        &&& thought_deltas(all.skip(k + 1), all[k]->ModelThought_id) == Seq::<char>::empty()
    } by {
        assert(all[k] == es[k]);
        let id = es[k]->ModelThought_id;
        assert(all.take(k) =~= es.take(k));
        assert(all.skip(k + 1) =~= es.skip(k + 1) + e2);
        lemma_tdeltas_concat(es.skip(k + 1), e2, id);
        assert forall|q: int| 0 <= q < e2.len() && (#[trigger] e2[q]) is ModelThoughtDelta implies e2[q]->ModelThoughtDelta_id != id by {}
        lemma_tdeltas_absent(e2, id);
        assert(Seq::<char>::empty() + Seq::<char>::empty() =~= Seq::<char>::empty());
    }
}

proof fn lemma_tjoin_grow(m: ConverterModel, es: Seq<EventModel>, fs: Seq<Seq<char>>, n: int, n2: int)
    requires
        tjoin_inv(m, es, fs, n),
        n <= n2,
    ensures
        tjoin_inv(m, es, fs, n2),
{
    if m.reasoning_id.len() > 0 {
        let j = choose|j: int| 0 <= j < n && fs[j] == m.reasoning_id;
        assert(0 <= j < n2 && fs[j] == m.reasoning_id);
    }
    assert forall|k: int| 0 <= k < es.len() && (#[trigger] es[k]) is ModelThoughtDelta implies exists|j: int|
        0 <= j < n2 && #[trigger] fs[j] == es[k]->ModelThoughtDelta_id by {
        let j = choose|j: int| 0 <= j < n && #[trigger] fs[j] == es[k]->ModelThoughtDelta_id;
        assert(0 <= j < n2);
    }
    assert forall|k: int| 0 <= k < es.len() && (#[trigger] es[k]) is ModelThought implies {
        &&& exists|j: int| 0 <= j < n2 && #[trigger] fs[j] == es[k]->ModelThought_id
        &&& es[k]->ModelThought_id != m.reasoning_id
    } by {
        let j = choose|j: int| 0 <= j < n && #[trigger] fs[j] == es[k]->ModelThought_id;
        assert(0 <= j < n2);
    }
}

/// The flush of the accumulations, followed by `tail` (a call or a stop, no message and
/// no delta), keeps the invariant.
proof fn lemma_tjoin_flush(
    m: ConverterModel,
    es: Seq<EventModel>,
    fs: Seq<Seq<char>>,
    n: int,
    tail: Seq<EventModel>,
)
    requires
        tjoin_inv(m, es, fs, n),
        fresh_ids(fs),
        n <= fs.len(),
        forall|k: int|
            0 <= k < tail.len() ==> !((#[trigger] tail[k]) is ModelThought) && !(tail[k] is ModelThoughtDelta),
    ensures
        tjoin_inv(after_flush(m), es + flush_events(m) + tail, fs, n),
{
    let m2 = after_flush(m);
    let f = flush_events(m);
    let th: Seq<EventModel> = if m.reasoning.len() > 0 {
        seq![EventModel::ModelThought { id: m.reasoning_id, text: m.reasoning }]
    } else {
        Seq::empty()
    };
    let ms: Seq<EventModel> = if m.text.len() > 0 {
        seq![EventModel::ModelMessage { id: m.text_id, content: seq![text_model(m.text)] }]
    } else {
        Seq::empty()
    };
    assert(f == th + ms);
    let e2 = f + tail;
    let all = es + e2;
    assert(es + f + tail =~= all);
    // no thought delta after `es`
    assert forall|k: int| 0 <= k < e2.len() implies !((#[trigger] e2[k]) is ModelThoughtDelta) by {
        if k < th.len() {
            assert(e2[k] == th[k]);
        } else if k < f.len() {
            assert(e2[k] == ms[k - th.len()]);
        } else {
            assert(e2[k] == tail[k - f.len()]);
        }
    }
    // thought ids so far are not empty
    assert forall|k: int| 0 <= k < es.len() && (#[trigger] es[k]) is ModelThought implies es[k]->ModelThought_id.len() > 0 by {
        let j = choose|j: int| 0 <= j < n && #[trigger] fs[j] == es[k]->ModelThought_id;
        assert(fs[j].len() > 0);
    }
    lemma_tdeltas_absent(e2, m.reasoning_id);
    lemma_tdeltas_concat(es, e2, m.reasoning_id);
    assert(thought_deltas(es, m.reasoning_id) + Seq::<char>::empty() =~= thought_deltas(es, m.reasoning_id));
    lemma_tjoin_extend(es, e2, Seq::<char>::empty());
    // deltas of `all` are those of `es`
    assert forall|k: int| 0 <= k < all.len() && (#[trigger] all[k]) is ModelThoughtDelta implies exists|j: int|
        0 <= j < n && #[trigger] fs[j] == all[k]->ModelThoughtDelta_id by {
        if k < es.len() {
            assert(all[k] == es[k]);
        } else {
            assert(all[k] == e2[k - es.len()]);
        }
    }
    let big_k = es.len() + th.len();
    assert forall|k: int| 0 <= k < all.len() && (#[trigger] all[k]) is ModelThought implies {
        &&& exists|j: int| 0 <= j < n && #[trigger] fs[j] == all[k]->ModelThought_id
        &&& all[k]->ModelThought_id != m2.reasoning_id
    } by {
        if k < es.len() {
            assert(all[k] == es[k]);
        } else if k < es.len() + th.len() {
            assert(all[k] == th[k - es.len()]);
            assert(m.reasoning.len() > 0);
            let j = choose|j: int| 0 <= j < n && fs[j] == m.reasoning_id;
            assert(fs[j] == all[k]->ModelThought_id);
        } else if k < es.len() + f.len() {
            assert(all[k] == ms[k - big_k]);
        } else {
            assert(all[k] == tail[k - es.len() - f.len()]);
        }
    }
    assert forall|k: int|
        0 <= k < all.len() && (#[trigger] all[k]) is ModelThought implies {
            &&& all[k]->ModelThought_text == thought_deltas(all.take(k), all[k]->ModelThought_id)
            &&& thought_deltas(all.skip(k + 1), all[k]->ModelThought_id) == Seq::<char>::empty()
        } by {
        if k < es.len() {
        } else if k < es.len() + th.len() {
            assert(all[k] == th[k - es.len()]);
            assert(k == es.len());
            assert(all.take(k) =~= es);
            assert(all.skip(k + 1) =~= ms + tail);
            assert forall|q: int| 0 <= q < (ms + tail).len() && (#[trigger] (ms + tail)[q]) is ModelThoughtDelta implies (ms + tail)[q]->ModelThoughtDelta_id != m.reasoning_id by {
                if q < ms.len() {
                    assert((ms + tail)[q] == ms[q]);
                } else {
                    assert((ms + tail)[q] == tail[q - ms.len()]);
                }
            }
            lemma_tdeltas_absent(ms + tail, m.reasoning_id);
        } else if k < es.len() + f.len() {
            assert(all[k] == ms[k - big_k]);
        } else {
            assert(all[k] == tail[k - es.len() - f.len()]);
        }
    }
    assert forall|x: int, y: int|
        0 <= x < y < all.len() && (#[trigger] all[x]) is ModelThought && (#[trigger] all[y]) is ModelThought
            implies all[x]->ModelThought_id != all[y]->ModelThought_id by {
        if y < es.len() {
            assert(all[x] == es[x]);
            assert(all[y] == es[y]);
        } else if y < es.len() + th.len() {
            assert(all[y] == th[y - es.len()]);
            assert(all[x] == es[x]);
        } else if y < es.len() + f.len() {
            assert(all[y] == ms[y - big_k]);
        } else {
            assert(all[y] == tail[y - es.len() - f.len()]);
        }
    }
}

proof fn lemma_tjoin_step(m: ConverterModel, es: Seq<EventModel>, fs: Seq<Seq<char>>, n: int, c: ChunkModel)
    requires
        tjoin_inv(m, es, fs, n),
        fresh_ids(fs),
        0 <= n < fs.len(),
    ensures
        tjoin_inv(chunk_step(m, c, fs[n]).0, es + chunk_step(m, c, fs[n]).1, fs, n + 1),
{
    let f = fs[n];
    let (m2, e2) = chunk_step(m, c, f);
    lemma_tjoin_grow(m, es, fs, n, n + 1);
    assert forall|k: int| 0 <= k < es.len() && (#[trigger] es[k]) is ModelThought implies es[k]->ModelThought_id.len() > 0 by {
        let j = choose|j: int| 0 <= j < n && #[trigger] fs[j] == es[k]->ModelThought_id;
        assert(fs[j].len() > 0);
    }
    match c {
        ChunkModel::ReasoningDelta(t) => {
            let id2 = ensure_id(m.reasoning_id, f);
            assert(e2 == seq![EventModel::ModelThoughtDelta { id: id2, text: t }]);
            let all = es + e2;
            // the new id is no message's and, when fresh, no delta's
            if m.reasoning_id.len() == 0 {
                assert forall|k: int| 0 <= k < es.len() && (#[trigger] es[k]) is ModelThoughtDelta implies es[k]->ModelThoughtDelta_id != f by {
                    let j = choose|j: int| 0 <= j < n && #[trigger] fs[j] == es[k]->ModelThoughtDelta_id;
                    assert(fs[j] != fs[n]);
                }
                lemma_tdeltas_absent(es, f);
                assert forall|k: int| 0 <= k < es.len() && (#[trigger] es[k]) is ModelThought implies es[k]->ModelThought_id != id2 by {
                    let j = choose|j: int| 0 <= j < n && #[trigger] fs[j] == es[k]->ModelThought_id;
                    assert(fs[j] != fs[n]);
                }
            }
            lemma_tdeltas_concat(es, e2, id2);
            assert(e2.drop_last() =~= Seq::<EventModel>::empty());
            assert(thought_deltas(e2.drop_last(), id2) == Seq::<char>::empty());
            assert(e2.last() == (EventModel::ModelThoughtDelta { id: id2, text: t }));
            assert(Seq::<char>::empty() + t =~= t);
            assert(thought_deltas(e2, id2) == t);
            lemma_tjoin_extend(es, e2, id2);
            assert forall|k: int| 0 <= k < all.len() && (#[trigger] all[k]) is ModelThoughtDelta implies exists|j: int|
                0 <= j < n + 1 && #[trigger] fs[j] == all[k]->ModelThoughtDelta_id by {
                if k < es.len() {
                    assert(all[k] == es[k]);
                } else {
                    assert(all[k] == e2[0]);
                    if m.reasoning_id.len() == 0 {
                        assert(fs[n] == id2);
                    } else {
                        let j = choose|j: int| 0 <= j < n + 1 && fs[j] == m.reasoning_id;
                        assert(fs[j] == id2);
                    }
                }
            }
            assert forall|k: int| 0 <= k < all.len() && (#[trigger] all[k]) is ModelThought implies {
                &&& exists|j: int| 0 <= j < n + 1 && #[trigger] fs[j] == all[k]->ModelThought_id
                &&& all[k]->ModelThought_id != m2.reasoning_id
            } by {
                if k < es.len() {
                    assert(all[k] == es[k]);
                } else {
                    assert(all[k] == e2[0]);
                }
            }
            if m.reasoning_id.len() == 0 {
                assert(fs[n] == m2.reasoning_id);
            }
            assert(m.reasoning + t == thought_deltas(all, id2));
            assert forall|x: int, y: int|
                0 <= x < y < all.len() && (#[trigger] all[x]) is ModelThought && (#[trigger] all[y]) is ModelThought
                    implies all[x]->ModelThought_id != all[y]->ModelThought_id by {
                if y < es.len() {
                    assert(all[x] == es[x]);
                    assert(all[y] == es[y]);
                } else {
                    assert(all[y] == e2[0]);
                }
            }
        },
        ChunkModel::ToolCall { call_id, name, args } => {
            let tail = seq![EventModel::FunctionCall { id: f, call_id, name, args }];
            lemma_tjoin_flush(m, es, fs, n + 1, tail);
            assert(es + e2 =~= es + flush_events(m) + tail);
        },
        _ => {
            assert forall|q: int| 0 <= q < e2.len() && (#[trigger] e2[q]) is ModelThoughtDelta implies e2[q]->ModelThoughtDelta_id != m.reasoning_id by {}
            lemma_tdeltas_absent(e2, m.reasoning_id);
            lemma_tdeltas_concat(es, e2, m.reasoning_id);
            assert(thought_deltas(es, m.reasoning_id) + Seq::<char>::empty() =~= thought_deltas(es, m.reasoning_id));
            lemma_tjoin_extend(es, e2, Seq::<char>::empty());
            let all = es + e2;
            assert forall|k: int| 0 <= k < all.len() && (#[trigger] all[k]) is ModelThoughtDelta implies exists|j: int|
                0 <= j < n + 1 && #[trigger] fs[j] == all[k]->ModelThoughtDelta_id by {
                if k < es.len() {
                    assert(all[k] == es[k]);
                } else {
                    assert(all[k] == e2[k - es.len()]);
                }
            }
            assert forall|k: int| 0 <= k < all.len() && (#[trigger] all[k]) is ModelThought implies {
                &&& exists|j: int| 0 <= j < n + 1 && #[trigger] fs[j] == all[k]->ModelThought_id
                &&& all[k]->ModelThought_id != m2.reasoning_id
            } by {
                if k < es.len() {
                    assert(all[k] == es[k]);
                } else {
                    assert(all[k] == e2[k - es.len()]);
                }
            }
            assert forall|x: int, y: int|
                0 <= x < y < all.len() && (#[trigger] all[x]) is ModelThought && (#[trigger] all[y]) is ModelThought
                    implies all[x]->ModelThought_id != all[y]->ModelThought_id by {
                if y < es.len() {
                    assert(all[x] == es[x]);
                    assert(all[y] == es[y]);
                } else {
                    assert(all[y] == e2[y - es.len()]);
                }
            }
        },
    }
}

proof fn lemma_tjoin_run(cs: Seq<ChunkModel>, fs: Seq<Seq<char>>, i: nat)
    requires
        fresh_ids(fs),
        i <= cs.len(),
        cs.len() < fs.len(),
    ensures
        tjoin_inv(
            run_chunks(initial_converter(), cs.take(i as int), fs.take(i as int)).0,
            run_chunks(initial_converter(), cs.take(i as int), fs.take(i as int)).1,
            fs,
            i as int,
        ),
    decreases i,
{
    let m0 = initial_converter();
    if i == 0 {
        assert(cs.take(0) =~= Seq::<ChunkModel>::empty());
        let (m, es) = run_chunks(m0, cs.take(0), fs.take(0));
        assert(es.len() == 0);
        assert(id_drawn(m.text_id, fs, 0));
    } else {
        let p = (i - 1) as nat;
        lemma_tjoin_run(cs, fs, p);
        let (m, es) = run_chunks(m0, cs.take(p as int), fs.take(p as int));
        lemma_tjoin_step(m, es, fs, p as int, cs[p as int]);
        lemma_run_append(m0, cs.take(p as int), seq![cs[p as int]], fs.take(p as int), seq![fs[p as int]]);
        lemma_run_one(m, cs[p as int], fs[p as int]);
        assert(cs.take(p as int) + seq![cs[p as int]] =~= cs.take(i as int));
        assert(fs.take(p as int) + seq![fs[p as int]] =~= fs.take(i as int));
    }
}

/// Each complete thought of a stream holds exactly the text of the thought deltas before it
/// that carry its id, in order; no delta after it carries that id, and no other thought
/// does (each id is flushed at most once; the ids drawn afresh, none empty and no two
/// alike).
pub proof fn law_thoughts_join_deltas(cs: Seq<ChunkModel>, fs: Seq<Seq<char>>)
    requires
        fresh_ids(fs),
        fs.len() > cs.len(),
    ensures
        thoughts_join_deltas(stream_events(initial_converter(), cs, fs)),
        thought_ids_distinct(stream_events(initial_converter(), cs, fs)),
{
    let m0 = initial_converter();
    lemma_tjoin_run(cs, fs, cs.len());
    assert(cs.take(cs.len() as int) =~= cs);
    lemma_run_prefix(m0, cs, fs);
    let (m, es) = run_chunks(m0, cs, fs);
    let tail = seq![
        EventModel::TurnStop {
            id: fs[cs.len() as int],
            stop_reason: stop_reason_for(m.finish),
            token_usage: m.usage,
        },
    ];
    lemma_tjoin_flush(m, es, fs, cs.len() as int, tail);
    assert(stream_events(m0, cs, fs) =~= es + flush_events(m) + tail);
}

} // verus!
