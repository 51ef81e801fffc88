use playpen::config::Settings;
use playpen::content::ContentBlock;
use playpen::event::{Event, StopReason};
use playpen::json::JsonValue;
use playpen::model::{ModelProfile, ModelProvider, ThinkingLevel};
use playpen::runner::{
    cancelled_results, drop_unanswered_calls, event_kind, orphan_function_call_repairs, prepare_run,
    profile_not_found_message, profile_state_events, session_not_found_message, rewind_target, select_profile, state_text_or, stored_instruction,
    tool_result_event, EventAction, PendingCall, ToolOutcome, TurnConsumer, TurnDecision,
};
use playpen::stream::{convert_stream, CompletionUsage, FinishReason, StreamChunk, StreamConverter};
use playpen::strmap::StrMap;
use playpen::subagent::{collect_run, entry_count, SubagentCollector};
use playpen::tool_loop::{LoopEvent, NextStep, ToolLoop};

fn call(id: &str, call_id: &str) -> Event {
    Event::FunctionCall {
        id: id.into(),
        call_id: call_id.into(),
        name: "bash".into(),
        args: JsonValue::Object(vec![]),
    }
}

fn result(id: &str, call_id: &str) -> Event {
    Event::FunctionResult {
        id: id.into(),
        call_id: call_id.into(),
        name: "bash".into(),
        content: Some(vec![ContentBlock::text("ok")]),
        code: Some(0),
    }
}

#[test]
fn reconcile_orphan_function_calls_repairs_and_idempotent() {
    let events = vec![
        Event::UserMessage { id: "u".into(), content: vec![ContentBlock::text("hi")] },
        call("f1", "c1"),
        call("f2", "c2"),
        result("r2", "c2"),
    ];
    let repairs = orphan_function_call_repairs(&events);
    assert_eq!(repairs.len(), 1);
    match &repairs[0] {
        Event::FunctionResult { call_id, code, .. } => {
            assert_eq!(call_id, "c1");
            assert_eq!(*code, None);
        }
        _ => panic!("期望 FunctionResult"),
    }
    let mut all = events;
    all.extend(repairs);
    assert!(orphan_function_call_repairs(&all).is_empty());
}

#[test]
fn load_chat_messages_filters_orphan_function_calls() {
    let events = vec![call("f1", "c1"), call("f2", "c2"), result("r2", "c2")];
    let kept = drop_unanswered_calls(events);
    assert_eq!(kept.len(), 2);
    assert!(matches!(&kept[0], Event::FunctionCall { call_id, .. } if call_id == "c2"));
}

#[test]
fn turn_consumer_decides_after_a_turn() {
    let mut t = TurnConsumer::new();
    assert_eq!(t.classify(&Event::ModelThought { id: "t".into(), text: "hm".into() }), EventAction::EmitAndPersist);
    assert_eq!(t.decision(), TurnDecision::Retry);
    assert_eq!(t.classify(&Event::ModelMessageDelta { id: String::new(), text: "x".into() }), EventAction::EmitOnly);
    assert_eq!(t.classify(&call("f", "c")), EventAction::EmitAndPersist);
    assert_eq!(t.decision(), TurnDecision::RunTools);
    assert_eq!(t.pending.len(), 1);

    let mut t = TurnConsumer::new();
    t.classify(&Event::ModelMessage { id: "m".into(), content: vec![ContentBlock::text("done")] });
    assert_eq!(t.decision(), TurnDecision::Stop);
    assert_eq!(TurnConsumer::new().decision(), TurnDecision::Stop);
}

#[test]
fn tool_results_and_cancellation() {
    let p = PendingCall { id: "e".into(), call_id: "c".into(), name: "nope".into(), args: JsonValue::Null };
    match tool_result_event(&p, ToolOutcome::NotFound) {
        Event::FunctionResult { code, content, .. } => {
            assert_eq!(code, Some(-1));
            match &content.unwrap()[0] {
                ContentBlock::Text(t) => assert_eq!(t.text, "无效的工具: nope"),
                _ => panic!("期望 Text"),
            }
        }
        _ => panic!("期望 FunctionResult"),
    }
    let cancelled = cancelled_results(&vec![p]);
    assert_eq!(cancelled.len(), 1);
    assert_eq!(event_kind(&cancelled[0]), "function_result");
}

#[test]
fn resume_selects_profile() {
    let names = vec!["a".to_string(), "b".to_string()];
    assert_eq!(select_profile(&names, "b"), Some(1));
    assert_eq!(select_profile(&names, "zzz"), Some(0));
    assert_eq!(select_profile(&vec![], "a"), None);
    assert_eq!(profile_not_found_message("x"), "profile 'x' not found");
    assert_eq!(state_text_or(None, "default"), "default");
    assert_eq!(state_text_or(Some(&JsonValue::Str("code".into())), "default"), "code");
    assert_eq!(stored_instruction(None, "from profile".into()), "from profile");
    assert_eq!(stored_instruction(Some(&JsonValue::Null), "from profile".into()), "");
}

#[test]
fn profile_state_persisted_on_create() {
    let mp = ModelProfile {
        model: "deepseek/chat".into(),
        thinking_level: Some(ThinkingLevel::High),
        temperature: Some("0.7".into()),
        top_p: None,
    };
    let events = profile_state_events("default", &mp);
    assert_eq!(events.len(), 2);
    match &events[0] {
        Event::StateUpdate { name, data, .. } => {
            assert_eq!(name, "agent-profile:name");
            assert!(matches!(data, JsonValue::Str(s) if s == "default"));
        }
        _ => panic!("期望 StateUpdate"),
    }
    match &events[1] {
        Event::StateUpdate { name, data: JsonValue::Object(fs), .. } => {
            assert_eq!(name, "agent-profile:model-profile");
            let keys: Vec<&str> = fs.iter().map(|(k, _)| k.as_str()).collect();
            assert_eq!(keys, vec!["model", "temperature", "thinking_level"]);
        }
        _ => panic!("期望 StateUpdate"),
    }
}

#[test]
fn prepare_run_reports_missing_provider() {
    let settings = Settings { default_profile: None, sandbox: None, model_providers: StrMap::new() };
    match prepare_run(&settings, &ModelProfile { model: "x/y".into(), ..Default::default() }) {
        Err(StopReason::Error(e)) => assert_eq!(e, "provider x not configured"),
        _ => panic!("应停止"),
    }
    let mut mp = StrMap::new();
    mp.insert("x".to_string(), ModelProvider { name: "X".into(), base_url: "https://h/v1//".into(), api_key: "k".into(), models: None });
    let settings = Settings { default_profile: None, sandbox: None, model_providers: mp };
    let (client, params) = prepare_run(&settings, &ModelProfile { model: "x/y".into(), ..Default::default() }).ok().unwrap();
    assert_eq!(client.config().model, "y");
    assert_eq!(client.config().base_url, "https://h/v1");
    assert_eq!(client.config().api_key, "k");
    assert!(client.config().model_config.is_none());
    assert!(params.is_none());
}

#[test]
fn process_stream_text_delta_shares_id() {
    let mut c = StreamConverter::new();
    let a = c.on_chunk(StreamChunk::Text("he".into()), "id1".into());
    let b = c.on_chunk(StreamChunk::Text("llo".into()), "id2".into());
    match (&a[0], &b[0]) {
        (Event::ModelMessageDelta { id: x, .. }, Event::ModelMessageDelta { id: y, .. }) => {
            assert_eq!(x, "id1");
            assert_eq!(y, "id1");
        }
        _ => panic!("期望 delta"),
    }
    let fin = c.on_chunk(
        StreamChunk::Final { usage: CompletionUsage::new(), finish_reason: Some(FinishReason::Length) },
        "id3".into(),
    );
    assert!(fin.is_empty());
    let end = c.finish("id4".into());
    assert!(matches!(&end[0], Event::ModelMessage { id, .. } if id == "id1"));
    assert!(matches!(end.last().unwrap(), Event::TurnStop { stop_reason: StopReason::MaxTokens, .. }));
}

#[test]
fn subagent_collector_results() {
    let mut c = SubagentCollector::new();
    c.observe(&Event::ModelMessage { id: "m".into(), content: vec![ContentBlock::text("answer")] });
    assert_eq!(c.finish(3).unwrap().text, "answer");

    let mut c = SubagentCollector::new();
    c.observe(&result("r", "c"));
    let out = c.finish(1).unwrap();
    assert_eq!(out.text, "（子代理仅执行了工具调用，无文本总结。最后工具输出：\nok）");
    assert_eq!(out.message_end_index, 0);

    let mut c = SubagentCollector::new();
    c.observe(&Event::TurnStop { id: "s".into(), stop_reason: StopReason::Cancelled, token_usage: None });
    assert_eq!(c.finish(1).err().unwrap(), "子代理被取消");

    let events = vec![
        Event::UserMessage { id: "u".into(), content: vec![] },
        Event::ModelMessageDelta { id: String::new(), text: "x".into() },
        Event::ModelMessage { id: "m".into(), content: vec![] },
    ];
    assert_eq!(entry_count(&events), 2);
}

#[test]
fn rewind_goes_back_to_the_last_user_message() {
    let events = vec![
        Event::UserMessage { id: "u1".into(), content: vec![ContentBlock::text("a")] },
        Event::UserMessage { id: "u2".into(), content: vec![ContentBlock::text("b")] },
    ];
    assert_eq!(rewind_target(&events), Some("u2".to_string()));
    assert_eq!(rewind_target(&vec![]), None);
    let ends_with_result = vec![
        Event::UserMessage { id: "u1".into(), content: vec![] },
        result("r1", "c1"),
    ];
    assert_eq!(rewind_target(&ends_with_result), None);
}

fn step_to(l: &mut ToolLoop, e: LoopEvent) -> (Option<StopReason>, NextStep) {
    let a = l.step(e);
    (a.send_stop, a.next)
}

fn loop_streaming() -> ToolLoop {
    let mut l = ToolLoop::new(5);
    assert_eq!(step_to(&mut l, LoopEvent::TurnBegins { cancelled: false }).1, NextStep::LoadHistory);
    assert_eq!(step_to(&mut l, LoopEvent::HistoryLoaded { messages: 1 }).1, NextStep::OpenStream);
    assert_eq!(step_to(&mut l, LoopEvent::StreamOpened).1, NextStep::ReadEvent);
    l
}

#[test]
fn cancel_after_function_call_writes_cancelled_result() {
    let mut l = loop_streaming();
    let call = Event::FunctionCall {
        id: String::new(),
        call_id: "call_1".into(),
        name: "test_tool".into(),
        args: JsonValue::Object(vec![]),
    };
    assert_eq!(step_to(&mut l, LoopEvent::Next(call)).1, NextStep::SendAndPersist);
    assert_eq!(step_to(&mut l, LoopEvent::Persisted).1, NextStep::ReadEvent);
    let delta = Event::ModelThoughtDelta { id: "t".into(), text: "..".into() };
    assert_eq!(step_to(&mut l, LoopEvent::Next(delta)).1, NextStep::Send);
    assert_eq!(l.current.pending.len(), 1);
    assert_eq!(l.current.pending[0].call_id, "call_1");
    assert_eq!(step_to(&mut l, LoopEvent::CancelSeen).1, NextStep::WriteCancelled(0));
    let (stop, next) = step_to(&mut l, LoopEvent::CancelledResultWritten { append_error: None });
    assert_eq!(stop, Some(StopReason::Cancelled));
    assert_eq!(next, NextStep::Finish);
}

#[test]
fn cancel_without_pending_calls_stops() {
    let mut l = loop_streaming();
    let (stop, next) = step_to(&mut l, LoopEvent::CancelSeen);
    assert_eq!(stop, Some(StopReason::Cancelled));
    assert_eq!(next, NextStep::Finish);
}

#[test]
fn empty_history_has_no_messages_to_send() {
    let mut l = ToolLoop::new(5);
    step_to(&mut l, LoopEvent::TurnBegins { cancelled: false });
    let (stop, next) = step_to(&mut l, LoopEvent::HistoryLoaded { messages: 0 });
    assert_eq!(stop, Some(StopReason::Error("no messages to send".into())));
    assert_eq!(next, NextStep::Finish);
}

#[test]
fn unknown_tool_append_failure_goes_on_but_known_tool_stops() {
    let mut l = loop_streaming();
    for id in ["c1", "c2"] {
        let call = Event::FunctionCall {
            id: String::new(),
            call_id: id.into(),
            name: "x".into(),
            args: JsonValue::Object(vec![]),
        };
        step_to(&mut l, LoopEvent::Next(call));
        step_to(&mut l, LoopEvent::Persisted);
    }
    assert_eq!(step_to(&mut l, LoopEvent::StreamEnded).1, NextStep::RunTool(0));
    let (stop, next) = step_to(&mut l, LoopEvent::ToolRan { found: false, append_error: Some("disk".into()) });
    assert_eq!(stop, Some(StopReason::Error("function_result persist failed: disk".into())));
    assert_eq!(next, NextStep::RunTool(1));
    let (stop, next) = step_to(&mut l, LoopEvent::ToolRan { found: true, append_error: Some("disk".into()) });
    assert_eq!(stop, Some(StopReason::Error("function_result persist failed: disk".into())));
    assert_eq!(next, NextStep::Finish);
}

#[test]
fn tools_ran_then_next_turn_and_turns_run_out() {
    let mut l = ToolLoop::new(1);
    step_to(&mut l, LoopEvent::TurnBegins { cancelled: false });
    step_to(&mut l, LoopEvent::HistoryLoaded { messages: 2 });
    step_to(&mut l, LoopEvent::StreamOpened);
    let call = Event::FunctionCall { id: String::new(), call_id: "c".into(), name: "x".into(), args: JsonValue::Null };
    step_to(&mut l, LoopEvent::Next(call));
    step_to(&mut l, LoopEvent::Persisted);
    step_to(&mut l, LoopEvent::StreamEnded);
    assert_eq!(step_to(&mut l, LoopEvent::ToolRan { found: true, append_error: None }).1, NextStep::NextTurn);
    assert_eq!(step_to(&mut l, LoopEvent::TurnBegins { cancelled: false }), (None, NextStep::PersistEndTurn));
}

#[test]
fn persist_failure_names_the_event_kind() {
    let mut l = loop_streaming();
    let msg = Event::ModelMessage { id: "m".into(), content: vec![ContentBlock::text("hi")] };
    step_to(&mut l, LoopEvent::Next(msg));
    let (stop, next) = step_to(&mut l, LoopEvent::PersistFailed("db down".into()));
    assert_eq!(stop, Some(StopReason::Error("model_message persist failed: db down".into())));
    assert_eq!(next, NextStep::Finish);
}

#[test]
fn cancelled_before_a_turn_stops() {
    let mut l = ToolLoop::new(3);
    assert_eq!(step_to(&mut l, LoopEvent::TurnBegins { cancelled: true }), (Some(StopReason::Cancelled), NextStep::Finish));
}

#[test]
fn subagent_run_result_from_whole_run() {
    let events = vec![
        Event::ModelMessage { id: "m".into(), content: vec![ContentBlock::text("first")] },
        Event::TurnStop { id: "s".into(), stop_reason: StopReason::Error("boom".into()), token_usage: None },
        result("r", "c"),
        Event::ModelMessage { id: "m2".into(), content: vec![ContentBlock::text("final")] },
        Event::TurnStop { id: "s2".into(), stop_reason: StopReason::EndTurn, token_usage: None },
    ];
    let out = collect_run(&events, false, 4).unwrap();
    assert_eq!(out.text, "final");
    assert_eq!(out.message_end_index, 3);
    assert_eq!(collect_run(&events, true, 4).err().unwrap(), "父会话已取消，子代理随之取消");
    let failed = vec![Event::TurnStop { id: "s".into(), stop_reason: StopReason::Error("boom".into()), token_usage: None }];
    assert_eq!(collect_run(&failed, false, 0).err().unwrap(), "boom");
    let tools_only = vec![result("r", "c")];
    assert_eq!(
        collect_run(&tools_only, false, 1).unwrap().text,
        "（子代理仅执行了工具调用，无文本总结。最后工具输出：\nok）"
    );
}

fn run_stream(chunks: Vec<StreamChunk>) -> Vec<Event> {
    let mut fresh: Vec<String> = (0..chunks.len()).map(|i| format!("f{i}")).collect();
    fresh.push("end".into());
    convert_stream(&chunks, &fresh)
}

#[test]
fn a_stream_ends_with_one_stop_and_skipped_chunks_change_nothing() {
    let usage = CompletionUsage { input_tokens: 3, output_tokens: 2, ..CompletionUsage::new() };
    let with_noise = run_stream(vec![
        StreamChunk::Text("a".into()),
        StreamChunk::Unknown,
        StreamChunk::Final { usage, finish_reason: Some(FinishReason::ContentFilter) },
        StreamChunk::Error("lost".into()),
        StreamChunk::Final { usage: CompletionUsage::new(), finish_reason: Some(FinishReason::Stop) },
    ]);
    let stops = with_noise.iter().filter(|e| matches!(e, Event::TurnStop { .. })).count();
    assert_eq!(stops, 1);
    assert!(matches!(with_noise.last().unwrap(), Event::TurnStop { stop_reason: StopReason::EndTurn, token_usage: None, .. }));
    let kinds = |es: &Vec<Event>| es.iter().map(|e| format!("{:?}", std::mem::discriminant(e))).collect::<Vec<_>>();
    let clean = run_stream(vec![StreamChunk::Text("a".into())]);
    assert_eq!(kinds(&with_noise), kinds(&clean));
}

#[test]
fn unknown_session_message() {
    assert_eq!(session_not_found_message("abc"), "session abc 不存在");
}

#[test]
fn each_call_runs_once_then_next_turn() {
    let mut l = loop_streaming();
    for id in ["c1", "c2", "c3"] {
        let call = Event::FunctionCall { id: String::new(), call_id: id.into(), name: "x".into(), args: JsonValue::Null };
        step_to(&mut l, LoopEvent::Next(call));
        step_to(&mut l, LoopEvent::Persisted);
    }
    let mut asked = vec![step_to(&mut l, LoopEvent::StreamEnded).1];
    for _ in 0..3 {
        asked.push(step_to(&mut l, LoopEvent::ToolRan { found: true, append_error: None }).1);
    }
    assert_eq!(asked, vec![NextStep::RunTool(0), NextStep::RunTool(1), NextStep::RunTool(2), NextStep::NextTurn]);
}
