use playpen::content::{ContentBlock, Resource};
use playpen::json::JsonValue;
use playpen::subagent::SubagentOutput;
use playpen::tools::{
    edit_result_block, read_result_block, spawn_ready_delta, spawn_result_block, write_result_block,
    run_bash_outputs, SpawnAction, SpawnEvent, SpawnFlow, BashCollector, BashStep, CommandOutput, EditDiff,
};
use playpen::event::Event;

fn run_bash(items: Vec<CommandOutput>) -> Vec<ContentBlock> {
    let (result, _) = run_bash_outputs(&items, &"e".to_string(), &"c".to_string(), &"bash".to_string());
    result.unwrap()
}

fn resource_texts(blocks: &[ContentBlock]) -> Vec<&str> {
    blocks
        .iter()
        .filter_map(|b| match b {
            ContentBlock::Resource(Resource::Text { text, .. }) => Some(text.as_str()),
            _ => None,
        })
        .collect()
}

fn get<'a>(v: &'a JsonValue, key: &str) -> Option<&'a JsonValue> {
    match v {
        JsonValue::Object(fs) => fs.iter().find(|(k, _)| k == key).map(|(_, v)| v),
        _ => None,
    }
}

#[test]
fn bash_stdout_then_exit() {
    let blocks = run_bash(vec![CommandOutput::Stdout("hello\n".into()), CommandOutput::Exited(0)]);
    assert!(resource_texts(&blocks).iter().any(|t| t.contains("hello")));
}

#[test]
fn bash_exit_breaks_loop() {
    let blocks = run_bash(vec![
        CommandOutput::Stdout("output\n".into()),
        CommandOutput::Exited(0),
        CommandOutput::Stderr("should not appear\n".into()),
    ]);
    let texts = resource_texts(&blocks);
    assert!(texts.iter().any(|t| t.contains("output")));
    assert!(!texts.iter().any(|t| t.contains("should not appear")));
}

#[test]
fn bash_cancelled_breaks_loop() {
    let blocks = run_bash(vec![
        CommandOutput::Stdout("partial\n".into()),
        CommandOutput::Cancelled,
        CommandOutput::Stderr("should not appear\n".into()),
    ]);
    let texts = resource_texts(&blocks);
    assert!(texts.iter().any(|t| t.contains("partial")));
    assert!(!texts.iter().any(|t| t.contains("should not appear")));
    assert!(blocks.iter().any(|b| matches!(b, ContentBlock::Text(t) if t.text.contains("取消"))));
}

#[test]
fn bash_no_output() {
    let blocks = run_bash(vec![CommandOutput::Exited(0)]);
    assert!(blocks.iter().any(|b| matches!(b, ContentBlock::Text(t) if t.text.contains("执行成功（无输出）"))));
}

#[test]
fn bash_exit_code_annotation() {
    let blocks = run_bash(vec![CommandOutput::Stderr("错误\n".into()), CommandOutput::Exited(1)]);
    match blocks.last().unwrap() {
        ContentBlock::Resource(Resource::Text { uri, annotations, .. }) => {
            assert_eq!(uri, "/dev/stderr");
            let a = annotations.as_ref().expect("应有 annotations");
            assert!(matches!(get(a, "exit_code"), Some(JsonValue::Number(n)) if n == "1"));
        }
        _ => panic!("期望 Resource"),
    }
}

#[test]
fn bash_spawn_failed_propagates_error() {
    let mut c = BashCollector::new();
    let s = String::new();
    let (step, delta) = c.observe(CommandOutput::SpawnFailed("boom".into()), false, &s, &s, &s);
    assert!(delta.is_none());
    match step {
        BashStep::Failed(e) => assert_eq!(e, "命令启动失败: boom"),
        _ => panic!("期望失败"),
    }
}

#[test]
fn bash_output_streams_deltas() {
    let mut c = BashCollector::new();
    let (id, call, name) = (String::from("e1"), String::from("c1"), String::from("bash"));
    let (_, delta) = c.observe(CommandOutput::Stdout("x".into()), false, &id, &call, &name);
    match delta.unwrap() {
        Event::FunctionOutputDelta { id, call_id, name, text } => {
            assert_eq!((id.as_str(), call_id.as_str(), name.as_str(), text.as_str()), ("e1", "c1", "bash", "x"));
        }
        _ => panic!("期望 delta"),
    }
}

#[test]
fn spawn_success_carries_session_info() {
    let out = SubagentOutput { text: "done".into(), message_end_index: 7 };
    let block = spawn_result_block(&"s1".to_string(), 3, &Ok(out));
    match block {
        ContentBlock::Text(t) => {
            assert_eq!(t.text, "done");
            let a = t.annotations.unwrap();
            assert!(matches!(get(&a, "exit_code"), Some(JsonValue::Number(n)) if n == "0"));
            let info = get(&a, "_meta.subagent_session_info").unwrap();
            assert!(matches!(get(info, "session_id"), Some(JsonValue::Str(s)) if s == "s1"));
            assert!(matches!(get(info, "message_start_index"), Some(JsonValue::Number(n)) if n == "3"));
            assert!(matches!(get(info, "message_end_index"), Some(JsonValue::Number(n)) if n == "7"));
        }
        _ => panic!("期望 Text"),
    }
}

#[test]
fn send_failure_keeps_session_id() {
    let block = spawn_result_block(&"s2".to_string(), 0, &Err("bad".to_string()));
    match block {
        ContentBlock::Text(t) => {
            assert_eq!(t.text, "子代理执行失败: bad");
            let a = t.annotations.unwrap();
            assert!(matches!(get(&a, "exit_code"), Some(JsonValue::Number(n)) if n == "1"));
            let info = get(&a, "_meta.subagent_session_info").unwrap();
            assert!(matches!(get(info, "session_id"), Some(JsonValue::Str(s)) if s == "s2"));
            assert!(matches!(get(info, "message_end_index"), Some(JsonValue::Null)));
        }
        _ => panic!("期望 Text"),
    }
    let s = String::from("x");
    match spawn_ready_delta("lbl", "s2", &s, &s, &s) {
        Event::FunctionOutputDelta { text, .. } => assert_eq!(text, "子代理「lbl」已就绪（session s2），正在运行…"),
        _ => panic!("期望 delta"),
    }
}

#[test]
fn file_tool_blocks() {
    match read_result_block("/a.txt", Ok("hi".into())) {
        ContentBlock::Resource(Resource::Text { uri, media_type, text, .. }) => {
            assert_eq!((uri.as_str(), media_type.as_str(), text.as_str()), ("/a.txt", "text/plain", "hi"));
        }
        _ => panic!("期望 Resource"),
    }
    match read_result_block("/a.txt", Err("nope".into())) {
        ContentBlock::Text(t) => assert_eq!(t.text, "读取失败: nope"),
        _ => panic!("期望 Text"),
    }
    let block = edit_result_block(Ok((
        "/a.txt".into(),
        vec![EditDiff { old_text: "a".into(), new_text: "b".into() }],
    )));
    match block {
        ContentBlock::Text(t) => {
            assert_eq!(t.text, "编辑成功，替换了 1 处");
            let a = t.annotations.unwrap();
            assert!(matches!(get(&a, "path"), Some(JsonValue::Str(s)) if s == "/a.txt"));
        }
        _ => panic!("期望 Text"),
    }
    let block = write_result_block(Ok(("/a.txt".into(), None, "new".into())));
    match block {
        ContentBlock::Text(t) => {
            assert_eq!(t.text, "写入成功");
            let a = t.annotations.unwrap();
            assert!(get(&a, "old_text").is_none());
            assert!(matches!(get(&a, "new_text"), Some(JsonValue::Str(s)) if s == "new"));
        }
        _ => panic!("期望 Text"),
    }
}

#[test]
fn bash_streams_deltas_until_exit() {
    let items = vec![
        CommandOutput::Stdout("a".into()),
        CommandOutput::Stderr("b".into()),
        CommandOutput::Exited(2),
        CommandOutput::Stdout("late".into()),
    ];
    let (result, deltas) = run_bash_outputs(&items, &"e1".to_string(), &"c1".to_string(), &"bash".to_string());
    assert_eq!(deltas.len(), 2);
    match &deltas[1] {
        Event::FunctionOutputDelta { id, call_id, name, text } => {
            assert_eq!((id.as_str(), call_id.as_str(), name.as_str(), text.as_str()), ("e1", "c1", "bash", "b"));
        }
        _ => panic!("期望 FunctionOutputDelta"),
    }
    assert_eq!(result.unwrap().len(), 2);
}

#[test]
fn bash_spawn_failure_is_an_error() {
    let items = vec![CommandOutput::SpawnFailed("no shell".into())];
    let (result, deltas) = run_bash_outputs(&items, &"e".to_string(), &"c".to_string(), &"bash".to_string());
    assert_eq!(result.err().unwrap(), "命令启动失败: no shell");
    assert!(deltas.is_empty());
}

#[test]
fn spawn_flow_announces_runs_and_replies() {
    let mut f = SpawnFlow::new("调研".into(), "e".into(), "c".into(), "spawn_agent".into());
    match f.step(SpawnEvent::Spawned(Ok(("s1".into(), 3)))) {
        SpawnAction::AnnounceAndRun(Event::FunctionOutputDelta { text, .. }) => {
            assert_eq!(text, "子代理「调研」已就绪（session s1），正在运行…");
        }
        _ => panic!("期望 AnnounceAndRun"),
    }
    let out = SubagentOutput { text: "done".into(), message_end_index: 7 };
    match f.step(SpawnEvent::RunFinished(Ok(out))) {
        SpawnAction::Reply(blocks) => {
            assert_eq!(blocks.len(), 1);
            assert!(matches!(&blocks[0], ContentBlock::Text(t) if t.text == "done"));
        }
        _ => panic!("期望 Reply"),
    }
    assert!(matches!(f.step(SpawnEvent::RunFinished(Err("x".into()))), SpawnAction::Finish));
}

#[test]
fn spawn_flow_fails_without_session() {
    let mut f = SpawnFlow::new("l".into(), "e".into(), "c".into(), "spawn_agent".into());
    match f.step(SpawnEvent::Spawned(Err("session not found".into()))) {
        SpawnAction::Fail(e) => assert_eq!(e, "session not found"),
        _ => panic!("期望 Fail"),
    }
}
