use playpen::content::{ContentBlock, Resource, ResourceLink};
use playpen::convert::{
    event_to_assistant_content, event_to_tool_result, events_to_chat_history, image_payload,
    is_image_block, tool_result_text, AssistantContent, ChatMessage, ImagePayload, UserContent,
};
use playpen::event::{Event, StopReason};
use playpen::json::JsonValue;
use playpen::stream::{finish_reason_to_stop_reason, usage_to_playpen, CompletionUsage, FinishReason};

#[test]
fn test_model_message_to_assistant_content() {
    let event = Event::ModelMessage {
        id: "m1".to_string(),
        content: vec![ContentBlock::text("hi there")],
    };
    let content = event_to_assistant_content(&event, "fresh-1").unwrap();
    match content {
        AssistantContent::Text(t) => assert_eq!(t, "hi there"),
        _ => panic!("期望 Text"),
    }
}

#[test]
fn test_function_call_to_assistant_content() {
    let event = Event::FunctionCall {
        id: String::new(),
        call_id: "c1".into(),
        name: "bash".into(),
        args: JsonValue::Object(vec![("command".to_string(), JsonValue::Str("echo hi".to_string()))]),
    };
    let content = event_to_assistant_content(&event, "fresh-1").unwrap();
    match content {
        AssistantContent::ToolCall { name, args, .. } => {
            assert_eq!(name, "bash");
            match args {
                JsonValue::Object(fs) => {
                    assert_eq!(fs[0].0, "command");
                    assert!(matches!(&fs[0].1, JsonValue::Str(s) if s == "echo hi"));
                }
                _ => panic!("参数应为对象"),
            }
        }
        _ => panic!("期望 ToolCall"),
    }
}

#[test]
fn test_function_result_to_tool_result() {
    let event = Event::FunctionResult {
        id: String::new(),
        call_id: "c1".into(),
        name: "bash".into(),
        content: Some(vec![ContentBlock::text("hi\n")]),
        code: Some(0),
    };
    let msg = event_to_tool_result(&event, "fresh-1").unwrap();
    match msg {
        ChatMessage::User { content } => match content.first().unwrap() {
            UserContent::ToolResult(tr) => {
                assert!(!tr.content.is_empty());
                assert!(tr.content.contains("hi"), "结果应包含 hi，实际: {}", tr.content);
            }
            _ => panic!("期望 ToolResult"),
        },
        _ => panic!("期望 User"),
    }
}

#[test]
fn test_function_result_resource_text_to_tool_result() {
    let event = Event::FunctionResult {
        id: String::new(),
        call_id: "c2".into(),
        name: "bash".into(),
        content: Some(vec![ContentBlock::resource(Resource::text(
            "/dev/stdout",
            "text/plain",
            "hello from bash\n",
        ))]),
        code: Some(0),
    };
    let msg = event_to_tool_result(&event, "fresh-1").unwrap();
    match msg {
        ChatMessage::User { content } => {
            let UserContent::ToolResult(tr) = content.first().unwrap() else {
                panic!("期望 ToolResult");
            };
            assert!(tr.content.contains("hello from bash"), "Resource 块结果应包含输出文本，实际: {}", tr.content);
        }
        _ => panic!("期望 User"),
    }
}

#[test]
fn test_delta_skipped() {
    let event = Event::ModelMessageDelta { id: String::new(), text: "partial".into() };
    assert!(event_to_assistant_content(&event, "fresh-1").is_none());

    let event = Event::ModelThoughtDelta { id: String::new(), text: "thinking".into() };
    assert!(event_to_assistant_content(&event, "fresh-1").is_none());
}

#[test]
fn turn_stop_is_not_history() {
    let event = Event::TurnStop { id: String::new(), stop_reason: StopReason::EndTurn, token_usage: None };
    assert!(event_to_assistant_content(&event, "fresh-1").is_none());
    assert!(event_to_tool_result(&event, "fresh-1").is_none());
}

#[test]
fn test_is_image_block() {
    let blob = ContentBlock::Resource(Resource::Blob {
        uri: "file:///tmp/a.png".into(),
        media_type: "image/png".into(),
        blob: vec![1],
        annotations: None,
    });
    assert!(is_image_block(&blob));

    let blob_txt = ContentBlock::Resource(Resource::Blob {
        uri: "file:///tmp/a.txt".into(),
        media_type: "text/plain".into(),
        blob: vec![1],
        annotations: None,
    });
    assert!(!is_image_block(&blob_txt));

    let link = ContentBlock::ResourceLink(ResourceLink {
        uri: "file:///tmp/a.jpg".into(),
        name: "a.jpg".into(),
        media_type: None,
        size: None,
        annotations: None,
    });
    assert!(is_image_block(&link));

    let link_pdf = ContentBlock::ResourceLink(ResourceLink {
        uri: "file:///tmp/a.pdf".into(),
        name: "a.pdf".into(),
        media_type: None,
        size: None,
        annotations: None,
    });
    assert!(!is_image_block(&link_pdf));
}

#[test]
fn image_payload_of_blob_and_link() {
    let blob = ContentBlock::resource(Resource::blob("file:///tmp/a.png", "image/png", vec![1, 2]));
    match image_payload(&blob).unwrap() {
        ImagePayload::Inline { name, media_type, data } => {
            assert_eq!(name, "a.png");
            assert_eq!(media_type, "image/png");
            assert_eq!(data, vec![1, 2]);
        }
        _ => panic!("期望 Inline"),
    }
    let link = ContentBlock::resource_link(ResourceLink::new("/tmp/b.JPG", "b"));
    match image_payload(&link).unwrap() {
        ImagePayload::Linked { uri, name, media_type } => {
            assert_eq!(uri, "/tmp/b.JPG");
            assert_eq!(name, "b.JPG");
            assert_eq!(media_type, "image/jpeg");
        }
        _ => panic!("期望 Linked"),
    }
    assert!(image_payload(&ContentBlock::text("x")).is_none());
}

#[test]
fn history_merges_assistant_parts_and_drops_orphan_results() {
    let events = vec![
        Event::UserMessage { id: "u".into(), content: vec![ContentBlock::text("hi")] },
        Event::ModelThought { id: "t".into(), text: "hmm".into() },
        Event::ModelMessage { id: "m".into(), content: vec![ContentBlock::text("hello")] },
        Event::FunctionResult {
            id: "r".into(),
            call_id: "nobody".into(),
            name: "bash".into(),
            content: Some(vec![ContentBlock::text("x")]),
            code: Some(0),
        },
    ];
    let uploads = vec![vec![None], vec![], vec![], vec![]];
    let fresh: Vec<String> = (0..events.len()).map(|i| format!("fresh-{i}")).collect();
    let history = events_to_chat_history(&events, &uploads, &fresh);
    assert_eq!(history.len(), 2);
    match &history[1] {
        ChatMessage::Assistant { content } => assert_eq!(content.len(), 2),
        _ => panic!("期望 Assistant"),
    }
}

#[test]
fn test_finish_reason_stop() {
    assert_eq!(finish_reason_to_stop_reason(Some(&FinishReason::Stop)), StopReason::EndTurn);
}

#[test]
fn test_finish_reason_length() {
    assert_eq!(finish_reason_to_stop_reason(Some(&FinishReason::Length)), StopReason::MaxTokens);
}

#[test]
fn test_finish_reason_refusal() {
    assert_eq!(finish_reason_to_stop_reason(Some(&FinishReason::ContentFilter)), StopReason::Refusal);
}

#[test]
fn test_finish_reason_tool_calls() {
    assert_eq!(finish_reason_to_stop_reason(Some(&FinishReason::ToolCalls)), StopReason::EndTurn);
}

#[test]
fn test_finish_reason_other() {
    assert_eq!(
        finish_reason_to_stop_reason(Some(&FinishReason::Other("x".into()))),
        StopReason::EndTurn
    );
}

#[test]
fn test_finish_reason_none() {
    assert_eq!(finish_reason_to_stop_reason(None), StopReason::EndTurn);
}

#[test]
fn test_usage_to_playpen() {
    let usage = CompletionUsage {
        input_tokens: 10,
        output_tokens: 5,
        total_tokens: 15,
        cached_input_tokens: 3,
        cache_creation_input_tokens: 2,
        tool_use_prompt_tokens: 0,
        reasoning_tokens: 1,
    };
    let tp = usage_to_playpen(&usage).unwrap();
    assert_eq!(tp.prompt_token_count, 10);
    assert_eq!(tp.candidates_token_count, 5);
    assert_eq!(tp.total_token_count, 15);
    assert_eq!(tp.cache_read_input_token_count, Some(3));
    assert_eq!(tp.cache_creation_input_token_count, Some(2));
    assert_eq!(tp.thinking_token_count, Some(1));
}

#[test]
fn test_usage_to_playpen_zero_returns_none() {
    let usage = CompletionUsage::new();
    assert!(usage_to_playpen(&usage).is_none());
}

#[test]
fn empty_call_ids_are_minted() {
    let call = Event::FunctionCall {
        id: String::new(),
        call_id: String::new(),
        name: "bash".into(),
        args: JsonValue::Object(vec![]),
    };
    match event_to_assistant_content(&call, "minted-1").unwrap() {
        AssistantContent::ToolCall { call_id, .. } => assert_eq!(call_id, "minted-1"),
        _ => panic!("期望 ToolCall"),
    }
    let result = Event::FunctionResult {
        id: String::new(),
        call_id: String::new(),
        name: "bash".into(),
        content: None,
        code: None,
    };
    match event_to_tool_result(&result, "minted-2").unwrap() {
        ChatMessage::User { content } => match &content[0] {
            UserContent::ToolResult(tr) => {
                assert_eq!(tr.call_id, "minted-2");
                assert_eq!(tr.content, "{\"result\":\"\"}");
            }
            _ => panic!("期望 ToolResult"),
        },
        _ => panic!("期望 User"),
    }
    let named = Event::FunctionCall {
        id: String::new(),
        call_id: "c7".into(),
        name: "bash".into(),
        args: JsonValue::Object(vec![]),
    };
    match event_to_assistant_content(&named, "minted-3").unwrap() {
        AssistantContent::ToolCall { call_id, .. } => assert_eq!(call_id, "c7"),
        _ => panic!("期望 ToolCall"),
    }
}

#[test]
fn tool_result_text_is_the_serde_json_object() {
    for (text, code) in [
        ("hi\n", Some(0)),
        ("quote \" back \\ tab\t ctl\u{1} bell\u{8} ff\u{c} cr\r 中文", Some(-3)),
        ("", None),
    ] {
        let mut map = serde_json::Map::new();
        map.insert("result".into(), text.into());
        if let Some(c) = code {
            map.insert("exit_code".into(), c.into());
        }
        let expected = serde_json::to_string(&serde_json::Value::Object(map)).unwrap();
        assert_eq!(tool_result_text(text, code), expected);
    }
    assert_eq!(tool_result_text("a\"b", Some(1)), "{\"exit_code\":1,\"result\":\"a\\\"b\"}");
}

#[test]
fn history_has_one_assistant_message_per_turn() {
    let call = |id: &str| Event::FunctionCall { id: String::new(), call_id: id.into(), name: "bash".into(), args: JsonValue::Null };
    let res = |id: &str| Event::FunctionResult {
        id: String::new(),
        call_id: id.into(),
        name: "bash".into(),
        content: Some(vec![ContentBlock::text("ok")]),
        code: Some(0),
    };
    let events = vec![
        Event::UserMessage { id: "u".into(), content: vec![ContentBlock::text("hi")] },
        Event::ModelThought { id: "t".into(), text: "plan".into() },
        call("c1"),
        res("c1"),
        Event::ModelMessage { id: "m".into(), content: vec![ContentBlock::text("done")] },
    ];
    let uploads = vec![vec![None], vec![], vec![], vec![], vec![]];
    let fresh: Vec<String> = (0..events.len()).map(|i| format!("fresh-{i}")).collect();
    let history = events_to_chat_history(&events, &uploads, &fresh);
    assert_eq!(history.len(), 4);
    match &history[1] {
        ChatMessage::Assistant { content } => {
            assert_eq!(content.len(), 2);
            assert!(matches!(&content[0], AssistantContent::Reasoning(t) if t == "plan"));
            assert!(matches!(&content[1], AssistantContent::ToolCall { call_id, .. } if call_id == "c1"));
        }
        _ => panic!("期望 Assistant"),
    }
    assert!(matches!(&history[2], ChatMessage::User { .. }));
    assert!(matches!(&history[3], ChatMessage::Assistant { content } if content.len() == 1));
}
