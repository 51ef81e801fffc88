use playpen::client::{deepseek_finalize_request_body, rewrite_file_blocks, LlmClient, LlmConfig};
use playpen::config::Settings;
use playpen::json::JsonValue;
use playpen::model::{Cost, InputType, Model, ModelProfile, ModelProvider, ThinkingLevel};
use playpen::strmap::StrMap;

fn s(x: &str) -> String {
    x.to_string()
}

fn obj(fields: Vec<(&str, JsonValue)>) -> JsonValue {
    JsonValue::Object(fields.into_iter().map(|(k, v)| (k.to_string(), v)).collect())
}

fn jstr(x: &str) -> JsonValue {
    JsonValue::Str(x.to_string())
}

fn get<'a>(v: &'a JsonValue, key: &str) -> Option<&'a JsonValue> {
    match v {
        JsonValue::Object(fs) => fs.iter().find(|(k, _)| k == key).map(|(_, v)| v),
        _ => None,
    }
}

fn at(v: &JsonValue, i: usize) -> &JsonValue {
    match v {
        JsonValue::Array(items) => &items[i],
        _ => panic!("not an array"),
    }
}

fn text_of(v: &JsonValue) -> &str {
    match v {
        JsonValue::Str(t) => t.as_str(),
        _ => panic!("not a string"),
    }
}

fn model(name: &str, input_types: Vec<InputType>, max_tokens: usize) -> Model {
    Model {
        name: s(name),
        display_name: None,
        reasoning_efforts: vec![],
        input_types,
        context_window: 128000,
        max_tokens,
        cost: Cost::default(),
    }
}

fn profile(model: &str) -> ModelProfile {
    ModelProfile { model: s(model), ..Default::default() }
}

#[test]
fn test_from_settings_with_model_config() {
    let mut providers = StrMap::new();
    providers.insert(
        s("openai"),
        ModelProvider {
            name: s("openai"),
            base_url: s("https://api.openai.com/"),
            api_key: s("sk-test"),
            models: Some(vec![Model {
                name: s("gpt-4o"),
                display_name: Some(s("GPT-4o")),
                reasoning_efforts: vec![],
                input_types: vec![],
                context_window: 128000,
                max_tokens: 16384,
                cost: Default::default(),
            }]),
        },
    );
    let settings = Settings { default_profile: None, sandbox: None, model_providers: providers };
    let config = LlmConfig::from_settings(&settings, &profile("openai/gpt-4o")).unwrap();
    assert_eq!(config.model, "gpt-4o");
    assert_eq!(config.base_url, "https://api.openai.com");
    assert!(config.model_config.is_some());
    assert_eq!(config.model_config.as_ref().unwrap().max_tokens, 16384);
}

#[test]
fn test_from_settings_missing_provider_error() {
    let settings = Settings { default_profile: None, sandbox: None, model_providers: StrMap::new() };
    let result = LlmConfig::from_settings(&settings, &profile("unknown/model"));
    assert!(result.is_err(), "不存在的 provider 应返回错误");
    assert_eq!(result.err().unwrap(), "provider unknown not configured");
}

#[test]
fn from_settings_without_slash_uses_deepseek_provider() {
    let mut providers = StrMap::new();
    providers.insert(
        s("deepseek"),
        ModelProvider {
            name: s("DeepSeek"),
            base_url: s("https://api.deepseek.com///"),
            api_key: s("k"),
            models: None,
        },
    );
    let settings = Settings { default_profile: None, sandbox: None, model_providers: providers };
    let config = LlmConfig::from_settings(&settings, &profile("deepseek-chat")).unwrap();
    assert_eq!(config.model, "deepseek-chat");
    assert_eq!(config.base_url, "https://api.deepseek.com");
    assert!(config.model_config.is_none());
}

#[test]
fn test_llm_config_deepseek() {
    let config = LlmConfig {
        base_url: "https://api.deepseek.com".into(),
        api_key: "sk-test".into(),
        model: "deepseek/deepseek-v4-flash".into(),
        model_config: None,
    };
    assert!(config.is_deepseek_compat());
    assert_eq!(config.model, "deepseek/deepseek-v4-flash");
}

#[test]
fn test_llm_config_non_deepseek() {
    let config = LlmConfig {
        base_url: "https://api.openai.com".into(),
        api_key: "sk-test".into(),
        model: "openai/gpt-4".into(),
        model_config: None,
    };
    assert!(!config.is_deepseek_compat());
    assert_eq!(config.model, "openai/gpt-4");
}

#[test]
fn test_llm_config_no_provider_prefix() {
    let config = LlmConfig {
        base_url: "https://api.deepseek.com".into(),
        api_key: "sk-test".into(),
        model: "gpt-4".into(),
        model_config: None,
    };
    assert!(!config.is_deepseek_compat());
    assert_eq!(config.model, "gpt-4");
}

#[test]
fn test_llm_config_glm_and_mimo() {
    let config_glm = LlmConfig {
        base_url: "https://open.bigmodel.cn".into(),
        api_key: "sk-test".into(),
        model: "glm-4".into(),
        model_config: None,
    };
    assert!(config_glm.is_deepseek_compat(), "glm 应使用 DeepSeek 兼容流式");

    let config_mimo = LlmConfig {
        base_url: "https://api.mimo.com".into(),
        api_key: "sk-test".into(),
        model: "mimo-pro".into(),
        model_config: None,
    };
    assert!(config_mimo.is_deepseek_compat(), "mimo 应使用 DeepSeek 兼容流式");

    let config_normal = LlmConfig {
        base_url: "https://api.other.com".into(),
        api_key: "sk-test".into(),
        model: "qwen-2.5".into(),
        model_config: None,
    };
    assert!(!config_normal.is_deepseek_compat(), "其他模型不匹配");
}

#[test]
fn deepseek_provider_is_the_first_segment() {
    let mut config = LlmConfig {
        base_url: String::new(),
        api_key: String::new(),
        model: "deepseek/deepseek-chat".into(),
        model_config: None,
    };
    assert!(config.is_deepseek_provider());
    config.model = "openai/deepseek-chat".into();
    assert!(!config.is_deepseek_provider());
    config.model = "deepseek".into();
    assert!(config.is_deepseek_provider());
}

#[test]
fn test_rewrite_file_blocks_to_deepseek_format() {
    let mut body = obj(vec![(
        "messages",
        JsonValue::Array(vec![obj(vec![
            ("role", jstr("user")),
            (
                "content",
                JsonValue::Array(vec![
                    obj(vec![("type", jstr("text")), ("text", jstr("what is this?"))]),
                    obj(vec![
                        ("type", jstr("file")),
                        ("file", obj(vec![("file_id", jstr("file-api-abc123"))])),
                    ]),
                ]),
            ),
        ])]),
    )]);
    rewrite_file_blocks(&mut body);

    let content = get(at(get(&body, "messages").unwrap(), 0), "content").unwrap();
    assert_eq!(text_of(get(at(content, 1), "type").unwrap()), "file");
    assert_eq!(text_of(get(at(content, 1), "file_id").unwrap()), "file-api-abc123");
    assert!(get(at(content, 1), "file").is_none(), "OpenAI 嵌套 file 对象应被移除");
    assert_eq!(text_of(get(at(content, 0), "text").unwrap()), "what is this?");
}

#[test]
fn test_rewrite_file_blocks_keeps_file_data() {
    let mut body = obj(vec![(
        "messages",
        JsonValue::Array(vec![obj(vec![
            ("role", jstr("user")),
            (
                "content",
                JsonValue::Array(vec![obj(vec![
                    ("type", jstr("file")),
                    (
                        "file",
                        obj(vec![
                            ("file_data", jstr("data:image/png;base64,AAAA")),
                            ("filename", jstr("a.png")),
                        ]),
                    ),
                ])]),
            ),
        ])]),
    )]);
    rewrite_file_blocks(&mut body);

    let part = at(get(at(get(&body, "messages").unwrap(), 0), "content").unwrap(), 0);
    assert_eq!(text_of(get(part, "file_data").unwrap()), "data:image/png;base64,AAAA");
    assert_eq!(text_of(get(part, "filename").unwrap()), "a.png");
}

#[test]
fn test_finalize_flattens_text_only_content() {
    let mut body = obj(vec![(
        "messages",
        JsonValue::Array(vec![obj(vec![
            ("role", jstr("user")),
            (
                "content",
                JsonValue::Array(vec![
                    obj(vec![("type", jstr("text")), ("text", jstr("hello"))]),
                    obj(vec![("type", jstr("text")), ("text", jstr("world"))]),
                ]),
            ),
        ])]),
    )]);
    deepseek_finalize_request_body(&mut body);
    let content = get(at(get(&body, "messages").unwrap(), 0), "content").unwrap();
    assert_eq!(text_of(content), "hello\nworld");
}

#[test]
fn test_finalize_keeps_mixed_content_array() {
    let mut body = obj(vec![(
        "messages",
        JsonValue::Array(vec![obj(vec![
            ("role", jstr("user")),
            (
                "content",
                JsonValue::Array(vec![
                    obj(vec![("type", jstr("text")), ("text", jstr("what is this?"))]),
                    obj(vec![
                        ("type", jstr("file")),
                        ("file", obj(vec![("file_id", jstr("file-api-x"))])),
                    ]),
                ]),
            ),
        ])]),
    )]);
    deepseek_finalize_request_body(&mut body);
    let content = get(at(get(&body, "messages").unwrap(), 0), "content").unwrap();
    match content {
        JsonValue::Array(items) => assert_eq!(items.len(), 2),
        _ => panic!("混合内容数组应保留"),
    }
}

#[test]
fn test_finalize_tool_calls_add_index() {
    let mut body = obj(vec![(
        "messages",
        JsonValue::Array(vec![obj(vec![
            ("role", jstr("assistant")),
            ("content", jstr("")),
            (
                "tool_calls",
                JsonValue::Array(vec![obj(vec![
                    ("id", jstr("call_1")),
                    ("type", jstr("function")),
                    ("function", obj(vec![("name", jstr("read")), ("arguments", jstr("{}"))])),
                ])]),
            ),
        ])]),
    )]);
    deepseek_finalize_request_body(&mut body);
    let tc = at(get(at(get(&body, "messages").unwrap(), 0), "tool_calls").unwrap(), 0);
    match get(tc, "index").unwrap() {
        JsonValue::Number(n) => assert_eq!(n, "0"),
        _ => panic!("index 应为数字"),
    }
}

#[test]
fn finalize_gives_assistant_without_content_an_empty_one() {
    let mut body = obj(vec![(
        "messages",
        JsonValue::Array(vec![obj(vec![("role", jstr("assistant"))])]),
    )]);
    deepseek_finalize_request_body(&mut body);
    let m = at(get(&body, "messages").unwrap(), 0);
    assert_eq!(text_of(get(m, "content").unwrap()), "");
}

#[test]
fn finalize_joins_assistant_text_without_separator() {
    let mut body = obj(vec![(
        "messages",
        JsonValue::Array(vec![obj(vec![
            ("role", jstr("assistant")),
            (
                "content",
                JsonValue::Array(vec![
                    obj(vec![("text", jstr("a"))]),
                    obj(vec![("refusal", jstr("b"))]),
                ]),
            ),
        ])]),
    )]);
    deepseek_finalize_request_body(&mut body);
    let m = at(get(&body, "messages").unwrap(), 0);
    assert_eq!(text_of(get(m, "content").unwrap()), "ab");
}

#[test]
fn finalize_suppresses_forced_tool_choice_unless_thinking_disabled() {
    let mut body = obj(vec![("tool_choice", jstr("required"))]);
    deepseek_finalize_request_body(&mut body);
    assert!(matches!(get(&body, "tool_choice"), Some(JsonValue::Null)));

    let mut body = obj(vec![("tool_choice", obj(vec![("type", jstr("function"))]))]);
    deepseek_finalize_request_body(&mut body);
    assert!(matches!(get(&body, "tool_choice"), Some(JsonValue::Null)));

    let mut body = obj(vec![("tool_choice", jstr("auto"))]);
    deepseek_finalize_request_body(&mut body);
    assert_eq!(text_of(get(&body, "tool_choice").unwrap()), "auto");

    let mut body = obj(vec![
        ("thinking", obj(vec![("type", jstr("DISABLED"))])),
        ("tool_choice", jstr("required")),
    ]);
    deepseek_finalize_request_body(&mut body);
    assert_eq!(text_of(get(&body, "tool_choice").unwrap()), "required");
}

#[test]
fn test_supports_image_by_config() {
    let config = LlmConfig {
        base_url: "https://api.deepseek.com".into(),
        api_key: "sk-test".into(),
        model: "deepseek/deepseek-v4-flash".into(),
        model_config: Some(model("deepseek-v4-flash", vec![InputType::Image], 16384)),
    };
    assert!(config.supports_image(), "配置声明 Image 时应支持");
}

#[test]
fn test_supports_image_falls_back_to_name() {
    let config = LlmConfig {
        base_url: "https://api.deepseek.com".into(),
        api_key: "sk-test".into(),
        model: "deepseek/deepseek-v4-flash-vision-exp".into(),
        model_config: None,
    };
    assert!(config.supports_image(), "无配置时按模型名兜底");
}

#[test]
fn test_supports_image_false_for_text_model() {
    let config = LlmConfig {
        base_url: "https://api.deepseek.com".into(),
        api_key: "sk-test".into(),
        model: "deepseek/deepseek-v4-flash".into(),
        model_config: None,
    };
    assert!(!config.supports_image(), "文本模型不支持图片");
}

#[test]
fn additional_params_for_deepseek_and_openai() {
    let deepseek = LlmClient::new(LlmConfig {
        base_url: String::new(),
        api_key: String::new(),
        model: "deepseek/deepseek-chat".into(),
        model_config: None,
    });
    let mp = ModelProfile {
        model: "deepseek/deepseek-chat".into(),
        thinking_level: Some(ThinkingLevel::Off),
        temperature: None,
        top_p: Some("0.9".into()),
    };
    let params = deepseek.build_additional_params(&mp, Some(4096)).unwrap();
    match get(&params, "max_tokens").unwrap() {
        JsonValue::Number(n) => assert_eq!(n, "4096"),
        _ => panic!("max_tokens 应为数字"),
    }
    assert_eq!(text_of(get(get(&params, "thinking").unwrap(), "type").unwrap()), "disabled");
    match get(&params, "top_p").unwrap() {
        JsonValue::Number(n) => assert_eq!(n, "0.9"),
        _ => panic!("top_p 应为数字"),
    }

    let openai = LlmClient::new(LlmConfig {
        base_url: String::new(),
        api_key: String::new(),
        model: "openai/gpt-4o".into(),
        model_config: None,
    });
    let mp = ModelProfile {
        model: "openai/gpt-4o".into(),
        thinking_level: Some(ThinkingLevel::High),
        temperature: None,
        top_p: None,
    };
    let params = openai.build_additional_params(&mp, None).unwrap();
    assert_eq!(text_of(get(&params, "reasoning_effort").unwrap()), "high");
    assert!(get(&params, "thinking").is_none());

    let empty = openai.build_additional_params(&ModelProfile::default(), None);
    assert!(empty.is_none());
}
