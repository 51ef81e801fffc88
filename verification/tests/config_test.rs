use playpen::config::{default_enabled, expand_env_vars, merge_settings, Dirs, Settings};
use playpen::model::{Model, ModelKey, ModelProvider, ThinkingLevel};
use playpen::presets::{commandcode_provider, deepseek_provider, ollma_provider, providers};
use playpen::strmap::StrMap;

fn env(pairs: &[(&str, &str)]) -> StrMap<String> {
    let mut m = StrMap::new();
    for (k, v) in pairs {
        m.insert(k.to_string(), v.to_string());
    }
    m
}

fn layer(default_profile: Option<&str>, providers: Vec<(&str, ModelProvider)>) -> Settings {
    let mut mp = StrMap::new();
    for (k, p) in providers {
        mp.insert(k.to_string(), p);
    }
    Settings { default_profile: default_profile.map(|s| s.to_string()), sandbox: None, model_providers: mp }
}

fn provider(name: &str, api_key: &str) -> ModelProvider {
    ModelProvider { name: name.into(), base_url: "https://api.deepseek.com".into(), api_key: api_key.into(), models: None }
}

#[test]
fn merge_settings_overrides() {
    let a = layer(Some("code"), vec![]);
    let b = layer(None, vec![("deepseek", provider("DeepSeek", "sk-test"))]);
    let s = merge_settings(vec![a, b], &env(&[]));
    assert_eq!(s.default_profile.as_deref(), Some("code"));
    // the preset deepseek is replaced by the configured one; still one provider
    assert_eq!(s.model_providers.len(), 1);
    assert_eq!(s.model_providers.get("deepseek").unwrap().api_key, "sk-test");
}

#[test]
fn merge_settings_last_wins() {
    let a = layer(Some("first"), vec![]);
    let b = layer(Some("second"), vec![]);
    let s = merge_settings(vec![a, b], &env(&[]));
    assert_eq!(s.default_profile.as_deref(), Some("second"));
}

#[test]
fn merge_settings_expands_keys_and_keeps_presets() {
    let s = merge_settings(vec![], &env(&[("DEEPSEEK_API_KEY", "sk-env")]));
    assert_eq!(s.model_providers.len(), 1);
    let p = s.model_providers.get("deepseek").unwrap();
    assert_eq!(p.api_key, "sk-env");
    assert_eq!(p.name, "DeepSeek");

    let s = merge_settings(vec![layer(None, vec![("other", provider("O", "${OTHER}"))])], &env(&[]));
    assert_eq!(s.model_providers.len(), 2);
    assert_eq!(s.model_providers.get("other").unwrap().api_key, "${OTHER}");
    assert_eq!(s.model_providers.get("deepseek").unwrap().api_key, "${DEEPSEEK_API_KEY}");
}

#[test]
fn expand_env_vars_forms() {
    let e = env(&[("HOME", "/home/u"), ("A_1", "x")]);
    assert_eq!(expand_env_vars("${HOME}/bin", &e), "/home/u/bin");
    assert_eq!(expand_env_vars("${MISSING}", &e), "${MISSING}");
    assert_eq!(expand_env_vars("$A_1", &e), "x");
    assert_eq!(expand_env_vars("$MISSING", &e), "$MISSING");
    // the character that ends a bare name is consumed with it
    assert_eq!(expand_env_vars("$HOME/bin", &e), "/home/ubin");
    assert_eq!(expand_env_vars("a$ b", &e), "a$b");
    assert_eq!(expand_env_vars("cost $", &e), "cost $");
    assert_eq!(expand_env_vars("${HOME", &e), "/home/u");
    assert_eq!(expand_env_vars("${NOPE", &e), "${NOPE}");
    assert_eq!(expand_env_vars("plain", &e), "plain");
}

#[test]
fn find_model_by_key() {
    let mut p = provider("DeepSeek", "k");
    p.models = Some(vec![Model { name: "chat".into(), max_tokens: 7, ..Default::default() }]);
    let s = layer(None, vec![("deepseek", p)]);
    assert_eq!(s.find_model("deepseek/chat").unwrap().max_tokens, 7);
    assert!(s.find_model("deepseek/other").is_none());
    assert!(s.find_model("nobody/chat").is_none());
    assert!(s.find_model("chat").is_none());
}

#[test]
fn model_key_parse() {
    let k = ModelKey::parse("deepseek/deepseek-v4-flash");
    assert_eq!(k.provider, "deepseek");
    assert_eq!(k.model, "deepseek-v4-flash");
    let k = ModelKey::parse("gpt-4");
    assert_eq!(k.provider, "deepseek");
    assert_eq!(k.model, "gpt-4");
    let k = ModelKey::parse("a/b/c");
    assert_eq!(k.provider, "a");
    assert_eq!(k.model, "b/c");
}

#[test]
fn dirs_with_defaults() {
    let d = Dirs::with_defaults("/work", Some("/home/u"));
    assert_eq!(d.working_dir, "/work");
    assert_eq!(d.config_data_dir, "/home/u/.config/playpen");
    assert_eq!(d.agents_dir, "/home/u/.agents");
    let d = Dirs::with_defaults("/work", None);
    assert_eq!(d.config_data_dir, "/tmp/.config/playpen");
    assert!(default_enabled());
}

#[test]
fn presets_describe_the_flash_model() {
    let ps = providers();
    assert_eq!(ps.len(), 1);
    assert_eq!(ps[0].0, "deepseek");
    let d = deepseek_provider();
    assert_eq!(d.base_url, "https://api.deepseek.com");
    let m = &d.models.as_ref().unwrap()[0];
    assert_eq!(m.name, "deepseek-flash");
    assert_eq!(m.context_window, 1_000_000);
    assert_eq!(m.max_tokens, 384_000);
    assert_eq!(m.reasoning_efforts, vec![ThinkingLevel::Off, ThinkingLevel::Low, ThinkingLevel::High, ThinkingLevel::Max]);
    assert_eq!(m.cost.cache_read, "0.02");
    assert_eq!(commandcode_provider().api_key, "${COMMANDCODE_API_KEY}");
    assert_eq!(ollma_provider().base_url, "https://ollama.com/v1");
}
