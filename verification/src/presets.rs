//! The model providers the program knows without configuration.
use vstd::prelude::*;
use crate::model::{Cost, Currency, InputType, Model, ModelProvider, ThinkingLevel};

verus! {

broadcast use vstd::string::group_string_axioms;

/// The model every preset offers: DeepSeek V4.1 Flash under the given name, thinking at
/// any level, taking text and images, with a context of one million tokens and answers
/// of up to 384000, at 1 / 4 / 0.02 yuan per million input / output / cached tokens.
pub open spec fn is_flash_model(m: Model, name: Seq<char>, display: Seq<char>) -> bool {
    &&& m.name@ == name
    &&& m.display_name matches Some(d) && d@ == display
    &&& m.reasoning_efforts@ == seq![
        ThinkingLevel::Off,
        ThinkingLevel::Low,
        ThinkingLevel::High,
        ThinkingLevel::Max,
    ]
    &&& m.input_types@ == seq![InputType::Text, InputType::Image]
    &&& m.context_window == 1_000_000
    &&& m.max_tokens == 384_000
    &&& m.cost.input@ == "1.0"@
    &&& m.cost.output@ == "4.0"@
    &&& m.cost.cache_read@ == "0.02"@
    &&& m.cost.currency == Currency::CNY
}

/// A preset provider: its name, address and key (an environment reference), serving the
/// flash model alone.
pub open spec fn is_preset_provider(
    p: ModelProvider,
    name: Seq<char>,
    base_url: Seq<char>,
    api_key: Seq<char>,
    model_name: Seq<char>,
    display: Seq<char>,
) -> bool {
    &&& p.name@ == name
    &&& p.base_url@ == base_url
    &&& p.api_key@ == api_key
    &&& p.models matches Some(ms) && ms@.len() == 1 && is_flash_model(ms@[0], model_name, display)
}

fn flash_model(name: &str, display: &str) -> (r: Model)
    ensures
        is_flash_model(r, name@, display@),
{
    let mut efforts: Vec<ThinkingLevel> = Vec::new();
    efforts.push(ThinkingLevel::Off);
    efforts.push(ThinkingLevel::Low);
    efforts.push(ThinkingLevel::High);
    efforts.push(ThinkingLevel::Max);
    let mut inputs: Vec<InputType> = Vec::new();
    inputs.push(InputType::Text);
    inputs.push(InputType::Image);
    assert(efforts@ =~= seq![
        ThinkingLevel::Off,
        ThinkingLevel::Low,
        ThinkingLevel::High,
        ThinkingLevel::Max,
    ]);
    assert(inputs@ =~= seq![InputType::Text, InputType::Image]);
    Model {
        name: name.to_owned(),
        display_name: Some(display.to_owned()),
        reasoning_efforts: efforts,
        input_types: inputs,
        context_window: 1_000_000,
        max_tokens: 384_000,
        cost: Cost {
            input: "1.0".to_owned(),
            output: "4.0".to_owned(),
            cache_read: "0.02".to_owned(),
            currency: Currency::CNY,
        },
    }
}

fn preset_provider(
    name: &str,
    base_url: &str,
    api_key: &str,
    model_name: &str,
    display: &str,
) -> (r: ModelProvider)
    ensures
        is_preset_provider(r, name@, base_url@, api_key@, model_name@, display@),
{
    let mut models: Vec<Model> = Vec::new();
    models.push(flash_model(model_name, display));
    ModelProvider {
        name: name.to_owned(),
        base_url: base_url.to_owned(),
        api_key: api_key.to_owned(),
        models: Some(models),
    }
}

/// DeepSeek's own service.
pub open spec fn is_deepseek_preset(p: ModelProvider) -> bool {
    is_preset_provider(
        p,
        "DeepSeek"@,
        "https://api.deepseek.com"@,
        "${DEEPSEEK_API_KEY}"@,
        "deepseek-flash"@,
        "DeepSeek V4.1 Flash @ DeepSeek"@,
    )
}

/// DeepSeek's own service (see `is_deepseek_preset`).
pub fn deepseek_provider() -> (r: ModelProvider)
    ensures
        is_deepseek_preset(r),
{
    preset_provider(
        "DeepSeek",
        "https://api.deepseek.com",
        "${DEEPSEEK_API_KEY}",
        "deepseek-flash",
        "DeepSeek V4.1 Flash @ DeepSeek",
    )
}

/// The Command Code service; `providers` does not offer it.
pub fn commandcode_provider() -> (r: ModelProvider)
    ensures
        is_preset_provider(
            r,
            "Command Code"@,
            "https://api.commandcode.ai/provider/v1"@,
            "${COMMANDCODE_API_KEY}"@,
            "deepseek/deepseek-v4.1-flash"@,
            "DeepSeek V4.1 Flash @ Command Code"@,
        ),
{
    preset_provider(
        "Command Code",
        "https://api.commandcode.ai/provider/v1",
        "${COMMANDCODE_API_KEY}",
        "deepseek/deepseek-v4.1-flash",
        "DeepSeek V4.1 Flash @ Command Code",
    )
}

/// The Ollama service; `providers` does not offer it.
pub fn ollma_provider() -> (r: ModelProvider)
    ensures
        is_preset_provider(
            r,
            "Ollma"@,
            "https://ollama.com/v1"@,
            "${OLLAMA_API_KEY}"@,
            "deepseek-v4.1-flash"@,
            "DeepSeek V4.1 Flash @ Ollma"@,
        ),
{
    preset_provider(
        "Ollma",
        "https://ollama.com/v1",
        "${OLLAMA_API_KEY}",
        "deepseek-v4.1-flash",
        "DeepSeek V4.1 Flash @ Ollma",
    )
}

/// The providers known without configuration: DeepSeek alone, under the key `deepseek`.
pub fn providers() -> (r: Vec<(&'static str, ModelProvider)>)
    ensures
        r@.len() == 1,
        r@[0].0@ == "deepseek"@,
        is_deepseek_preset(r@[0].1),
{
    let mut v: Vec<(&'static str, ModelProvider)> = Vec::new();
    v.push(("deepseek", deepseek_provider()));
    v
}

} // verus!
