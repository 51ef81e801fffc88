//! Models and their providers, as the configuration describes them.
use vstd::prelude::*;
use crate::json::{JsonModel, JsonValue, json_fields_model, new_fields, push_field};
use crate::text::{chars_of, index_of, index_of_char, slice_chars, string_of};

verus! {

broadcast use vstd::string::group_string_axioms;

/// Token counts of a run.
#[derive(Clone, Copy, Debug, Default, PartialEq, Eq, Structural)]
pub struct Usage {
    pub input: usize,
    pub output: usize,
    pub cache_read: usize,
    pub cache_write: usize,
    pub total: usize,
}

/// The currency prices are given in.
#[derive(Clone, Copy, Debug, Default, PartialEq, Eq, Structural)]
pub enum Currency {
    #[default]
    CNY,
    USD,
}

/// The price of a model per million tokens. Each price is kept as the decimal text of
/// the number the configuration gives (`1.0`, `0.02`).
#[derive(Clone, Debug)]
pub struct Cost {
    pub input: String,
    pub output: String,
    pub cache_read: String,
    pub currency: Currency,
}

impl Default for Cost {
    /// Everything free, in yuan.
    fn default() -> (r: Cost)
        ensures
            r.input@ == "0.0"@,
            r.output@ == "0.0"@,
            r.cache_read@ == "0.0"@,
            r.currency == Currency::CNY,
    {
        Cost {
            input: "0.0".to_owned(),
            output: "0.0".to_owned(),
            cache_read: "0.0".to_owned(),
            currency: Currency::CNY,
        }
    }
}

/// How much a model thinks before it answers.
#[derive(Clone, Copy, Debug, PartialEq, Eq, Structural)]
pub enum ThinkingLevel {
    Off,
    Low,
    High,
    Max,
}

/// The name of a thinking level, as the configuration and the APIs write it.
pub open spec fn thinking_level_text(t: ThinkingLevel) -> Seq<char> {
    match t {
        ThinkingLevel::Off => "off"@,
        ThinkingLevel::Low => "low"@,
        ThinkingLevel::High => "high"@,
        ThinkingLevel::Max => "max"@,
    }
}

impl ThinkingLevel {
    /// The level's name (see `thinking_level_text`).
    pub fn name(&self) -> (r: &'static str)
        ensures
            r@ == thinking_level_text(*self),
    {
        match self {
            ThinkingLevel::Off => "off",
            ThinkingLevel::Low => "low",
            ThinkingLevel::High => "high",
            ThinkingLevel::Max => "max",
        }
    }
}

/// A kind of input a model takes.
#[derive(Clone, Copy, Debug, PartialEq, Eq, Structural)]
pub enum InputType {
    Text,
    Image,
    Audio,
}

/// A service that serves models.
#[derive(Clone, Debug)]
pub struct ModelProvider {
    pub name: String,
    pub base_url: String,
    pub api_key: String,
    pub models: Option<Vec<Model>>,
}

/// A model a provider serves.
#[derive(Clone, Debug, Default)]
pub struct Model {
    pub name: String,
    pub display_name: Option<String>,
    pub reasoning_efforts: Vec<ThinkingLevel>,
    pub input_types: Vec<InputType>,
    pub context_window: usize,
    pub max_tokens: usize,
    pub cost: Cost,
}

/// A model named by `<provider>/<model>`.
#[derive(Clone, Debug)]
pub struct ModelKey {
    pub provider: String,
    pub model: String,
}

/// `s` split at the first `c`: what comes before it and what comes after it.
pub open spec fn split_once_spec(s: Seq<char>, c: char) -> Option<(Seq<char>, Seq<char>)> {
    match index_of_char(s, c) {
        Some(i) => Some((s.take(i), s.skip(i + 1))),
        None => None,
    }
}

/// `s` split at the first `c` (see `split_once_spec`).
pub fn split_once(s: &str, c: char) -> (r: Option<(String, String)>)
    ensures
        match (r, split_once_spec(s@, c)) {
            (Some((a, b)), Some((x, y))) => a@ == x && b@ == y,
            (None, None) => true,
            _ => false,
        },
{
    let v = chars_of(s);
    match index_of(&v, c) {
        Some(i) => {
            proof {
                crate::text::lemma_first_occurrence_from(v@, seq![c], 0);
                assert(crate::text::occurs_at(v@, seq![c], i as int));
            }
            assert(v.len() <= usize::MAX);
            let a = slice_chars(&v, 0, i);
            let b = slice_chars(&v, i + 1, v.len());
            assert(a@ =~= v@.take(i as int));
            assert(b@ =~= v@.skip(i + 1));
            Some((string_of(&a), string_of(&b)))
        },
        None => None,
    }
}

/// A key's provider is what comes before the first `/` and its model what follows;
/// without a `/` the provider is `deepseek` and the whole key names the model.
pub open spec fn model_key_spec(key: Seq<char>) -> (Seq<char>, Seq<char>) {
    match split_once_spec(key, '/') {
        Some((p, m)) => (p, m),
        None => ("deepseek"@, key),
    }
}

impl ModelKey {
    /// Reads a model key (see `model_key_spec`).
    pub fn parse(key: &str) -> (r: ModelKey)
        ensures
            (r.provider@, r.model@) == model_key_spec(key@),
    {
        match split_once(key, '/') {
            Some((provider, model)) => ModelKey { provider, model },
            None => ModelKey { provider: "deepseek".to_owned(), model: key.to_owned() },
        }
    }
}

/// The model an agent uses and how it samples. `temperature` and `top_p` are kept as the
/// decimal text of the numbers the configuration gives.
#[derive(Clone, Debug, Default)]
pub struct ModelProfile {
    pub model: String,
    pub thinking_level: Option<ThinkingLevel>,
    pub temperature: Option<String>,
    pub top_p: Option<String>,
}

fn copy_vec<T: Copy>(v: &Vec<T>) -> (r: Vec<T>)
    ensures
        r@ == v@,
{
    let mut r: Vec<T> = Vec::new();
    let mut i: usize = 0;
    while i < v.len()
        invariant
            i <= v.len(),
            r@ == v@.take(i as int),
        decreases v.len() - i,
    {
        r.push(v[i]);
        i = i + 1;
        assert(r@ =~= v@.take(i as int));
    }
    assert(v@.take(v.len() as int) =~= v@);
    r
}

impl Cost {
    /// A copy of the prices.
    pub fn duplicate(&self) -> (r: Cost)
        ensures
            r == *self,
    {
        Cost {
            input: self.input.clone(),
            output: self.output.clone(),
            cache_read: self.cache_read.clone(),
            currency: self.currency,
        }
    }
}

/// Two descriptions of the same model: equal field by field, lists by their items.
pub open spec fn model_eq(a: Model, b: Model) -> bool {
    &&& a.name == b.name
    &&& a.display_name == b.display_name
    &&& a.reasoning_efforts@ == b.reasoning_efforts@
    &&& a.input_types@ == b.input_types@
    &&& a.context_window == b.context_window
    &&& a.max_tokens == b.max_tokens
    &&& a.cost == b.cost
}

impl Model {
    /// A copy of the model's description.
    pub fn duplicate(&self) -> (r: Model)
        ensures
            model_eq(r, *self),
    {
        let display_name = match &self.display_name {
            Some(d) => Some(d.clone()),
            None => None,
        };
        let efforts = copy_vec(&self.reasoning_efforts);
        let inputs = copy_vec(&self.input_types);
        Model {
            name: self.name.clone(),
            display_name,
            reasoning_efforts: efforts,
            input_types: inputs,
            context_window: self.context_window,
            max_tokens: self.max_tokens,
            cost: self.cost.duplicate(),
        }
    }
}

/// A model profile as JSON, keys in sorted order; the fields not set are left out.
pub open spec fn model_profile_json(p: ModelProfile) -> JsonModel {
    JsonModel::Object(
        seq![("model"@, JsonModel::Str(p.model@))] + (match p.temperature {
            Some(t) => seq![("temperature"@, JsonModel::Number(t@))],
            None => Seq::empty(),
        }) + (match p.thinking_level {
            Some(l) => seq![("thinking_level"@, JsonModel::Str(thinking_level_text(l)))],
            None => Seq::empty(),
        }) + (match p.top_p {
            Some(t) => seq![("top_p"@, JsonModel::Number(t@))],
            None => Seq::empty(),
        }),
    )
}

impl ModelProfile {
    /// The profile as JSON (see `model_profile_json`).
    pub fn to_json(&self) -> (r: JsonValue)
        ensures
            r@ == model_profile_json(*self),
    {
        let mut fs = new_fields();
        push_field(&mut fs, "model", JsonValue::Str(self.model.clone()));
        match &self.temperature {
            Some(t) => push_field(&mut fs, "temperature", JsonValue::Number(t.clone())),
            None => {},
        }
        match self.thinking_level {
            Some(l) => push_field(&mut fs, "thinking_level", JsonValue::Str(l.name().to_owned())),
            None => {},
        }
        match &self.top_p {
            Some(t) => push_field(&mut fs, "top_p", JsonValue::Number(t.clone())),
            None => {},
        }
        assert(json_fields_model(fs@) =~= model_profile_json(*self)->Object_0);
        JsonValue::Object(fs)
    }
}

} // verus!
