//! The LLM client's configuration: which model, where, and how requests to
//! DeepSeek-compatible services are shaped.
use vstd::prelude::*;
use crate::config::{Settings, first_named};
use crate::json::{JsonModel, JsonValue, json_model, json_fields_model, new_fields, push_field};
use crate::model::{
    InputType, Model, ModelKey, ModelProfile, ThinkingLevel, model_eq, model_key_spec,
    thinking_level_text,
};
use crate::text::{
    chars_of, decimal, decimal_u64, last_index_of, last_index_of_char, index_of, index_of_char,
    push_str, seq_contains, seq_starts_with, slice_chars, starts_with_str, string_of,
};

verus! {

broadcast use vstd::string::group_string_axioms;

/// How to reach a model.
#[derive(Debug)]
pub struct LlmConfig {
    pub base_url: String,
    pub api_key: String,
    pub model: String,
    /// The model's full description, where the provider has one.
    pub model_config: Option<Model>,
}

/// What follows the last `/` of a model name, or the whole name.
pub open spec fn last_segment(s: Seq<char>) -> Seq<char> {
    match last_index_of_char(s, '/') {
        Some(i) => s.skip(i + 1),
        None => s,
    }
}

/// What precedes the first `/` of a model name, or the whole name.
pub open spec fn first_segment(s: Seq<char>) -> Seq<char> {
    match index_of_char(s, '/') {
        Some(i) => s.take(i),
        None => s,
    }
}

fn last_segment_of(s: &str) -> (r: Vec<char>)
    ensures
        r@ == last_segment(s@),
{
    let v = chars_of(s);
    match last_index_of(&v, '/') {
        Some(i) => {
            proof {
                crate::path::lemma_last_index_of_char(v@, '/');
            }
            let r = slice_chars(&v, i + 1, v.len());
            assert(r@ =~= v@.skip(i + 1));
            r
        },
        None => v,
    }
}

fn first_segment_of(s: &str) -> (r: Vec<char>)
    ensures
        r@ == first_segment(s@),
{
    let v = chars_of(s);
    match index_of(&v, '/') {
        Some(i) => {
            proof {
                crate::text::lemma_first_occurrence_from(v@, seq!['/'], 0);
                assert(crate::text::occurs_at(v@, seq!['/'], i as int));
            }
            let r = slice_chars(&v, 0, i);
            assert(r@ =~= v@.take(i as int));
            r
        },
        None => v,
    }
}

/// Whether a model input list takes images.
pub open spec fn takes_images(ts: Seq<InputType>) -> bool {
    exists|i: int| 0 <= i < ts.len() && ts[i] == InputType::Image
}

/// `s` without the `/` characters at its end.
pub open spec fn trim_trailing_slashes(s: Seq<char>) -> Seq<char>
    decreases s.len(),
{
    if s.len() > 0 && s.last() == '/' {
        trim_trailing_slashes(s.drop_last())
    } else {
        s
    }
}

fn trimmed_slashes(s: &str) -> (r: String)
    ensures
        r@ == trim_trailing_slashes(s@),
{
    let v = chars_of(s);
    let mut j: usize = v.len();
    assert(v@.take(v.len() as int) =~= v@);
    while j > 0 && v[j - 1] == '/'
        invariant
            j <= v.len(),
            trim_trailing_slashes(v@) == trim_trailing_slashes(v@.take(j as int)),
        decreases j,
    {
        assert(v@.take(j as int).drop_last() =~= v@.take(j - 1));
        j = j - 1;
    }
    let r = slice_chars(&v, 0, j);
    assert(r@ =~= v@.take(j as int));
    string_of(&r)
}

/// The configuration a model profile gets: its key's provider is configured; the address
/// is the provider's without trailing `/`; the API key is the provider's; the model is the
/// key's model part, described by the provider's first model of that name where there
/// is one.
pub open spec fn config_for(settings: Settings, model_profile: ModelProfile, c: LlmConfig) -> bool {
    let (p, m) = model_key_spec(model_profile.model@);
    settings.model_providers@.contains_key(p) && ({
        let prov = settings.model_providers@[p];
        &&& c.base_url@ == trim_trailing_slashes(prov.base_url@)
        &&& c.api_key == prov.api_key
        &&& c.model@ == m
        &&& match (
            c.model_config,
            match prov.models {
                Some(ms) => match first_named(ms@, m) {
                    Some(i) => Some(ms@[i]),
                    None => None,
                },
                None => None,
            },
        ) {
            (Some(a), Some(b)) => model_eq(a, b),
            (None, None) => true,
            _ => false,
        }
    })
}

impl LlmConfig {
    /// The configuration for a model profile: the provider its key names must be
    /// configured (else `provider <name> not configured`); the address loses its trailing
    /// `/`; the model is the key's model part, described by the provider's first model of
    /// that name where there is one.
    pub fn from_settings(settings: &Settings, model_profile: &ModelProfile) -> (r: Result<LlmConfig, String>)
        ensures
            ({
                let (p, m) = model_key_spec(model_profile.model@);
                match r {
                    Ok(c) => config_for(*settings, *model_profile, c),
                    Err(e) => !settings.model_providers@.contains_key(p) && e@ == "provider "@ + p
                        + " not configured"@,
                }
            }),
    {
        let mk = ModelKey::parse(model_profile.model.as_str());
        let provider = match settings.model_providers.get(mk.provider.as_str()) {
            Some(p) => p,
            None => {
                let mut t: Vec<char> = Vec::new();
                push_str(&mut t, "provider ");
                push_str(&mut t, mk.provider.as_str());
                push_str(&mut t, " not configured");
                return Err(string_of(&t));
            },
        };
        let model_config = match &provider.models {
            Some(ms) => match crate::config::find_named(ms, mk.model.as_str()) {
                Some(i) => {
                    proof {
                        crate::config::lemma_first_named_found(ms@, mk.model@);
                    }
                    Some(ms[i].duplicate())
                },
                None => None,
            },
            None => None,
        };
        Ok(LlmConfig {
            base_url: trimmed_slashes(provider.base_url.as_str()),
            api_key: provider.api_key.clone(),
            model: mk.model,
            model_config,
        })
    }

    /// The model's last name segment starts with `deepseek`, `glm` or `mimo`: it streams
    /// as DeepSeek does.
    pub fn is_deepseek_compat(&self) -> (r: bool)
        ensures
            r == is_compat_spec(self.model@),
    {
        let m = last_segment_of(self.model.as_str());
        starts_with_str(&m, "deepseek") || starts_with_str(&m, "glm") || starts_with_str(&m, "mimo")
    }

    /// The model's first name segment is `deepseek`: DeepSeek's own service.
    pub fn is_deepseek_provider(&self) -> (r: bool)
        ensures
            r == (first_segment(self.model@) == "deepseek"@),
    {
        let m = first_segment_of(self.model.as_str());
        crate::text::eq_str(&m, "deepseek")
    }

    /// The model's last name segment contains `vision`.
    pub fn is_vision_model(&self) -> (r: bool)
        ensures
            r == seq_contains(last_segment(self.model@), "vision"@),
    {
        let m = last_segment_of(self.model.as_str());
        crate::text::contains(&m, &chars_of("vision"))
    }

    /// Whether the model takes images: as its description says where there is one, else
    /// by its name.
    pub fn supports_image(&self) -> (r: bool)
        ensures
            r == match self.model_config {
                Some(mc) => takes_images(mc.input_types@),
                None => seq_contains(last_segment(self.model@), "vision"@),
            },
    {
        match &self.model_config {
            Some(mc) => {
                let mut i: usize = 0;
                while i < mc.input_types.len()
                    invariant
                        i <= mc.input_types.len(),
                        self.model_config == Some(*mc),
                        forall|j: int| 0 <= j < i ==> mc.input_types@[j] != InputType::Image,
                    decreases mc.input_types.len() - i,
                {
                    if mc.input_types[i] == InputType::Image {
                        assert(mc.input_types@[i as int] == InputType::Image);
                        return true;
                    }
                    i = i + 1;
                }
                false
            },
            None => self.is_vision_model(),
        }
    }
}

/// A client of an OpenAI-compatible service.
#[derive(Debug)]
pub struct LlmClient {
    config: LlmConfig,
}

impl LlmClient {
    pub closed spec fn spec_config(&self) -> LlmConfig {
        self.config
    }

    /// A client with the given configuration.
    pub fn new(config: LlmConfig) -> (r: LlmClient)
        ensures
            r.spec_config() == config,
    {
        LlmClient { config }
    }

    /// The client's configuration.
    pub fn config(&self) -> (r: &LlmConfig)
        ensures
            *r == self.spec_config(),
    {
        &self.config
    }
}

// ── request parameters ──────────────────────────────────────────────

/// The provider-specific parameters of a request, keys in sorted order: the answer
/// limit; how much the model thinks (`thinking.type` for DeepSeek-compatible models,
/// `disabled` only for `Off`; `reasoning_effort` for the others); `top_p`. Nothing when
/// none applies.
pub open spec fn additional_params_spec(
    compat: bool,
    top_p: Option<Seq<char>>,
    thinking: Option<ThinkingLevel>,
    max_tokens: Option<usize>,
) -> Option<JsonModel> {
    let fields = (match max_tokens {
        Some(m) => seq![("max_tokens"@, JsonModel::Number(decimal(m as nat)))],
        None => Seq::empty(),
    }) + (match thinking {
        Some(t) => if compat {
            seq![
                ("thinking"@, JsonModel::Object(
                    seq![("type"@, JsonModel::Str(
                        if t == ThinkingLevel::Off {
                            "disabled"@
                        } else {
                            "enabled"@
                        },
                    ))],
                )),
            ]
        } else {
            seq![("reasoning_effort"@, JsonModel::Str(thinking_level_text(t)))]
        },
        None => Seq::empty(),
    }) + (match top_p {
        Some(p) => seq![("top_p"@, JsonModel::Number(p))],
        None => Seq::empty(),
    });
    if fields.len() == 0 {
        None
    } else {
        Some(JsonModel::Object(fields))
    }
}

impl LlmClient {
    /// The provider-specific parameters of a request (see `additional_params_spec`).
    pub fn build_additional_params(&self, model_profile: &ModelProfile, model_max_tokens: Option<usize>) -> (r:
        Option<JsonValue>)
        ensures
            match (r, additional_params_spec(
                is_compat_spec(self.spec_config().model@),
                match model_profile.top_p {
                    Some(p) => Some(p@),
                    None => None,
                },
                model_profile.thinking_level,
                model_max_tokens,
            )) {
                (Some(v), Some(m)) => v@ == m,
                (None, None) => true,
                _ => false,
            },
    {
        let mut params = new_fields();
        let ghost mut expect = Seq::<(Seq<char>, JsonModel)>::empty();
        match model_max_tokens {
            Some(m) => {
                push_field(&mut params, "max_tokens", JsonValue::Number(string_of(&decimal_u64(m as u64))));
                proof {
                    expect = expect.push(("max_tokens"@, JsonModel::Number(decimal(m as nat))));
                }
            },
            None => {},
        }
        match model_profile.thinking_level {
            Some(t) => {
                if self.config.is_deepseek_compat() {
                    let kind = if t == ThinkingLevel::Off {
                        "disabled"
                    } else {
                        "enabled"
                    };
                    let mut inner = new_fields();
                    push_field(&mut inner, "type", JsonValue::Str(kind.to_owned()));
                    let ghost inner_m = json_fields_model(inner@);
                    push_field(&mut params, "thinking", JsonValue::Object(inner));
                    proof {
                        assert(inner_m =~= seq![("type"@, JsonModel::Str(kind@))]);
                        expect = expect.push(("thinking"@, JsonModel::Object(inner_m)));
                    }
                } else {
                    push_field(&mut params, "reasoning_effort", JsonValue::Str(t.name().to_owned()));
                    proof {
                        expect = expect.push(("reasoning_effort"@, JsonModel::Str(thinking_level_text(t))));
                    }
                }
            },
            None => {},
        }
        match &model_profile.top_p {
            Some(p) => {
                push_field(&mut params, "top_p", JsonValue::Number(p.clone()));
                proof {
                    expect = expect.push(("top_p"@, JsonModel::Number(p@)));
                }
            },
            None => {},
        }
        let ghost spec_fields = match additional_params_spec(
            is_compat_spec(self.config.model@),
            match &model_profile.top_p {
                Some(p) => Some(p@),
                None => None,
            },
            model_profile.thinking_level,
            model_max_tokens,
        ) {
            Some(JsonModel::Object(f)) => f,
            _ => Seq::empty(),
        };
        assert(json_fields_model(params@) =~= expect);
        assert(expect =~= spec_fields);
        if params.len() == 0 {
            None
        } else {
            Some(JsonValue::Object(params))
        }
    }
}

/// The model's last name segment starts with `deepseek`, `glm` or `mimo`.
pub open spec fn is_compat_spec(model: Seq<char>) -> bool {
    let m = last_segment(model);
    seq_starts_with(m, "deepseek"@) || seq_starts_with(m, "glm"@) || seq_starts_with(m, "mimo"@)
}

// ── DeepSeek requests ───────────────────────────────────────────────

/// The extension of the OpenAI-compatible client for DeepSeek: it reshapes request
/// bodies (see `finalize_request_body`).
#[derive(Clone, Copy, Debug, Default)]
pub struct PlaypenDeepSeekExt;

/// Builds a `PlaypenDeepSeekExt`.
#[derive(Clone, Copy, Debug, Default)]
pub struct PlaypenDeepSeekExtBuilder;

/// The path that checks a DeepSeek key.
pub const DEEPSEEK_VERIFY_PATH: &'static str = "/user/balance";

/// DeepSeek's address.
pub const DEEPSEEK_BASE_URL: &'static str = "https://api.deepseek.com";

/// The provider's name.
pub const DEEPSEEK_PROVIDER_NAME: &'static str = "deepseek";

/// DeepSeek takes `json_object` response formats only, through the extra parameters.
pub const DEEPSEEK_SUPPORTS_RESPONSE_FORMAT: bool = false;

/// DeepSeek may send a whole tool call in one streamed chunk.
pub const DEEPSEEK_EMITS_COMPLETE_SINGLE_CHUNK_TOOL_CALLS: bool = true;

/// The text of a content part: its `text`, else its `refusal`, where that is a string.
pub open spec fn part_text_spec(p: JsonModel) -> Option<Seq<char>> {
    match crate::json::as_str_model(crate::json::json_get(p, "text"@)) {
        Some(t) => Some(t),
        None => crate::json::as_str_model(crate::json::json_get(p, "refusal"@)),
    }
}

/// Texts joined with `sep`, the separator written only once something was written.
pub open spec fn join_texts(ts: Seq<Seq<char>>, sep: Seq<char>) -> Seq<char>
    decreases ts.len(),
{
    if ts.len() == 0 {
        Seq::empty()
    } else {
        let acc = join_texts(ts.drop_last(), sep);
        if acc.len() > 0 {
            acc + sep + ts.last()
        } else {
            ts.last()
        }
    }
}

/// Every part has a text.
pub open spec fn all_text(parts: Seq<JsonModel>) -> bool {
    forall|i: int| 0 <= i < parts.len() ==> (#[trigger] part_text_spec(parts[i])) is Some
}

/// A content array of text parts becomes one string of their texts; any other content
/// (an array with a part without text, or no array) stays.
pub open spec fn flatten_spec(c: JsonModel, sep: Seq<char>) -> JsonModel {
    match c {
        JsonModel::Array(parts) => if all_text(parts) {
            JsonModel::Str(join_texts(parts.map_values(|p: JsonModel| part_text_spec(p)->0), sep))
        } else {
            c
        },
        _ => c,
    }
}

fn part_text(p: &JsonValue) -> (r: Option<String>)
    ensures
        match r {
            Some(t) => part_text_spec(p@) == Some(t@),
            None => part_text_spec(p@) is None,
        },
{
    match p {
        JsonValue::Object(fs) => {
            match crate::json::get_field(fs, "text") {
                Some(JsonValue::Str(t)) => {
                    return Some(t.clone());
                },
                _ => {},
            }
            match crate::json::get_field(fs, "refusal") {
                Some(JsonValue::Str(t)) => Some(t.clone()),
                _ => None,
            }
        },
        _ => None,
    }
}

fn flatten_content(c: JsonValue, sep: &str) -> (r: JsonValue)
    ensures
        r@ == flatten_spec(c@, sep@),
{
    match c {
        JsonValue::Array(parts) => {
            let ghost pm = crate::json::json_items_model(parts@);
            proof {
                crate::json::lemma_items_model_map(parts@);
            }
            let mut out: Vec<char> = Vec::new();
            let mut all = true;
            let mut i: usize = 0;
            while all && i < parts.len()
                invariant
                    i <= parts.len(),
                    pm == crate::json::json_items_model(parts@),
                    pm == parts@.map_values(|v: JsonValue| json_model(v)),
                    forall|j: int| 0 <= j < i ==> (#[trigger] part_text_spec(pm[j])) is Some,
                    !all ==> !all_text(pm),
                    out@ == join_texts(
                        pm.take(i as int).map_values(|p: JsonModel| part_text_spec(p)->0),
                        sep@,
                    ),
                decreases parts.len() - i, if all {
                    1int
                } else {
                    0int
                },
            {
                let ghost before = out@;
                assert(pm[i as int] == json_model(parts@[i as int]));
                match part_text(&parts[i]) {
                    Some(t) => {
                        if out.len() > 0 {
                            crate::text::push_str(&mut out, sep);
                        }
                        crate::text::push_str(&mut out, t.as_str());
                        i = i + 1;
                        proof {
                            let ts = pm.take(i as int).map_values(|p: JsonModel| part_text_spec(p)->0);
                            assert(ts.drop_last() =~= pm.take(i - 1).map_values(
                                |p: JsonModel| part_text_spec(p)->0,
                            ));
                            assert(ts.last() == t@);
                            if before.len() == 0 {
                                assert(out@ =~= t@);
                            }
                        }
                    },
                    None => {
                        assert(part_text_spec(pm[i as int]) is None);
                        all = false;
                    },
                }
            }
            if !all {
                return JsonValue::Array(parts);
            }
            assert(pm.take(parts.len() as int) =~= pm);
            JsonValue::Str(string_of(&out))
        },
        other => other,
    }
}

/// Whether the request's `thinking.type` is `disabled`, ignoring ASCII case.
pub open spec fn thinking_disabled_spec(fs: Seq<(Seq<char>, JsonModel)>) -> bool {
    match crate::json::field_get(fs, "thinking"@) {
        Some(t) => match crate::json::as_str_model(crate::json::json_get(t, "type"@)) {
            Some(s) => ascii_ci_eq(s, "disabled"@),
            None => false,
        },
        None => false,
    }
}

/// Equal but for the case of ASCII letters.
pub open spec fn ascii_ci_eq(a: Seq<char>, b: Seq<char>) -> bool {
    a.len() == b.len() && forall|i: int|
        0 <= i < a.len() ==> crate::text::ascii_lower(#[trigger] a[i]) == crate::text::ascii_lower(b[i])
}

fn lower_ascii(c: char) -> (r: char)
    ensures
        r == crate::text::ascii_lower(c),
{
    if 'A' <= c && c <= 'Z' {
        ((c as u8) + 32) as char
    } else {
        c
    }
}

fn eq_ignore_ascii_case(a: &String, lit: &str) -> (r: bool)
    ensures
        r == ascii_ci_eq(a@, lit@),
{
    let x = chars_of(a.as_str());
    let y = chars_of(lit);
    if x.len() != y.len() {
        return false;
    }
    let mut i: usize = 0;
    while i < x.len()
        invariant
            i <= x.len(),
            x.len() == y.len(),
            x@ == a@,
            y@ == lit@,
            forall|j: int| 0 <= j < i ==> crate::text::ascii_lower(#[trigger] x@[j]) == crate::text::ascii_lower(y@[j]),
        decreases x.len() - i,
    {
        if lower_ascii(x[i]) != lower_ascii(y[i]) {
            return false;
        }
        i = i + 1;
    }
    true
}

/// A tool call echoed back carries an `index`, 0 when it had none.
pub open spec fn add_index_spec(tc: JsonModel) -> JsonModel {
    match tc {
        JsonModel::Object(fs) => if crate::json::key_index(fs, "index"@) is Some {
            tc
        } else {
            JsonModel::Object(fs.push(("index"@, JsonModel::Number("0"@))))
        },
        _ => tc,
    }
}

/// A message as DeepSeek takes it: its content flattened where it is all text (joined
/// without separator for the assistant, by newlines otherwise); an assistant message
/// without content gets an empty one, and its tool calls an index.
pub open spec fn finalize_message_spec(m: JsonModel) -> JsonModel {
    match m {
        JsonModel::Object(fs) => {
            let asst = crate::json::field_get(fs, "role"@) == Some(JsonModel::Str("assistant"@));
            let fs2 = match crate::json::field_get(fs, "content"@) {
                Some(c) => crate::json::field_set(
                    fs,
                    "content"@,
                    flatten_spec(
                        c,
                        if asst {
                            ""@
                        } else {
                            "\n"@
                        },
                    ),
                ),
                None => if asst {
                    crate::json::field_set(fs, "content"@, JsonModel::Str(Seq::empty()))
                } else {
                    fs
                },
            };
            let fs3 = if asst {
                match crate::json::field_get(fs2, "tool_calls"@) {
                    Some(JsonModel::Array(tcs)) => crate::json::field_set(
                        fs2,
                        "tool_calls"@,
                        JsonModel::Array(tcs.map_values(|tc: JsonModel| add_index_spec(tc))),
                    ),
                    _ => fs2,
                }
            } else {
                fs2
            };
            JsonModel::Object(fs3)
        },
        _ => m,
    }
}

/// A request body as DeepSeek takes it: its messages reshaped (see
/// `finalize_message_spec`); a forced tool choice (an object, or `required`) becomes
/// `null` unless thinking is disabled. A body that is not an object stays.
pub open spec fn finalize_spec(body: JsonModel) -> JsonModel {
    match body {
        JsonModel::Object(fs) => {
            let fs1 = match crate::json::field_get(fs, "messages"@) {
                Some(JsonModel::Array(ms)) => crate::json::field_set(
                    fs,
                    "messages"@,
                    JsonModel::Array(ms.map_values(|m: JsonModel| finalize_message_spec(m))),
                ),
                _ => fs,
            };
            let fs2 = if !thinking_disabled_spec(fs1) {
                match crate::json::field_get(fs1, "tool_choice"@) {
                    Some(tc) => if tc is Object || tc == JsonModel::Str("required"@) {
                        crate::json::field_set(fs1, "tool_choice"@, JsonModel::Null)
                    } else {
                        fs1
                    },
                    None => fs1,
                }
            } else {
                fs1
            };
            JsonModel::Object(fs2)
        },
        _ => body,
    }
}

fn add_index(tc: JsonValue) -> (r: JsonValue)
    ensures
        r@ == add_index_spec(tc@),
{
    match tc {
        JsonValue::Object(fs) => {
            let mut fs = fs;
            if crate::json::find_key(&fs, "index").is_none() {
                push_field(&mut fs, "index", JsonValue::Number("0".to_owned()));
            }
            JsonValue::Object(fs)
        },
        other => other,
    }
}

/// Applies `add_index` to every item.
fn add_indexes(items: Vec<JsonValue>) -> (r: Vec<JsonValue>)
    ensures
        crate::json::json_items_model(r@) == crate::json::json_items_model(items@).map_values(
            |tc: JsonModel| add_index_spec(tc),
        ),
{
    let ghost orig = items@;
    let mut out: Vec<JsonValue> = Vec::new();
    let mut rest = items;
    let mut i: usize = 0;
    assert(rest.len() <= usize::MAX);
    proof {
        crate::json::lemma_items_model_map(orig);
    }
    while rest.len() > 0
        invariant
            i <= orig.len(),
            orig.len() <= usize::MAX,
            rest@ == orig.skip(i as int),
            out@.map_values(|v: JsonValue| json_model(v)) == orig.take(i as int).map_values(
                |v: JsonValue| json_model(v),
            ).map_values(|tc: JsonModel| add_index_spec(tc)),
        decreases rest.len(),
    {
        let x = rest.remove(0);
        assert(x == orig[i as int]);
        let y = add_index(x);
        let ghost before = out@;
        out.push(y);
        i = i + 1;
        proof {
            assert(out@.map_values(|v: JsonValue| json_model(v)) =~= before.map_values(
                |v: JsonValue| json_model(v),
            ).push(json_model(y)));
            assert(orig.take(i as int).map_values(|v: JsonValue| json_model(v)).map_values(
                |tc: JsonModel| add_index_spec(tc),
            ) =~= orig.take(i - 1).map_values(|v: JsonValue| json_model(v)).map_values(
                |tc: JsonModel| add_index_spec(tc),
            ).push(add_index_spec(json_model(x))));
        }
        assert(rest@ =~= orig.skip(i as int));
    }
    proof {
        assert(orig.take(i as int) =~= orig);
        crate::json::lemma_items_model_map(out@);
    }
    out
}

fn is_str_lit(v: Option<&JsonValue>, lit: &str) -> (r: bool)
    ensures
        r == (match v {
            Some(x) => x@ == JsonModel::Str(lit@),
            None => false,
        }),
{
    match v {
        Some(JsonValue::Str(t)) => crate::text::eq_str(&chars_of(t.as_str()), lit),
        _ => false,
    }
}

#[verifier::spinoff_prover]
#[verifier::rlimit(40)]
fn finalize_message(m: JsonValue) -> (r: JsonValue)
    ensures
        r@ == finalize_message_spec(m@),
{
    match m {
        JsonValue::Object(fs) => {
            let mut fs = fs;
            let ghost fs0 = json_fields_model(fs@);
            let asst = is_str_lit(crate::json::get_field(&fs, "role"), "assistant");
            let sep = if asst {
                ""
            } else {
                "\n"
            };
            match crate::json::find_key(&fs, "content") {
                Some(i) => {
                    proof {
                        crate::json::lemma_key_index(fs0, "content"@);
                        crate::json::lemma_fields_model_map(fs@);
                    }
                    let (k, c) = crate::json::take_field(&mut fs, i);
                    let nc = flatten_content(c, sep);
                    crate::json::put_field(&mut fs, i, k, nc);
                    assert(json_fields_model(fs@) =~= crate::json::field_set(fs0, "content"@, nc@));
                },
                None => {
                    if asst {
                        crate::json::set_field(&mut fs, "content", JsonValue::Str(String::new()));
                    }
                },
            }
            let ghost fs2 = json_fields_model(fs@);
            if asst {
                match crate::json::find_key(&fs, "tool_calls") {
                    Some(i) => {
                        proof {
                            crate::json::lemma_key_index(fs2, "tool_calls"@);
                            crate::json::lemma_fields_model_map(fs@);
                        }
                        let (k, tc) = crate::json::take_field(&mut fs, i);
                        match tc {
                            JsonValue::Array(tcs) => {
                                let ntcs = add_indexes(tcs);
                                crate::json::put_field(&mut fs, i, k, JsonValue::Array(ntcs));
                            },
                            other => {
                                crate::json::put_field(&mut fs, i, k, other);
                            },
                        }
                        assert(json_fields_model(fs@) =~= match crate::json::field_get(fs2, "tool_calls"@) {
                            Some(JsonModel::Array(tcs)) => crate::json::field_set(
                                fs2,
                                "tool_calls"@,
                                JsonModel::Array(tcs.map_values(|tc: JsonModel| add_index_spec(tc))),
                            ),
                            _ => fs2,
                        });
                    },
                    None => {},
                }
            }
            JsonValue::Object(fs)
        },
        other => other,
    }
}

fn finalize_messages(items: Vec<JsonValue>) -> (r: Vec<JsonValue>)
    ensures
        crate::json::json_items_model(r@) == crate::json::json_items_model(items@).map_values(
            |m: JsonModel| finalize_message_spec(m),
        ),
{
    let ghost orig = items@;
    let mut out: Vec<JsonValue> = Vec::new();
    let mut rest = items;
    let mut i: usize = 0;
    assert(rest.len() <= usize::MAX);
    proof {
        crate::json::lemma_items_model_map(orig);
    }
    while rest.len() > 0
        invariant
            i <= orig.len(),
            orig.len() <= usize::MAX,
            rest@ == orig.skip(i as int),
            out@.map_values(|v: JsonValue| json_model(v)) == orig.take(i as int).map_values(
                |v: JsonValue| json_model(v),
            ).map_values(|m: JsonModel| finalize_message_spec(m)),
        decreases rest.len(),
    {
        let x = rest.remove(0);
        assert(x == orig[i as int]);
        let y = finalize_message(x);
        let ghost before = out@;
        out.push(y);
        i = i + 1;
        proof {
            assert(out@.map_values(|v: JsonValue| json_model(v)) =~= before.map_values(
                |v: JsonValue| json_model(v),
            ).push(json_model(y)));
            assert(orig.take(i as int).map_values(|v: JsonValue| json_model(v)).map_values(
                |m: JsonModel| finalize_message_spec(m),
            ) =~= orig.take(i - 1).map_values(|v: JsonValue| json_model(v)).map_values(
                |m: JsonModel| finalize_message_spec(m),
            ).push(finalize_message_spec(json_model(x))));
        }
        assert(rest@ =~= orig.skip(i as int));
    }
    proof {
        assert(orig.take(i as int) =~= orig);
        crate::json::lemma_items_model_map(out@);
    }
    out
}

fn thinking_disabled(fs: &Vec<(String, JsonValue)>) -> (r: bool)
    ensures
        r == thinking_disabled_spec(json_fields_model(fs@)),
{
    match crate::json::get_field(fs, "thinking") {
        Some(JsonValue::Object(tf)) => match crate::json::get_field(tf, "type") {
            Some(JsonValue::Str(t)) => eq_ignore_ascii_case(t, "disabled"),
            _ => false,
        },
        _ => false,
    }
}

/// Reshapes a request body for DeepSeek (see `finalize_spec`).
pub fn deepseek_finalize_request_body(body: &mut JsonValue)
    ensures
        final(body)@ == finalize_spec(old(body)@),
{
    let mut b = JsonValue::Null;
    std::mem::swap(&mut b, body);
    match b {
        JsonValue::Object(fs) => {
            let mut fs = fs;
            let ghost fs0 = json_fields_model(fs@);
            match crate::json::find_key(&fs, "messages") {
                Some(i) => {
                    proof {
                        crate::json::lemma_key_index(fs0, "messages"@);
                        crate::json::lemma_fields_model_map(fs@);
                    }
                    let (k, ms) = crate::json::take_field(&mut fs, i);
                    match ms {
                        JsonValue::Array(items) => {
                            let nitems = finalize_messages(items);
                            crate::json::put_field(&mut fs, i, k, JsonValue::Array(nitems));
                        },
                        other => {
                            crate::json::put_field(&mut fs, i, k, other);
                        },
                    }
                    assert(json_fields_model(fs@) =~= match crate::json::field_get(fs0, "messages"@) {
                        Some(JsonModel::Array(ms)) => crate::json::field_set(
                            fs0,
                            "messages"@,
                            JsonModel::Array(ms.map_values(|m: JsonModel| finalize_message_spec(m))),
                        ),
                        _ => fs0,
                    });
                },
                None => {},
            }
            let ghost fs1 = json_fields_model(fs@);
            if !thinking_disabled(&fs) {
                let forced = match crate::json::get_field(&fs, "tool_choice") {
                    Some(JsonValue::Object(_)) => true,
                    Some(other) => is_str_lit(Some(other), "required"),
                    None => false,
                };
                if forced {
                    crate::json::set_field(&mut fs, "tool_choice", JsonValue::Null);
                }
            }
            *body = JsonValue::Object(fs);
        },
        other => {
            *body = other;
        },
    }
}

/// A `file` content part in DeepSeek's form: the fields of its nested `file` object
/// (`file_id`, `file_data`, `filename`, where present) lifted into the part, the nested
/// object removed. Any other part stays.
pub open spec fn rewrite_part_spec(p: JsonModel) -> JsonModel {
    match p {
        JsonModel::Object(fs) => if crate::json::field_get(fs, "type"@) == Some(JsonModel::Str("file"@)) {
            match crate::json::field_get(fs, "file"@) {
                Some(file) => {
                    let f1 = crate::json::field_remove(fs, "file"@);
                    let f2 = match crate::json::json_get(file, "file_id"@) {
                        Some(v) => crate::json::field_set(f1, "file_id"@, v),
                        None => f1,
                    };
                    let f3 = match crate::json::json_get(file, "file_data"@) {
                        Some(v) => crate::json::field_set(f2, "file_data"@, v),
                        None => f2,
                    };
                    let f4 = match crate::json::json_get(file, "filename"@) {
                        Some(v) => crate::json::field_set(f3, "filename"@, v),
                        None => f3,
                    };
                    JsonModel::Object(f4)
                },
                None => p,
            }
        } else {
            p
        },
        _ => p,
    }
}

/// A message with its content parts rewritten (see `rewrite_part_spec`), where its
/// content is an array.
pub open spec fn rewrite_message_spec(m: JsonModel) -> JsonModel {
    match m {
        JsonModel::Object(fs) => match crate::json::field_get(fs, "content"@) {
            Some(JsonModel::Array(ps)) => JsonModel::Object(
                crate::json::field_set(
                    fs,
                    "content"@,
                    JsonModel::Array(ps.map_values(|q: JsonModel| rewrite_part_spec(q))),
                ),
            ),
            _ => m,
        },
        _ => m,
    }
}

/// A request body with the file parts of its messages in DeepSeek's form.
pub open spec fn rewrite_spec(body: JsonModel) -> JsonModel {
    match body {
        JsonModel::Object(fs) => match crate::json::field_get(fs, "messages"@) {
            Some(JsonModel::Array(ms)) => JsonModel::Object(
                crate::json::field_set(
                    fs,
                    "messages"@,
                    JsonModel::Array(ms.map_values(|m: JsonModel| rewrite_message_spec(m))),
                ),
            ),
            _ => body,
        },
        _ => body,
    }
}

fn lift_field(fields: &mut Vec<(String, JsonValue)>, file: &JsonValue, key: &str)
    ensures
        json_fields_model(final(fields)@) == match crate::json::json_get(file@, key@) {
            Some(v) => crate::json::field_set(json_fields_model(old(fields)@), key@, v),
            None => json_fields_model(old(fields)@),
        },
{
    match file {
        JsonValue::Object(ff) => match crate::json::get_field(ff, key) {
            Some(v) => {
                let c = v.deep_clone();
                crate::json::set_field(fields, key, c);
            },
            None => {},
        },
        _ => {},
    }
}

fn rewrite_part(p: JsonValue) -> (r: JsonValue)
    ensures
        r@ == rewrite_part_spec(p@),
{
    match p {
        JsonValue::Object(fs) => {
            let mut fs = fs;
            if !is_str_lit(crate::json::get_field(&fs, "type"), "file") {
                return JsonValue::Object(fs);
            }
            match crate::json::remove_field(&mut fs, "file") {
                Some(file) => {
                    lift_field(&mut fs, &file, "file_id");
                    lift_field(&mut fs, &file, "file_data");
                    lift_field(&mut fs, &file, "filename");
                    JsonValue::Object(fs)
                },
                None => JsonValue::Object(fs),
            }
        },
        other => other,
    }
}

fn rewrite_parts(items: Vec<JsonValue>) -> (r: Vec<JsonValue>)
    ensures
        crate::json::json_items_model(r@) == crate::json::json_items_model(items@).map_values(
            |q: JsonModel| rewrite_part_spec(q),
        ),
{
    let ghost orig = items@;
    let mut out: Vec<JsonValue> = Vec::new();
    let mut rest = items;
    let mut i: usize = 0;
    assert(rest.len() <= usize::MAX);
    proof {
        crate::json::lemma_items_model_map(orig);
    }
    while rest.len() > 0
        invariant
            i <= orig.len(),
            orig.len() <= usize::MAX,
            rest@ == orig.skip(i as int),
            out@.map_values(|v: JsonValue| json_model(v)) == orig.take(i as int).map_values(
                |v: JsonValue| json_model(v),
            ).map_values(|q: JsonModel| rewrite_part_spec(q)),
        decreases rest.len(),
    {
        let x = rest.remove(0);
        assert(x == orig[i as int]);
        let y = rewrite_part(x);
        let ghost before = out@;
        out.push(y);
        i = i + 1;
        proof {
            assert(out@.map_values(|v: JsonValue| json_model(v)) =~= before.map_values(
                |v: JsonValue| json_model(v),
            ).push(json_model(y)));
            assert(orig.take(i as int).map_values(|v: JsonValue| json_model(v)).map_values(
                |q: JsonModel| rewrite_part_spec(q),
            ) =~= orig.take(i - 1).map_values(|v: JsonValue| json_model(v)).map_values(
                |q: JsonModel| rewrite_part_spec(q),
            ).push(rewrite_part_spec(json_model(x))));
        }
        assert(rest@ =~= orig.skip(i as int));
    }
    proof {
        assert(orig.take(i as int) =~= orig);
        crate::json::lemma_items_model_map(out@);
    }
    out
}

fn rewrite_message(m: JsonValue) -> (r: JsonValue)
    ensures
        r@ == rewrite_message_spec(m@),
{
    match m {
        JsonValue::Object(fs) => {
            let mut fs = fs;
            let ghost fs0 = json_fields_model(fs@);
            match crate::json::find_key(&fs, "content") {
                Some(i) => {
                    proof {
                        crate::json::lemma_key_index(fs0, "content"@);
                        crate::json::lemma_fields_model_map(fs@);
                    }
                    let (k, c) = crate::json::take_field(&mut fs, i);
                    match c {
                        JsonValue::Array(ps) => {
                            let nps = rewrite_parts(ps);
                            crate::json::put_field(&mut fs, i, k, JsonValue::Array(nps));
                            assert(json_fields_model(fs@) =~= fs0.update(
                                i as int,
                                ("content"@, JsonModel::Array(
                                    crate::json::json_items_model(nps@),
                                )),
                            ));
                        },
                        other => {
                            crate::json::put_field(&mut fs, i, k, other);
                            assert(json_fields_model(fs@) =~= fs0);
                        },
                    }
                },
                None => {},
            }
            JsonValue::Object(fs)
        },
        other => other,
    }
}

fn rewrite_messages(items: Vec<JsonValue>) -> (r: Vec<JsonValue>)
    ensures
        crate::json::json_items_model(r@) == crate::json::json_items_model(items@).map_values(
            |m: JsonModel| rewrite_message_spec(m),
        ),
{
    let ghost orig = items@;
    let mut out: Vec<JsonValue> = Vec::new();
    let mut rest = items;
    let mut i: usize = 0;
    assert(rest.len() <= usize::MAX);
    proof {
        crate::json::lemma_items_model_map(orig);
    }
    while rest.len() > 0
        invariant
            i <= orig.len(),
            orig.len() <= usize::MAX,
            rest@ == orig.skip(i as int),
            out@.map_values(|v: JsonValue| json_model(v)) == orig.take(i as int).map_values(
                |v: JsonValue| json_model(v),
            ).map_values(|m: JsonModel| rewrite_message_spec(m)),
        decreases rest.len(),
    {
        let x = rest.remove(0);
        assert(x == orig[i as int]);
        let y = rewrite_message(x);
        let ghost before = out@;
        out.push(y);
        i = i + 1;
        proof {
            assert(out@.map_values(|v: JsonValue| json_model(v)) =~= before.map_values(
                |v: JsonValue| json_model(v),
            ).push(json_model(y)));
            assert(orig.take(i as int).map_values(|v: JsonValue| json_model(v)).map_values(
                |m: JsonModel| rewrite_message_spec(m),
            ) =~= orig.take(i - 1).map_values(|v: JsonValue| json_model(v)).map_values(
                |m: JsonModel| rewrite_message_spec(m),
            ).push(rewrite_message_spec(json_model(x))));
        }
        assert(rest@ =~= orig.skip(i as int));
    }
    proof {
        assert(orig.take(i as int) =~= orig);
        crate::json::lemma_items_model_map(out@);
    }
    out
}

/// Rewrites the file parts of a request body's messages into DeepSeek's form (see
/// `rewrite_spec`).
pub fn rewrite_file_blocks(body: &mut JsonValue)
    ensures
        final(body)@ == rewrite_spec(old(body)@),
{
    let mut b = JsonValue::Null;
    std::mem::swap(&mut b, body);
    match b {
        JsonValue::Object(fs) => {
            let mut fs = fs;
            let ghost fs0 = json_fields_model(fs@);
            match crate::json::find_key(&fs, "messages") {
                Some(i) => {
                    proof {
                        crate::json::lemma_key_index(fs0, "messages"@);
                        crate::json::lemma_fields_model_map(fs@);
                    }
                    let (k, ms) = crate::json::take_field(&mut fs, i);
                    match ms {
                        JsonValue::Array(items) => {
                            let nitems = rewrite_messages(items);
                            crate::json::put_field(&mut fs, i, k, JsonValue::Array(nitems));
                            assert(json_fields_model(fs@) =~= fs0.update(
                                i as int,
                                ("messages"@, JsonModel::Array(
                                    crate::json::json_items_model(nitems@),
                                )),
                            ));
                        },
                        other => {
                            crate::json::put_field(&mut fs, i, k, other);
                            assert(json_fields_model(fs@) =~= fs0);
                        },
                    }
                },
                None => {},
            }
            *body = JsonValue::Object(fs);
        },
        other => {
            *body = other;
        },
    }
}

impl PlaypenDeepSeekExt {
    /// Shapes a request body for DeepSeek: the usual DeepSeek reshaping (see
    /// `finalize_spec`), then the file parts in DeepSeek's form (see `rewrite_spec`).
    pub fn finalize_request_body(&self, body: &mut JsonValue)
        ensures
            final(body)@ == rewrite_spec(finalize_spec(old(body)@)),
    {
        deepseek_finalize_request_body(body);
        rewrite_file_blocks(body);
    }
}

} // verus!
