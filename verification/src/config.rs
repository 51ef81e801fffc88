//! The program's settings: where its files live, the sandbox profile, the model
//! providers, and how configuration layers merge.
use vstd::prelude::*;
use crate::model::{Model, ModelProvider, split_once, split_once_spec};
use crate::path::{join, path_join};
use crate::presets::{is_deepseek_preset, providers};
use crate::strmap::{StrMap, keys_unique, lemma_pairs_map, pairs_map};
use crate::text::{
    chars_of, index_of_char, is_alphanumeric, lemma_first_occurrence_from,
    lemma_occurrence_from_skip, occurs_at, push_all,
    push_str, slice_chars, string_of, unicode_alphanumeric,
};

verus! {

broadcast use vstd::string::group_string_axioms;

// ── directories ─────────────────────────────────────────────────────

/// The directories the program works with.
#[derive(Clone, Debug)]
pub struct Dirs {
    pub working_dir: String,
    pub config_data_dir: String,
    pub agents_dir: String,
}

impl Dirs {
    /// The working directory as given; the configuration under `<home>/.config/playpen`
    /// and the agents under `<home>/.agents`, with `/tmp` standing for an unknown home.
    pub fn with_defaults(cwd: &str, home: Option<&str>) -> (r: Dirs)
        ensures
            r.working_dir@ == cwd@,
            ({
                let h = match home {
                    Some(h) => h@,
                    None => "/tmp"@,
                };
                &&& r.config_data_dir@ == path_join(path_join(h, ".config"@), "playpen"@)
                &&& r.agents_dir@ == path_join(h, ".agents"@)
            }),
    {
        let h = match home {
            Some(h) => chars_of(h),
            None => chars_of("/tmp"),
        };
        let config = join(&join(&h, &chars_of(".config")), &chars_of("playpen"));
        let agents = join(&h, &chars_of(".agents"));
        Dirs { working_dir: cwd.to_owned(), config_data_dir: string_of(&config), agents_dir: string_of(&agents) }
    }
}

// ── sandbox profile ─────────────────────────────────────────────────

/// The rules for one kind of access.
#[derive(Clone, Debug)]
pub struct AccessSection {
    pub access: Vec<String>,
}

/// What the shell may do.
#[derive(Clone, Debug)]
pub struct ShellSection {
    pub allow_pipe: Option<bool>,
    pub allow_multiple: Option<bool>,
    pub allow: Vec<String>,
}

/// The sandbox part of the settings.
#[derive(Clone, Debug, Default)]
pub struct SandboxProfile {
    /// On unless the configuration says otherwise (see `default_enabled`).
    pub enabled: bool,
    pub network: Option<AccessSection>,
    pub filesystem: Option<AccessSection>,
    pub shell: Option<ShellSection>,
}

/// A sandbox section that does not say whether it is enabled is enabled.
pub fn default_enabled() -> (r: bool)
    ensures
        r,
{
    true
}

// ── settings ────────────────────────────────────────────────────────

/// The settings, merged from the configuration layers.
#[derive(Debug)]
pub struct Settings {
    pub default_profile: Option<String>,
    pub sandbox: Option<SandboxProfile>,
    pub model_providers: StrMap<ModelProvider>,
}

impl Default for Settings {
    /// No profile, no sandbox, no providers.
    fn default() -> (r: Settings)
        ensures
            r.default_profile is None,
            r.sandbox is None,
            r.model_providers@ == Map::<Seq<char>, ModelProvider>::empty(),
    {
        Settings { default_profile: None, sandbox: None, model_providers: StrMap::new() }
    }
}

/// The first model named `name`.
pub open spec fn first_named(models: Seq<Model>, name: Seq<char>) -> Option<int>
    decreases models.len(),
{
    if models.len() == 0 {
        None
    } else {
        match first_named(models.drop_last(), name) {
            Some(i) => Some(i),
            None => if models.last().name@ == name {
                Some(models.len() - 1)
            } else {
                None
            },
        }
    }
}

pub proof fn lemma_first_named(models: Seq<Model>, name: Seq<char>, n: int)
    requires
        0 <= n <= models.len(),
        forall|j: int| 0 <= j < n ==> models[j].name@ != name,
    ensures
        n < models.len() && models[n].name@ == name ==> first_named(models, name) == Some(n),
        n == models.len() ==> first_named(models, name) is None,
    decreases models.len(),
{
    if models.len() > 0 {
        let t = models.drop_last();
        if n < models.len() {
            if n < t.len() {
                lemma_first_named(t, name, n);
            } else {
                lemma_first_named(t, name, t.len() as int);
            }
        } else {
            lemma_first_named(t, name, t.len() as int);
        }
    }
}

/// The model a key `<provider>/<model>` names: the provider's first model of that name.
/// A key without `/`, an unknown provider, or a provider without models names none.
pub open spec fn find_model_spec(providers: Map<Seq<char>, ModelProvider>, key: Seq<char>) -> Option<Model> {
    match split_once_spec(key, '/') {
        None => None,
        Some((p, m)) => if providers.contains_key(p) {
            match providers[p].models {
                Some(ms) => match first_named(ms@, m) {
                    Some(i) => Some(ms@[i]),
                    None => None,
                },
                None => None,
            }
        } else {
            None
        },
    }
}

pub proof fn lemma_first_named_found(models: Seq<Model>, name: Seq<char>)
    ensures
        match first_named(models, name) {
            Some(i) => 0 <= i < models.len() && models[i].name@ == name,
            None => true,
        },
    decreases models.len(),
{
    if models.len() > 0 {
        lemma_first_named_found(models.drop_last(), name);
    }
}

/// The index of the first model named `name` (see `first_named`).
pub fn find_named(models: &Vec<Model>, name: &str) -> (r: Option<usize>)
    ensures
        match r {
            Some(i) => first_named(models@, name@) == Some(i as int),
            None => first_named(models@, name@) is None,
        },
{
    let n = chars_of(name);
    let mut i: usize = 0;
    while i < models.len()
        invariant
            i <= models.len(),
            n@ == name@,
            forall|j: int| 0 <= j < i ==> models@[j].name@ != name@,
        decreases models.len() - i,
    {
        let m = chars_of(models[i].name.as_str());
        if crate::text::chars_eq(&m, &n) {
            proof {
                lemma_first_named(models@, name@, i as int);
            }
            return Some(i);
        }
        i = i + 1;
    }
    proof {
        lemma_first_named(models@, name@, i as int);
    }
    None
}

impl Settings {
    /// The model a key names (see `find_model_spec`).
    pub fn find_model(&self, model_key: &str) -> (r: Option<&Model>)
        ensures
            match r {
                Some(m) => find_model_spec(self.model_providers@, model_key@) == Some(*m),
                None => find_model_spec(self.model_providers@, model_key@) is None,
            },
    {
        let (provider_id, model_name) = match split_once(model_key, '/') {
            Some(parts) => parts,
            None => return None,
        };
        let provider = match self.model_providers.get(provider_id.as_str()) {
            Some(p) => p,
            None => return None,
        };
        let models = match &provider.models {
            Some(ms) => ms,
            None => return None,
        };
        let name = chars_of(model_name.as_str());
        let mut i: usize = 0;
        while i < models.len()
            invariant
                i <= models.len(),
                name@ == model_name@,
                split_once_spec(model_key@, '/') == Some((provider_id@, model_name@)),
                self.model_providers@.contains_key(provider_id@),
                self.model_providers@[provider_id@].models == Some(*models),
                forall|j: int| 0 <= j < i ==> models@[j].name@ != model_name@,
            decreases models.len() - i,
        {
            let n = chars_of(models[i].name.as_str());
            if crate::text::chars_eq(&n, &name) {
                proof {
                    lemma_first_named(models@, model_name@, i as int);
                }
                return Some(&models[i]);
            }
            i = i + 1;
        }
        proof {
            lemma_first_named(models@, model_name@, i as int);
        }
        None
    }
}

// ── environment references ──────────────────────────────────────────

/// A character that may stand in a bare `$NAME`.
pub open spec fn is_name_char(c: char) -> bool {
    unicode_alphanumeric(c) || c == '_'
}

/// How many name characters `s` starts with.
pub open spec fn name_len(s: Seq<char>) -> nat
    decreases s.len(),
{
    if s.len() > 0 && is_name_char(s[0]) {
        1 + name_len(s.drop_first())
    } else {
        0
    }
}

/// The variable's value, or `fallback` where it is not set.
pub open spec fn env_or(env: Map<Seq<char>, String>, name: Seq<char>, fallback: Seq<char>) -> Seq<char> {
    if env.contains_key(name) {
        env[name]@
    } else {
        fallback
    }
}

/// `s` with its environment references replaced, read from left to right. `${NAME}`
/// (closed by the first `}`, or by the end) gives the variable's value, or itself where
/// the variable is not set. A bare `$` followed by name characters gives the value of that
/// name, or `$NAME`; the character that ends the name is consumed with it. A bare `$`
/// followed by no name character stays `$`, and the character after it is consumed.
pub open spec fn expand_spec(s: Seq<char>, env: Map<Seq<char>, String>) -> Seq<char>
    decreases s.len(),
{
    if s.len() == 0 {
        Seq::empty()
    } else if s[0] != '$' {
        seq![s[0]] + expand_spec(s.drop_first(), env)
    } else if s.len() >= 2 && s[1] == '{' {
        let rest = s.skip(2);
        match index_of_char(rest, '}') {
            Some(j) => if 0 <= j < rest.len() {
                env_or(env, rest.take(j), "${"@ + rest.take(j) + "}"@) + expand_spec(
                    rest.skip(j + 1),
                    env,
                )
            } else {
                Seq::empty()
            },
            None => env_or(env, rest, "${"@ + rest + "}"@),
        }
    } else {
        let rest = s.drop_first();
        let k = name_len(rest);
        let head = if k > 0 {
            env_or(env, rest.take(k as int), "$"@ + rest.take(k as int))
        } else {
            "$"@
        };
        if k < rest.len() {
            head + expand_spec(rest.skip(k as int + 1), env)
        } else {
            head
        }
    }
}

proof fn lemma_name_len(s: Seq<char>, m: int)
    requires
        0 <= m <= s.len(),
        forall|j: int| 0 <= j < m ==> is_name_char(s[j]),
        m == s.len() || !is_name_char(s[m]),
    ensures
        name_len(s) == m,
    decreases m,
{
    if m > 0 {
        let t = s.drop_first();
        assert forall|j: int| 0 <= j < m - 1 implies is_name_char(t[j]) by {
            assert(t[j] == s[j + 1]);
        }
        if m < s.len() {
            assert(t[m - 1] == s[m]);
        }
        lemma_name_len(t, m - 1);
    }
}

fn env_value_or(env: &StrMap<String>, name: &Vec<char>, out: &mut Vec<char>, fallback: &Vec<char>)
    ensures
        final(out)@ == old(out)@ + env_or(env@, name@, fallback@),
{
    let key = string_of(name);
    match env.get(key.as_str()) {
        Some(v) => push_str(out, v.as_str()),
        None => push_all(out, fallback),
    }
}

/// `s` with its environment references replaced by the values in `env` (see
/// `expand_spec`).
pub fn expand_env_vars(s: &str, env: &StrMap<String>) -> (r: String)
    ensures
        r@ == expand_spec(s@, env@),
{
    let v = chars_of(s);
    let mut out: Vec<char> = Vec::new();
    let mut close: Vec<char> = Vec::new();
    close.push('}');
    let mut i: usize = 0;
    assert(v@.skip(0) =~= v@);
    while i < v.len()
        invariant
            i <= v.len(),
            v@ == s@,
            close@ == seq!['}'],
            expand_spec(s@, env@) == out@ + expand_spec(v@.skip(i as int), env@),
        decreases v.len() - i,
    {
        let ghost t = v@.skip(i as int);
        let ghost before = out@;
        assert(t[0] == v@[i as int]);
        if v[i] != '$' {
            out.push(v[i]);
            i = i + 1;
            assert(t.drop_first() =~= v@.skip(i as int));
        } else if i + 1 < v.len() && v[i + 1] == '{' {
            assert(t[1] == v@[i + 1]);
            let ghost rest = t.skip(2);
            assert(rest =~= v@.skip(i + 2));
            proof {
                lemma_occurrence_from_skip(v@, seq!['}'], i + 2);
                lemma_first_occurrence_from(v@, seq!['}'], i + 2);
            }
            match crate::text::find_from(&v, &close, i + 2) {
                Some(j) => {
                    proof {
                        assert(occurs_at(v@, seq!['}'], j as int));
                    }
                    assert(v.len() <= usize::MAX);
                    let name = slice_chars(&v, i + 2, j);
                    let mut fallback: Vec<char> = Vec::new();
                    push_str(&mut fallback, "${");
                    push_all(&mut fallback, &name);
                    push_str(&mut fallback, "}");
                    env_value_or(env, &name, &mut out, &fallback);
                    proof {
                        assert(index_of_char(rest, '}') == Some(j - (i + 2)));
                        assert(rest.take(j - (i + 2)) =~= name@);
                        assert(rest.skip(j - (i + 2) + 1) =~= v@.skip(j + 1));
                    }
                    i = j + 1;
                },
                None => {
                    let name = slice_chars(&v, i + 2, v.len());
                    let mut fallback: Vec<char> = Vec::new();
                    push_str(&mut fallback, "${");
                    push_all(&mut fallback, &name);
                    push_str(&mut fallback, "}");
                    env_value_or(env, &name, &mut out, &fallback);
                    proof {
                        assert(rest =~= name@);
                    }
                    i = v.len();
                    assert(v@.skip(i as int) =~= Seq::<char>::empty());
                },
            }
        } else {
            let ghost rest = t.drop_first();
            assert(rest =~= v@.skip(i + 1));
            let mut j: usize = i + 1;
            while j < v.len() && (is_alphanumeric(v[j]) || v[j] == '_')
                invariant
                    i + 1 <= j <= v.len(),
                    forall|m: int| i + 1 <= m < j ==> is_name_char(v@[m]),
                decreases v.len() - j,
            {
                j = j + 1;
            }
            proof {
                assert forall|m: int| 0 <= m < j - (i + 1) implies is_name_char(rest[m]) by {
                    assert(rest[m] == v@[m + i + 1]);
                }
                if j < v.len() {
                    assert(rest[j - (i + 1)] == v@[j as int]);
                }
                lemma_name_len(rest, j - (i + 1));
            }
            let name = slice_chars(&v, i + 1, j);
            assert(name@ =~= rest.take(j - (i + 1)));
            if j > i + 1 {
                let mut fallback: Vec<char> = Vec::new();
                push_str(&mut fallback, "$");
                push_all(&mut fallback, &name);
                env_value_or(env, &name, &mut out, &fallback);
            } else {
                push_str(&mut out, "$");
            }
            if j < v.len() {
                assert(rest.skip(j - i) =~= v@.skip(j + 1));
                i = j + 1;
            } else {
                i = v.len();
                assert(v@.skip(i as int) =~= Seq::<char>::empty());
            }
        }
    }
    assert(v@.skip(i as int) =~= Seq::<char>::empty());
    assert(out@ + Seq::<char>::empty() =~= out@);
    string_of(&out)
}

// ── merging the configuration layers ───────────────────────────────

/// The default profile of the last layer that names one.
pub open spec fn merged_profile(layers: Seq<Settings>) -> Option<String>
    decreases layers.len(),
{
    if layers.len() == 0 {
        None
    } else {
        match layers.last().default_profile {
            Some(p) => Some(p),
            None => merged_profile(layers.drop_last()),
        }
    }
}

/// The sandbox profile of the last layer that has one.
pub open spec fn merged_sandbox(layers: Seq<Settings>) -> Option<SandboxProfile>
    decreases layers.len(),
{
    if layers.len() == 0 {
        None
    } else {
        match layers.last().sandbox {
            Some(p) => Some(p),
            None => merged_sandbox(layers.drop_last()),
        }
    }
}

/// Where the provider under `key` comes from: the last layer that has it, else the
/// presets.
pub open spec fn provider_source(
    presets: Map<Seq<char>, ModelProvider>,
    layers: Seq<Settings>,
    key: Seq<char>,
) -> Option<ModelProvider>
    decreases layers.len(),
{
    if layers.len() == 0 {
        if presets.contains_key(key) {
            Some(presets[key])
        } else {
            None
        }
    } else if layers.last().model_providers@.contains_key(key) {
        Some(layers.last().model_providers@[key])
    } else {
        provider_source(presets, layers.drop_last(), key)
    }
}

/// `p` is `src` with the environment references in its API key replaced.
pub open spec fn expanded(src: ModelProvider, p: ModelProvider, env: Map<Seq<char>, String>) -> bool {
    &&& p.name == src.name
    &&& p.base_url == src.base_url
    &&& p.models == src.models
    &&& p.api_key@ == expand_spec(src.api_key@, env)
}

/// `m` holds a provider exactly under the keys `source` gives one for, each the given
/// provider with its API key expanded.
pub open spec fn merged_with(
    m: Map<Seq<char>, ModelProvider>,
    source: spec_fn(Seq<char>) -> Option<ModelProvider>,
    env: Map<Seq<char>, String>,
) -> bool {
    &&& forall|k: Seq<char>| #[trigger] m.contains_key(k) <==> source(k) is Some
    &&& forall|k: Seq<char>| #[trigger] m.contains_key(k) ==> expanded(source(k)->0, m[k], env)
}

/// The providers after merging: the presets, overridden key by key by the layers in
/// order, every API key expanded.
pub open spec fn providers_merged(
    m: Map<Seq<char>, ModelProvider>,
    presets: Map<Seq<char>, ModelProvider>,
    layers: Seq<Settings>,
    env: Map<Seq<char>, String>,
) -> bool {
    merged_with(m, |k: Seq<char>| provider_source(presets, layers, k), env)
}

proof fn lemma_layer_step(presets: Map<Seq<char>, ModelProvider>, layers: Seq<Settings>, i: int, k: Seq<char>)
    requires
        0 <= i < layers.len(),
    ensures
        provider_source(presets, layers.take(i + 1), k) == if layers[i].model_providers@.contains_key(
            k,
        ) {
            Some(layers[i].model_providers@[k])
        } else {
            provider_source(presets, layers.take(i), k)
        },
{
    assert(layers.take(i + 1).drop_last() =~= layers.take(i));
    assert(layers.take(i + 1).last() == layers[i]);
}

/// Merges the configuration layers, in order, over the preset providers: a later layer's
/// default profile or sandbox replaces an earlier one where it has one; its providers
/// replace those under the same keys. Every provider's API key has its environment
/// references replaced from `env`.
pub fn merge_settings(layers: Vec<Settings>, env: &StrMap<String>) -> (r: Settings)
    ensures
        r.default_profile == merged_profile(layers@),
        r.sandbox == merged_sandbox(layers@),
        exists|p: ModelProvider|
            is_deepseek_preset(p) && providers_merged(
                r.model_providers@,
                Map::<Seq<char>, ModelProvider>::empty().insert("deepseek"@, p),
                layers@,
                env@,
            ),
{
    let mut settings = Settings::default();
    let mut preset_list = providers();
    let (preset_key, mut preset) = preset_list.remove(0);
    let ghost p0 = preset;
    let ghost presets = Map::<Seq<char>, ModelProvider>::empty().insert("deepseek"@, p0);
    preset.api_key = expand_env_vars(preset.api_key.as_str(), env);
    settings.model_providers.insert(preset_key.to_owned(), preset);
    let ghost orig = layers@;
    assert(layers.len() <= usize::MAX);
    proof {
        let src = |k: Seq<char>| provider_source(presets, orig.take(0), k);
        assert(orig.take(0) =~= Seq::<Settings>::empty());
        assert forall|k: Seq<char>| #[trigger]
            settings.model_providers@.contains_key(k) <==> src(k) is Some by {}
        assert forall|k: Seq<char>| #[trigger]
            settings.model_providers@.contains_key(k) implies expanded(
                src(k)->0,
                settings.model_providers@[k],
                env@,
            ) by {}
    }
    let mut rest = layers;
    let mut i: usize = 0;
    while rest.len() > 0
        invariant
            i <= orig.len(),
            orig.len() <= usize::MAX,
            rest@ == orig.skip(i as int),
            settings.default_profile == merged_profile(orig.take(i as int)),
            settings.sandbox == merged_sandbox(orig.take(i as int)),
            is_deepseek_preset(p0),
            presets == Map::<Seq<char>, ModelProvider>::empty().insert("deepseek"@, p0),
            providers_merged(settings.model_providers@, presets, orig.take(i as int), env@),
        decreases rest.len(),
    {
        let layer = rest.remove(0);
        assert(layer == orig[i as int]);
        proof {
            assert(orig.take(i + 1).drop_last() =~= orig.take(i as int));
            assert(orig.take(i + 1).last() == orig[i as int]);
        }
        let ghost lmp = layer.model_providers@;
        let Settings { default_profile, sandbox, model_providers } = layer;
        if default_profile.is_some() {
            settings.default_profile = default_profile;
        }
        if sandbox.is_some() {
            settings.sandbox = sandbox;
        }
        let entries = model_providers.into_entries();
        let ghost e0 = entries@;
        let ghost base = |k: Seq<char>| provider_source(presets, orig.take(i as int), k);
        assert(entries.len() <= usize::MAX);
        let mut es = entries;
        let mut j: usize = 0;
        proof {
            assert(e0.take(0) =~= Seq::<(String, ModelProvider)>::empty());
            assert(pairs_map(e0.take(0)) =~= Map::<Seq<char>, ModelProvider>::empty());
            let src = |k: Seq<char>|
                if pairs_map(e0.take(0)).contains_key(k) {
                    Some(pairs_map(e0.take(0))[k])
                } else {
                    base(k)
                };
            assert forall|k: Seq<char>| #[trigger]
                settings.model_providers@.contains_key(k) <==> src(k) is Some by {}
            assert forall|k: Seq<char>| #[trigger]
                settings.model_providers@.contains_key(k) implies expanded(
                    src(k)->0,
                    settings.model_providers@[k],
                    env@,
                ) by {}
        }
        while es.len() > 0
            invariant
                j <= e0.len(),
                e0.len() <= usize::MAX,
                es@ == e0.skip(j as int),
                settings.default_profile == merged_profile(orig.take(i + 1)),
                settings.sandbox == merged_sandbox(orig.take(i + 1)),
                keys_unique(e0),
                pairs_map(e0) == lmp,
                merged_with(
                    settings.model_providers@,
                    |k: Seq<char>|
                        if pairs_map(e0.take(j as int)).contains_key(k) {
                            Some(pairs_map(e0.take(j as int))[k])
                        } else {
                            base(k)
                        },
                    env@,
                ),
            decreases es.len(),
        {
            let (key, mut p) = es.remove(0);
            assert((key, p) == e0[j as int]);
            let ghost src_p = p;
            let ghost before = settings.model_providers@;
            let ghost pm = pairs_map(e0.take(j as int));
            p.api_key = expand_env_vars(p.api_key.as_str(), env);
            let ghost kv = key@;
            settings.model_providers.insert(key, p);
            j = j + 1;
            proof {
                assert(e0.take(j as int).drop_last() =~= e0.take(j - 1));
                assert(e0.take(j as int).last() == e0[j - 1]);
                let pm2 = pairs_map(e0.take(j as int));
                assert(pm2 == pm.insert(kv, src_p));
                let src = |k: Seq<char>|
                    if pm2.contains_key(k) {
                        Some(pm2[k])
                    } else {
                        base(k)
                    };
                let src_old = |k: Seq<char>|
                    if pm.contains_key(k) {
                        Some(pm[k])
                    } else {
                        base(k)
                    };
                assert(merged_with(before, src_old, env@));
                assert forall|k: Seq<char>| #[trigger]
                    settings.model_providers@.contains_key(k) <==> src(k) is Some by {
                    if k != kv {
                        assert(before.contains_key(k) <==> src_old(k) is Some);
                    }
                }
                assert forall|k: Seq<char>| #[trigger]
                    settings.model_providers@.contains_key(k) implies expanded(
                        src(k)->0,
                        settings.model_providers@[k],
                        env@,
                    ) by {
                    if k != kv {
                        assert(before.contains_key(k));
                        assert(expanded(src_old(k)->0, before[k], env@));
                    }
                }
            }
        }
        proof {
            assert(e0.take(j as int) =~= e0);
            let ghost src_new = |k: Seq<char>| provider_source(presets, orig.take(i + 1), k);
            let src_end = |k: Seq<char>|
                if pairs_map(e0.take(j as int)).contains_key(k) {
                    Some(pairs_map(e0.take(j as int))[k])
                } else {
                    base(k)
                };
            assert forall|k: Seq<char>| #[trigger] src_new(k) == src_end(k) by {
                lemma_layer_step(presets, orig, i as int, k);
            }
            assert forall|k: Seq<char>| #[trigger]
                settings.model_providers@.contains_key(k) <==> src_new(k) is Some by {
                assert(src_new(k) == src_end(k));
            }
            assert forall|k: Seq<char>| #[trigger]
                settings.model_providers@.contains_key(k) implies expanded(
                    src_new(k)->0,
                    settings.model_providers@[k],
                    env@,
                ) by {
                assert(src_new(k) == src_end(k));
            }
        }
        i = i + 1;
        assert(rest@ =~= orig.skip(i as int));
    }
    assert(orig.take(i as int) =~= orig);
    settings
}

// ── laws ────────────────────────────────────────────────────────────

/// A layer that names a provider decides it: the provider merged under that key comes
/// from the last layer that has the key.
pub proof fn law_later_layer_wins(presets: Map<Seq<char>, ModelProvider>, layers: Seq<Settings>, k: int, key: Seq<char>)
    requires
        0 <= k < layers.len(),
        layers[k].model_providers@.contains_key(key),
        forall|j: int| k < j < layers.len() ==> !(#[trigger] layers[j]).model_providers@.contains_key(key),
    ensures
        provider_source(presets, layers, key) == Some(layers[k].model_providers@[key]),
    decreases layers.len(),
{
    if k < layers.len() - 1 {
        assert(!layers.last().model_providers@.contains_key(key));
        let t = layers.drop_last();
        assert forall|j: int| k < j < t.len() implies !(#[trigger] t[j]).model_providers@.contains_key(key) by {
            assert(t[j] == layers[j]);
        }
        law_later_layer_wins(presets, t, k, key);
    }
}

/// A preset no layer names survives the merge as it is.
pub proof fn law_preset_kept(presets: Map<Seq<char>, ModelProvider>, layers: Seq<Settings>, key: Seq<char>)
    requires
        forall|j: int| 0 <= j < layers.len() ==> !(#[trigger] layers[j]).model_providers@.contains_key(key),
    ensures
        provider_source(presets, layers, key) == if presets.contains_key(key) {
            Some(presets[key])
        } else {
            None
        },
    decreases layers.len(),
{
    if layers.len() > 0 {
        assert(!layers[layers.len() - 1].model_providers@.contains_key(key));
        let t = layers.drop_last();
        assert forall|j: int| 0 <= j < t.len() implies !(#[trigger] t[j]).model_providers@.contains_key(key) by {
            assert(t[j] == layers[j]);
        }
        law_preset_kept(presets, t, key);
    }
}

/// The default profile merged is the last one a layer names.
pub proof fn law_last_profile_wins(layers: Seq<Settings>, k: int)
    requires
        0 <= k < layers.len(),
        layers[k].default_profile is Some,
        forall|j: int| k < j < layers.len() ==> (#[trigger] layers[j]).default_profile is None,
    ensures
        merged_profile(layers) == layers[k].default_profile,
    decreases layers.len(),
{
    if k < layers.len() - 1 {
        let t = layers.drop_last();
        assert forall|j: int| k < j < t.len() implies (#[trigger] t[j]).default_profile is None by {
            assert(t[j] == layers[j]);
        }
        law_last_profile_wins(t, k);
    }
}

/// Text without `$` passes through the expansion unchanged.
pub proof fn law_plain_text_unchanged(s: Seq<char>, env: Map<Seq<char>, String>)
    requires
        forall|i: int| 0 <= i < s.len() ==> s[i] != '$',
    ensures
        expand_spec(s, env) == s,
    decreases s.len(),
{
    if s.len() > 0 {
        let t = s.drop_first();
        assert forall|i: int| 0 <= i < t.len() implies t[i] != '$' by {
            assert(t[i] == s[i + 1]);
        }
        law_plain_text_unchanged(t, env);
        assert(seq![s[0]] + t =~= s);
    }
}

proof fn lemma_name_len_prefix(n: Seq<char>, t: Seq<char>)
    requires
        forall|i: int| 0 <= i < n.len() ==> is_name_char(#[trigger] n[i]),
    ensures
        name_len(n + t) == n.len() + name_len(t),
    decreases n.len(),
{
    if n.len() > 0 {
        assert((n + t)[0] == n[0]);
        assert((n + t).drop_first() =~= n.drop_first() + t);
        assert forall|i: int| 0 <= i < n.drop_first().len() implies is_name_char(#[trigger] n.drop_first()[i]) by {
            assert(n.drop_first()[i] == n[i + 1]);
        }
        lemma_name_len_prefix(n.drop_first(), t);
    } else {
        assert(n + t =~= t);
    }
}

/// A braced reference `${NAME}` (a name without `}`) expands to the variable's value, or
/// stays `${NAME}` where it is not set, and the text after it expands on its own.
pub proof fn law_braced_reference(n: Seq<char>, rest: Seq<char>, env: Map<Seq<char>, String>)
    requires
        forall|i: int| 0 <= i < n.len() ==> #[trigger] n[i] != '}',
    ensures
        expand_spec(seq!['$', '{'] + n + seq!['}'] + rest, env) == env_or(env, n, "${"@ + n + "}"@)
            + expand_spec(rest, env),
{
    let s = seq!['$', '{'] + n + seq!['}'] + rest;
    let r = s.skip(2);
    assert(r =~= n + seq!['}'] + rest);
    assert(s[0] == '$');
    assert(s[1] == '{');
    let p = seq!['}'];
    lemma_first_occurrence_from(r, p, 0);
    assert(r.subrange(n.len() as int, (n.len() + 1) as int) =~= p);
    assert(occurs_at(r, p, n.len() as int));
    assert forall|j: int| 0 <= j < n.len() implies !occurs_at(r, p, j) by {
        assert(r.subrange(j, j + 1)[0] == n[j]);
    }
    let j = index_of_char(r, '}')->0;
    assert(j == n.len());
    assert(r.take(j) =~= n);
    assert(r.skip(j + 1) =~= rest);
}

/// A bare reference `$NAME` expands to the variable's value, or stays `$NAME` where it is
/// not set: at the end of the text, or before a character that is no name character
/// (which the expansion consumes with the name).
pub proof fn law_bare_reference(n: Seq<char>, c: char, rest: Seq<char>, env: Map<Seq<char>, String>)
    requires
        n.len() > 0,
        n[0] != '{',
        forall|i: int| 0 <= i < n.len() ==> is_name_char(#[trigger] n[i]),
        !is_name_char(c),
    ensures
        expand_spec(seq!['$'] + n, env) == env_or(env, n, "$"@ + n),
        expand_spec(seq!['$'] + n + seq![c] + rest, env) == env_or(env, n, "$"@ + n) + expand_spec(rest, env),
{
    let s1 = seq!['$'] + n;
    assert(s1[0] == '$');
    assert(s1[1] == n[0]);
    assert(s1.drop_first() =~= n);
    lemma_name_len_prefix(n, Seq::<char>::empty());
    assert(n + Seq::<char>::empty() =~= n);
    assert(name_len(Seq::<char>::empty()) == 0);
    assert(n.take(n.len() as int) =~= n);
    let s2 = seq!['$'] + n + seq![c] + rest;
    assert(s2[0] == '$');
    assert(s2[1] == n[0]);
    let t = seq![c] + rest;
    assert(s2.drop_first() =~= n + t);
    lemma_name_len_prefix(n, t);
    assert(t[0] == c);
    assert(name_len(t) == 0);
    assert((n + t).take(n.len() as int) =~= n);
    assert((n + t).skip((n.len() + 1) as int) =~= rest);
}

/// The sandbox section of the last layer that has one wins: later layers without one
/// keep it, and a later layer with one replaces it.
pub proof fn law_last_sandbox_wins(layers: Seq<Settings>, k: int)
    requires
        0 <= k < layers.len(),
        layers[k].sandbox is Some,
        forall|j: int| k < j < layers.len() ==> (#[trigger] layers[j]).sandbox is None,
    ensures
        merged_sandbox(layers) == layers[k].sandbox,
    decreases layers.len(),
{
    if k < layers.len() - 1 {
        let t = layers.drop_last();
        assert forall|j: int| k < j < t.len() implies (#[trigger] t[j]).sandbox is None by {
            assert(t[j] == layers[j]);
        }
        law_last_sandbox_wins(t, k);
    }
}

/// Without a sandbox section in any layer, the merged settings have none.
pub proof fn law_no_sandbox_section(layers: Seq<Settings>)
    requires
        forall|j: int| 0 <= j < layers.len() ==> (#[trigger] layers[j]).sandbox is None,
    ensures
        merged_sandbox(layers) is None,
    decreases layers.len(),
{
    if layers.len() > 0 {
        let t = layers.drop_last();
        assert forall|j: int| 0 <= j < t.len() implies (#[trigger] t[j]).sandbox is None by {
            assert(t[j] == layers[j]);
        }
        law_no_sandbox_section(t);
    }
}

} // verus!
