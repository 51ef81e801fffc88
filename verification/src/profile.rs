//! Agent profiles and skills: a skill file's frontmatter, the merged skill list, the
//! instructions a profile composes, and the profiles found on disk.
use vstd::prelude::*;
use crate::config::Dirs;
use crate::json::JsonValue;
use crate::model::ModelProfile;
use crate::sort::{keys_sorted, lex_le, sort_by_key};
use crate::strmap::{StrMap, keys_unique, lemma_pairs_map, pairs_map};
use crate::text::{
    chars_of, first_occurrence, join_spec, lemma_first_occurrence_from, occurs_at, push_all,
    push_str, seq_starts_with, slice_chars, starts_with_str, string_of, trim, trimmed,
};

verus! {

broadcast use vstd::string::group_string_axioms;

// ── skills ──────────────────────────────────────────────────────────

/// Where a skill was found.
#[derive(Clone, Copy, Debug, PartialEq, Eq, Structural)]
pub enum Source {
    /// Under the user's agents directory.
    Global,
    /// Under the project.
    Project,
}

/// A skill's frontmatter.
#[derive(Clone, Debug)]
pub struct Metadata {
    pub name: String,
    pub description: String,
    pub license: Option<String>,
    /// Free-form fields, as a JSON object's fields.
    pub metadata: Option<Vec<(String, JsonValue)>>,
    /// `disable-model-invocation`: the model is not told of the skill.
    pub disable_model_invocation: Option<bool>,
}

/// A skill read from a `SKILL.md` file.
#[derive(Clone, Debug)]
pub struct LocalSkill {
    metadata: Metadata,
    location: String,
    source: Source,
    instructions: String,
}

impl LocalSkill {
    pub closed spec fn spec_metadata(&self) -> Metadata {
        self.metadata
    }

    pub closed spec fn spec_location(&self) -> String {
        self.location
    }

    pub closed spec fn spec_source(&self) -> Source {
        self.source
    }

    pub closed spec fn spec_instructions(&self) -> String {
        self.instructions
    }

    /// A skill with the given parts.
    pub fn new(metadata: Metadata, location: String, source: Source, instructions: String) -> (r:
        LocalSkill)
        ensures
            r.spec_metadata() == metadata,
            r.spec_location() == location,
            r.spec_source() == source,
            r.spec_instructions() == instructions,
    {
        LocalSkill { metadata, location, source, instructions }
    }

    /// The skill's frontmatter.
    pub fn metadata(&self) -> (r: &Metadata)
        ensures
            *r == self.spec_metadata(),
    {
        &self.metadata
    }

    /// The path of the skill's file.
    pub fn location(&self) -> (r: &String)
        ensures
            *r == self.spec_location(),
    {
        &self.location
    }

    /// Where the skill was found.
    pub fn source(&self) -> (r: Source)
        ensures
            r == self.spec_source(),
    {
        self.source
    }

    /// The skill's text after its frontmatter.
    pub fn instructions(&self) -> (r: &String)
        ensures
            *r == self.spec_instructions(),
    {
        &self.instructions
    }
}

/// A skill file split into its frontmatter and its body. The text is trimmed; it must
/// start with `---`; the frontmatter runs to the first `\n---` after that, and the body,
/// trimmed, follows those four characters.
pub open spec fn split_skill_spec(raw: Seq<char>) -> Option<(Seq<char>, Seq<char>)> {
    let t = trim(raw);
    if !seq_starts_with(t, "---"@) {
        None
    } else {
        let rest = t.skip(3);
        match first_occurrence(rest, "\n---"@) {
            Some(end) => Some((rest.take(end), trim(rest.skip(end + 4)))),
            None => None,
        }
    }
}

/// A skill file split into its frontmatter and its body (see `split_skill_spec`).
pub fn split_skill(raw: &str) -> (r: Option<(String, String)>)
    ensures
        match (r, split_skill_spec(raw@)) {
            (Some((f, b)), Some((x, y))) => f@ == x && b@ == y,
            (None, None) => true,
            _ => false,
        },
{
    let t = trimmed(&chars_of(raw));
    if !starts_with_str(&t, "---") {
        return None;
    }
    proof {
        reveal_strlit("---");
    }
    let rest = slice_chars(&t, 3, t.len());
    assert(rest@ =~= t@.skip(3));
    let sep = chars_of("\n---");
    match crate::text::find(&rest, &sep) {
        Some(end) => {
            proof {
                lemma_first_occurrence_from(rest@, sep@, 0);
                assert(occurs_at(rest@, sep@, end as int));
                reveal_strlit("\n---");
            }
            assert(rest.len() <= usize::MAX);
            let front = slice_chars(&rest, 0, end);
            let after = slice_chars(&rest, end + 4, rest.len());
            let body = trimmed(&after);
            assert(front@ =~= rest@.take(end as int));
            assert(after@ =~= rest@.skip(end + 4));
            Some((string_of(&front), string_of(&body)))
        },
        None => None,
    }
}

/// The skills found under the user's agents directory and under the project, each keyed
/// by its directory's name: a project skill replaces a global one of the same directory
/// name.
pub open spec fn merged_skills(global: Seq<(String, LocalSkill)>, project: Seq<(String, LocalSkill)>) -> Map<
    Seq<char>,
    LocalSkill,
> {
    pairs_map(global + project)
}

/// The skills in order of their names.
pub open spec fn skills_sorted(s: Seq<LocalSkill>) -> bool {
    forall|i: int, j: int|
        0 <= i < j < s.len() ==> lex_le(
            (#[trigger] s[i]).spec_metadata().name@,
            (#[trigger] s[j]).spec_metadata().name@,
        )
}

/// The skills of the merged map, one per directory name, in order of their names.
pub fn merge_skills(global: Vec<(String, LocalSkill)>, project: Vec<(String, LocalSkill)>) -> (r:
    Vec<LocalSkill>)
    ensures
        skills_sorted(r@),
        exists|e: Seq<(String, LocalSkill)>|
            keys_unique(e) && pairs_map(e) == merged_skills(global@, project@)
                && r@.to_multiset() == e.map_values(|p: (String, LocalSkill)| p.1).to_multiset(),
{
    let ghost all = global@ + project@;
    let mut map: StrMap<LocalSkill> = StrMap::new();
    let mut rest = global;
    let mut more = project;
    rest.append(&mut more);
    assert(rest@ == all);
    let mut i: usize = 0;
    assert(rest.len() <= usize::MAX);
    assert(all.take(0) =~= Seq::<(String, LocalSkill)>::empty());
    assert(pairs_map(all.take(0)) =~= Map::<Seq<char>, LocalSkill>::empty());
    while rest.len() > 0
        invariant
            i <= all.len(),
            all.len() <= usize::MAX,
            rest@ == all.skip(i as int),
            map@ == pairs_map(all.take(i as int)),
        decreases rest.len(),
    {
        let (k, s) = rest.remove(0);
        assert((k, s) == all[i as int]);
        map.insert(k, s);
        i = i + 1;
        assert(all.take(i as int).drop_last() =~= all.take(i - 1));
        assert(rest@ =~= all.skip(i as int));
    }
    assert(all.take(i as int) =~= all);
    let entries = map.into_entries();
    let ghost e0 = entries@;
    let mut keyed: Vec<(String, LocalSkill)> = Vec::new();
    let mut es = entries;
    let mut j: usize = 0;
    assert(es.len() <= usize::MAX);
    while es.len() > 0
        invariant
            j <= e0.len(),
            e0.len() <= usize::MAX,
            es@ == e0.skip(j as int),
            keyed@.len() == j,
            forall|q: int|
                0 <= q < j ==> (#[trigger] keyed@[q]).1 == e0[q].1 && keyed@[q].0@
                    == e0[q].1.spec_metadata().name@,
        decreases es.len(),
    {
        let (_, s) = es.remove(0);
        assert(s == e0[j as int].1);
        let name = s.metadata().name.clone();
        keyed.push((name, s));
        j = j + 1;
        assert(es@ =~= e0.skip(j as int));
    }
    let ghost k0 = keyed@;
    let sorted = sort_by_key(keyed);
    let mut out: Vec<LocalSkill> = Vec::new();
    let mut ss = sorted;
    let ghost s0 = ss@;
    let mut q: usize = 0;
    assert(ss.len() <= usize::MAX);
    while ss.len() > 0
        invariant
            q <= s0.len(),
            s0.len() <= usize::MAX,
            ss@ == s0.skip(q as int),
            out@ == s0.take(q as int).map_values(|p: (String, LocalSkill)| p.1),
        decreases ss.len(),
    {
        let (_, s) = ss.remove(0);
        assert(s == s0[q as int].1);
        let ghost before = out@;
        out.push(s);
        q = q + 1;
        assert(s0.take(q as int).map_values(|p: (String, LocalSkill)| p.1) =~= before.push(s));
        assert(ss@ =~= s0.skip(q as int));
    }
    proof {
        assert(s0.take(q as int) =~= s0);
        let f = |p: (String, LocalSkill)| p.1;
        assert forall|a: int, b: int| 0 <= a < b < out@.len() implies lex_le(
            (#[trigger] out@[a]).spec_metadata().name@,
            (#[trigger] out@[b]).spec_metadata().name@,
        ) by {
            assert(out@[a] == s0[a].1 && out@[b] == s0[b].1);
            assert(lex_le(s0[a].0@, s0[b].0@));
            lemma_key_is_name(k0, s0, a);
            lemma_key_is_name(k0, s0, b);
        }
        assert(k0.map_values(f) =~= e0.map_values(f));
        lemma_map_values_multiset(s0, k0, f);
        assert(out@ =~= s0.map_values(f));
    }
    out
}

proof fn lemma_key_is_name(k0: Seq<(String, LocalSkill)>, s0: Seq<(String, LocalSkill)>, a: int)
    requires
        0 <= a < s0.len(),
        s0.to_multiset() == k0.to_multiset(),
        forall|q: int| 0 <= q < k0.len() ==> (#[trigger] k0[q]).0@ == k0[q].1.spec_metadata().name@,
    ensures
        s0[a].0@ == s0[a].1.spec_metadata().name@,
{
    broadcast use vstd::seq_lib::to_multiset_contains;

    assert(s0.contains(s0[a]));
    assert(s0.to_multiset().contains(s0[a]));
    assert(k0.to_multiset().contains(s0[a]));
    assert(k0.contains(s0[a]));
    let q = choose|q: int| 0 <= q < k0.len() && k0[q] == s0[a];
    assert(k0[q].0@ == k0[q].1.spec_metadata().name@);
}

/// Applying `f` to two sequences with the same items gives sequences with the same items.
pub proof fn lemma_map_values_multiset<A, B>(a: Seq<A>, b: Seq<A>, f: spec_fn(A) -> B)
    requires
        a.to_multiset() == b.to_multiset(),
    ensures
        a.map_values(f).to_multiset() == b.map_values(f).to_multiset(),
    decreases a.len(),
{
    broadcast use {
        vstd::seq_lib::to_multiset_insert,
        vstd::seq_lib::to_multiset_remove,
        vstd::seq_lib::to_multiset_contains,
        vstd::seq_lib::to_multiset_len,
        vstd::multiset::group_multiset_axioms,
    };

    if a.len() == 0 {
        assert(b.to_multiset().len() == 0);
        assert(b.len() == 0);
        assert(a.map_values(f) =~= b.map_values(f));
    } else {
        let x = a[0];
        let t = a.drop_first();
        assert(a =~= t.insert(0, x));
        assert(a.to_multiset() == t.to_multiset().insert(x));
        assert(b.to_multiset().contains(x));
        assert(b.contains(x));
        let i = choose|i: int| 0 <= i < b.len() && b[i] == x;
        let u = b.remove(i);
        assert(u.to_multiset() == b.to_multiset().remove(x));
        assert(t.to_multiset() =~= u.to_multiset());
        lemma_map_values_multiset(t, u, f);
        assert(a.map_values(f) =~= t.map_values(f).insert(0, f(x)));
        assert(b =~= u.insert(i, x));
        assert(b.map_values(f) =~= u.map_values(f).insert(i, f(x)));
    }
}

// ── XML ─────────────────────────────────────────────────────────────

/// The entity `htmlescape::encode_minimal` writes for a character, or the character.
pub open spec fn minimal_entity(c: char) -> Seq<char> {
    if c == '"' {
        "&quot;"@
    } else if c == '&' {
        "&amp;"@
    } else if c == '\'' {
        "&#x27;"@
    } else if c == '<' {
        "&lt;"@
    } else if c == '>' {
        "&gt;"@
    } else {
        seq![c]
    }
}

/// `s` with `"`, `&`, `'`, `<` and `>` replaced by their entities.
pub open spec fn escape_minimal(s: Seq<char>) -> Seq<char>
    decreases s.len(),
{
    if s.len() == 0 {
        Seq::empty()
    } else {
        escape_minimal(s.drop_last()) + minimal_entity(s.last())
    }
}

/// Calls `htmlescape::encode_minimal`, which writes each character of `s` in turn, the
/// five characters `"`, `&`, `'`, `<`, `>` as the entities of its documentation.
#[verifier::external_body]
fn encode_minimal(s: &str) -> (r: String)
    ensures
        r@ == escape_minimal(s@),
{
    htmlescape::encode_minimal(s)
}

/// The environment block of the instructions: the project root, the platform, the shell
/// (`sh` when unknown) and the date, each escaped.
pub open spec fn env_xml_spec(root: Seq<char>, platform: Seq<char>, shell: Seq<char>, date: Seq<char>) -> Seq<char> {
    "<env>\n  <project_root>"@ + escape_minimal(root) + "</project_root>\n  <platform>"@
        + escape_minimal(platform) + "</platform>\n  <shell>"@ + escape_minimal(shell)
        + "</shell>\n  <date>"@ + escape_minimal(date) + "</date>\n</env>"@
}

/// The environment block of the instructions (see `env_xml_spec`).
pub fn build_env_xml(root: &str, platform: &str, shell: Option<&str>, date: &str) -> (r: String)
    ensures
        r@ == env_xml_spec(
            root@,
            platform@,
            match shell {
                Some(s) => s@,
                None => "sh"@,
            },
            date@,
        ),
{
    let sh = match shell {
        Some(s) => s,
        None => "sh",
    };
    let mut t: Vec<char> = Vec::new();
    push_str(&mut t, "<env>\n  <project_root>");
    push_str(&mut t, encode_minimal(root).as_str());
    push_str(&mut t, "</project_root>\n  <platform>");
    push_str(&mut t, encode_minimal(platform).as_str());
    push_str(&mut t, "</platform>\n  <shell>");
    push_str(&mut t, encode_minimal(sh).as_str());
    push_str(&mut t, "</shell>\n  <date>");
    push_str(&mut t, encode_minimal(date).as_str());
    push_str(&mut t, "</date>\n</env>");
    string_of(&t)
}

/// A skill the model may invoke.
pub open spec fn skill_visible(s: LocalSkill) -> bool {
    !(s.spec_metadata().disable_model_invocation == Some(true))
}

/// One skill's entry in the list of available skills.
pub open spec fn skill_entry(s: LocalSkill) -> Seq<char> {
    "  <skill>\n    <name>"@ + escape_minimal(s.spec_metadata().name@) + "</name>\n    <description>"@
        + escape_minimal(s.spec_metadata().description@) + "</description>\n    <location>"@
        + escape_minimal(s.spec_location()@) + "</location>\n  </skill>\n"@
}

/// The entries of the visible skills, in order.
pub open spec fn skill_entries(skills: Seq<LocalSkill>) -> Seq<char>
    decreases skills.len(),
{
    if skills.len() == 0 {
        Seq::empty()
    } else {
        skill_entries(skills.drop_last()) + if skill_visible(skills.last()) {
            skill_entry(skills.last())
        } else {
            Seq::empty()
        }
    }
}

/// Whether some skill is visible.
pub open spec fn any_visible(skills: Seq<LocalSkill>) -> bool {
    exists|i: int| 0 <= i < skills.len() && skill_visible(#[trigger] skills[i])
}

pub open spec fn skills_header() -> Seq<char> {
    "\n可用技能: 你可以通过 read 工具读取对应 SKILL.md 路径进行调阅\n\n<available_skills>\n"@
}

/// The list of the skills the model may invoke, or nothing when there is none.
pub open spec fn available_skills_spec(skills: Seq<LocalSkill>) -> Seq<char> {
    if any_visible(skills) {
        skills_header() + skill_entries(skills) + "</available_skills>"@
    } else {
        Seq::empty()
    }
}

/// The list of the skills the model may invoke (see `available_skills_spec`).
pub fn inject_available_skills(skills: &Vec<LocalSkill>) -> (r: String)
    ensures
        r@ == available_skills_spec(skills@),
{
    let mut entries: Vec<char> = Vec::new();
    let mut seen = false;
    let mut i: usize = 0;
    while i < skills.len()
        invariant
            i <= skills.len(),
            entries@ == skill_entries(skills@.take(i as int)),
            seen == any_visible(skills@.take(i as int)),
        decreases skills.len() - i,
    {
        let s = &skills[i];
        let ghost before = skills@.take(i as int);
        let hidden = match s.metadata().disable_model_invocation {
            Some(d) => d,
            None => false,
        };
        if !hidden {
            seen = true;
            push_str(&mut entries, "  <skill>\n    <name>");
            push_str(&mut entries, encode_minimal(s.metadata().name.as_str()).as_str());
            push_str(&mut entries, "</name>\n    <description>");
            push_str(&mut entries, encode_minimal(s.metadata().description.as_str()).as_str());
            push_str(&mut entries, "</description>\n    <location>");
            push_str(&mut entries, encode_minimal(s.location().as_str()).as_str());
            push_str(&mut entries, "</location>\n  </skill>\n");
        }
        i = i + 1;
        proof {
            let t = skills@.take(i as int);
            assert(t.drop_last() =~= before);
            assert(t.last() == skills@[i - 1]);
            if !hidden {
                assert(skill_visible(t[i - 1]));
            } else {
                assert forall|q: int| 0 <= q < t.len() && skill_visible(#[trigger] t[q]) implies any_visible(
                    before,
                ) by {
                    assert(q < i - 1);
                    assert(before[q] == t[q]);
                }
            }
            assert(any_visible(before) ==> any_visible(t)) by {
                if any_visible(before) {
                    let q = choose|q: int| 0 <= q < before.len() && skill_visible(#[trigger] before[q]);
                    assert(t[q] == before[q]);
                }
            }
        }
    }
    assert(skills@.take(skills.len() as int) =~= skills@);
    if !seen {
        return String::new();
    }
    let mut t: Vec<char> = Vec::new();
    push_str(&mut t, "\n可用技能: 你可以通过 read 工具读取对应 SKILL.md 路径进行调阅\n\n<available_skills>\n");
    push_all(&mut t, &entries);
    push_str(&mut t, "</available_skills>");
    string_of(&t)
}

// ── profiles ────────────────────────────────────────────────────────

/// A profile's configuration file.
#[derive(Debug)]
pub struct ProfileConfig {
    pub description: Option<String>,
    /// Tools switched on or off by name; a tool not named is on.
    pub tools: StrMap<bool>,
    pub instruction: String,
    pub default_model_profile: ModelProfile,
}

/// A profile read from the configuration directory.
#[derive(Debug)]
pub struct LocalAgentProfile {
    pub name: String,
    pub dirs: Dirs,
    pub cfg: ProfileConfig,
}

/// The instructions a profile gives the model: its own instruction and the project's
/// `AGENTS.md` where they are not empty, the environment block, and the list of
/// available skills where there is one, separated by blank lines.
pub open spec fn instruction_parts(
    instruction: Seq<char>,
    agents_md: Option<Seq<char>>,
    env_xml: Seq<char>,
    skills_xml: Seq<char>,
) -> Seq<Seq<char>> {
    (if instruction.len() > 0 {
        seq![instruction]
    } else {
        Seq::empty()
    }) + (match agents_md {
        Some(a) => if a.len() > 0 {
            seq![a]
        } else {
            Seq::empty()
        },
        None => Seq::empty(),
    }) + seq![env_xml] + (if skills_xml.len() > 0 {
        seq![skills_xml]
    } else {
        Seq::empty()
    })
}

fn push_part(parts: &mut Vec<String>, part: String)
    ensures
        crate::text::strings_model(final(parts)@) == crate::text::strings_model(old(parts)@).push(part@),
{
    let ghost before = parts@;
    parts.push(part);
    assert(crate::text::strings_model(parts@) =~= crate::text::strings_model(before).push(part@));
}

impl LocalAgentProfile {
    /// A profile of the given name and configuration.
    pub fn new(name: String, cfg: ProfileConfig, dirs: Dirs) -> (r: LocalAgentProfile)
        ensures
            r.name == name,
            r.cfg == cfg,
            r.dirs == dirs,
    {
        LocalAgentProfile { name, dirs, cfg }
    }

    /// A profile read from its directory: the instructions file, where it is not empty,
    /// replaces the instruction of the configuration file.
    pub fn from_files(name: String, cfg: ProfileConfig, instructions_md: String, dirs: Dirs) -> (r:
        LocalAgentProfile)
        ensures
            r.name == name,
            r.dirs == dirs,
            r.cfg.description == cfg.description,
            r.cfg.tools == cfg.tools,
            r.cfg.default_model_profile == cfg.default_model_profile,
            r.cfg.instruction == if instructions_md@.len() > 0 {
                instructions_md
            } else {
                cfg.instruction
            },
    {
        let mut cfg = cfg;
        if !instructions_md.as_str().is_empty() {
            cfg.instruction = instructions_md;
        }
        LocalAgentProfile { name, dirs, cfg }
    }

    /// The profile's name.
    pub fn name(&self) -> (r: &str)
        ensures
            r@ == self.name@,
    {
        self.name.as_str()
    }

    /// The directory the agent works in.
    pub fn working_dir(&self) -> (r: &String)
        ensures
            *r == self.dirs.working_dir,
    {
        &self.dirs.working_dir
    }

    /// The profile's description.
    pub fn description(&self) -> (r: Option<&str>)
        ensures
            match (r, self.cfg.description) {
                (Some(a), Some(b)) => a@ == b@,
                (None, None) => true,
                _ => false,
            },
    {
        match &self.cfg.description {
            Some(d) => Some(d.as_str()),
            None => None,
        }
    }

    /// The model the profile uses.
    pub fn model_profile(&self) -> (r: &ModelProfile)
        ensures
            *r == self.cfg.default_model_profile,
    {
        &self.cfg.default_model_profile
    }

    /// Whether the tool is on: as the configuration says, on where it says nothing.
    pub fn tool_enabled(&self, name: &str) -> (r: bool)
        ensures
            r == if self.cfg.tools@.contains_key(name@) {
                self.cfg.tools@[name@]
            } else {
                true
            },
    {
        match self.cfg.tools.get(name) {
            Some(b) => *b,
            None => true,
        }
    }

    /// The profile with its model profile replaced by what `reducer` makes of it; the
    /// rest is kept.
    pub fn with_model_profile<F: Fn(&ModelProfile) -> ModelProfile>(&self, reducer: F) -> (r:
        LocalAgentProfile)
        requires
            reducer.requires((&self.cfg.default_model_profile,)),
        ensures
            reducer.ensures((&self.cfg.default_model_profile,), r.cfg.default_model_profile),
            r.name == self.name,
            r.dirs == self.dirs,
            r.cfg.description == self.cfg.description,
            r.cfg.tools@ == self.cfg.tools@,
            r.cfg.instruction == self.cfg.instruction,
    {
        let mp = reducer(&self.cfg.default_model_profile);
        let description = match &self.cfg.description {
            Some(d) => Some(d.clone()),
            None => None,
        };
        let cfg = ProfileConfig {
            description,
            tools: self.cfg.tools.duplicate(),
            instruction: self.cfg.instruction.clone(),
            default_model_profile: mp,
        };
        LocalAgentProfile { name: self.name.clone(), dirs: self.dirs.duplicate(), cfg }
    }

    /// The instructions the profile gives the model (see `instruction_parts`), given the
    /// project's `AGENTS.md` where it could be read, the environment block and the skills.
    pub fn instructions(&self, agents_md: Option<String>, env_xml: String, skills: &Vec<LocalSkill>) -> (r:
        String)
        ensures
            r@ == join_spec(
                instruction_parts(
                    self.cfg.instruction@,
                    match agents_md {
                        Some(a) => Some(a@),
                        None => None,
                    },
                    env_xml@,
                    available_skills_spec(skills@),
                ),
                "\n\n"@,
            ),
    {
        let mut parts: Vec<String> = Vec::new();
        let ghost e = Seq::<Seq<char>>::empty();
        assert(crate::text::strings_model(parts@) =~= e);
        if !self.cfg.instruction.as_str().is_empty() {
            push_part(&mut parts, self.cfg.instruction.clone());
        }
        let ghost am = match &agents_md {
            Some(a) => Some(a@),
            None => None::<Seq<char>>,
        };
        match agents_md {
            Some(a) => {
                if !a.as_str().is_empty() {
                    push_part(&mut parts, a);
                }
            },
            None => {},
        }
        push_part(&mut parts, env_xml);
        let sk = inject_available_skills(skills);
        let ghost skm = sk@;
        if !sk.as_str().is_empty() {
            push_part(&mut parts, sk);
        }
        assert(crate::text::strings_model(parts@) =~= instruction_parts(
            self.cfg.instruction@,
            am,
            env_xml@,
            skm,
        ));
        let j = crate::text::join_strings(&parts, "\n\n");
        string_of(&j)
    }
}

impl Dirs {
    /// A copy of the directories.
    pub fn duplicate(&self) -> (r: Dirs)
        ensures
            r == *self,
    {
        Dirs {
            working_dir: self.working_dir.clone(),
            config_data_dir: self.config_data_dir.clone(),
            agents_dir: self.agents_dir.clone(),
        }
    }
}

/// Finds the profiles under `<config data dir>/profiles`.
#[derive(Clone, Copy, Debug)]
pub struct LocalAgentProfileLoader;

impl LocalAgentProfileLoader {
    /// The order the profile directories are read in: by name.
    pub fn directory_order(names: Vec<String>) -> (r: Vec<String>)
        ensures
            r@.len() == names@.len(),
            forall|i: int, j: int| 0 <= i < j < r@.len() ==> lex_le(#[trigger] r@[i]@, #[trigger] r@[j]@),
            r@.to_multiset() == names@.to_multiset(),
    {
        let ghost orig = names@;
        let mut keyed: Vec<(String, ())> = Vec::new();
        let mut rest = names;
        let mut i: usize = 0;
        assert(rest.len() <= usize::MAX);
        while rest.len() > 0
            invariant
                i <= orig.len(),
                orig.len() <= usize::MAX,
                rest@ == orig.skip(i as int),
                keyed@ == orig.take(i as int).map_values(|n: String| (n, ())),
            decreases rest.len(),
        {
            let n = rest.remove(0);
            let ghost before = keyed@;
            keyed.push((n, ()));
            i = i + 1;
            assert(orig.take(i as int).map_values(|n: String| (n, ())) =~= before.push((n, ())));
            assert(rest@ =~= orig.skip(i as int));
        }
        assert(orig.take(i as int) =~= orig);
        let ghost k0 = keyed@;
        let sorted = sort_by_key(keyed);
        let ghost s0 = sorted@;
        let mut out: Vec<String> = Vec::new();
        let mut ss = sorted;
        let mut q: usize = 0;
        assert(ss.len() <= usize::MAX);
        while ss.len() > 0
            invariant
                q <= s0.len(),
                s0.len() <= usize::MAX,
                ss@ == s0.skip(q as int),
                out@ == s0.take(q as int).map_values(|p: (String, ())| p.0),
            decreases ss.len(),
        {
            let (n, _) = ss.remove(0);
            let ghost before = out@;
            out.push(n);
            q = q + 1;
            assert(s0.take(q as int).map_values(|p: (String, ())| p.0) =~= before.push(n));
            assert(ss@ =~= s0.skip(q as int));
        }
        proof {
            assert(s0.take(q as int) =~= s0);
            let f = |p: (String, ())| p.0;
            lemma_map_values_multiset(s0, k0, f);
            assert(k0.map_values(f) =~= orig);
            assert(out@ =~= s0.map_values(f));
            assert forall|a: int, b: int| 0 <= a < b < out@.len() implies lex_le(
                #[trigger] out@[a]@,
                #[trigger] out@[b]@,
            ) by {
                assert(out@[a] == s0[a].0 && out@[b] == s0[b].0);
            }
        }
        out
    }
}

/// A project skill replaces a global skill of the same directory name; a global skill
/// no project skill shares a name with is kept.
pub proof fn law_project_skill_overrides(
    global: Seq<(String, LocalSkill)>,
    project: Seq<(String, LocalSkill)>,
    j: int,
)
    requires
        keys_unique(global),
        keys_unique(project),
        0 <= j < project.len(),
    ensures
        merged_skills(global, project).contains_key(project[j].0@),
        merged_skills(global, project)[project[j].0@] == project[j].1,
    decreases project.len(),
{
    lemma_pairs_map_append(global, project, project[j].0@);
    lemma_pairs_map(project);
}

/// A global skill whose directory name no project skill has is kept.
pub proof fn law_global_skill_kept(
    global: Seq<(String, LocalSkill)>,
    project: Seq<(String, LocalSkill)>,
    i: int,
)
    requires
        keys_unique(global),
        0 <= i < global.len(),
        forall|j: int| 0 <= j < project.len() ==> (#[trigger] project[j]).0@ != global[i].0@,
    ensures
        merged_skills(global, project).contains_key(global[i].0@),
        merged_skills(global, project)[global[i].0@] == global[i].1,
{
    lemma_pairs_map_append(global, project, global[i].0@);
    lemma_pairs_map(global);
    if pairs_map(project).contains_key(global[i].0@) {
        lemma_pairs_map_keys(project, global[i].0@);
    }
}

/// The map of two lists joined: the second list's value where it has the key, else the
/// first's.
proof fn lemma_pairs_map_append<V>(a: Seq<(String, V)>, b: Seq<(String, V)>, k: Seq<char>)
    ensures
        pairs_map(a + b).contains_key(k) == (pairs_map(a).contains_key(k) || pairs_map(b).contains_key(k)),
        pairs_map(a + b).contains_key(k) ==> pairs_map(a + b)[k] == if pairs_map(b).contains_key(k) {
            pairs_map(b)[k]
        } else {
            pairs_map(a)[k]
        },
    decreases b.len(),
{
    if b.len() == 0 {
        assert(a + b =~= a);
    } else {
        assert((a + b).drop_last() =~= a + b.drop_last());
        assert((a + b).last() == b.last());
        lemma_pairs_map_append(a, b.drop_last(), k);
    }
}

/// A key of a list's map is a key of one of its pairs.
proof fn lemma_pairs_map_keys<V>(s: Seq<(String, V)>, k: Seq<char>)
    requires
        pairs_map(s).contains_key(k),
    ensures
        exists|j: int| 0 <= j < s.len() && (#[trigger] s[j]).0@ == k,
    decreases s.len(),
{
    if s.last().0@ == k {
        assert(s[s.len() - 1].0@ == k);
    } else {
        lemma_pairs_map_keys(s.drop_last(), k);
        let j = choose|j: int| 0 <= j < s.drop_last().len() && (#[trigger] s.drop_last()[j]).0@ == k;
        assert(s[j] == s.drop_last()[j]);
    }
}

} // verus!
