use playpen::config::Dirs;
use playpen::model::ModelProfile;
use playpen::profile::{
    build_env_xml, inject_available_skills, merge_skills, split_skill, LocalAgentProfile,
    LocalAgentProfileLoader, LocalSkill, Metadata, ProfileConfig, Source,
};
use playpen::strmap::StrMap;

/// A skill file's frontmatter (as YAML) and body, where both name and description are
/// given.
fn parse(raw: &str) -> Option<(serde_yaml::Value, String)> {
    let (front, body) = split_skill(raw)?;
    let v: serde_yaml::Value = serde_yaml::from_str(&front).ok()?;
    v.get("name")?.as_str()?;
    v.get("description")?.as_str()?;
    Some((v, body))
}

fn field<'a>(v: &'a serde_yaml::Value, k: &str) -> Option<&'a serde_yaml::Value> {
    v.get(k)
}

#[test]
fn parse_valid_frontmatter() {
    let raw = r#"---
name: my-skill
description: A test skill
---

# Instructions

do something
"#;
    let (meta, body) = parse(raw).unwrap();
    assert_eq!(field(&meta, "name").unwrap().as_str(), Some("my-skill"));
    assert_eq!(field(&meta, "description").unwrap().as_str(), Some("A test skill"));
    assert!(field(&meta, "disable-model-invocation").is_none());
    assert_eq!(body, "# Instructions\n\ndo something");
}

#[test]
fn parse_missing_frontmatter_returns_none() {
    let raw = "no frontmatter here";
    assert!(parse(raw).is_none());
    assert!(split_skill(raw).is_none());
}

#[test]
fn parse_invalid_yaml_returns_none() {
    let raw = "---\nname: [invalid\n---\n\nbody";
    assert!(parse(raw).is_none());
}

#[test]
fn parse_frontmatter_with_disabled_invocation() {
    let raw = r#"---
name: read-only
description: Read only skill
disable-model-invocation: true
---

content
"#;
    let (meta, body) = parse(raw).unwrap();
    assert_eq!(field(&meta, "name").unwrap().as_str(), Some("read-only"));
    assert_eq!(field(&meta, "disable-model-invocation").unwrap().as_bool(), Some(true));
    assert_eq!(body, "content");
}

#[test]
fn parse_empty_body() {
    let raw = r#"---
name: empty
description: Empty body
---
"#;
    let (meta, body) = parse(raw).unwrap();
    assert_eq!(field(&meta, "name").unwrap().as_str(), Some("empty"));
    assert_eq!(body, "");
}

#[test]
fn parse_frontmatter_with_license_and_metadata() {
    let raw = r#"---
name: licensed-skill
description: A skill with license
license: MIT
metadata:
  key: value
  count: 42
---

body
"#;
    let (meta, body) = parse(raw).unwrap();
    assert_eq!(field(&meta, "name").unwrap().as_str(), Some("licensed-skill"));
    assert_eq!(field(&meta, "license").unwrap().as_str(), Some("MIT"));
    let m = field(&meta, "metadata").unwrap();
    assert_eq!(m.get("key").unwrap().as_str(), Some("value"));
    assert_eq!(m.get("count").unwrap().as_u64(), Some(42));
    assert_eq!(body, "body");
}

fn meta(name: &str, description: &str, disabled: Option<bool>) -> Metadata {
    Metadata {
        name: name.into(),
        description: description.into(),
        license: None,
        metadata: None,
        disable_model_invocation: disabled,
    }
}

#[test]
fn local_skill_new_and_accessors() {
    let skill = LocalSkill::new(
        meta("test", "Test skill", None),
        "/tmp/skills/test/SKILL.md".into(),
        Source::Global,
        "instructions here".into(),
    );

    assert_eq!(skill.metadata().name, "test");
    assert_eq!(skill.metadata().description, "Test skill");
    assert_eq!(skill.location(), "/tmp/skills/test/SKILL.md");
    assert_eq!(skill.source(), Source::Global);
    assert_eq!(skill.instructions(), "instructions here");
}

fn skill(name: &str, dir: &str, source: Source, body: &str) -> (String, LocalSkill) {
    (
        dir.to_string(),
        LocalSkill::new(
            meta(name, &format!("{name} skill"), None),
            format!("/skills/{dir}/SKILL.md"),
            source,
            body.to_string(),
        ),
    )
}

#[test]
fn available_skills_project_overrides_global() {
    let global = vec![skill("shared", "shared", Source::Global, "global content")];
    let project = vec![skill("shared", "shared", Source::Project, "project content")];
    let skills = merge_skills(global, project);
    assert_eq!(skills.len(), 1, "同名 skill 应合并为一条");
    assert_eq!(skills[0].source(), Source::Project);
    assert_eq!(skills[0].instructions(), "project content");
}

#[test]
fn available_skills_sorted_by_name() {
    let global = vec![
        skill("zeta", "z", Source::Global, ""),
        skill("alpha", "a", Source::Global, ""),
    ];
    let project = vec![skill("mid", "m", Source::Project, "")];
    let skills = merge_skills(global, project);
    let names: Vec<&str> = skills.iter().map(|s| s.metadata().name.as_str()).collect();
    assert_eq!(names, vec!["alpha", "mid", "zeta"]);
}

#[test]
fn available_skills_list_hides_disabled() {
    let visible = LocalSkill::new(meta("a<b", "x & y", None), "/s/a".into(), Source::Global, String::new());
    let hidden = LocalSkill::new(meta("h", "hidden", Some(true)), "/s/h".into(), Source::Global, String::new());
    let xml = inject_available_skills(&vec![visible, hidden]);
    assert!(xml.starts_with("\n可用技能: 你可以通过 read 工具读取对应 SKILL.md 路径进行调阅\n\n<available_skills>\n"));
    assert!(xml.contains("<name>a&lt;b</name>"));
    assert!(xml.contains("<description>x &amp; y</description>"));
    assert!(!xml.contains("hidden"));
    assert!(xml.ends_with("</available_skills>"));

    let only_hidden =
        LocalSkill::new(meta("h", "hidden", Some(true)), "/s/h".into(), Source::Global, String::new());
    assert_eq!(inject_available_skills(&vec![only_hidden]), "");
    assert_eq!(inject_available_skills(&vec![]), "");
}

#[test]
fn env_xml_escapes_and_defaults_shell() {
    let xml = build_env_xml("/work/<p>", "linux", None, "2024-01-02");
    assert_eq!(
        xml,
        "<env>\n  <project_root>/work/&lt;p&gt;</project_root>\n  <platform>linux</platform>\n  <shell>sh</shell>\n  <date>2024-01-02</date>\n</env>"
    );
}

fn dirs() -> Dirs {
    Dirs {
        working_dir: "/root".into(),
        config_data_dir: "/root/.config/playpen".into(),
        agents_dir: "/root/.global-agents".into(),
    }
}

fn config(description: Option<&str>, instruction: &str, model: &str) -> ProfileConfig {
    ProfileConfig {
        description: description.map(|d| d.to_string()),
        tools: StrMap::new(),
        instruction: instruction.into(),
        default_model_profile: ModelProfile { model: model.into(), ..Default::default() },
    }
}

#[test]
fn with_model_profile_reduces_model() {
    let profile = LocalAgentProfile::new("test".into(), config(Some("original"), "hello", "deepseek/chat"), dirs());

    let new_profile = profile.with_model_profile(|mp: &ModelProfile| ModelProfile {
        model: "openai/gpt-4".into(),
        ..mp.clone()
    });

    assert_eq!(new_profile.name(), "test");
    assert_eq!(new_profile.description(), Some("original"));
    assert_eq!(new_profile.model_profile().model, "openai/gpt-4");
    assert_eq!(profile.model_profile().model, "deepseek/chat");
}

#[test]
fn tool_enabled_defaults() {
    let profile = LocalAgentProfile::new("test".into(), config(None, "", ""), dirs());
    assert!(profile.tool_enabled("anything"));
}

#[test]
fn agent_profiles_tool_config() {
    let mut cfg = config(None, "", "deepseek/chat");
    cfg.tools.insert("bash".into(), false);
    cfg.tools.insert("read".into(), true);
    let p = LocalAgentProfile::new("tools".into(), cfg, dirs());
    assert!(!p.tool_enabled("bash"));
    assert!(p.tool_enabled("read"));
    assert!(p.tool_enabled("unknown"));
}

#[test]
fn agent_profiles_instructions_md_overrides_toml() {
    let p = LocalAgentProfile::from_files(
        "custom".into(),
        config(None, "toml instruction", ""),
        "md instruction".into(),
        dirs(),
    );
    let instr = p.instructions(None, "<env/>".into(), &vec![]);
    assert!(instr.starts_with("md instruction"), "预期以 instructions.md 内容开头，实际: {instr}");
    let q = LocalAgentProfile::from_files("custom".into(), config(None, "toml instruction", ""), String::new(), dirs());
    assert_eq!(q.instructions(None, "<env/>".into(), &vec![]), "toml instruction\n\n<env/>");
}

#[test]
fn instructions_join_parts_with_blank_lines() {
    let p = LocalAgentProfile::new("p".into(), config(None, "", ""), dirs());
    assert_eq!(p.instructions(Some(String::new()), "E".into(), &vec![]), "E");
    assert_eq!(p.instructions(Some("agents".into()), "E".into(), &vec![]), "agents\n\nE");
}

#[test]
fn agent_profiles_sorted_by_name() {
    let order = LocalAgentProfileLoader::directory_order(vec!["zed".into(), "alice".into(), "bob".into()]);
    assert_eq!(order, vec!["alice".to_string(), "bob".to_string(), "zed".to_string()]);
}
