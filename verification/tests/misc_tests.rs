use g3_verify::decode::{DecodeError, Field};
use g3_verify::plan::{Plan, PlanItem, PlanItemState};
use g3_verify::prompt::check_and_exit_plan_mode_if_terminal;
use g3_verify::research::ReportError;
use g3_verify::skills::{discover_skills, validate_name, Skill, SkillFault};
use g3_verify::terminal::colorize_str_replace_summary;
use g3_verify::toolsets::{get_all_toolsets, get_toolset, ToolConfig};
use g3_verify::xml::escape_xml;

#[test]
fn summaries_of_replacements_get_their_colours() {
    assert_eq!(
        colorize_str_replace_summary("+5 | -3"),
        "\x1b[32m+5\x1b[0m \x1b[2m|\x1b[0m \x1b[31m-3\x1b[0m"
    );
    assert_eq!(colorize_str_replace_summary("+5"), "\x1b[32m+5\x1b[0m");
    assert_eq!(colorize_str_replace_summary("-3"), "\x1b[31m-3\x1b[0m");
    assert_eq!(colorize_str_replace_summary("no change"), "no change");
    assert_eq!(colorize_str_replace_summary(""), "");
    assert_eq!(colorize_str_replace_summary("+1 | -2 | ?"), "+1 | -2 | ?");
    assert_eq!(colorize_str_replace_summary(" | "), "\x1b[32m\x1b[0m \x1b[2m|\x1b[0m \x1b[31m\x1b[0m");
}

#[test]
fn plan_mode_ends_with_the_plan() {
    let mut plan = Plan::new("p");
    plan.write(vec![PlanItem::new("a", "do it")]).unwrap();
    let mut in_plan_mode = true;
    assert!(!check_and_exit_plan_mode_if_terminal(&mut in_plan_mode, &plan));
    assert!(in_plan_mode);
    plan.write(vec![PlanItem::new("a", "do it").with_state(PlanItemState::Blocked)]).unwrap();
    assert!(check_and_exit_plan_mode_if_terminal(&mut in_plan_mode, &plan));
    assert!(!in_plan_mode);
    assert!(!check_and_exit_plan_mode_if_terminal(&mut in_plan_mode, &plan));
    assert!(!in_plan_mode);
    assert_eq!(plan.items[0].description, "do it");
    assert_eq!(PlanItemState::Doing.to_string(), "doing");
}

#[test]
fn faults_of_documents_are_told_in_words() {
    assert_eq!(DecodeError::Syntax.to_string(), "invalid YAML");
    assert_eq!(DecodeError::Missing(Field::ClaimName).to_string(), "missing field `name`");
    assert_eq!(DecodeError::WrongType(Field::FactKey).to_string(), "invalid type for `key of facts`");
    assert_eq!(DecodeError::UnknownRule("is".to_string()).to_string(), "unknown rule `is`");
    assert_eq!(DecodeError::UnknownSource("web".to_string()).to_string(), "unknown source `web`");
    assert_eq!(
        ReportError::EndBeforeStart.to_string(),
        "Invalid report format: end marker before start marker"
    );
}

#[test]
fn names_of_skills_are_checked_in_order() {
    assert_eq!(validate_name(""), Some(SkillFault::EmptyName));
    assert_eq!(validate_name(&"a".repeat(65)), Some(SkillFault::NameTooLong(65)));
    assert_eq!(validate_name(&"a".repeat(64)), None);
    assert_eq!(validate_name("ab_c"), Some(SkillFault::InvalidNameChar('_')));
    assert_eq!(validate_name("-a-B"), Some(SkillFault::InvalidNameChar('B')));
    assert_eq!(validate_name("-a"), Some(SkillFault::HyphenAtEdge));
    assert_eq!(validate_name("a-"), Some(SkillFault::HyphenAtEdge));
    assert_eq!(validate_name("a--b-"), Some(SkillFault::HyphenAtEdge));
    assert_eq!(validate_name("a--b"), Some(SkillFault::ConsecutiveHyphens));
    assert_eq!(validate_name("a-1-b"), None);
    assert_eq!(validate_name("é"), Some(SkillFault::InvalidNameChar('é')));
}

fn skill(name: &str, description: &str) -> Skill {
    Skill::parse(&format!("---\nname: {}\ndescription: {}\n---\nbody", name, description), "p").unwrap()
}

#[test]
fn later_skills_take_the_place_of_earlier_ones_of_their_name() {
    let found = vec![
        skill("zeta", "first"),
        skill("alpha", "global"),
        skill("mid", "only"),
        skill("alpha", "workspace"),
        skill("zeta", "second"),
    ];
    let merged = discover_skills(found);
    let seen: Vec<(&str, &str)> =
        merged.iter().map(|s| (s.name.as_str(), s.description.as_str())).collect();
    assert_eq!(seen, vec![("alpha", "workspace"), ("mid", "only"), ("zeta", "second")]);
    assert!(discover_skills(Vec::new()).is_empty());
}

#[test]
fn skill_files_that_state_too_much_or_the_wrong_kind_are_turned_down() {
    let fault = |content: &str| Skill::parse(content, "/s/SKILL.md").unwrap_err().fault;
    assert_eq!(fault("---\nname: [a]\ndescription: d\n---\n"), SkillFault::InvalidYaml);
    assert_eq!(fault("---\n- a\n---\n"), SkillFault::InvalidYaml);
    assert_eq!(fault("---\nname: a\ndescription: d\nmetadata: {k: 1}\n---\n"), SkillFault::InvalidYaml);
    assert_eq!(fault("---\nname: a: b: c\n---\n"), SkillFault::InvalidYaml);
    assert_eq!(fault("---\nname: a\ndescription: \"\"\n---\n"), SkillFault::EmptyDescription);
    assert_eq!(
        fault(&format!("---\nname: a\ndescription: d\ncompatibility: {}\n---\n", "c".repeat(501))),
        SkillFault::CompatibilityTooLong(501)
    );
    assert_eq!(fault("  \n--\n"), SkillFault::MissingFrontmatter);
    let parsed = Skill::parse("\n\n---\nname: a\ndescription: d\nlicense: null\n---trailing\n\n  body  ", "x").unwrap();
    assert_eq!(parsed.body, "trailing\n\n  body  ");
    assert_eq!(parsed.license, None);
    assert_eq!(parsed.path, "x");
    assert_eq!(
        Skill::parse("x", "/s/SKILL.md").unwrap_err().to_string(),
        "SKILL.md must start with YAML frontmatter (---)"
    );
    assert_eq!(
        Skill::parse("---\nname: A\ndescription: d\n---\n", "/s/SKILL.md").unwrap_err().to_string(),
        "Skill name contains invalid character 'A' in /s/SKILL.md (must be lowercase alphanumeric or hyphen)"
    );
}

#[test]
fn toolsets_are_found_by_name() {
    assert_eq!(get_all_toolsets().len(), 2);
    assert_eq!(get_toolset(" research\n").unwrap().name, "research");
    assert_eq!(
        get_toolset("x").unwrap_err(),
        "Unknown toolset 'x'. Available toolsets: webdriver, research"
    );
    assert_eq!(
        get_toolset("  ").unwrap_err(),
        "Toolset name cannot be empty. Available toolsets: webdriver, research"
    );
    assert!(ToolConfig::new(true).computer_control);
    assert_eq!(escape_xml("a<b>&\"c\"'d'"), "a&lt;b&gt;&amp;&quot;c&quot;&apos;d&apos;");
}

#[test]
fn every_stage_is_defined_with_its_texts() {
    let stages = g3_verify::pipeline::pipeline_stages();
    let expected = [
        ("euler", "Dependency Analysis", "dependency graph and hotspots"),
        ("breaker", "Edge Case Discovery", "whitebox exploration and failure cases"),
        ("hopper", "Testing & Verification", "deep testing and regression integrity"),
        ("fowler", "Refactoring", "deduplication and complexity reduction"),
        ("carmack", "Code Polish", "readability, modularity and concision"),
        ("lamport", "Documentation", "human-readable docs and validation"),
        ("huffman", "Memory Compression", "semantic compression to preserve signal"),
    ];
    assert_eq!(stages.len(), expected.len());
    for (stage, (name, description, focus)) in stages.iter().zip(expected.iter()) {
        assert_eq!(stage.name, *name);
        assert_eq!(stage.description, *description);
        assert_eq!(stage.focus, *focus);
        let found = g3_verify::pipeline::get_stage(name).unwrap();
        assert_eq!(found.description, *description);
        assert_eq!(found.focus, *focus);
    }
}
