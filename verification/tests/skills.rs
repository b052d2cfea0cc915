//! Skills that are found and loaded.

use a_rust_vm::ordered::OrderedMap;
use a_rust_vm::session_commands::{
    SkillCommand, list_skills, load_requested_skills, parse_skill_command, show_skill,
    system_prompt_with_skills,
};
use a_rust_vm::skills::{
    SkillRoot, SkillSource, discover_skills, load_skill, parse_skill_markdown,
};

const VALID: &str =
    "---\nname: review\ndescription: Review changes\n---\n\nCheck diffs carefully.\n";

fn root(path: &str, skills: Vec<(&str, &str)>) -> SkillRoot {
    let mut found = OrderedMap::new();
    for (name, content) in skills {
        found.insert(
            name.to_owned(),
            SkillSource {
                size: Ok(content.len() as u64),
                text: Ok(content.to_owned()),
            },
        );
    }
    SkillRoot {
        path: path.to_owned(),
        skills: found,
    }
}

#[test]
fn parses_valid_skill_markdown() {
    let (name, description, instructions) = parse_skill_markdown(VALID).unwrap();
    assert_eq!(name, "review");
    assert_eq!(description, "Review changes");
    assert!(instructions.contains("Check diffs"));
}

#[test]
fn rejects_malformed_skill_markdown() {
    assert!(parse_skill_markdown("no frontmatter").is_err());
    assert!(parse_skill_markdown("---\nname: review\n---\nbody").is_err());
    assert!(parse_skill_markdown("---\nname: review\ndescription: x\n---\n").is_err());
    assert!(parse_skill_markdown("---\nname: bad name!\ndescription: x\n---\nbody").is_err());
}

#[test]
fn discovery_is_sorted_and_load_fails_closed() {
    let b = VALID.replace("review", "b-skill");
    let a = VALID.replace("review", "a-skill");
    let roots = vec![root("/skills", vec![("b-skill", &b), ("a-skill", &a)])];

    let discovered = discover_skills(&roots).unwrap();
    assert_eq!(discovered.len(), 2);
    assert_eq!(discovered[0].name, "a-skill");
    assert_eq!(discovered[1].name, "b-skill");
    assert!(load_skill(&roots, "missing").is_err());
    assert!(load_skill(&roots, "bad name!").is_err());
    for summary in &discovered {
        let skill = load_skill(&roots, &summary.name).unwrap();
        assert_eq!(skill.description, summary.description);
        assert_eq!(skill.directory, summary.directory);
    }
}

#[test]
fn rejects_name_mismatched_directory() {
    let roots = vec![root("/skills", vec![("somesill", VALID)])];
    assert!(load_skill(&roots, "somesill").is_err());
}

#[test]
fn earlier_roots_win_on_duplicates() {
    let roots = vec![
        root(
            "/first",
            vec![("dup", "---\nname: dup\ndescription: first\n---\nfirst body\n")],
        ),
        root(
            "/second",
            vec![("dup", "---\nname: dup\ndescription: second\n---\nsecond body\n")],
        ),
    ];

    let discovered = discover_skills(&roots).unwrap();
    assert_eq!(discovered.len(), 1);
    assert_eq!(discovered[0].description, "first");
    assert_eq!(load_skill(&roots, "dup").unwrap().description, "first");
}

#[test]
fn large_and_unreadable_skills_are_refused() {
    let mut skills = OrderedMap::new();
    skills.insert(
        "large".to_owned(),
        SkillSource {
            size: Ok(64 * 1024 + 1),
            text: Ok(VALID.to_owned()),
        },
    );
    skills.insert(
        "locked".to_owned(),
        SkillSource {
            size: Ok(10),
            text: Err("denied".to_owned()),
        },
    );
    let roots = vec![SkillRoot {
        path: "/skills".to_owned(),
        skills,
    }];
    assert!(load_skill(&roots, "large").is_err());
    assert!(
        load_skill(&roots, "locked")
            .unwrap_err()
            .to_text()
            .contains("denied")
    );
}

#[test]
fn skill_commands_show_and_load() {
    let roots = vec![root("/skills", vec![("review", VALID)])];
    assert_eq!(
        list_skills(discover_skills(&roots)).lines,
        vec!["review\tReview changes"]
    );
    assert_eq!(list_skills(Ok(Vec::new())).lines, vec!["(no skills)"]);
    assert_eq!(
        show_skill(load_skill(&roots, "review"), false).lines,
        vec!["review\tReview changes"]
    );
    assert!(show_skill(load_skill(&roots, "review"), true).lines[0].contains("Check diffs"));
    assert_eq!(show_skill(load_skill(&roots, "missing"), true).exit_code, 1);
    let words = |all: &[&str]| all.iter().map(|word| word.to_string()).collect::<Vec<_>>();
    assert_eq!(parse_skill_command(&words(&["list"])), SkillCommand::List);
    assert_eq!(
        parse_skill_command(&words(&["load", "review"])),
        SkillCommand::Load("review".to_owned())
    );
    assert_eq!(parse_skill_command(&words(&["list", "x"])), SkillCommand::Usage);
}

#[test]
fn skill_flags_are_extracted_and_composed_into_prompt() {
    let arguments = [
        "--skill".to_owned(),
        "review".to_owned(),
        "do".to_owned(),
        "x".to_owned(),
    ];
    let roots = vec![root(
        "/project/skills",
        vec![(
            "review",
            "---\nname: review\ndescription: Review changes\n---\nCheck diffs.\n",
        )],
    )];
    let skill = load_skill(&roots, "review").unwrap();
    assert!(load_skill(&roots, "missing").is_err());
    let loaded = load_requested_skills(&roots, &arguments).unwrap();
    assert_eq!(loaded, vec![skill.scoped_instructions()]);
    let prompt = system_prompt_with_skills("base", &loaded);
    assert!(prompt.contains("Check diffs."));
    assert!(prompt.contains("Loaded skills"));
    assert_eq!(system_prompt_with_skills("base", &Vec::new()), "base");
    assert_eq!(
        load_requested_skills(&roots, &["--skill".to_owned(), "missing".to_owned()]).unwrap_err(),
        "invalid --skill 'missing': unknown skill 'missing'"
    );
}
