use okf::skills::skills;

#[test]
fn embeds_every_bundled_skill() {
    let all = skills();
    let names: Vec<&str> = all.iter().map(|s| s.name).collect();
    assert!(names.contains(&"okf-dev"));
    assert!(names.contains(&"okf-plan"));
    assert!(names.contains(&"okf-spec"));
}

#[test]
fn every_skill_has_a_front_matter_name() {
    for skill in skills() {
        assert!(
            skill.content.trim_start().starts_with("---"),
            "skill {} SKILL.md must start with front matter",
            skill.name
        );
        assert!(
            skill.content.contains("name:"),
            "skill {} SKILL.md must declare a name in front matter",
            skill.name
        );
    }
}

#[test]
fn skills_are_unique() {
    let all = skills();
    let mut names: Vec<&str> = all.iter().map(|s| s.name).collect();
    names.sort_unstable();
    let deduped_len = {
        let mut v = names.clone();
        v.dedup();
        v.len()
    };
    assert_eq!(names.len(), deduped_len, "skill names must be unique");
}

#[test]
fn each_skill_names_itself_in_its_front_matter() {
    for skill in skills() {
        let (yaml, _) = okf::front_matter::split_front_matter(skill.content);
        let yaml = yaml.expect("front matter");
        assert!(yaml.contains(&format!("name: {}\n", skill.name)), "skill {}", skill.name);
    }
}
