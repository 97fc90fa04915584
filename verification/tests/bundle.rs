use okf::bundle::{affected_paths, change_event, concept_id_for, is_markdown_name, parent_of, rel_to_string, segment_name, BundleIndex};

fn md(title: &str) -> String {
    format!("---\ntype: T\ntitle: {title}\n---\nbody\n")
}

fn parts(path: &str) -> Vec<String> {
    path.split('/').map(|s| s.to_string()).collect()
}

#[test]
fn builds_nested_tree_from_index() {
    let mut index = BundleIndex::new();
    index.add_dir("dev".to_string());
    index.add_dir("dev/plans".to_string());
    index.insert_concept("root-concept", &md("Root"));
    index.insert_concept("dev/child", &md("Child"));
    index.insert_concept("dev/plans/leaf", &md("Leaf"));

    let tree = index.tree();

    assert_eq!(tree.path, "");
    assert_eq!(tree.name, "");
    assert_eq!(tree.concepts.len(), 1);
    assert_eq!(tree.concepts[0].id, "root-concept");
    assert_eq!(tree.children.len(), 1);

    let dev = &tree.children[0];
    assert_eq!(dev.path, "dev");
    assert_eq!(dev.name, "dev");
    assert_eq!(dev.concepts.len(), 1);
    assert_eq!(dev.concepts[0].id, "dev/child");
    assert_eq!(dev.children.len(), 1);

    let plans = &dev.children[0];
    assert_eq!(plans.path, "dev/plans");
    assert_eq!(plans.name, "plans");
    assert_eq!(plans.concepts.len(), 1);
    assert_eq!(plans.concepts[0].id, "dev/plans/leaf");
    assert!(plans.children.is_empty());
}

#[test]
fn sorts_siblings_alphabetically() {
    let mut index = BundleIndex::new();
    index.add_dir("b".to_string());
    index.add_dir("a".to_string());
    index.insert_concept("zeta", &md("Zeta"));
    index.insert_concept("alpha", &md("Alpha"));

    let tree = index.tree();

    let concept_ids: Vec<&str> = tree.concepts.iter().map(|c| c.id.as_str()).collect();
    assert_eq!(concept_ids, vec!["alpha", "zeta"]);

    let child_paths: Vec<&str> = tree.children.iter().map(|c| c.path.as_str()).collect();
    assert_eq!(child_paths, vec!["a", "b"]);
}

#[test]
fn lists_a_directory() {
    let mut index = BundleIndex::new();
    index.add_dir("api".to_string());
    index.add_dir("api/v1".to_string());
    index.add_dir("api/v2".to_string());
    index.insert_concept("api/rest-api", &md("rest API"));
    index.insert_concept("api/auth", &md("Auth"));
    index.insert_concept("overview", &md("Overview"));

    let listing = index
        .list_dir("/api/", Some("---\nokf_version: 1\n---\n# API\n".to_string()), None)
        .expect("api is a directory");
    assert_eq!(listing.path, "api");
    assert_eq!(listing.index_markdown.as_deref(), Some("# API\n"));
    assert!(listing.log_markdown.is_none());
    let ids: Vec<&str> = listing.concepts.iter().map(|c| c.id.as_str()).collect();
    assert_eq!(ids, vec!["api/auth", "api/rest-api"]);
    assert_eq!(listing.subdirs, vec!["v1", "v2"]);

    assert!(index.list_dir("missing", None, None).is_none());
    let root = index.list_dir("", None, Some("log\n".to_string())).expect("root");
    assert_eq!(root.log_markdown.as_deref(), Some("log\n"));
    assert_eq!(root.subdirs, vec!["api"]);
    assert_eq!(root.concepts.len(), 1);
}

#[test]
fn listing_ranks_titles_case_insensitively_then_by_id() {
    let mut index = BundleIndex::new();
    index.insert_concept("c", &md("beta"));
    index.insert_concept("b", &md("Alpha"));
    index.insert_concept("a", &md("Beta"));
    let listing = index.list_dir("", None, None).expect("root");
    let ids: Vec<&str> = listing.concepts.iter().map(|c| c.id.as_str()).collect();
    assert_eq!(ids, vec!["b", "a", "c"]);
}

#[test]
fn tree_and_listing_agree() {
    let mut index = BundleIndex::new();
    index.add_dir("d".to_string());
    index.insert_concept("d/y", &md("Yak"));
    index.insert_concept("d/x", &md("Xylophone"));
    let tree = index.tree();
    let listing = index.list_dir("d", None, None).expect("d");
    let from_tree: Vec<&str> = tree.children[0].concepts.iter().map(|c| c.id.as_str()).collect();
    let from_listing: Vec<&str> = listing.concepts.iter().map(|c| c.id.as_str()).collect();
    assert_eq!(from_tree, from_listing);
}

#[test]
fn inserting_again_replaces_the_concept() {
    let mut index = BundleIndex::new();
    index.insert_concept("a", &md("First"));
    index.insert_concept("b", &md("Other"));
    index.insert_concept("a", &md("Second"));
    assert_eq!(index.concepts.len(), 2);
    assert_eq!(index.concept("a").expect("a").title, "Second");
    assert_eq!(index.concept("b").expect("b").title, "Other");
    assert!(index.concept("c").is_none());
}

#[test]
fn directories_are_recorded_once() {
    let mut index = BundleIndex::new();
    index.add_dir("x".to_string());
    index.add_dir("x".to_string());
    index.add_dir(String::new());
    assert_eq!(index.dirs, vec!["".to_string(), "x".to_string()]);
    assert!(index.has_dir("x"));
    assert!(!index.has_dir("y"));
}

#[test]
fn keyword_search_over_the_index() {
    let mut index = BundleIndex::new();
    index.insert_concept("metrics/revenue", "---\ntype: Metric\ntitle: Revenue\ntags: [finance]\n---\nbody\n");
    index.insert_concept("api/server", "---\ntype: Reference\ntitle: Server\ndescription: Serves FINANCE data\n---\n");
    index.insert_concept("other", "---\ntype: Note\ntitle: Other\n---\nfinance only in the body\n");
    let ids: Vec<String> = index.search("Finance").iter().map(|c| c.id.clone()).collect();
    assert_eq!(ids, vec!["metrics/revenue".to_string(), "api/server".to_string()]);
    assert_eq!(index.search("").len(), 3);
    assert!(index.search("zzz").is_empty());
}

#[test]
fn keyword_search_ignores_ids() {
    let mut index = BundleIndex::new();
    index.insert_concept("finance/overview", "---\ntype: Note\ntitle: Overview\n---\n");
    index.insert_concept("misc", "---\ntype: Note\ntitle: Finance basics\n---\n");
    let ids: Vec<String> = index.search("finance").iter().map(|c| c.id.clone()).collect();
    assert_eq!(ids, vec!["misc".to_string()]);
}

#[test]
fn concept_files_and_ids() {
    assert_eq!(concept_id_for("api/rest-api.md", "rest-api.md").as_deref(), Some("api/rest-api"));
    assert!(concept_id_for("api/index.md", "index.md").is_none());
    assert!(concept_id_for("log.md", "log.md").is_none());
    assert!(concept_id_for("notes.txt", "notes.txt").is_none());
    assert!(concept_id_for(".md", ".md").is_none());
    assert!(is_markdown_name("a.md"));
    assert!(is_markdown_name("..md"));
    assert!(!is_markdown_name(".md"));
    assert!(!is_markdown_name("md"));
}

#[test]
fn paths_and_segments() {
    assert_eq!(parent_of("a/b/c"), "a/b");
    assert_eq!(parent_of("top"), "");
    assert_eq!(segment_name("a/b/c"), "c");
    assert_eq!(segment_name(""), "");
    assert_eq!(rel_to_string(&parts("a/b/c.md")), "a/b/c.md");
    assert_eq!(rel_to_string(&Vec::new()), "");
}

#[test]
fn changed_files_map_to_affected_paths() {
    let changed = vec![
        parts("api/rest-api.md"),
        parts("api/index.md"),
        parts("log.md"),
        parts("api/images"),
        parts("api/rest-api.md"),
    ];
    let mut affected = affected_paths(&changed);
    affected.sort();
    assert_eq!(affected, vec!["".to_string(), "api".to_string(), "api/images".to_string(), "api/rest-api".to_string()]);
}

#[test]
fn tree_of_any_directory() {
    let mut index = BundleIndex::new();
    index.add_dir("a/b".to_string());
    index.insert_concept("a/top", &md("Top"));
    let a = index.build_tree("a");
    assert_eq!(a.name, "a");
    assert_eq!(a.path, "a");
    assert_eq!(a.concepts.iter().map(|c| c.id.as_str()).collect::<Vec<_>>(), vec!["a/top"]);
    assert_eq!(a.children.iter().map(|c| c.path.as_str()).collect::<Vec<_>>(), vec!["a/b"]);
    let none = index.build_tree("nowhere/at/all/deeper");
    assert_eq!(none.name, "deeper");
    assert!(none.concepts.is_empty() && none.children.is_empty());
}

#[test]
fn change_events_only_when_something_changed() {
    assert!(change_event(&Vec::new()).is_none());
    let mut event = change_event(&vec![parts("api/index.md"), parts("api/x.md")]).expect("event");
    event.paths.sort();
    assert_eq!(event.paths, vec!["api".to_string(), "api/x".to_string()]);
}
