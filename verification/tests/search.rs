use okf::concept::Concept;
use okf::search::{concept_text, fuse_groups, is_blank_query, rank_keyword, KeywordHit};

fn concept(id: &str, title: &str, body: &str) -> Concept {
    Concept::from_markdown(id, &format!("---\ntype: Note\ntitle: {title}\n---\n{body}\n"))
}

fn ids(results: &[KeywordHit]) -> Vec<String> {
    results.iter().map(|r| r.summary.id.clone()).collect()
}

#[test]
fn blank_query_returns_no_results() {
    assert!(rank_keyword("   ", &vec![concept("a", "A", "body")]).is_empty());
}

#[test]
fn body_only_match_is_returned() {
    let results = rank_keyword(
        "income",
        &vec![concept("metrics/revenue", "Financial Summary", "annual income grew")],
    );
    assert_eq!(ids(&results), vec!["metrics/revenue".to_string()]);
}

#[test]
fn title_match_ranks_above_body_only_match() {
    let concepts = vec![
        concept("body-only", "Financial Summary", "annual income grew"),
        concept("title-hit", "Income", "unrelated"),
    ];
    let results = rank_keyword("income", &concepts);
    assert_eq!(ids(&results), vec!["title-hit".to_string(), "body-only".to_string()]);
}

#[test]
fn type_and_tags_rank_above_description_and_body() {
    let typed = Concept::from_markdown(
        "typed",
        "---\ntype: Income\ntitle: Server\ntags: [income]\n---\nunrelated\n",
    );
    let concepts = vec![concept("meta", "Financial Summary", "annual income grew"), typed];
    let results = rank_keyword("income", &concepts);
    assert_eq!(ids(&results), vec!["typed".to_string(), "meta".to_string()]);
}

#[test]
fn equal_scores_fall_back_to_title_order() {
    let concepts = vec![
        concept("b", "Beta", "annual income"),
        concept("a", "Alpha", "annual income"),
    ];
    let results = rank_keyword("income", &concepts);
    assert_eq!(ids(&results), vec!["a".to_string(), "b".to_string()]);
}

#[test]
fn keyword_scores_add_up_by_field() {
    let c = Concept::from_markdown(
        "income/report",
        "---\ntype: Income\ntitle: Income report\ndescription: about income\ntags: [income]\n---\nincome\n",
    );
    let results = rank_keyword("  INCOME ", &vec![c]);
    assert_eq!(results.len(), 1);
    assert_eq!(results[0].score, 3 + 4 + 2 + 2 + 1 + 1);
    let none = rank_keyword("absent", &vec![concept("x", "X", "y")]);
    assert!(none.is_empty());
}

#[test]
fn fuse_rrf_dedupes_and_orders_best_first() {
    let s = |id: &str| concept(id, &id.to_uppercase(), "").summary();
    let first = vec![s("a"), s("b"), s("c")];
    let second = vec![s("c"), s("d")];
    let groups = fuse_groups(&vec![first, second]);
    let grouped: Vec<(String, Vec<usize>)> = groups.iter().map(|g| (g.summary.id.clone(), g.ranks.clone())).collect();
    assert_eq!(
        grouped,
        vec![
            ("a".to_string(), vec![0]),
            ("b".to_string(), vec![1]),
            ("c".to_string(), vec![2, 0]),
            ("d".to_string(), vec![1]),
        ]
    );
    // Reciprocal rank fusion with k = 60: c is 1/63 + 1/61, above a (1/61),
    // then b and d (1/62 each, tied, so by id).
    let k = 60.0f32;
    let mut scored: Vec<(f32, String)> = groups
        .iter()
        .map(|g| (g.ranks.iter().map(|r| 1.0 / (k + *r as f32 + 1.0)).sum(), g.summary.id.clone()))
        .collect();
    scored.sort_by(|a, b| b.0.partial_cmp(&a.0).unwrap().then_with(|| a.1.cmp(&b.1)));
    let order: Vec<String> = scored.into_iter().map(|(_, id)| id).collect();
    assert_eq!(order, vec!["c".to_string(), "a".to_string(), "b".to_string(), "d".to_string()]);
}

#[test]
fn duplicate_entries_in_one_list_count_twice() {
    let s = |id: &str| concept(id, id, "").summary();
    let groups = fuse_groups(&vec![vec![s("x"), s("x"), s("y")]]);
    assert_eq!(groups.len(), 2);
    assert_eq!(groups[0].ranks, vec![0, 1]);
    assert_eq!(groups[1].ranks, vec![2]);
}

#[test]
fn indexed_text_has_every_searchable_field() {
    let c = Concept::from_markdown(
        "x",
        "---\ntype: Metric\ntitle: Revenue\ndescription: Money in\ntags: [a, b]\n---\nBody\n",
    );
    assert_eq!(concept_text(&c), "Revenue\nMetric\nMoney in\na\nb\nBody\n");
    let bare = Concept::from_markdown("y", "---\ntype: T\ntitle: Y\n---\n");
    assert_eq!(concept_text(&bare), "Y\nT\n");
}

#[test]
fn blank_queries() {
    assert!(is_blank_query(""));
    assert!(is_blank_query("  \t\n"));
    assert!(!is_blank_query(" a "));
}
