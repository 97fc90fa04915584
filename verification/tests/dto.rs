use okf::bundle::BundleIndex;
use okf::concept::{Concept, TrustTier};
use okf::date::Date;
use okf::dto::{dir_response, tree_response, ConceptResponse, ConceptSummaryResponse};

const MD: &str = "---\ntype: Metric\ntitle: Revenue\nverified: { by: human:a, at: 2026-01-01T00:00:00Z }\nstale_after: 2026-06-01\n---\nSee [x](./other.md).\n";

#[test]
fn concept_response_derives_trust_staleness_and_html() {
    let c = Concept::from_markdown("metrics/revenue", MD);
    let before = ConceptResponse::from_concept(&c, Date { year: 2026, month: 5, day: 31 });
    assert_eq!(before.id, "metrics/revenue");
    assert_eq!(before.trust_tier, TrustTier::HumanReviewed);
    assert!(!before.stale);
    assert_eq!(before.verified.len(), 1);
    assert!(before.content_html.contains("href=\"/metrics/other\""), "got {}", before.content_html);
    let after = ConceptResponse::from_concept(&c, Date { year: 2026, month: 6, day: 1 });
    assert!(after.stale);
}

#[test]
fn summary_response_agrees_with_concept_response() {
    let c = Concept::from_markdown("metrics/revenue", MD);
    let today = Date { year: 2026, month: 7, day: 1 };
    let full = ConceptResponse::from_concept(&c, today);
    let summary = ConceptSummaryResponse::from_summary(&c.summary(), today);
    assert_eq!(summary.id, full.id);
    assert_eq!(summary.trust_tier, full.trust_tier);
    assert_eq!(summary.stale, full.stale);
}

#[test]
fn directory_and_tree_responses() {
    let mut index = BundleIndex::new();
    index.add_dir("metrics".to_string());
    index.insert_concept("metrics/revenue", MD);
    let listing = index.list_dir("metrics", Some("# Metrics\n".to_string()), None).unwrap();
    let today = Date { year: 2026, month: 1, day: 1 };
    let resp = dir_response(listing, today);
    assert_eq!(resp.path, "metrics");
    assert_eq!(resp.index_html.as_deref(), Some("<h1>Metrics</h1>\n"));
    assert!(resp.log_html.is_none());
    assert_eq!(resp.concepts.len(), 1);
    assert!(!resp.concepts[0].stale);

    let tree = tree_response(&index.tree(), today);
    assert_eq!(tree.children.len(), 1);
    assert_eq!(tree.children[0].name, "metrics");
    assert_eq!(tree.children[0].concepts[0].id, "metrics/revenue");
}
