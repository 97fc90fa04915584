use okf::concept::{Concept, Generated, Status, TrustTier};
use okf::date::{Date, Timestamp};
use okf::dto::ConceptResponse;
use okf::view::{
    concept_href, date_text, dropdown_len, dropdown_open, is_reload_in_place, search_page, source_cells,
    stamp_text, status_badge_class, subdir_href, trust_badge_class, trust_rows,
};

#[test]
fn stamps_show_who_and_when() {
    let t = Timestamp { secs: 1_767_225_600, nanos: 0 };
    assert_eq!(stamp_text("human:a", Some(t)), "human:a · 2026-01-01 00:00 UTC");
    assert_eq!(stamp_text("agent/x", None), "agent/x");
}

#[test]
fn dates_show_in_iso_form() {
    assert_eq!(date_text(Some(Date { year: 2026, month: 4, day: 2 })), "2026-04-02");
    assert_eq!(date_text(None), "");
    assert_eq!(date_text(Some(Date { year: 2026, month: 2, day: 30 })), "");
}

#[test]
fn trust_table_rows() {
    let c = Concept::from_markdown(
        "x",
        "---\ntype: T\ngenerated: { by: agent/x }\nverified: [{ by: human:a, at: 2026-01-01T00:00:00Z }, { by: process:b }]\nstale_after: 2026-12-31\n---\n",
    );
    let r = ConceptResponse::from_concept(&c, Date { year: 2026, month: 1, day: 2 });
    let rows = trust_rows(&r);
    assert_eq!(
        rows,
        vec![
            ("Generated by".to_string(), "agent/x".to_string()),
            ("Verified by".to_string(), "human:a · 2026-01-01 00:00 UTC".to_string()),
            ("Verified by".to_string(), "process:b".to_string()),
            ("Stale after".to_string(), "2026-12-31".to_string()),
        ]
    );
    let bare = ConceptResponse::from_concept(&Concept::from_markdown("y", "body"), Date { year: 2026, month: 1, day: 2 });
    assert!(trust_rows(&bare).is_empty());
}

#[test]
fn provenance_cells() {
    let c = Concept::from_markdown(
        "x",
        "---\ntype: T\nsources:\n  - id: rev\n    usage_count: '42'\n    last_modified: 2026-04-02\n  - title: Book\n---\n",
    );
    assert_eq!(source_cells(&c.sources[0]), vec!["rev", "", "", "", "42", "2026-04-02"]);
    assert_eq!(source_cells(&c.sources[1]), vec!["", "Book", "", "", "", ""]);
}

#[test]
fn links_and_search() {
    assert_eq!(concept_href("api/rest"), "/api/rest");
    assert_eq!(subdir_href("", "api"), "/api/");
    assert_eq!(subdir_href("api", "v1"), "/api/v1/");
    assert_eq!(search_page("  "), None);
    assert_eq!(search_page("rest api").as_deref(), Some("/search?q=rest%20api"));
    assert!(!dropdown_open(" "));
    assert!(dropdown_open("x"));
    assert_eq!(dropdown_len(3), 3);
    assert_eq!(dropdown_len(30), 8);
}

#[test]
fn in_place_reloads() {
    assert!(is_reload_in_place(Some(("a", 1)), "a", 2));
    assert!(!is_reload_in_place(Some(("a", 1)), "b", 2));
    assert!(!is_reload_in_place(Some(("a", 2)), "a", 2));
    assert!(!is_reload_in_place(None, "a", 2));
}

#[test]
fn badge_classes() {
    assert_eq!(status_badge_class(Status::Draft), "badge status-draft");
    assert_eq!(trust_badge_class(TrustTier::HumanReviewed), "badge trust-human");
}

#[test]
fn dates_outside_four_digit_years() {
    assert_eq!(date_text(Some(Date { year: 5, month: 1, day: 9 })), "0005-01-09");
    assert_eq!(date_text(Some(Date { year: -1, month: 12, day: 31 })), "-0001-12-31");
    assert_eq!(date_text(Some(Date { year: 10000, month: 1, day: 1 })), "+10000-01-01");
    assert_eq!(date_text(Some(Date { year: -262143, month: 1, day: 1 })), "-262143-01-01");
    assert_eq!(date_text(Some(Date { year: 262143, month: 1, day: 1 })), "");
}

#[test]
fn empty_generation_label_gives_no_row() {
    let mut r = ConceptResponse::from_concept(&Concept::from_markdown("y", "body"), Date { year: 2026, month: 1, day: 2 });
    r.generated = Some(Generated { by: String::new(), at: None });
    assert!(trust_rows(&r).is_empty());
    r.generated = Some(Generated { by: String::new(), at: Some(Timestamp { secs: 0, nanos: 0 }) });
    assert_eq!(trust_rows(&r), vec![("Generated by".to_string(), " · 1970-01-01 00:00 UTC".to_string())]);
}
