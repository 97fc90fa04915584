use okf::concept::{parse_status, title_from_id, Concept, Status, TrustTier};
use okf::date::{midnight_utc, Date};

#[test]
fn parses_front_matter_families() {
    let md = "---\ntype: Metric\ntitle: Revenue\nstatus: stable\n\
              generated: { by: agent/x, at: 2026-06-20T22:53:05Z }\n\
              verified: [{ by: human:alice, at: 2026-06-25T09:00:00Z }]\n\
              stale_after: 2026-12-31\ntags: [finance, revenue]\n\
              sources:\n  - id: rev\n    resource: https://example.com\n    usage_count: 5000\n    last_modified: 2026-04-02\n\
              ---\n# Body\n";
    let c = Concept::from_markdown("metrics/revenue", md);

    assert_eq!(c.concept_type, "Metric");
    assert_eq!(c.title, "Revenue");
    assert_eq!(c.status, Status::Stable);
    assert_eq!(c.tags, vec!["finance", "revenue"]);
    assert_eq!(c.trust_tier(), TrustTier::HumanReviewed);
    assert_eq!(c.stale_after, Some(Date { year: 2026, month: 12, day: 31 }));
    assert_eq!(c.sources.len(), 1);
    assert_eq!(c.sources[0].usage_count, Some(5000));
    assert_eq!(c.sources[0].last_modified, Some(Date { year: 2026, month: 4, day: 2 }));
    assert_eq!(c.content, "# Body\n");
}

#[test]
fn trust_tiers() {
    let base = Concept::from_markdown("x", "---\ntype: T\n---\nbody\n");
    assert_eq!(base.trust_tier(), TrustTier::Unverified);

    let machine = Concept::from_markdown(
        "x",
        "---\ntype: T\nverified: [{ by: process:n, at: 2026-01-01T00:00:00Z }]\n---\nbody\n",
    );
    assert_eq!(machine.trust_tier(), TrustTier::MachineConfirmed);

    let human = Concept::from_markdown(
        "x",
        "---\ntype: T\nverified: { by: human:a, at: 2026-01-01T00:00:00Z }\n---\nbody\n",
    );
    assert_eq!(human.trust_tier(), TrustTier::HumanReviewed);
}

#[test]
fn title_falls_back_to_the_id() {
    let c = Concept::from_markdown("dev/plans/next-big_thing", "no front matter\n");
    assert_eq!(c.title, "Next big thing");
    assert_eq!(c.concept_type, "");
    assert_eq!(c.content, "no front matter\n");
    assert_eq!(title_from_id("a/b/c"), "C");
    assert_eq!(title_from_id(""), "");
}

#[test]
fn blank_title_falls_back_to_the_id() {
    let c = Concept::from_markdown("x/report", "---\ntype: T\ntitle: '  '\n---\n");
    assert_eq!(c.title, "Report");
}

#[test]
fn statuses_parse_and_print() {
    assert_eq!(parse_status("draft"), Status::Draft);
    assert_eq!(parse_status(" deprecated "), Status::Deprecated);
    assert_eq!(parse_status("whatever"), Status::Stable);
    assert_eq!(Status::Draft.as_str(), "draft");
    assert_eq!(Status::Stable.as_str(), "stable");
    assert_eq!(Status::Deprecated.as_str(), "deprecated");
    assert_eq!(Status::default(), Status::Stable);
}

#[test]
fn trust_tier_names() {
    assert_eq!(TrustTier::Unverified.as_str(), "unverified");
    assert_eq!(TrustTier::MachineConfirmed.as_str(), "machine-confirmed");
    assert_eq!(TrustTier::HumanReviewed.as_str(), "human-reviewed");
}

#[test]
fn staleness_starts_on_the_stale_after_date() {
    let c = Concept::from_markdown("x", "---\ntype: T\nstale_after: 2026-12-31\n---\n");
    assert!(!c.is_stale(Date { year: 2026, month: 12, day: 30 }));
    assert!(c.is_stale(Date { year: 2026, month: 12, day: 31 }));
    assert!(c.is_stale(Date { year: 2027, month: 1, day: 1 }));
    let never = Concept::from_markdown("y", "---\ntype: T\n---\n");
    assert!(!never.is_stale(Date { year: 3000, month: 1, day: 1 }));
}

#[test]
fn directory_and_summary() {
    let c = Concept::from_markdown("dev/plans/leaf", "---\ntype: T\ntitle: Leaf\ndescription: d\ntags: [a, b]\n---\nbody\n");
    assert_eq!(c.dir(), "dev/plans");
    let root = Concept::from_markdown("top", "---\ntype: T\n---\n");
    assert_eq!(root.dir(), "");
    let s = c.summary();
    assert_eq!(s.id, "dev/plans/leaf");
    assert_eq!(s.title, "Leaf");
    assert_eq!(s.description.as_deref(), Some("d"));
    assert_eq!(s.tags, vec!["a", "b"]);
    assert_eq!(s.trust_tier, TrustTier::Unverified);
}

#[test]
fn comma_separated_tags_and_date_times() {
    let c = Concept::from_markdown(
        "x",
        "---\ntype: T\ntags: one, two ,, three\ngenerated: { by: agent/x, at: 2026-06-20 }\n---\n",
    );
    assert_eq!(c.tags, vec!["one", "two", "three"]);
    let g = c.generated.expect("generated");
    assert_eq!(g.by, "agent/x");
    let at = g.at.expect("date at midnight");
    assert_eq!(at.nanos, 0);
    assert_eq!(at.secs % 86400, 0);
}

#[test]
fn invalid_yaml_front_matter_gives_defaults() {
    let c = Concept::from_markdown("bad", "---\ntype: [unclosed\n---\nbody\n");
    assert_eq!(c.concept_type, "");
    assert_eq!(c.title, "Bad");
    assert_eq!(c.content, "body\n");
}

#[test]
fn midnights_in_utc() {
    let at = |year: i32, month: u32, day: u32| midnight_utc(Date { year, month, day }).map(|t| (t.secs, t.nanos));
    assert_eq!(at(1970, 1, 1), Some((0, 0)));
    assert_eq!(at(2026, 4, 2), Some((1775088000, 0)));
    assert_eq!(at(2000, 3, 1), Some((951868800, 0)));
    assert_eq!(at(2000, 2, 29), Some((951782400, 0)));
    assert_eq!(at(1969, 12, 31), Some((-86400, 0)));
    assert_eq!(at(1, 1, 1), Some((-62135596800, 0)));
    assert_eq!(at(0, 1, 1), Some((-62167219200, 0)));
    assert_eq!(at(9999, 12, 31), Some((253402214400, 0)));
    assert_eq!(at(2025, 2, 29), None);
    assert_eq!(at(300000, 1, 1), None);
}

#[test]
fn status_names_ignore_case_and_white_space() {
    for st in [Status::Draft, Status::Stable, Status::Deprecated] {
        assert_eq!(parse_status(st.as_str()), st);
        assert_eq!(parse_status(&format!(" {} ", st.as_str().to_uppercase())), st);
        assert_eq!(parse_status(&format!("\t{}\n", st.as_str().to_ascii_uppercase())), st);
    }
    assert_eq!(parse_status("DrAfT"), Status::Draft);
    assert_eq!(parse_status("drafts"), Status::Stable);
}
