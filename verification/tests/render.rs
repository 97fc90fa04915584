use okf::render::{is_external, is_mermaid_info, normalize_path, render_markdown, resolve_link, rewrite_links};

#[test]
fn renders_basic_markdown() {
    assert_eq!(render_markdown("# Title", ""), "<h1>Title</h1>\n");
}

#[test]
fn resolves_absolute_bundle_link() {
    assert_eq!(resolve_link("/tables/customers.md", ""), "/tables/customers");
}

#[test]
fn resolves_relative_links() {
    assert_eq!(resolve_link("./other.md", "tables"), "/tables/other");
    assert_eq!(resolve_link("../computations/x.md", "tables"), "/computations/x");
}

#[test]
fn leaves_external_links_alone() {
    assert_eq!(resolve_link("https://example.com/x.md", ""), "https://example.com/x.md");
}

#[test]
fn preserves_anchors() {
    assert_eq!(resolve_link("/tables/customers.md#schema", ""), "/tables/customers#schema");
    assert_eq!(resolve_link("#schema", ""), "#schema");
}

#[test]
fn recognises_external_urls() {
    assert!(is_external("https://example.com"));
    assert!(is_external("mailto:someone@example.com"));
    assert!(!is_external("/tables/customers.md"));
    assert!(!is_external("other.md"));
}

#[test]
fn normalizes_paths() {
    assert_eq!(normalize_path("a/./b/../c"), "a/c");
    assert_eq!(normalize_path("/x//y/"), "x/y");
    assert_eq!(normalize_path("../../a"), "a");
}

#[test]
fn strips_repeated_md_and_roots_links() {
    assert_eq!(resolve_link("notes.md.md", ""), "/notes");
    assert_eq!(resolve_link("sub/page.md", "/dir/"), "/dir/sub/page");
}

#[test]
fn rewrites_links_in_markdown() {
    let out = rewrite_links("See [x](./other.md) and [y](https://e.com/a.md).", "tables");
    assert_eq!(out, "See [x](/tables/other) and [y](https://e.com/a.md).");
}

#[test]
fn renders_rewritten_bundle_links() {
    let html = render_markdown("[x](./other.md)", "tables");
    assert!(html.contains("href=\"/tables/other\""), "got: {html}");
}

#[test]
fn raw_html_is_not_passed_through() {
    let html = render_markdown("<script>alert(1)</script>", "");
    assert!(!html.contains("<script>"), "got: {html}");
}

#[test]
fn mermaid_info_strings() {
    assert!(is_mermaid_info("mermaid"));
    assert!(is_mermaid_info("  Mermaid title"));
    assert!(!is_mermaid_info("rust"));
    assert!(!is_mermaid_info(""));
    assert!(!is_mermaid_info("mermaidx"));
}

#[test]
fn normalizing_twice_changes_nothing() {
    for p in ["a/./b/../c", "/x//y/", "../..", "", "a/b/c.md", "./"] {
        let once = normalize_path(p);
        assert_eq!(normalize_path(&once), once);
    }
}

#[test]
fn normalized_paths_have_only_kept_segments() {
    for p in ["/a/./b//../c/", "../x", "./.././", "a/..", "x/./y/../../z//w/."] {
        let n = normalize_path(p);
        if !n.is_empty() {
            for seg in n.split('/') {
                assert!(!seg.is_empty() && seg != "." && seg != "..", "{n}");
            }
        }
    }
    assert_eq!(normalize_path("/a/./b//../c/"), "a/c");
    assert_eq!(normalize_path("../x"), "x");
    assert_eq!(normalize_path("a/.."), "");
}
