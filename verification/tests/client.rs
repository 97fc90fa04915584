use okf::client::{
    build_breadcrumbs, dir_listing_path, leaf_is_active, page_from, page_paths, search_path, set_api_base_url,
    to_send_future, tree_row, trust_class, urlencode, ApiBase, PageData,
};
use okf::concept::TrustTier;

#[test]
fn first_base_url_wins() {
    let mut base = ApiBase::new();
    assert_eq!(base.base(), "http://127.0.0.1:8080");
    set_api_base_url(&mut base, "http://127.0.0.1:9000".to_string());
    set_api_base_url(&mut base, "http://elsewhere".to_string());
    assert_eq!(base.base(), "http://127.0.0.1:9000");
    assert_eq!(base.api_url("tree"), "http://127.0.0.1:9000/api/tree");
}

#[test]
fn percent_encodes_queries() {
    assert_eq!(urlencode("a b&c"), "a%20b%26c");
    assert_eq!(urlencode("Az09-_.~"), "Az09-_.~");
    assert_eq!(urlencode("\n"), "%0A");
    assert_eq!(urlencode("é"), "%E9");
    assert_eq!(urlencode("€"), "%20AC");
    assert_eq!(search_path("rest api"), "search?q=rest%20api");
}

#[test]
fn page_and_directory_paths() {
    assert_eq!(page_paths("/api/rest-api/"), ("concepts/api/rest-api".to_string(), "dirs/api/rest-api".to_string()));
    assert_eq!(page_paths("/"), ("concepts".to_string(), "dirs".to_string()));
    assert_eq!(dir_listing_path("api", None, Some("desc")), "dirs/api");
    assert_eq!(dir_listing_path("api", Some("  "), None), "dirs/api");
    assert_eq!(dir_listing_path("api", Some(" title "), Some(" DESCENDING ")), "dirs/api?sort=title&dir=desc");
    assert_eq!(dir_listing_path("", Some("last modified"), Some("up")), "dirs?sort=last%20modified&dir=asc");
    assert_eq!(dir_listing_path("", Some("x"), None), "dirs?sort=x&dir=asc");
}

#[test]
fn breadcrumbs() {
    let crumbs = build_breadcrumbs("api/v1/rest");
    assert_eq!(
        crumbs,
        vec![
            ("Home".to_string(), "/".to_string(), false),
            ("api".to_string(), "/api/".to_string(), false),
            ("v1".to_string(), "/api/v1/".to_string(), false),
            ("rest".to_string(), "/api/v1/rest/".to_string(), true),
        ]
    );
    assert_eq!(build_breadcrumbs(""), vec![("Home".to_string(), "/".to_string(), true)]);
}

#[test]
fn trust_classes() {
    assert_eq!(trust_class(TrustTier::Unverified), "trust-unverified");
    assert_eq!(trust_class(TrustTier::MachineConfirmed), "trust-machine");
    assert_eq!(trust_class(TrustTier::HumanReviewed), "trust-human");
}

#[test]
fn tree_rows_follow_the_current_page() {
    assert_eq!(tree_row("/", ""), (true, true));
    assert_eq!(tree_row("/api/", ""), (false, true));
    assert_eq!(tree_row("/api/", "api"), (true, true));
    assert_eq!(tree_row("/api/rest", "api"), (false, true));
    assert_eq!(tree_row("/apiary", "api"), (false, false));
    assert!(leaf_is_active("/api/rest/", "api/rest"));
    assert!(!leaf_is_active("/api", "api/rest"));
}

#[test]
fn pages_prefer_concepts_over_directories() {
    assert!(matches!(page_from(None, None), PageData::NotFound));
    assert_eq!(to_send_future(7), 7);
}

fn percent_decode(s: &str) -> String {
    let cs: Vec<char> = s.chars().collect();
    let mut out = String::new();
    let mut i = 0;
    while i < cs.len() {
        if cs[i] == '%' && i + 2 < cs.len() && cs[i + 1].is_ascii_hexdigit() && cs[i + 2].is_ascii_hexdigit() {
            let v = cs[i + 1].to_digit(16).unwrap() * 16 + cs[i + 2].to_digit(16).unwrap();
            out.push(char::from_u32(v).unwrap());
            i += 3;
        } else {
            out.push(cs[i]);
            i += 1;
        }
    }
    out
}

#[test]
fn ascii_url_encoding_decodes_back() {
    assert_eq!(urlencode("a b&c/~"), "a%20b%26c%2F~");
    for s in ["a b&c/~", "100% sure?", "\t\n\u{7f}", "", "%41"] {
        let e = urlencode(s);
        assert!(e.chars().all(|c| c.is_ascii_alphanumeric() || "-_.~%".contains(c)));
        assert_eq!(percent_decode(&e), s);
        let escaped = s.chars().filter(|c| !(c.is_ascii_alphanumeric() || "-_.~".contains(*c))).count();
        assert_eq!(e.chars().count(), s.chars().count() + 2 * escaped);
    }
}
