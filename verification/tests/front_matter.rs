use std::cmp::Ordering;

use okf::front_matter::{compare_values, extra_fields, get_field, keys, split_front_matter, values_match};
use okf::yaml::{YamlNumber, YamlValue};

fn s(x: &str) -> YamlValue {
    YamlValue::String(x.to_string())
}

fn mapping(entries: Vec<(&str, YamlValue)>) -> YamlValue {
    YamlValue::Mapping(entries.into_iter().map(|(k, v)| (s(k), v)).collect())
}

fn as_str(v: Option<&YamlValue>) -> Option<&str> {
    match v {
        Some(YamlValue::String(t)) => Some(t.as_str()),
        _ => None,
    }
}

#[test]
fn splits_front_matter_and_body() {
    let input = "---\ntype: Metric\n---\n# Body\n";
    let (yaml, body) = split_front_matter(input);
    assert_eq!(yaml.as_deref(), Some("type: Metric\n"));
    assert_eq!(body, "# Body\n");
}

#[test]
fn no_front_matter() {
    let input = "# Just a page\n";
    let (yaml, body) = split_front_matter(input);
    assert!(yaml.is_none());
    assert_eq!(body, "# Just a page\n");
}

#[test]
fn unterminated_front_matter_is_body() {
    let input = "---\ntype: Metric\n";
    let (yaml, body) = split_front_matter(input);
    assert!(yaml.is_none());
    assert_eq!(body, input);
}

#[test]
fn get_field_reads_any_key() {
    let fm = mapping(vec![("priority", s("high")), ("custom", s("x"))]);
    assert_eq!(as_str(get_field(&fm, "priority")), Some("high"));
    assert_eq!(as_str(get_field(&fm, "custom")), Some("x"));
    assert!(get_field(&fm, "absent").is_none());
}

#[test]
fn compares_scalars_and_numbers() {
    let alpha = s("Alpha");
    let beta = s("beta");
    assert_eq!(compare_values(&alpha, &beta), Ordering::Less);
    assert_eq!(compare_values(&beta, &alpha), Ordering::Greater);
    assert_eq!(compare_values(&alpha, &alpha), Ordering::Equal);

    let ten = YamlValue::Number(YamlNumber::PosInt(10));
    let two = YamlValue::Number(YamlNumber::PosInt(2));
    assert_eq!(compare_values(&ten, &two), Ordering::Greater);
    assert_eq!(
        compare_values(&YamlValue::Bool(false), &YamlValue::Bool(true)),
        Ordering::Less
    );
    assert_eq!(
        compare_values(&YamlValue::Null, &YamlValue::Bool(true)),
        Ordering::Less
    );
}

#[test]
fn numeric_compare_treats_int_and_float_equal() {
    let two = YamlValue::Number(YamlNumber::PosInt(2));
    let two_f = YamlValue::Number(YamlNumber::Float("2.0".to_string()));
    assert_eq!(compare_values(&two, &two_f), Ordering::Equal);
}

#[test]
fn values_match_scalars_and_lists() {
    let tags = YamlValue::Sequence(vec![s("one"), s("two")]);
    assert!(values_match(&tags, "one"));
    assert!(values_match(&tags, "TWO"));
    assert!(!values_match(&tags, "three"));

    let t = s("Metric");
    assert!(values_match(&t, "metric"));
    assert!(!values_match(&t, "reference"));

    let n = YamlValue::Number(YamlNumber::PosInt(5));
    assert!(values_match(&n, "5"));
    assert!(!values_match(&n, "6"));

    let m = mapping(vec![("nested", mapping(vec![("a", s("b"))]))]);
    assert!(!values_match(&m, "anything"));
}

#[test]
fn keys_lists_sorted_distinct_top_level_fields() {
    let fm = mapping(vec![
        ("type", s("Metric")),
        ("tags", YamlValue::Sequence(vec![s("a")])),
        ("priority", s("high")),
    ]);
    assert_eq!(
        keys(&fm),
        vec!["priority".to_string(), "tags".to_string(), "type".to_string()]
    );
}

#[test]
fn extra_fields_excludes_modeled_and_omits_unrenderable() {
    let fm = mapping(vec![
        ("type", s("ChangeRequest")),
        ("state", s("proposed")),
        ("priority", s("high")),
        ("owner", s("human:felix")),
        ("aliases", YamlValue::Sequence(vec![s("a"), s("b")])),
        ("nested", mapping(vec![("x", s("y"))])),
        ("empty", YamlValue::Null),
    ]);
    let extra = extra_fields(&fm);
    let get = |k: &str| extra.iter().find(|(key, _)| key == k).map(|(_, v)| v.as_str());
    assert_eq!(
        extra.iter().map(|(k, _)| k.as_str()).collect::<Vec<_>>(),
        vec!["aliases", "owner", "priority", "state"]
    );
    assert_eq!(get("state"), Some("proposed"));
    assert_eq!(get("priority"), Some("high"));
    assert_eq!(get("owner"), Some("human:felix"));
    assert_eq!(get("aliases"), Some("a, b"));
    assert!(get("type").is_none());
    assert!(get("nested").is_none());
    assert!(get("empty").is_none());
}

#[test]
fn front_matter_closes_with_dots_and_keeps_body_suffix() {
    let input = "---\ntitle: X\n...\nrest\n";
    let (yaml, body) = split_front_matter(input);
    assert_eq!(yaml.as_deref(), Some("title: X\n"));
    assert_eq!(body, "rest\n");
    assert!(input.ends_with(&body));
}

#[test]
fn front_matter_delimiters_may_carry_spaces() {
    let (yaml, body) = split_front_matter("---  \na: b\n  ---\nbody");
    assert_eq!(yaml.as_deref(), Some("a: b\n"));
    assert_eq!(body, "body");
}

#[test]
fn empty_front_matter_block() {
    let (yaml, body) = split_front_matter("---\n---\nx\n");
    assert_eq!(yaml.as_deref(), Some(""));
    assert_eq!(body, "x\n");
}

#[test]
fn compares_sequences_by_length_then_elements() {
    let short = YamlValue::Sequence(vec![s("z")]);
    let long = YamlValue::Sequence(vec![s("a"), s("b")]);
    assert_eq!(compare_values(&short, &long), Ordering::Less);
    let ab = YamlValue::Sequence(vec![s("a"), s("B")]);
    let ac = YamlValue::Sequence(vec![s("a"), s("c")]);
    assert_eq!(compare_values(&ab, &ac), Ordering::Less);
    assert_eq!(compare_values(&mapping(vec![]), &mapping(vec![("k", s("v"))])), Ordering::Equal);
    assert_eq!(compare_values(&s("x"), &long), Ordering::Less);
}

#[test]
fn front_matter_round_trip() {
    for (y, b) in [("", "body"), ("title: X\n", ""), ("a: 1\n  --- not alone\nb: ....\n", "# Heading\n---\nmore")] {
        let text = format!("---\n{y}---\n{b}");
        let (yaml, body) = split_front_matter(&text);
        assert_eq!(yaml.as_deref(), Some(y));
        assert_eq!(body, b);
    }
}
