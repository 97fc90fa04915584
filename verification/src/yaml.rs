//! The library's model of a parsed YAML document, and the calls into
//! `serde_yaml` that produce it.
use vstd::prelude::*;

use serde_yaml::Value;

verus! {

/// A YAML number as `serde_yaml` holds it: a non-negative integer, a negative
/// integer, or a float, which is kept as the text `serde_yaml` displays for it.
#[derive(Debug)]
pub enum YamlNumber {
    PosInt(u64),
    /// Always below zero.
    NegInt(i64),
    /// The float's display text (for example `2.0`, `1e20`, `.nan`, `-.inf`).
    Float(String),
}

/// A parsed YAML value: the shape `serde_yaml::Value` has, with numbers as
/// [`YamlNumber`] and mappings as their entries in document order. Tagged values
/// (`!Tag value`) are kept only as the fact that they are tagged.
#[derive(Debug)]
pub enum YamlValue {
    Null,
    Bool(bool),
    Number(YamlNumber),
    String(String),
    Sequence(Vec<YamlValue>),
    Mapping(Vec<(YamlValue, YamlValue)>),
    Tagged,
}

/// What `serde_yaml::from_str::<serde_yaml::Value>` makes of `text`, in the
/// library's model (`None` when the text is not valid YAML).
pub uninterp spec fn yaml_document(text: Seq<char>) -> Option<YamlValue>;

#[verifier::external_type_specification]
#[verifier::external_body]
pub struct ExOutsideYamlValue(serde_yaml::Value);

/// The library's model of a `serde_yaml::Value`, variant by variant.
#[verifier::external_body]
fn from_outside(v: &Value) -> YamlValue {
    match v {
        Value::Null => YamlValue::Null,
        Value::Bool(b) => YamlValue::Bool(*b),
        Value::Number(n) => YamlValue::Number(
            n.as_u64().map(YamlNumber::PosInt).or(n.as_i64().map(YamlNumber::NegInt)).unwrap_or_else(|| YamlNumber::Float(n.to_string())),
        ),
        Value::String(s) => YamlValue::String(s.clone()),
        Value::Sequence(s) => YamlValue::Sequence(s.iter().map(from_outside).collect()),
        Value::Mapping(m) => YamlValue::Mapping(m.iter().map(|(k, x)| (from_outside(k), from_outside(x))).collect()),
        Value::Tagged(_) => YamlValue::Tagged,
    }
}

/// `serde_yaml::from_str::<serde_yaml::Value>`: the result is the library's
/// model of the document `serde_yaml` parses from `text`, or `None` on a parse
/// error. It is a function of `text` alone; which texts are valid YAML and what
/// they parse to is not stated.
#[verifier::external_body]
pub(crate) fn parse_yaml(text: &str) -> (r: Option<YamlValue>)
    ensures
        r == yaml_document(text@),
{
    serde_yaml::from_str::<serde_yaml::Value>(text).ok().map(|v| from_outside(&v))
}

/// The order `serde_yaml` numbers get when both are widened to `f64` and
/// compared with `partial_cmp`, incomparable (NaN) pairs counting as equal:
/// negative, zero or positive.
pub uninterp spec fn number_order(a: YamlNumber, b: YamlNumber) -> int;

/// Compares two numbers as `f64` (`serde_yaml::Number::as_f64` and
/// `partial_cmp` on the two, `None` read as equal). The result is named by
/// [`number_order`]; stated beyond that: it is -1, 0 or 1, swapping the
/// arguments negates it (IEEE comparison is antisymmetric), equal numbers are
/// equal, and integers up to 2^53, which `f64` holds exactly, compare by value.
#[verifier::external_body]
pub(crate) fn compare_numbers(a: &YamlNumber, b: &YamlNumber) -> (r: i8)
    ensures
        r == number_order(*a, *b),
        -1 <= r <= 1,
        r == -number_order(*b, *a),
        *a == *b ==> r == 0,
        *a matches YamlNumber::PosInt(x) ==> (*b matches YamlNumber::PosInt(y) ==> (x
            <= 0x20_0000_0000_0000 && y <= 0x20_0000_0000_0000 ==> (r < 0 <==> x < y) && (r == 0
            <==> x == y))),
{
    let number = |n: &YamlNumber| match n {
        YamlNumber::PosInt(u) => serde_yaml::Number::from(*u),
        YamlNumber::NegInt(i) => serde_yaml::Number::from(*i),
        YamlNumber::Float(t) => t.parse::<serde_yaml::Number>().unwrap_or(serde_yaml::Number::from(0u64)),
    };
    match number(a).as_f64().partial_cmp(&number(b).as_f64()) {
        Some(std::cmp::Ordering::Less) => -1,
        Some(std::cmp::Ordering::Greater) => 1,
        _ => 0,
    }
}

} // verus!
