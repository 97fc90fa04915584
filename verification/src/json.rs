//! The library's model of a JSON value, and the calls into `serde_json` that
//! parse and print one.
use vstd::prelude::*;

verus! {

/// A JSON value: the shape `serde_json::Value` has, with a number kept as the
/// text `serde_json` prints for it and an object as its members in the order
/// `serde_json` keeps them.
#[derive(Debug)]
pub enum JsonValue {
    Null,
    Bool(bool),
    Number(String),
    String(String),
    Array(Vec<JsonValue>),
    Object(Vec<(String, JsonValue)>),
}

/// A JSON value as plain values.
pub enum JsonModel {
    Null,
    Bool(bool),
    Number(Seq<char>),
    Str(Seq<char>),
    Array(Seq<JsonModel>),
    Object(Seq<(Seq<char>, JsonModel)>),
}

/// The plain values of `v`.
pub open spec fn json_model(v: JsonValue) -> JsonModel
    decreases v,
{
    match v {
        JsonValue::Null => JsonModel::Null,
        JsonValue::Bool(b) => JsonModel::Bool(b),
        JsonValue::Number(t) => JsonModel::Number(t@),
        JsonValue::String(s) => JsonModel::Str(s@),
        JsonValue::Array(a) => JsonModel::Array(
            Seq::new(a@.len(), |i: int| if 0 <= i < a@.len() { json_model(a@[i]) } else { JsonModel::Null }),
        ),
        JsonValue::Object(m) => JsonModel::Object(
            Seq::new(
                m@.len(),
                |i: int|
                    if 0 <= i < m@.len() {
                        (m@[i].0@, json_model(m@[i].1))
                    } else {
                        (Seq::empty(), JsonModel::Null)
                    },
            ),
        ),
    }
}

/// The plain values of an array are those of its elements.
pub proof fn lemma_array_model(a: Vec<JsonValue>)
    ensures
        JsonValue::Array(a)@ == JsonModel::Array(a@.map_values(|x: JsonValue| x@)),
{
    let v = JsonValue::Array(a);
    let s = match v@ {
        JsonModel::Array(s) => s,
        _ => Seq::empty(),
    };
    assert(s =~= a@.map_values(|x: JsonValue| x@));
}

/// The plain values of an object are those of its members.
pub proof fn lemma_object_model(m: Vec<(String, JsonValue)>)
    ensures
        JsonValue::Object(m)@ == JsonModel::Object(m@.map_values(|e: (String, JsonValue)| (e.0@, e.1@))),
{
    let v = JsonValue::Object(m);
    let s = match v@ {
        JsonModel::Object(s) => s,
        _ => Seq::empty(),
    };
    assert(s =~= m@.map_values(|e: (String, JsonValue)| (e.0@, e.1@)));
}

/// The plain values of an optional JSON value.
pub open spec fn opt_json(o: Option<JsonValue>) -> Option<JsonModel> {
    match o {
        Some(v) => Some(v@),
        None => None,
    }
}

impl View for JsonValue {
    type V = JsonModel;

    open spec fn view(&self) -> JsonModel {
        json_model(*self)
    }
}

#[verifier::external_type_specification]
#[verifier::external_body]
pub struct ExOutsideJsonValue(serde_json::Value);

/// What `serde_json::from_str::<serde_json::Value>` makes of `text`, in the
/// library's model (`None` when the text is not valid JSON).
pub uninterp spec fn json_document(text: Seq<char>) -> Option<JsonModel>;

/// The compact text `serde_json` prints (`Display`) for the value modelled by
/// `v`.
pub uninterp spec fn json_text(v: JsonModel) -> Seq<char>;

/// The library's model of a `serde_json::Value`, variant by variant.
#[verifier::external_body]
fn from_outside(v: serde_json::Value) -> JsonValue {
    match v {
        serde_json::Value::Null => JsonValue::Null,
        serde_json::Value::Bool(b) => JsonValue::Bool(b),
        serde_json::Value::Number(n) => JsonValue::Number(n.to_string()),
        serde_json::Value::String(s) => JsonValue::String(s),
        serde_json::Value::Array(a) => JsonValue::Array(a.into_iter().map(from_outside).collect()),
        serde_json::Value::Object(m) => JsonValue::Object(m.into_iter().map(|(k, x)| (k, from_outside(x))).collect()),
    }
}

/// The `serde_json::Value` modelled by `v`, variant by variant.
#[verifier::external_body]
fn to_outside(v: &JsonValue) -> serde_json::Value {
    match v {
        JsonValue::Null => serde_json::Value::Null,
        JsonValue::Bool(b) => serde_json::Value::Bool(*b),
        JsonValue::Number(t) => serde_json::from_str::<serde_json::Number>(t).map_or(serde_json::Value::Null, serde_json::Value::Number),
        JsonValue::String(s) => serde_json::Value::String(s.clone()),
        JsonValue::Array(a) => serde_json::Value::Array(a.iter().map(to_outside).collect()),
        JsonValue::Object(m) => serde_json::Value::Object(m.iter().map(|(k, x)| (k.clone(), to_outside(x))).collect()),
    }
}

/// `serde_json::from_str::<serde_json::Value>`: the result is the library's
/// model of the value `serde_json` parses from `text`, or `None` on a parse
/// error. It is a function of `text` alone; which texts are valid JSON and what
/// they parse to is not stated.
#[verifier::external_body]
pub(crate) fn parse_json(text: &str) -> (r: Option<JsonValue>)
    ensures
        opt_json(r) == json_document(text@),
{
    serde_json::from_str::<serde_json::Value>(text).ok().map(from_outside)
}

/// `serde_json::Value`'s `Display` (`to_string`): the compact JSON text of the
/// value modelled by `v`. It is a function of `v` alone; the text itself is
/// not stated.
#[verifier::external_body]
pub(crate) fn print_json(v: &JsonValue) -> (r: String)
    ensures
        r@ == json_text(v@),
{
    to_outside(v).to_string()
}

} // verus!
