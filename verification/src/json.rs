//! JSON documents as plain values, parsed by `serde_json`.
use vstd::prelude::*;

verus! {

/// A parsed JSON value as the library reads it. A number is kept as what
/// `serde_json::Value::as_i64` gives (`None` for a float or an integer past
/// `i64`); objects list their entries in key order.
#[derive(Debug)]
pub enum JsonValue {
    Null,
    Bool(bool),
    Number(Option<i64>),
    String(String),
    Array(Vec<JsonValue>),
    Object(Vec<(String, JsonValue)>),
}

/// The text-level view of a JSON value.
pub enum JsonView {
    Null,
    Bool(bool),
    Number(Option<i64>),
    String(Seq<char>),
    Array(Seq<JsonView>),
    Object(Seq<(Seq<char>, JsonView)>),
}

/// The view of a JSON value.
pub open spec fn json_view(v: JsonValue) -> JsonView
    decreases v,
{
    match v {
        JsonValue::Null => JsonView::Null,
        JsonValue::Bool(b) => JsonView::Bool(b),
        JsonValue::Number(n) => JsonView::Number(n),
        JsonValue::String(s) => JsonView::String(s@),
        JsonValue::Array(a) => JsonView::Array(
            Seq::new(
                a@.len(),
                |i: int|
                    {
                        if 0 <= i < a@.len() {
                            json_view(a@[i])
                        } else {
                            JsonView::Null
                        }
                    },
            ),
        ),
        JsonValue::Object(o) => JsonView::Object(
            Seq::new(
                o@.len(),
                |i: int|
                    {
                        if 0 <= i < o@.len() {
                            (o@[i].0@, json_view(o@[i].1))
                        } else {
                            (Seq::empty(), JsonView::Null)
                        }
                    },
            ),
        ),
    }
}

/// What `serde_json::from_str::<serde_json::Value>` makes of a text: its
/// value, or the `Display` text of its error. Objects are `BTreeMap`s here,
/// so their entries come in key order: a function of the text alone.
pub uninterp spec fn json_parsed(src: Seq<char>) -> Result<JsonView, Seq<char>>;

/// The `serde_json` value type, carried through opaquely.
#[verifier::external_type_specification]
#[verifier::external_body]
pub struct ExJsonValue(serde_json::Value);

/// Converts a `serde_json::Value` into the library's plain form, entry for
/// entry (numbers through `as_i64`).
#[verifier::external_body]
fn json_plain(v: &serde_json::Value) -> JsonValue {
    match v {
        serde_json::Value::Null => JsonValue::Null,
        serde_json::Value::Bool(b) => JsonValue::Bool(*b),
        serde_json::Value::Number(n) => JsonValue::Number(n.as_i64()),
        serde_json::Value::String(s) => JsonValue::String(s.clone()),
        serde_json::Value::Array(a) => JsonValue::Array(a.iter().map(json_plain).collect()),
        serde_json::Value::Object(o) => JsonValue::Object(o.iter().map(|(k, x)| (k.clone(), json_plain(x))).collect()),
    }
}

/// Parses a JSON text with `serde_json::from_str`; the result, or the
/// error's `Display` text, is what `json_parsed` names.
#[verifier::external_body]
pub fn parse_json(src: &str) -> (r: Result<JsonValue, String>)
    ensures
        match r {
            Ok(v) => json_parsed(src@) == Ok::<JsonView, Seq<char>>(json_view(v)),
            Err(e) => json_parsed(src@) == Err::<JsonView, Seq<char>>(e@),
        },
{
    match serde_json::from_str::<serde_json::Value>(src) {
        Ok(v) => Ok(json_plain(&v)),
        Err(e) => Err(e.to_string()),
    }
}

} // verus!
