//! JSON documents as plain values: what `serde_json` reads from bytes,
//! mirrored variant by variant.
use vstd::prelude::*;

verus! {

#[verifier::external_type_specification]
#[verifier::external_body]
pub struct ExJsonError(serde_json::Error);

#[verifier::external_type_specification]
#[verifier::external_body]
pub struct ExJsonRawValue(serde_json::Value);

/// A JSON value. A number is held as `serde_json::Number::as_i64` sees it:
/// its value when it is an integer that fits an `i64`, else `None`. An
/// object's entries come in `serde_json`'s key order, each key once.
#[derive(Debug)]
pub enum JsonValue {
    Null,
    Bool(bool),
    Number(Option<i64>),
    Text(String),
    Array(Vec<JsonValue>),
    Object(Vec<(String, JsonValue)>),
}

/// The characters of a [`JsonValue`].
pub enum JsonView {
    Null,
    Bool(bool),
    Number(Option<i64>),
    Text(Seq<char>),
    Array(Seq<JsonView>),
    Object(Seq<(Seq<char>, JsonView)>),
}

/// The view of a JSON value.
pub open spec fn json_view(v: JsonValue) -> JsonView
    decreases v, 0nat,
{
    match v {
        JsonValue::Null => JsonView::Null,
        JsonValue::Bool(b) => JsonView::Bool(b),
        JsonValue::Number(n) => JsonView::Number(n),
        JsonValue::Text(s) => JsonView::Text(s@),
        JsonValue::Array(items) => JsonView::Array(items_view(items@, items@.len())),
        JsonValue::Object(entries) => JsonView::Object(entries_view(entries@, entries@.len())),
    }
}

/// The views of the first `n` items.
pub open spec fn items_view(items: Seq<JsonValue>, n: nat) -> Seq<JsonView>
    decreases items, n,
{
    if n == 0 || n > items.len() {
        Seq::empty()
    } else {
        items_view(items, (n - 1) as nat).push(json_view(items[n - 1]))
    }
}

/// The views of the first `n` object entries.
pub open spec fn entries_view(entries: Seq<(String, JsonValue)>, n: nat) -> Seq<(Seq<char>, JsonView)>
    decreases entries, n,
{
    if n == 0 || n > entries.len() {
        Seq::empty()
    } else {
        entries_view(entries, (n - 1) as nat).push(
            (entries[n - 1].0@, json_view(entries[n - 1].1)),
        )
    }
}

/// The JSON value that `serde_json::from_slice` reads from `raw`, or `None`
/// when `raw` is not JSON.
pub uninterp spec fn json_value(raw: Seq<u8>) -> Option<JsonView>;

/// Mirrors a `serde_json::Value`, variant by variant.
#[verifier::external_body]
fn json_of(v: &serde_json::Value) -> JsonValue {
    match v {
        serde_json::Value::Null => JsonValue::Null,
        serde_json::Value::Bool(b) => JsonValue::Bool(*b),
        serde_json::Value::Number(n) => JsonValue::Number(n.as_i64()),
        serde_json::Value::String(s) => JsonValue::Text(s.clone()),
        serde_json::Value::Array(items) => JsonValue::Array(items.iter().map(json_of).collect()),
        serde_json::Value::Object(map) => JsonValue::Object(
            map.iter().map(|(k, item)| (k.clone(), json_of(item))).collect(),
        ),
    }
}

/// Reads `raw` as JSON with `serde_json::from_slice`.
#[verifier::external_body]
pub(crate) fn parse_json(raw: &[u8]) -> (r: Result<JsonValue, serde_json::Error>)
    ensures
        match r {
            Ok(v) => json_value(raw@) == Some(json_view(v)),
            Err(_) => json_value(raw@) is None,
        },
{
    serde_json::from_slice::<serde_json::Value>(raw).map(|v| json_of(&v))
}

} // verus!
