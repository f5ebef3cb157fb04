//! The two interchangeable parsers that turn a line of text into a `JValue`.
use vstd::prelude::*;
use crate::error::MyError;
use crate::value::JValue;

verus! {

/// Declares `serde_json::Value`, the document type of the `serde_json` parser.
#[verifier::external_type_specification]
#[verifier::external_body]
pub struct ExSerdeValue(serde_json::Value);

/// Declares `json::JsonValue`, the document type of the `json` parser.
#[verifier::external_type_specification]
#[verifier::external_body]
pub struct ExJsonValue(json::JsonValue);

/// Which parser turns text into documents. A run uses one of them throughout.
#[derive(Clone, Copy, Debug, PartialEq, Eq, Structural)]
pub enum Backend {
    SerdeJson,
    Json,
}

/// The document that `serde_json` reads from `text`, or `None` where it
/// reports an error.
pub uninterp spec fn serde_json_document(text: Seq<char>) -> Option<JValue>;

/// The document that `json` reads from `text`, or `None` where it reports an
/// error.
pub uninterp spec fn json_document(text: Seq<char>) -> Option<JValue>;

/// The document that `backend` reads from `text`, if any.
pub open spec fn document(backend: Backend, text: Seq<char>) -> Option<JValue> {
    match backend {
        Backend::SerdeJson => serde_json_document(text),
        Backend::Json => json_document(text),
    }
}

/// The error is the one that `backend` reports.
pub open spec fn is_parse_error(backend: Backend, e: MyError) -> bool {
    match backend {
        Backend::SerdeJson => e is SerdeJsonError,
        Backend::Json => e is JsonError,
    }
}

/// Rebuilds a `serde_json::Value` as a `JValue`, variant for variant, fields
/// in the map's order; a number keeps only its kind.
#[verifier::external_body]
fn from_serde_value(v: serde_json::Value) -> JValue {
    match v {
        serde_json::Value::Null => JValue::Null,
        serde_json::Value::Bool(b) => JValue::Bool(b),
        serde_json::Value::Number(_) => JValue::Number,
        serde_json::Value::String(s) => JValue::Str(s),
        serde_json::Value::Array(a) => JValue::Array(a.into_iter().map(from_serde_value).collect()),
        serde_json::Value::Object(m) => JValue::Object(
            m.into_iter().map(|(k, x)| (k, from_serde_value(x))).collect(),
        ),
    }
}

/// Rebuilds a `json::JsonValue` as a `JValue`, variant for variant, fields in
/// the object's order; both string variants become `JValue::Str`.
#[verifier::external_body]
fn from_json_value(v: &json::JsonValue) -> JValue {
    match v {
        json::JsonValue::Null => JValue::Null,
        json::JsonValue::Boolean(b) => JValue::Bool(*b),
        json::JsonValue::Number(_) => JValue::Number,
        json::JsonValue::Short(s) => JValue::Str(s.as_str().to_string()),
        json::JsonValue::String(s) => JValue::Str(s.clone()),
        json::JsonValue::Array(a) => JValue::Array(a.iter().map(from_json_value).collect()),
        json::JsonValue::Object(o) => JValue::Object(
            o.iter().map(|(k, x)| (k.to_string(), from_json_value(x))).collect(),
        ),
    }
}

/// Relies on `serde_json::from_str::<serde_json::Value>`: whether it succeeds,
/// and the document it returns, depend on the text alone.
#[verifier::external_body]
fn serde_json_parse(text: &str) -> (r: Result<JValue, serde_json::Error>)
    ensures
        r is Ok <==> serde_json_document(text@) is Some,
        r is Ok ==> serde_json_document(text@) == Some(r->Ok_0),
{
    serde_json::from_str::<serde_json::Value>(text).map(from_serde_value)
}

/// Relies on `json::parse`: whether it succeeds, and the document it returns,
/// depend on the text alone.
#[verifier::external_body]
fn json_parse(text: &str) -> (r: Result<JValue, json::Error>)
    ensures
        r is Ok <==> json_document(text@) is Some,
        r is Ok ==> json_document(text@) == Some(r->Ok_0),
{
    json::parse(text).map(|v| from_json_value(&v))
}

/// Parses one line with `backend`.
pub fn parse_line(line: &str, backend: Backend) -> (r: Result<JValue, MyError>)
    ensures
        r is Ok <==> document(backend, line@) is Some,
        r is Ok ==> document(backend, line@) == Some(r->Ok_0),
        r is Err ==> is_parse_error(backend, r->Err_0),
{
    match backend {
        Backend::SerdeJson => match serde_json_parse(line) {
            Ok(v) => Ok(v),
            Err(e) => Err(MyError::from(e)),
        },
        Backend::Json => match json_parse(line) {
            Ok(v) => Ok(v),
            Err(e) => Err(MyError::from(e)),
        },
    }
}

} // verus!
