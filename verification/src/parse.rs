//! Documents in TOML, YAML and JSON.
use crate::json::{Json, JsonView};
use vstd::prelude::*;
use vstd::string::*;

verus! {

// ---------------------------------------------------------------------------
// Reading
// ---------------------------------------------------------------------------

/// `serde_json::Value`: a document.
#[verifier::external_type_specification]
#[verifier::external_body]
pub struct ExValue(serde_json::Value);

/// What a document says.
pub uninterp spec fn value_tree(value: serde_json::Value) -> JsonView;

/// What an optional document says.
pub open spec fn opt_tree(j: Option<Json>) -> Option<JsonView> {
    match j {
        Some(j) => Some(j@),
        None => None,
    }
}

/// Reads the variants of `serde_json::Value` one by one; a number is kept as the text that its
/// `Display` gives.
#[verifier::external_body]
fn from_value(value: &serde_json::Value) -> (r: Json)
    ensures
        r@ == value_tree(*value),
{
    match value {
        serde_json::Value::Null => Json::Null,
        serde_json::Value::Bool(b) => Json::Bool(*b),
        serde_json::Value::Number(n) => Json::Number(n.to_string()),
        serde_json::Value::String(t) => Json::Text(t.clone()),
        serde_json::Value::Array(v) => Json::List(v.iter().map(from_value).collect()),
        serde_json::Value::Object(o) => Json::Object(
            o.iter().map(|(k, v)| (k.clone(), from_value(v))).collect(),
        ),
    }
}

/// What a text says as TOML; `None` where it cannot be read.
pub uninterp spec fn toml_tree(text: Seq<char>) -> Option<JsonView>;

/// Calls `toml::from_str`, which reads a document or fails. The document is a function of the text.
#[verifier::external_body]
fn parse_toml(text: &str) -> (r: Option<serde_json::Value>)
    ensures
        match r {
            Some(value) => toml_tree(text@) == Some(value_tree(value)),
            None => toml_tree(text@) is None,
        },
{
    toml::from_str(text).ok()
}

/// What a text says as YAML; `None` where it cannot be read.
pub uninterp spec fn yaml_tree(text: Seq<char>) -> Option<JsonView>;

/// Calls `serde_yaml::from_str`, which reads a document or fails. The document is a function of the
/// text.
#[verifier::external_body]
fn parse_yaml(text: &str) -> (r: Option<serde_json::Value>)
    ensures
        match r {
            Some(value) => yaml_tree(text@) == Some(value_tree(value)),
            None => yaml_tree(text@) is None,
        },
{
    serde_yaml::from_str(text).ok()
}

/// What a text says as JSON; `None` where it cannot be read.
pub uninterp spec fn json_tree(text: Seq<char>) -> Option<JsonView>;

/// Calls `serde_json::from_str`, which reads a document or fails. The document is a function of the
/// text.
#[verifier::external_body]
fn parse_json(text: &str) -> (r: Option<serde_json::Value>)
    ensures
        match r {
            Some(value) => json_tree(text@) == Some(value_tree(value)),
            None => json_tree(text@) is None,
        },
{
    serde_json::from_str(text).ok()
}

/// Reads a TOML document.
pub fn read_toml(text: &str) -> (r: Option<Json>)
    ensures
        opt_tree(r) == toml_tree(text@),
{
    match parse_toml(text) {
        Some(value) => Some(from_value(&value)),
        None => None,
    }
}

/// Reads a YAML document.
pub fn read_yaml(text: &str) -> (r: Option<Json>)
    ensures
        opt_tree(r) == yaml_tree(text@),
{
    match parse_yaml(text) {
        Some(value) => Some(from_value(&value)),
        None => None,
    }
}

/// Reads a JSON document.
pub fn read_json(text: &str) -> (r: Option<Json>)
    ensures
        opt_tree(r) == json_tree(text@),
{
    match parse_json(text) {
        Some(value) => Some(from_value(&value)),
        None => None,
    }
}

// ---------------------------------------------------------------------------
// Writing
// ---------------------------------------------------------------------------

/// What a document says once it is a `serde_json::Value`: the fields of an object may come in
/// another order, and a number may be written in another way.
pub uninterp spec fn as_value(tree: JsonView) -> JsonView;

/// Makes the variants of `serde_json::Value` one by one; a number is read by `serde_json::from_str`.
/// What the value says is a function of the document.
#[verifier::external_body]
fn to_value(j: &Json) -> (r: serde_json::Value)
    ensures
        value_tree(r) == as_value(j@),
{
    match j {
        Json::Null => serde_json::Value::Null,
        Json::Bool(b) => serde_json::Value::Bool(*b),
        Json::Number(n) => serde_json::from_str::<serde_json::Number>(n).map(
            serde_json::Value::Number,
        ).unwrap_or_default(),
        Json::Text(t) => serde_json::Value::String(t.clone()),
        Json::List(v) => serde_json::Value::Array(v.iter().map(to_value).collect()),
        Json::Object(v) => serde_json::Value::Object(
            v.iter().map(|(k, x)| (k.clone(), to_value(x))).collect(),
        ),
    }
}

/// A document as JSON with line breaks and indents.
pub uninterp spec fn prettified(tree: JsonView) -> Seq<char>;

/// Calls `serde_json::to_string_pretty`. The text is a function of what the value says.
#[verifier::external_body]
fn prettify(value: &serde_json::Value) -> (r: String)
    ensures
        r@ == prettified(value_tree(*value)),
{
    serde_json::to_string_pretty(value).unwrap_or_default()
}

/// A document as YAML.
pub uninterp spec fn yamlified(tree: JsonView) -> Seq<char>;

/// Calls `serde_yaml::to_string`. The text is a function of what the value says.
#[verifier::external_body]
fn yamlify(value: &serde_json::Value) -> (r: String)
    ensures
        r@ == yamlified(value_tree(*value)),
{
    serde_yaml::to_string(value).unwrap_or_default()
}

/// Writes a document as JSON with line breaks and indents.
pub fn to_string_pretty(j: &Json) -> (r: String)
    ensures
        r@ == prettified(as_value(j@)),
{
    prettify(&to_value(j))
}

/// Writes a document as YAML.
pub fn write_yaml(j: &Json) -> (r: String)
    ensures
        r@ == yamlified(as_value(j@)),
{
    yamlify(&to_value(j))
}

} // verus!
