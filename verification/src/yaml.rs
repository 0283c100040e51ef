//! YAML documents as text: read and written by the `serde_yaml` crate.

use vstd::prelude::*;
use serde_yaml::Value as Node;
use crate::value::{ValueView, YamlNumber, YamlValue};

verus! {

/// A document of the `serde_yaml` crate. Nothing is known of what it holds.
#[verifier::external_type_specification]
#[verifier::external_body]
pub struct ExNode(serde_yaml::Value);

/// A number of the `serde_yaml` crate. Nothing is known of what it holds.
#[verifier::external_type_specification]
#[verifier::external_body]
pub struct ExNodeNumber(serde_yaml::Number);

/// The document that `serde_yaml` reads from a text; `None` where the text is no single
/// YAML document.
pub uninterp spec fn yaml_parse(text: Seq<char>) -> Option<ValueView>;

/// The YAML text that `serde_yaml` writes for a document.
pub uninterp spec fn yaml_text(v: ValueView) -> Seq<char>;

/// The same number as a value of this crate. A float goes over by its written form.
#[verifier::external_body]
fn number_from_serde(n: &serde_yaml::Number) -> (r: YamlNumber) {
    match (n.as_u64(), n.as_i64()) {
        (Some(u), _) => YamlNumber::PosInt(u),
        (_, Some(i)) => YamlNumber::NegInt(i),
        _ => YamlNumber::Float(n.to_string()),
    }
}

/// The same document as a value of this crate, node for node. A tagged node goes over by
/// what it tags.
#[verifier::external_body]
fn from_serde(v: &serde_yaml::Value) -> (r: YamlValue) {
    match v {
        Node::Null => YamlValue::Null,
        Node::Bool(b) => YamlValue::Bool(*b),
        Node::Number(n) => YamlValue::Number(number_from_serde(n)),
        Node::String(s) => YamlValue::String(s.clone()),
        Node::Sequence(items) => YamlValue::Sequence(items.iter().map(from_serde).collect()),
        Node::Mapping(m) => YamlValue::Mapping(
            m.iter().map(|(k, v)| (from_serde(k), from_serde(v))).collect(),
        ),
        Node::Tagged(t) => from_serde(&t.value),
    }
}

/// Reads a text as one YAML document with `serde_yaml::from_str`.
///
/// Trusted: the outcome depends on the text alone.
#[verifier::external_body]
pub(crate) fn parse_yaml(text: &str) -> (r: Option<YamlValue>)
    ensures
        match r {
            Some(v) => yaml_parse(text@) == Some(v@),
            None => yaml_parse(text@) is None,
        },
{
    serde_yaml::from_str::<serde_yaml::Value>(text).ok().map(|v| from_serde(&v))
}

/// The same number as a value of the `serde_yaml` crate. A float goes over by its written
/// form; one that `serde_yaml` does not read as a number goes as a string.
#[verifier::external_body]
fn number_to_serde(n: &YamlNumber) -> (r: serde_yaml::Value) {
    match n {
        YamlNumber::PosInt(u) => Node::Number((*u).into()),
        YamlNumber::NegInt(i) => Node::Number((*i).into()),
        YamlNumber::Float(t) => match t.parse::<serde_yaml::Number>() {
            Ok(n) => Node::Number(n),
            Err(_) => Node::String(t.clone()),
        },
    }
}

/// The same document as a value of the `serde_yaml` crate, node for node.
#[verifier::external_body]
fn to_serde(v: &YamlValue) -> (r: serde_yaml::Value) {
    match v {
        YamlValue::Null => Node::Null,
        YamlValue::Bool(b) => Node::Bool(*b),
        YamlValue::Number(n) => number_to_serde(n),
        YamlValue::String(s) => Node::String(s.clone()),
        YamlValue::Sequence(items) => Node::Sequence(items.iter().map(to_serde).collect()),
        YamlValue::Mapping(entries) => Node::Mapping(
            entries.iter().map(|e| (to_serde(&e.0), to_serde(&e.1))).collect(),
        ),
    }
}

/// Writes a document as YAML text with `serde_yaml::to_string`; the empty text where that
/// fails.
///
/// Trusted: the text depends on the document alone.
#[verifier::external_body]
pub(crate) fn emit_yaml(v: &YamlValue) -> (s: String)
    ensures
        s@ == yaml_text(v@),
{
    serde_yaml::to_string(&to_serde(v)).unwrap_or_default()
}

} // verus!
