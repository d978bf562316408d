//! Reading YAML text into a document node, through `serde_yaml`.
use crate::config::Config;
use crate::document::{read_document, Node, ParseError};
use vstd::prelude::*;

verus! {

#[verifier::external_type_specification]
#[verifier::external_body]
pub struct ExYamlValue(serde_yaml::Value);

/// The document node that `serde_yaml` reads from a text, if the text is
/// one well-formed YAML document. It depends on the text alone.
pub uninterp spec fn yaml_document(text: Seq<char>) -> Option<Node>;

/// Relies on the variants of `serde_yaml::Value`: one arm per variant,
/// contents copied out, the children of a sequence or a mapping converted
/// the same way in their own order. A number or a tagged value carries no
/// string, boolean, list or table, so it becomes `Node::Other`.
#[verifier::external_body]
fn node_from_value(v: &serde_yaml::Value) -> Node {
    match v {
        serde_yaml::Value::Null => Node::Null,
        serde_yaml::Value::Bool(b) => Node::Bool(*b),
        serde_yaml::Value::String(s) => Node::Str(s.clone()),
        serde_yaml::Value::Sequence(items) => Node::List(items.iter().map(node_from_value).collect()),
        serde_yaml::Value::Mapping(m) => Node::Table(
            m.iter().map(|(k, x)| (node_from_value(k), node_from_value(x))).collect(),
        ),
        serde_yaml::Value::Number(_) => Node::Other,
        serde_yaml::Value::Tagged(_) => Node::Other,
    }
}

/// Relies on `serde_yaml::from_str` to parse one YAML document, and on the
/// `Display` impl of `serde_yaml::Error` for the message where it fails.
#[verifier::external_body]
fn parse_yaml(text: &str) -> (r: Result<Node, String>)
    ensures
        r.is_ok() == yaml_document(text@).is_some(),
        r.is_ok() ==> r.unwrap() == yaml_document(text@).unwrap(),
{
    match serde_yaml::from_str::<serde_yaml::Value>(text) {
        Ok(v) => Ok(node_from_value(&v)),
        Err(e) => Err(e.to_string()),
    }
}

impl Config {
    /// Reads a configuration from YAML text. Text that is not one
    /// well-formed YAML document is a `Syntax` error; otherwise the result
    /// is what `from_node` gives on the document.
    pub fn from_yaml(yaml: &str) -> (r: Result<Config, ParseError>)
        ensures
            yaml_document(yaml@).is_none() ==> r.is_err() && r.unwrap_err() is Syntax,
            yaml_document(yaml@).is_some() ==> r.is_ok() == read_document(
                yaml_document(yaml@).unwrap(),
            ).is_some(),
            yaml_document(yaml@).is_some() && r.is_err() ==> r.unwrap_err() is Structure,
            r.is_ok() ==> Some(r.unwrap()@) == read_document(yaml_document(yaml@).unwrap()),
    {
        match parse_yaml(yaml) {
            Ok(n) => Config::from_node(&n),
            Err(msg) => Err(ParseError::Syntax(msg)),
        }
    }
}

} // verus!
