//! The trusted boundary to the YAML parser: the one place the library
//! calls into serde_yaml. Parsing is named by `yaml_of`; everything the
//! rest of the library proves about YAML sources goes through that name.

use vstd::prelude::*;

verus! {

/// What parsing a YAML document yields: `None` when the text is not a
/// well-formed document, otherwise the parsed tree with every scalar
/// normalized to its text.
pub uninterp spec fn yaml_of(s: Seq<char>) -> Option<crate::node::NodeView>;

/// Relies on serde_yaml::from_str: success and the parsed tree are a
/// function of the text alone; the tree is normalized by `yaml_value`.
#[verifier::external_body]
pub fn parse_yaml(s: &str) -> (r: Result<crate::node::Node, crate::error::Error>)
    ensures
        match r {
            Ok(v) => yaml_of(s@) == Some(v@),
            Err(e) => yaml_of(s@) is None && e == crate::error::Error::Parse,
        },
{
    match serde_yaml::from_str::<serde_yaml::Value>(s) {
        Ok(v) => Ok(yaml_value(v)),
        Err(_) => Err(crate::error::Error::Parse),
    }
}

/// Relies on serde_yaml::Value as the opaque parse tree the wrapper below
/// converts from.
#[verifier::external_type_specification]
#[verifier::external_body]
pub struct ExYamlValue(serde_yaml::Value);

/// Relies on serde_yaml::Value: maps each variant of the parsed tree to
/// the library's own value type, one arm per variant. Scalars keep their
/// text (booleans and numbers as serde_yaml prints them, null as empty
/// text), sequences and mappings convert entry by entry in order, and a
/// tag is dropped in favor of the tagged value.
#[verifier::external_body]
fn yaml_value(v: serde_yaml::Value) -> crate::node::Node {
    match v {
        serde_yaml::Value::Null => crate::node::Node::Scalar(String::new()),
        serde_yaml::Value::Bool(b) => crate::node::Node::Scalar(b.to_string()),
        serde_yaml::Value::Number(n) => crate::node::Node::Scalar(n.to_string()),
        serde_yaml::Value::String(s) => crate::node::Node::Scalar(s),
        serde_yaml::Value::Sequence(xs) => crate::node::Node::Sequence(
            xs.into_iter().map(yaml_value).collect(),
        ),
        serde_yaml::Value::Mapping(m) => crate::node::Node::Mapping(
            m.into_iter().map(|(k, x)| (yaml_value(k), yaml_value(x))).collect(),
        ),
        serde_yaml::Value::Tagged(t) => yaml_value(t.value),
    }
}

} // verus!
