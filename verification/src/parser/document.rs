//! Reading a YAML document from its text and resolving what GitLab adds to YAML.
use vstd::prelude::*;

use serde_yaml::Value;

use crate::error::LabError;
use crate::parser::yaml::{
    entry_key_views, extends_rounds, lemma_mapping_view, resolve_extends, resolve_merge_keys,
    resolve_reference_tags, with_merge_keys, with_refs, Yaml, YamlView,
};

verus! {

/// Declares `serde_yaml::Value` to Verus, which carries it without looking inside.
#[verifier::external_type_specification]
#[verifier::external_body]
pub struct ExYamlValue(serde_yaml::Value);

/// Declares `serde_yaml::Number` to Verus, which carries it without looking inside.
#[verifier::external_type_specification]
#[verifier::external_body]
pub struct ExYamlNumber(serde_yaml::Number);

/// Converts a `serde_yaml::Number` to a `Yaml` scalar: an integer where `serde_yaml`
/// gives it as `i64` or `u64`, else its text. Nothing is claimed of the result.
#[verifier::external_body]
fn yaml_of_number(n: serde_yaml::Number) -> Yaml {
    match (n.as_i64(), n.as_u64()) {
        (Some(i), _) => Yaml::Int(i as i128),
        (None, Some(u)) => Yaml::Int(u as i128),
        (None, None) => Yaml::Float(n.to_string()),
    }
}

/// Converts a `serde_yaml::Value` to a `Yaml` node for node, a tag kept as
/// `serde_yaml` displays it, with its `!`. Nothing is claimed of the result.
#[verifier::external_body]
fn yaml_of_value(v: Value) -> Yaml {
    match v {
        Value::Null => Yaml::Null,
        Value::Bool(b) => Yaml::Bool(b),
        Value::Number(n) => yaml_of_number(n),
        Value::String(s) => Yaml::String(s),
        Value::Sequence(s) => Yaml::Sequence(s.into_iter().map(yaml_of_value).collect()),
        Value::Mapping(m) => Yaml::Mapping(m.into_iter().map(|(k, v)| (yaml_of_value(k), yaml_of_value(v))).collect()),
        Value::Tagged(t) => Yaml::Tagged(t.tag.to_string(), Box::new(yaml_of_value(t.value))),
    }
}

/// The document `serde_yaml::from_str` reads from a text, as `Yaml` holds it, or `None`
/// where the text is not YAML.
pub uninterp spec fn yaml_of_text(text: Seq<char>) -> Option<YamlView>;

/// `serde_yaml::from_str` into a `serde_yaml::Value`, converted to `Yaml`. The result
/// is only named: the document the text holds, or a parse error (whose message is
/// `serde_yaml`'s) exactly when the text is not YAML.
#[verifier::external_body]
fn yaml_from_text(content: &str) -> (r: Result<Yaml, LabError>)
    ensures
        match r {
            Ok(y) => yaml_of_text(content@) == Some(y@),
            Err(e) => yaml_of_text(content@) is None && e is YamlParse,
        },
{
    match serde_yaml::from_str::<Value>(content) {
        Ok(v) => Ok(yaml_of_value(v)),
        Err(e) => Err(LabError::YamlParse(e.to_string())),
    }
}

/// Parse YAML text into a document, or the parse error.
pub fn parse_document(content: &str) -> (r: Result<Yaml, LabError>)
    ensures
        match r {
            Ok(y) => yaml_of_text(content@) == Some(y@),
            Err(e) => yaml_of_text(content@) is None && e is YamlParse,
        },
{
    yaml_from_text(content)
}

/// A document with its `!reference` tags resolved, then, for a mapping, its
/// `extends:` applied.
pub open spec fn finished(y: YamlView) -> YamlView {
    let r = with_refs(y, y);
    match r {
        YamlView::Dict(m) => YamlView::Dict(extends_rounds(m, entry_key_views(m), 10)),
        _ => r,
    }
}

/// What loading a document without includes gives: merge keys resolved, then
/// `!reference` tags, then `extends:`.
pub open spec fn loaded(y: YamlView) -> YamlView {
    finished(with_merge_keys(y))
}

/// Resolve the `!reference` tags of a document whose includes are merged, then apply
/// `extends:` to its jobs.
pub fn finish_document(value: Yaml) -> (r: Yaml)
    ensures
        r@ == finished(value@),
{
    let mut v = value;
    resolve_reference_tags(&mut v);
    match v {
        Yaml::Mapping(mut m) => {
            proof {
                lemma_mapping_view(m);
            }
            resolve_extends(&mut m);
            proof {
                lemma_mapping_view(m);
            }
            Yaml::Mapping(m)
        },
        other => other,
    }
}

/// Load a document from its text: parse it, resolve its merge keys (`<<:`), its
/// `!reference` tags and its `extends:`. Includes are not fetched.
pub fn load_text(content: &str) -> (r: Result<Yaml, LabError>)
    ensures
        match yaml_of_text(content@) {
            Some(y) => r matches Ok(v) && v@ == loaded(y),
            None => r matches Err(e) && e is YamlParse,
        },
{
    let mut value = match parse_document(content) {
        Ok(v) => v,
        Err(e) => {
            return Err(e);
        },
    };
    resolve_merge_keys(&mut value);
    Ok(finish_document(value))
}


} // verus!
