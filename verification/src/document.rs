//! Reading a TOML document with the `toml` parser.
//!
//! The parser and the insertion-ordered map that holds a document's root table are used as
//! they are. Nothing in this file is proved: each item states what is taken on trust.

use indexmap::IndexMap;
use vstd::prelude::*;

use crate::value::Node;
use crate::value::TomlValue;

verus! {

/// The insertion-ordered hash map of the `indexmap` crate.
#[verifier::external_type_specification]
#[verifier::external_body]
#[verifier::reject_recursive_types(K)]
#[verifier::reject_recursive_types(V)]
#[verifier::reject_recursive_types(S)]
pub struct ExIndexMap<K, V, S>(indexmap::IndexMap<K, V, S>);

/// The error of the `toml` parser.
#[verifier::external_type_specification]
#[verifier::external_body]
pub struct ExTomlError(toml::de::Error);

/// The value tree of the `toml` parser.
#[verifier::external_type_specification]
#[verifier::external_body]
pub struct ExTomlValue(toml::Value);

/// The entries of a root table, each key and value by its model, in the order of insertion.
pub uninterp spec fn root_entries(root: IndexMap<String, TomlValue>) -> Seq<(Seq<char>, Node)>;

/// What `toml::from_str` makes of a text: the entries of the document's root table in
/// document order, or `None` where the parser rejects the text.
pub uninterp spec fn toml_document(text: Seq<char>) -> Option<Seq<(Seq<char>, Node)>>;

/// `toml::de::Error::message`: what went wrong, in the parser's words.
pub assume_specification[ toml::de::Error::message ](error: &toml::de::Error) -> (message: &str)
;

/// `toml::de::Error::span`: where in the text it went wrong, as a range of byte offsets, if the
/// parser recorded it.
pub assume_specification[ toml::de::Error::span ](error: &toml::de::Error) -> (span: Option<
    core::ops::Range<usize>,
>)
;

/// `IndexMap::len`: the number of entries of the map.
#[verifier::external_body]
pub(crate) fn root_len(root: &IndexMap<String, TomlValue>) -> (n: usize)
    ensures
        n == root_entries(*root).len(),
{
    root.len()
}

/// `IndexMap::get_index`: the key and the value at position `index`, which the map has for
/// every index below its length.
#[verifier::external_body]
pub(crate) fn root_entry(root: &IndexMap<String, TomlValue>, index: usize) -> (entry: Option<
    (&String, &TomlValue),
>)
    ensures
        index < root_entries(*root).len() ==> entry is Some,
        entry matches Some((key, value)) ==> index < root_entries(*root).len() && (key@, value@)
            == root_entries(*root)[index as int],
{
    root.get_index(index)
}

/// Moves a value of the parser, a `toml::Value`, into the library's type, variant by variant
/// and child by child, for `read_document`. A float and a datetime become the text that their
/// `to_string` writes; a table's entries keep the order in which `toml::Table` hands them out,
/// the order of the document.
#[verifier::external_body]
fn lower(value: toml::Value) -> TomlValue {
    match value {
        toml::Value::String(s) => TomlValue::String(s),
        toml::Value::Integer(i) => TomlValue::Integer(i),
        toml::Value::Float(f) => TomlValue::Float(f.to_string()),
        toml::Value::Boolean(b) => TomlValue::Boolean(b),
        toml::Value::Datetime(d) => TomlValue::Datetime(d.to_string()),
        toml::Value::Array(a) => TomlValue::Array(a.into_iter().map(lower).collect()),
        toml::Value::Table(t) => TomlValue::Table(
            t.into_iter().map(|(k, v)| (k, lower(v))).collect(),
        ),
    }
}

/// `toml::from_str`, read into an `IndexMap` so that the root table keeps the document's
/// order. The parser is a function of the text alone: the entries that come back are those
/// that `toml_document` names, and the parser fails exactly where that is `None`.
#[verifier::external_body]
pub(crate) fn read_document(text: &str) -> (document: Result<
    IndexMap<String, TomlValue>,
    toml::de::Error,
>)
    ensures
        match document {
            Ok(root) => toml_document(text@) == Some(root_entries(root)),
            Err(_) => toml_document(text@) is None,
        },
{
    toml::from_str::<IndexMap<String, toml::Value>>(text).map(
        |root| root.into_iter().map(|(k, v)| (k, lower(v))).collect(),
    )
}

} // verus!
