//! A parsed TOML document, mirrored into plain values.
//!
//! The `toml` crate does the parsing; what comes back is mirrored into
//! [`TomlValue`], which keeps only what the configuration logic reads:
//! strings and tables (in document order). Every other TOML value is carried
//! as [`TomlValue::Other`], so the verified validation can reject it.

use vstd::prelude::*;

verus! {

/// A TOML value as the configuration logic sees it: a string, a table of
/// key/value entries in document order, or anything else.
pub enum TomlValue {
    Str(String),
    Table(Vec<(String, TomlValue)>),
    Other,
}

/// The `toml` crate's value type, declared so that the mirroring functions
/// can take it; no verified code looks inside it.
#[verifier::external_type_specification]
#[verifier::external_body]
pub struct ExTomlValue(toml::Value);

/// The `toml` crate's table type, declared so that the mirroring functions
/// can take it; no verified code looks inside it.
#[verifier::external_type_specification]
#[verifier::external_body]
#[verifier::reject_recursive_types(K)]
#[verifier::reject_recursive_types(V)]
pub struct ExTomlMap<K, V>(toml::map::Map<K, V>);

/// What the `toml` parser yields for a document: its mirrored value tree on
/// success, nothing on rejection. The parse is a function of the text alone.
pub uninterp spec fn toml_document(s: Seq<char>) -> Option<TomlValue>;

/// The message the `toml` parser rejects a document with; a function of the
/// text alone.
pub uninterp spec fn toml_error(s: Seq<char>) -> Seq<char>;

/// Relies on `str::parse::<toml::Table>` of the `toml` crate: a TOML document
/// either parses into a table of values — with the `preserve_order` feature,
/// entries stand in document order — or is rejected with a message; a key
/// repeated within one table is rejected with a message that contains the
/// repeated key between backticks after the words "duplicate key".
#[verifier::external_body]
pub(crate) fn parse_toml(content: &str) -> (r: Result<TomlValue, String>)
    ensures
        r matches Ok(v) ==> toml_document(content@) == Some(v),
        r matches Err(m) ==> toml_document(content@) is None && m@ == toml_error(content@),
{
    match content.parse::<toml::Table>() {
        Ok(t) => Ok(mirror_table(t)),
        Err(e) => Err(e.to_string()),
    }
}

/// Relies on `toml::Value`: its variants are told apart, and string contents
/// move over unchanged; the result is read only through `parse_toml`.
#[verifier::external_body]
fn mirror_value(v: toml::Value) -> TomlValue {
    match v {
        toml::Value::String(s) => TomlValue::Str(s),
        toml::Value::Table(t) => mirror_table(t),
        _ => TomlValue::Other,
    }
}

/// Relies on `toml::map::Map::into_iter`: entries come out in document order
/// (the `preserve_order` feature); the result is read only through
/// `parse_toml`.
#[verifier::external_body]
fn mirror_table(t: toml::Table) -> TomlValue {
    TomlValue::Table(t.into_iter().map(|(k, v)| (k, mirror_value(v))).collect())
}

} // verus!
