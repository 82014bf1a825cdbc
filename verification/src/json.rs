//! Trusted surface over JSON values.
//!
//! Plugin messages and the opaque configuration of a descriptor carry JSON.
//! A JSON value is opaque here: the host carries such values through, and
//! reads exactly one thing out of a configuration — the string under one key
//! of the top-level object.  That read is a function of the text and the key
//! alone, so its result carries a name that contracts downstream speak of.

use vstd::prelude::*;

verus! {

#[verifier::external_type_specification]
#[verifier::external_body]
pub struct ExValue(serde_json::Value);

/// The string value under `key` of the top-level JSON object in `s`, or
/// `None` when `s` is not a JSON object, has no such key, or holds something
/// other than a string there.  The result depends on the text and the key
/// alone; what it is on given values only the reader below can say.
pub uninterp spec fn json_string_field(s: Seq<char>, key: Seq<char>) -> Option<Seq<char>>;

/// Relies on serde_json::from_str::<Value>, Value::get and Value::as_str,
/// chained: parses the text, looks the key up in the top-level object, and
/// takes the value as a string; any step failing yields `None`.
#[verifier::external_body]
pub(crate) fn read_json_string_field(s: &str, key: &str) -> (r: Option<String>)
    ensures
        match r {
            Some(v) => json_string_field(s@, key@) == Some(v@),
            None => json_string_field(s@, key@) is None,
        },
{
    let value: serde_json::Value = serde_json::from_str(s).ok()?;
    value.get(key)?.as_str().map(|x| x.to_string())
}

/// Relies on serde_json::Value::clone (a derived deep copy): the copy equals
/// the original.
#[verifier::external_body]
pub(crate) fn clone_json(v: &serde_json::Value) -> (r: serde_json::Value)
    ensures
        r == *v,
{
    v.clone()
}

} // verus!
