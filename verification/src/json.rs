//! The two questions the library asks of JSON text, answered by `serde_json`.

use vstd::prelude::*;

verus! {

/// What `serde_json` reads from `text` as the string member `key` of a JSON
/// object: `None` when `text` is not JSON, not an object, has no such member,
/// or the member is not a string.
pub uninterp spec fn json_string_member(text: Seq<char>, key: Seq<char>) -> Option<Seq<char>>;

/// The compact JSON text of the object member `key` of the JSON object in
/// `text`, as `serde_json` reads and writes it: `None` when `text` is not a
/// JSON object or the member is missing or not an object.
pub uninterp spec fn json_object_member(text: Seq<char>, key: Seq<char>) -> Option<Seq<char>>;

/// Calls `serde_json::from_str` on `text`, then `Value::get(key)` and
/// `Value::as_str`. The result is claimed to be a function of `text` and
/// `key` alone (named `json_string_member`); nothing more is stated of it.
#[verifier::external_body]
pub(crate) fn string_member(text: &str, key: &str) -> (r: Option<String>)
    ensures
        match r {
            Some(s) => json_string_member(text@, key@) == Some(s@),
            None => json_string_member(text@, key@) is None,
        },
{
    let value: serde_json::Value = serde_json::from_str(text).ok()?;
    value.get(key)?.as_str().map(|s| s.to_string())
}

/// Calls `serde_json::from_str` on `text`, then `Value::get(key)`,
/// `Value::as_object` and `serde_json::to_string` on that object. The result
/// is claimed to be a function of `text` and `key` alone (named
/// `json_object_member`); nothing more is stated of it.
#[verifier::external_body]
pub(crate) fn object_member(text: &str, key: &str) -> (r: Option<String>)
    ensures
        match r {
            Some(s) => json_object_member(text@, key@) == Some(s@),
            None => json_object_member(text@, key@) is None,
        },
{
    let value: serde_json::Value = serde_json::from_str(text).ok()?;
    serde_json::to_string(value.get(key)?.as_object()?).ok()
}

/// The compact JSON text of the object that `text` is, as `serde_json`
/// reads and writes it: `None` when `text` is not a JSON object.
pub uninterp spec fn json_as_object(text: Seq<char>) -> Option<Seq<char>>;

/// Calls `serde_json::from_str` on `text`, then `Value::as_object` and
/// `serde_json::to_string` on that object. The result is claimed to be a
/// function of `text` alone (named `json_as_object`).
#[verifier::external_body]
pub(crate) fn object_text(text: &str) -> (r: Option<String>)
    ensures
        match r {
            Some(s) => json_as_object(text@) == Some(s@),
            None => json_as_object(text@) is None,
        },
{
    let value: serde_json::Value = serde_json::from_str(text).ok()?;
    serde_json::to_string(value.as_object()?).ok()
}

} // verus!
