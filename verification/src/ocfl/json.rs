//! Reading one member of a JSON document, with `serde_json`.

use crate::ocfl::opt_view;
use vstd::prelude::*;

verus! {

/// `serde_json`'s error type, carried through as it is.
#[verifier::external_type_specification]
#[verifier::external_body]
pub struct ExJsonError(serde_json::Error);

/// What the JSON text `bytes` holds under the top-level key `key`, as
/// `serde_json` reads it: `None` when `bytes` is no JSON text; `Some(None)`
/// when the text holds no string under `key` at its top level; otherwise
/// `Some(Some(s))` with that string `s`.
pub uninterp spec fn json_str_member(bytes: Seq<u8>, key: Seq<char>) -> Option<Option<Seq<char>>>;

/// Calls `serde_json::from_slice` into a `serde_json::Value`, then reads the
/// member `key` with `Value`'s indexing (which gives `Null` for a missing
/// member or a non-object) and `Value::as_str`. Trusted: a parse error comes
/// back as the error, and otherwise the result is what `json_str_member`
/// names for the bytes and the key; the result depends on the bytes and the
/// key alone.
#[verifier::external_body]
pub(crate) fn parse_str_member(bytes: &[u8], key: &str) -> (r: Result<Option<String>, serde_json::Error>)
    ensures
        match r {
            Ok(v) => json_str_member(bytes@, key@) == Some(opt_view(v)),
            Err(_) => json_str_member(bytes@, key@) is None,
        },
{
    serde_json::from_slice::<serde_json::Value>(bytes).map(|v| v[key].as_str().map(|s| s.to_owned()))
}

/// Calls `to_string` on a `serde_json::Error` (its `Display`). Trusted for
/// nothing but its type: the text is `serde_json`'s message, which no clause
/// states.
#[verifier::external_body]
pub(crate) fn json_error_text(e: &serde_json::Error) -> String {
    e.to_string()
}

} // verus!
