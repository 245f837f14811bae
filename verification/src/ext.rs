//! The library's view of the outside world: every item here wraps one
//! operation of an outside crate (or of std beyond what vstd specifies) and
//! states the contract the rest of the library is verified against.

use vstd::prelude::*;

verus! {

/// What `glob::Pattern::new` accepts: whether `pat` compiles as a glob
/// pattern.  Compilation depends on the pattern text alone.
pub uninterp spec fn glob_valid(pat: Seq<char>) -> bool;

/// What `glob::Pattern::matches` returns for a valid pattern and a text.
/// The result depends on the two strings alone.
pub uninterp spec fn glob_match(pat: Seq<char>, text: Seq<char>) -> bool;

/// Whether `serde_json::from_str::<Value>` parses `body`; a deterministic
/// function of the text.
pub uninterp spec fn json_wf(body: Seq<char>) -> bool;

/// Whether the parsed JSON value of `body` is an object carrying a `params`
/// member.  Meaningful when `json_wf(body)` holds.
pub uninterp spec fn json_has_params(body: Seq<char>) -> bool;

/// The string resolved for `params[field]` of the JSON body: the member
/// itself when it is a string, the first element when it is an array whose
/// first element is a string, and nothing otherwise.
pub uninterp spec fn json_param_str(body: Seq<char>, field: Seq<char>) -> Option<Seq<char>>;

/// The string at the top-level member `key` of the JSON body, when the body
/// parses and that member is a string.
pub uninterp spec fn json_str_field(body: Seq<char>, key: Seq<char>) -> Option<Seq<char>>;

/// The JSON body re-serialized with its top-level `tool` member removed; a
/// deterministic function of the text.  Meaningful when `json_wf(body)`.
pub uninterp spec fn json_without_tool(body: Seq<char>) -> Seq<char>;

/// Relies on glob::Pattern::new: compilation succeeds or fails on the
/// pattern text alone.
#[verifier::external_body]
pub(crate) fn glob_is_valid(pat: &str) -> (r: bool)
    ensures
        r == glob_valid(pat@),
{
    glob::Pattern::new(pat).is_ok()
}

/// Relies on glob::Pattern::new and glob::Pattern::matches: both are pure
/// functions of the pattern and the text.  An invalid pattern matches
/// nothing here; callers gate on `glob_is_valid` first.
#[verifier::external_body]
pub(crate) fn glob_matches(pat: &str, text: &str) -> (r: bool)
    requires
        glob_valid(pat@),
    ensures
        r == glob_match(pat@, text@),
{
    match glob::Pattern::new(pat) {
        Ok(p) => p.matches(text),
        Err(_) => false,
    }
}

/// The outcome of looking up `params[field]` in a JSON-RPC body.
pub enum ParamLookup {
    /// The body is not valid JSON.
    NotJson,
    /// The body parsed but has no `params` member.
    NoParams,
    /// `params` exists but `field` is missing or is neither a string nor an
    /// array whose first element is a string.
    Missing,
    /// The single string the field resolves to.
    Found(String),
}

/// Relies on serde_json::from_str::<Value> and serde_json::Value::{get,
/// as_str, as_array}: parsing is deterministic, and the accessors read the
/// parsed tree without observing anything outside it.
#[verifier::external_body]
pub(crate) fn json_lookup_param(body: &str, field: &str) -> (r: ParamLookup)
    ensures
        r is NotJson <==> !json_wf(body@),
        r is NoParams <==> (json_wf(body@) && !json_has_params(body@)),
        r is Missing <==> (json_wf(body@) && json_has_params(body@) && json_param_str(body@, field@) is None),
        r matches ParamLookup::Found(v) ==> json_param_str(body@, field@) == Some(v@),
{
    let json: serde_json::Value = match serde_json::from_str(body) {
        Ok(v) => v,
        Err(_) => return ParamLookup::NotJson,
    };
    let params = match json.get("params") {
        Some(p) => p,
        None => return ParamLookup::NoParams,
    };
    let value = params.get(field).and_then(|v| {
        v.as_str().or_else(|| v.as_array().and_then(|a| a.first()).and_then(|f| f.as_str()))
    });
    match value {
        Some(s) => ParamLookup::Found(s.to_string()),
        None => ParamLookup::Missing,
    }
}

/// Relies on serde_json::from_str::<Value> and serde_json::Value::{get,
/// as_str}: reads one top-level string member of the body, if the body
/// parses and the member is a string.
#[verifier::external_body]
pub(crate) fn json_string_field(body: &str, key: &str) -> (r: Option<String>)
    ensures
        r matches Some(v) ==> json_str_field(body@, key@) == Some(v@),
        r is None <==> json_str_field(body@, key@) is None,
{
    let json: serde_json::Value = match serde_json::from_str(body) {
        Ok(v) => v,
        Err(_) => return None,
    };
    json.get(key).and_then(|v| v.as_str()).map(|s| s.to_string())
}

/// Relies on serde_json::from_str::<Value>, serde_json::Map::remove and
/// serde_json's serializer: parses the body, drops the top-level `tool`
/// member when the body is an object, and writes the value back out; each
/// step is a deterministic function of the text.
#[verifier::external_body]
pub(crate) fn json_strip_tool(body: &str) -> (r: Option<String>)
    ensures
        r matches Some(s) ==> s@ == json_without_tool(body@),
        r is Some <==> json_wf(body@),
{
    let mut v: serde_json::Value = match serde_json::from_str(body) {
        Ok(v) => v,
        Err(_) => return None,
    };
    if let serde_json::Value::Object(m) = &mut v {
        m.remove("tool");
    }
    Some(v.to_string())
}

/// Relies on String's FromIterator impl: collecting chars yields exactly
/// those characters.
#[verifier::external_body]
pub(crate) fn chars_to_string(v: &Vec<char>) -> (r: String)
    ensures
        r@ == v@,
{
    v.iter().collect()
}

/// Relies on core::str::from_utf8: succeeds exactly on valid UTF-8 and
/// returns the string those bytes encode.
#[verifier::external_body]
pub(crate) fn bytes_to_string(v: &[u8]) -> (r: Option<String>)
    ensures
        r matches Some(s) ==> vstd::utf8::encode_utf8(s@) == v@,
        vstd::utf8::valid_utf8(v@) ==> r is Some,
{
    match core::str::from_utf8(v) {
        Ok(s) => Some(s.to_string()),
        Err(_) => None,
    }
}

/// Relies on std::time::SystemTime::now: the seconds since the Unix epoch,
/// or zero if the clock reads before the epoch.  Nothing can be promised of
/// a clock reading.
#[verifier::external_body]
pub fn current_timestamp() -> u64 {
    match std::time::SystemTime::now().duration_since(std::time::UNIX_EPOCH) {
        Ok(d) => d.as_secs(),
        Err(_) => 0,
    }
}

} // verus!
