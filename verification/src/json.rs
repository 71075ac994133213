//! Reading JSON messages: string fields, lists of strings, the content of a chat reply and the
//! fields of a transcription reply, taken from `serde_json`.
use vstd::prelude::*;
use serde_json::Value;

verus! {

/// The model of an optional string.
pub open spec fn opt_text(o: Option<String>) -> Option<Seq<char>> {
    match o {
        Some(s) => Some(s@),
        None => None,
    }
}

/// What `serde_json` gives for the field `key` of `text`: its string value when `text` parses
/// as a JSON object whose field `key` is a string; none otherwise (not JSON, not an object,
/// no such field, or a value of another kind).
pub uninterp spec fn json_str_field(text: Seq<char>, key: Seq<char>) -> Option<Seq<char>>;

/// What `serde_json` gives for the list field `key` of `text`: when `text` parses as a JSON
/// object whose field `key` is an array, its elements in order, each as its string value or
/// none when it is not a string; none otherwise.
pub uninterp spec fn json_list_field(text: Seq<char>, key: Seq<char>) -> Option<
    Seq<Option<Seq<char>>>,
>;

/// What `serde_json` gives for the reply of a chat completion: the string at
/// `choices[0].message.content` when `body` parses as JSON and holds one there; none otherwise.
pub uninterp spec fn chat_reply_content(body: Seq<char>) -> Option<Seq<char>>;

/// Calls `serde_json::from_str` into a `Value`, then `Value::get` and `Value::as_str`.
#[verifier::external_body]
pub(crate) fn json_string_field(text: &str, key: &str) -> (res: Option<String>)
    ensures
        res matches Some(s) ==> json_str_field(text@, key@) == Some(s@),
        res is None ==> json_str_field(text@, key@) is None,
{
    serde_json::from_str::<Value>(text).ok()?.get(key)?.as_str().map(str::to_string)
}

/// Calls `serde_json::from_str` into a `Value` and `Value::get`, and, for an array, `as_str`
/// on each element.
#[verifier::external_body]
pub(crate) fn json_list_items(text: &str, key: &str) -> (res: Option<Vec<Option<String>>>)
    ensures
        res matches Some(v) ==> json_list_field(text@, key@) == Some(
            v@.map_values(
                |o: Option<String>|
                    match o {
                        Some(s) => Some(s@),
                        None => None,
                    },
            ),
        ),
        res is None ==> json_list_field(text@, key@) is None,
{
    match serde_json::from_str::<Value>(text).ok()?.get(key)? {
        Value::Array(items) => Some(items.iter().map(|v| v.as_str().map(str::to_string)).collect()),
        _ => None,
    }
}

/// Calls `serde_json::from_str` into a `Value`, then `Value::get` along `choices`, `0`,
/// `message` and `content`, and `Value::as_str`.
#[verifier::external_body]
pub(crate) fn extract_chat_content(body: &str) -> (res: Option<String>)
    ensures
        res matches Some(s) ==> chat_reply_content(body@) == Some(s@),
        res is None ==> chat_reply_content(body@) is None,
{
    let value: Value = serde_json::from_str(body).ok()?;
    value.get("choices")?.get(0)?.get("message")?.get("content")?.as_str().map(|s| s.to_string())
}

/// What `serde_json` gives for a transcription reply `body`: when it parses as a JSON object,
/// its fields `text` and `language`, each none when missing or null and its string value
/// when a string; none when `body` is not a JSON object or either field holds a value of
/// another kind.
pub uninterp spec fn stt_reply(body: Seq<char>) -> Option<(Option<Seq<char>>, Option<Seq<char>>)>;

/// Calls `serde_json::from_str` into a `Value`, then `Map::get` for `text` and `language`,
/// telling `Value`'s variants apart: absent or `Null` gives none, `String` its value, any
/// other variant (or a body that is not an object) fails.
#[verifier::external_body]
pub(crate) fn stt_reply_fields(body: &str) -> (res: Option<(Option<String>, Option<String>)>)
    ensures
        res matches Some((t, l)) ==> stt_reply(body@) == Some((opt_text(t), opt_text(l))),
        res is None ==> stt_reply(body@) is None,
{
    let map = match serde_json::from_str::<Value>(body).ok()? {
        Value::Object(map) => map,
        _ => return None,
    };
    let text = match map.get("text") {
        None | Some(Value::Null) => None,
        Some(Value::String(s)) => Some(s.clone()),
        Some(_) => return None,
    };
    let language = match map.get("language") {
        None | Some(Value::Null) => None,
        Some(Value::String(s)) => Some(s.clone()),
        Some(_) => return None,
    };
    Some((text, language))
}

} // verus!
