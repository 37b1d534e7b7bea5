//! The library of kept images: where it lies, and how its files are named.
//!
//! The place of the library is kept in a small JSON document. Reading and
//! writing JSON is the work of the `serde_json` crate; what this module states
//! of it is believed, not proved.

use vstd::prelude::*;
use crate::text::{text_or, text_or_default};

verus! {

#[verifier::external_type_specification]
#[verifier::external_body]
pub struct ExJsonValue(serde_json::Value);

/// The member of the configuration that holds the path of the library.
pub const LIBRARY_PATH_KEY: &'static str = "library_path";

/// The value that `serde_json::from_str` reads from `text`, or `None` where it
/// reports an error.
pub uninterp spec fn json_of(text: Seq<char>) -> Option<serde_json::Value>;

/// What `Value::get` finds in `value` under `key`.
pub uninterp spec fn json_member(value: serde_json::Value, key: Seq<char>) -> Option<
    serde_json::Value,
>;

/// What `Value::as_str` makes of `value`: its text where it is a string.
pub uninterp spec fn json_text(value: serde_json::Value) -> Option<Seq<char>>;

/// The object with the one member `key`, a string that holds `text`.
pub uninterp spec fn json_entry(key: Seq<char>, text: Seq<char>) -> serde_json::Value;

/// The text that `serde_json::to_string_pretty` writes for `value`, or `None`
/// where it reports an error.
pub uninterp spec fn json_pretty(value: serde_json::Value) -> Option<Seq<char>>;

/// Calls `serde_json::from_str` for a `Value`.
///
/// Believed: the result depends on the text alone, called `json_of`, and an
/// error of any kind comes back as `None`.
#[verifier::external_body]
fn parse_json(text: &str) -> (value: Option<serde_json::Value>)
    ensures
        value == json_of(text@),
{
    serde_json::from_str::<serde_json::Value>(text).ok()
}

/// Calls `Value::get` with a text key and copies what it finds.
///
/// Believed: the result depends on the value and the key alone, called
/// `json_member`.
#[verifier::external_body]
fn member_of(value: &serde_json::Value, key: &str) -> (member: Option<serde_json::Value>)
    ensures
        member == json_member(*value, key@),
{
    value.get(key).cloned()
}

/// Calls `Value::as_str` and copies the text.
///
/// Believed: the result depends on the value alone, called `json_text`.
#[verifier::external_body]
fn text_of(value: &serde_json::Value) -> (text: Option<String>)
    ensures
        text.deep_view() == json_text(*value),
{
    match value.as_str() {
        Some(text) => Some(text.to_owned()),
        None => None,
    }
}

/// Calls `Value::from_iter` on the one pair of a key and a text.
///
/// The call collects pairs into an object whose members are strings.
/// Believed: the value depends on the key and the text alone, called
/// `json_entry`.
#[verifier::external_body]
fn entry_of(key: &str, text: &str) -> (value: serde_json::Value)
    ensures
        value == json_entry(key@, text@),
{
    serde_json::Value::from_iter([(key, text)])
}

/// Calls `serde_json::to_string_pretty`.
///
/// Believed: what it writes depends on the value alone, called `json_pretty`,
/// and an error comes back as `None`.
#[verifier::external_body]
fn pretty(value: &serde_json::Value) -> (text: Option<String>)
    ensures
        text.deep_view() == json_pretty(*value),
{
    serde_json::to_string_pretty(value).ok()
}

/// The path of the library that a configuration names: the text of its member
/// `library_path`. There is none where the configuration is not JSON, has no
/// such member, or the member is no string.
pub open spec fn configured_path(config: Seq<char>) -> Option<Seq<char>> {
    match json_of(config) {
        Some(value) => match json_member(value, LIBRARY_PATH_KEY@) {
            Some(member) => json_text(member),
            None => None,
        },
        None => None,
    }
}

/// The path of the library that the text of a configuration names, if any.
pub fn configured_library_path(config: &str) -> (path: Option<String>)
    ensures
        path.deep_view() == configured_path(config@),
{
    match parse_json(config) {
        Some(value) => match member_of(&value, LIBRARY_PATH_KEY) {
            Some(member) => text_of(&member),
            None => None,
        },
        None => None,
    }
}

/// The configuration that names `path` as the path of the library, as text.
/// `None` where the text cannot be written.
pub fn library_config(path: &str) -> (config: Option<String>)
    ensures
        config.deep_view() == json_pretty(json_entry(LIBRARY_PATH_KEY@, path@)),
{
    let value = entry_of(LIBRARY_PATH_KEY, path);
    pretty(&value)
}

/// The name of the file that keeps an image in the library: the identifier of
/// the image, a dot, and the extension of its source, `jpg` where the source
/// has none.
pub open spec fn library_name(identifier: Seq<char>, extension: Option<Seq<char>>) -> Seq<char> {
    identifier + "."@ + text_or(extension, "jpg"@)
}

/// The name of the file that keeps the image `identifier` in the library.
pub fn library_file_name(identifier: &str, extension: &Option<String>) -> (name: String)
    ensures
        name@ == library_name(identifier@, extension.deep_view()),
{
    let mut name = identifier.to_owned();
    name.append(".");
    let extension = text_or_default(extension, "jpg");
    name.append(extension.as_str());
    name
}

} // verus!
