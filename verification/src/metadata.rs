//! The project metadata file (`.flgit/project.json`) as far as the library
//! reads it: the project's name.
use vstd::prelude::*;

verus! {

/// What `serde_json` reads, from a JSON text, as the string at `key` of the
/// top-level object (none when the text is not JSON, is not an object, or
/// has no string there).
pub uninterp spec fn json_str_field(text: Seq<char>, key: Seq<char>) -> Option<Seq<char>>;

/// Parses `text` with `serde_json::from_str::<serde_json::Value>` and takes
/// the string at `key` (`Value::get`, then the `Value::String` variant).
/// Trusted: its result is `json_str_field` of the text and key, a function
/// of them alone; nothing more is stated of JSON parsing.
#[verifier::external_body]
fn json_string_field(text: &str, key: &str) -> (r: Option<String>)
    ensures
        match r {
            Some(s) => json_str_field(text@, key@) == Some(s@),
            None => json_str_field(text@, key@) is None,
        },
{
    match serde_json::from_str::<serde_json::Value>(text) {
        Ok(value) => match value.get(key) {
            Some(serde_json::Value::String(s)) => Some(s.clone()),
            _ => None,
        },
        Err(_) => None,
    }
}

/// The project name stored in the metadata file's text (none when the
/// file could not be read, or holds no `name` string).
pub fn read_project_name(metadata: &Option<String>) -> (r: Option<String>)
    ensures
        match metadata {
            None => r is None,
            Some(t) => match r {
                Some(n) => json_str_field(t@, "name"@) == Some(n@),
                None => json_str_field(t@, "name"@) is None,
            },
        },
{
    match metadata {
        None => None,
        Some(t) => json_string_field(t.as_str(), "name"),
    }
}

} // verus!
