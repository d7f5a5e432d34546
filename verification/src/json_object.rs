//! JSON objects held in metadata text, read and written by `serde_json`.
//!
//! An object is seen through its entries: each key with the compact JSON text
//! of its value. `serde_json` keeps the keys of an object in a `BTreeMap` (its
//! `preserve_order` feature is off), so the text printed for an object depends
//! on its entries alone.

use vstd::prelude::*;

verus! {

#[verifier::external_type_specification]
#[verifier::external_body]
pub struct ExJsonValue(serde_json::Value);

#[verifier::external_type_specification]
#[verifier::external_body]
#[verifier::reject_recursive_types(K)]
#[verifier::reject_recursive_types(V)]
pub struct ExJsonMap<K, V>(serde_json::Map<K, V>);

/// A JSON object as `serde_json` holds it.
pub type JsonObject = serde_json::Map<String, serde_json::Value>;

/// The entries of a JSON object: each key with the compact text of its value.
pub uninterp spec fn json_entries(m: JsonObject) -> Map<
    Seq<char>,
    Seq<char>,
>;

/// What `serde_json` reads in a text: nothing when it is not JSON, the
/// entries of an object, or else the compact text of the value it holds.
pub uninterp spec fn json_parsed(text: Seq<char>) -> Option<Result<Map<Seq<char>, Seq<char>>, Seq<char>>>;

/// The compact JSON text of a string value, quoted and escaped.
pub uninterp spec fn json_string_literal(s: Seq<char>) -> Seq<char>;

/// The compact JSON text of an object with these entries.
pub uninterp spec fn json_object_text(entries: Map<Seq<char>, Seq<char>>) -> Seq<char>;

/// The entries of an empty object.
pub open spec fn no_entries() -> Map<Seq<char>, Seq<char>> {
    Map::empty()
}

/// What a metadata text parses to.
pub enum ParsedJson {
    /// A JSON object.
    Object(JsonObject),
    /// Some other JSON value, as its compact text.
    Other(String),
    /// Not JSON.
    Invalid,
}

/// `serde_json::from_str::<serde_json::Value>`, with an object kept as its map
/// and any other value turned into its compact text (`Value`'s `Display`).
/// What is read is named, not spelled out.
#[verifier::external_body]
pub(crate) fn parse_json(text: &str) -> (parsed: ParsedJson)
    ensures
        match parsed {
            ParsedJson::Object(m) => json_parsed(text@) == Some(
                Ok::<Map<Seq<char>, Seq<char>>, Seq<char>>(json_entries(m)),
            ),
            ParsedJson::Other(s) => json_parsed(text@) == Some(
                Err::<Map<Seq<char>, Seq<char>>, Seq<char>>(s@),
            ),
            ParsedJson::Invalid => json_parsed(text@) is None,
        },
{
    match serde_json::from_str::<serde_json::Value>(text) {
        Ok(serde_json::Value::Object(m)) => ParsedJson::Object(m),
        Ok(other) => ParsedJson::Other(other.to_string()),
        Err(_) => ParsedJson::Invalid,
    }
}

/// `serde_json::Map::new`: an object with no entries.
#[verifier::external_body]
pub(crate) fn empty_json_object() -> (object: JsonObject)
    ensures
        json_entries(object) == no_entries(),
{
    serde_json::Map::new()
}

/// `serde_json::Map::insert` of a boolean: the key now holds `true` or
/// `false`, replacing what it held.
#[verifier::external_body]
pub(crate) fn insert_json_bool(m: &mut JsonObject, key: &str, value: bool)
    ensures
        json_entries(*final(m)) == json_entries(*old(m)).insert(
            key@,
            if value {
                "true"@
            } else {
                "false"@
            },
        ),
{
    m.insert(key.to_owned(), serde_json::Value::Bool(value));
}

/// `serde_json::Map::insert` of a string, or of `null` for none: the key now
/// holds the quoted string or `null`, replacing what it held.
#[verifier::external_body]
pub(crate) fn insert_json_opt_string(
    m: &mut JsonObject,
    key: &str,
    value: Option<&str>,
)
    ensures
        json_entries(*final(m)) == json_entries(*old(m)).insert(
            key@,
            match value {
                Some(s) => json_string_literal(s@),
                None => "null"@,
            },
        ),
{
    let v = match value {
        Some(s) => serde_json::Value::String(s.to_owned()),
        None => serde_json::Value::Null,
    };
    m.insert(key.to_owned(), v);
}

/// `serde_json::Value::Object(m).to_string()`: the compact text of the object.
#[verifier::external_body]
pub(crate) fn json_object_to_string(m: JsonObject) -> (text: String)
    ensures
        text@ == json_object_text(json_entries(m)),
{
    serde_json::Value::Object(m).to_string()
}

} // verus!
