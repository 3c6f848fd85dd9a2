//! JSON objects as the reconciliation sees them.
//!
//! An object is a `serde_json::Map`. Contracts speak of one abstract picture
//! of it: the map from each key to the compact JSON text of the value stored
//! under that key. Two values are the same for this crate when their texts
//! are the same.
//!
//! Nothing in this file is proved but `json_map_from_text`. The functions
//! that call `serde_json` are believed to do what their contracts say, and
//! what parsing and printing come to is named, not defined.
use vstd::prelude::*;

verus! {

/// `serde_json::Map`, carried through verified code as an opaque collection.
#[verifier::external_type_specification]
#[verifier::external_body]
#[verifier::reject_recursive_types(K)]
#[verifier::reject_recursive_types(V)]
pub struct ExJsonMap<K, V>(serde_json::Map<K, V>);

/// `serde_json::Value`, the item type of a JSON object.
#[verifier::external_type_specification]
#[verifier::external_body]
pub struct ExJsonValue(serde_json::Value);

/// The object type of this crate.
pub type JsonMap = serde_json::Map<String, serde_json::Value>;

/// What an object holds, as contracts see it: key to value text.
pub type Entries = Map<Seq<char>, Seq<char>>;

/// The contents of a `serde_json::Map`: for every key it holds, the compact
/// JSON text that `serde_json` prints for the value under that key.
pub uninterp spec fn json_entries(m: serde_json::Map<String, serde_json::Value>) -> Map<Seq<char>, Seq<char>>;

/// What `serde_json::from_str` makes of a text: the contents of the object it
/// parses to, or `None` where the text is not JSON or is JSON of another kind.
pub uninterp spec fn json_object_of(text: Seq<char>) -> Option<Map<Seq<char>, Seq<char>>>;

/// The compact text that `serde_json` prints for an object with the given
/// contents. The text depends on the contents alone because the keys of a
/// `serde_json::Map` come out in sorted order; this holds as long as
/// `serde_json` is built without its `preserve_order` feature.
pub uninterp spec fn json_text_of(entries: Map<Seq<char>, Seq<char>>) -> Seq<char>;

/// The views of a list of keys.
pub open spec fn key_views(keys: Seq<String>) -> Seq<Seq<char>> {
    keys.map_values(|k: String| k@)
}

/// The contents of an object without keys.
pub open spec fn no_entries() -> Entries {
    Map::empty()
}

/// Looking a key up in the contents of an object.
pub open spec fn entry_at(e: Entries, key: Seq<char>) -> Option<Seq<char>> {
    if e.contains_key(key) {
        Some(e[key])
    } else {
        None
    }
}

/// Wraps `serde_json::Map::new`: the map it returns holds no key.
#[verifier::external_body]
pub(crate) fn json_new() -> (m: JsonMap)
    ensures
        json_entries(m) == no_entries(),
{
    serde_json::Map::new()
}

/// Wraps `serde_json::Map::get`, handing the value out as its compact text
/// (`Value`'s `to_string`): `None` exactly when the key is absent.
#[verifier::external_body]
pub(crate) fn json_text_at(m: &JsonMap, key: &str) -> (text: Option<String>)
    ensures
        text.deep_view() == entry_at(json_entries(*m), key@),
{
    match m.get(key) {
        Some(v) => Some(v.to_string()),
        None => None,
    }
}

/// Wraps `serde_json::Map::insert`, storing under `key` a clone of the value
/// that `src` holds there. Indexing `src` panics on an absent key, so the key
/// must be present. Whatever `dst` held under the key is replaced.
#[verifier::external_body]
pub(crate) fn json_copy_entry(dst: &mut JsonMap, src: &JsonMap, key: &str)
    requires
        json_entries(*src).contains_key(key@),
    ensures
        json_entries(*final(dst)) == json_entries(*old(dst)).insert(key@, json_entries(*src)[key@]),
{
    dst.insert(key.to_owned(), src[key].clone());
}

/// Wraps `serde_json::Map::keys`, copying the keys out: every key of the map
/// once, and nothing else. The order is the map's own and is not stated.
#[verifier::external_body]
pub(crate) fn json_keys(m: &JsonMap) -> (keys: Vec<String>)
    ensures
        key_views(keys@).no_duplicates(),
        key_views(keys@).to_set() == json_entries(*m).dom(),
{
    m.keys().cloned().collect()
}

/// Wraps `serde_json::from_str` at type `Value`: the object that the text
/// parses to, `None` on a parse error and on JSON that is not an object.
#[verifier::external_body]
pub(crate) fn json_parse_object(text: &str) -> (parsed: Option<JsonMap>)
    ensures
        match parsed {
            Some(m) => json_object_of(text@) == Some(json_entries(m)),
            None => json_object_of(text@).is_none(),
        },
{
    match serde_json::from_str::<serde_json::Value>(text) {
        Ok(serde_json::Value::Object(m)) => Some(m),
        _ => None,
    }
}

/// Wraps `to_string` of `serde_json::Value` on a copy of the object: its
/// compact text. Printing a value to a string does not fail.
#[verifier::external_body]
pub(crate) fn json_object_text(m: &JsonMap) -> (text: String)
    ensures
        text@ == json_text_of(json_entries(*m)),
{
    serde_json::Value::Object(m.clone()).to_string()
}

/// Reads a JSON object out of an optional text column. A missing text, text
/// that is not JSON and JSON that is not an object all read as `None`.
pub fn json_map_from_text(text: &Option<String>) -> (parsed: Option<JsonMap>)
    ensures
        option_entries(parsed) == column_entries(text.deep_view()),
{
    match text {
        None => None,
        Some(s) => json_parse_object(s.as_str()),
    }
}

/// The contents of an optional object.
pub open spec fn option_entries(m: Option<JsonMap>) -> Option<Entries> {
    match m {
        Some(m) => Some(json_entries(m)),
        None => None,
    }
}

/// What an optional text column reads as.
pub open spec fn column_entries(text: Option<Seq<char>>) -> Option<Entries> {
    match text {
        Some(t) => json_object_of(t),
        None => None,
    }
}

} // verus!
