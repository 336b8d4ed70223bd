//! The boundary to `serde_json` and `json5`: the JSON types are declared here,
//! what they hold is given a name, and every call into the two crates is made
//! by one of the functions below. Their contracts are taken on trust; everything
//! else in the library is proved from them.

use vstd::prelude::*;

verus! {

/// A JSON value as contracts see it.
///
/// A number is identified by the text that `serde_json` writes for it.
pub ghost enum Json {
    Null,
    Bool(bool),
    Number(Seq<char>),
    Text(Seq<char>),
    List(Seq<Json>),
    Object(Map<Seq<char>, Json>),
}

/// The entries of a JSON object as contracts see them.
pub type Entries = Map<Seq<char>, Json>;

/// A JSON object: string keys, each with a JSON value.
pub type JsonObject = serde_json::Map<String, serde_json::Value>;

#[verifier::external_type_specification]
#[verifier::external_body]
pub struct ExValue(serde_json::Value);

#[verifier::external_type_specification]
#[verifier::external_body]
#[verifier::reject_recursive_types(K)]
#[verifier::reject_recursive_types(V)]
pub struct ExObject<K, V>(serde_json::Map<K, V>);

/// What a `serde_json::Value` holds.
pub uninterp spec fn value_model(v: serde_json::Value) -> Json;

/// The entries of a `serde_json::Map`, by key.
pub uninterp spec fn object_model(m: JsonObject) -> Entries;

/// The keys of a `serde_json::Map` in the order in which it hands them out.
/// How an insertion changes that order depends on how `serde_json` was built,
/// so no contract here says more than that it lists every key once.
pub uninterp spec fn object_order(m: JsonObject) -> Seq<Seq<char>>;

/// The keys of a list of borrowed entries.
pub open spec fn entry_keys(entries: Seq<(&String, &serde_json::Value)>) -> Seq<Seq<char>> {
    Seq::new(entries.len(), |i: int| entries[i].0@)
}

/// `serde_json::Map::new`: the new map has no entry.
#[verifier::external_body]
pub(crate) fn object_new() -> (m: JsonObject)
    ensures
        object_model(m) == Entries::empty(),
{
    serde_json::Map::new()
}

/// `serde_json::Map::insert`: afterwards the key leads to the value, and every
/// other key to what it led to before. The value that was replaced is dropped.
/// The call does not panic.
#[verifier::external_body]
pub(crate) fn object_insert(m: &mut JsonObject, key: String, value: serde_json::Value)
    ensures
        object_model(*final(m)) == object_model(*old(m)).insert(key@, value_model(value)),
    no_unwind
{
    m.insert(key, value);
}

/// `serde_json::Map::get`: the value under the key, where the map has the key.
#[verifier::external_body]
pub(crate) fn object_get<'a>(m: &'a JsonObject, key: &str) -> (r: Option<&'a serde_json::Value>)
    ensures
        r is Some <==> object_model(*m).dom().contains(key@),
        r matches Some(v) ==> value_model(*v) == object_model(*m)[key@],
{
    m.get(key)
}

/// `serde_json::Map::len`: the number of entries.
#[verifier::external_body]
pub(crate) fn object_len(m: &JsonObject) -> (n: usize)
    ensures
        n == object_model(*m).dom().len(),
{
    m.len()
}

/// `serde_json::Map::iter`, collected: every entry once, in the map's order.
#[verifier::external_body]
pub(crate) fn object_entries<'a>(m: &'a JsonObject) -> (r: Vec<(&'a String, &'a serde_json::Value)>)
    ensures
        entry_keys(r@) == object_order(*m),
        entry_keys(r@).no_duplicates(),
        entry_keys(r@).to_set() == object_model(*m).dom(),
        forall|i: int|
            0 <= i < r@.len() ==> value_model(*(#[trigger] r@[i]).1) == object_model(*m)[r@[i].0@],
{
    m.iter().collect()
}

/// `Clone` for `serde_json::Map`: the copy has the same entries in the same
/// order, and like every such map it has finitely many.
#[verifier::external_body]
pub(crate) fn object_clone(m: &JsonObject) -> (c: JsonObject)
    ensures
        object_model(c) == object_model(*m),
        object_order(c) == object_order(*m),
        object_model(c).dom().finite(),
{
    m.clone()
}

/// `Clone` for `serde_json::Value`: the copy holds the same value.
#[verifier::external_body]
pub(crate) fn value_clone(v: &serde_json::Value) -> (c: serde_json::Value)
    ensures
        value_model(c) == value_model(*v),
{
    v.clone()
}

/// `serde_json::Value::String`: the value is the text.
#[verifier::external_body]
pub(crate) fn value_from_text(text: String) -> (v: serde_json::Value)
    ensures
        value_model(v) == Json::Text(text@),
{
    serde_json::Value::String(text)
}

/// `serde_json::Value::Object`: the value is the object with the map's entries.
#[verifier::external_body]
pub(crate) fn value_from_object(m: JsonObject) -> (v: serde_json::Value)
    ensures
        value_model(v) == Json::Object(object_model(m)),
{
    serde_json::Value::Object(m)
}

/// `serde_json::Value::as_str`: the text of a string value, `None` for any other
/// value.
#[verifier::external_body]
pub(crate) fn value_as_text<'a>(v: &'a serde_json::Value) -> (r: Option<&'a str>)
    ensures
        r is Some <==> value_model(*v) is Text,
        r matches Some(s) ==> value_model(*v) == Json::Text(s@),
{
    v.as_str()
}

/// `serde_json::Value::as_object`: the map of an object value, `None` for any
/// other value.
#[verifier::external_body]
pub(crate) fn value_as_object<'a>(v: &'a serde_json::Value) -> (r: Option<&'a JsonObject>)
    ensures
        r is Some <==> value_model(*v) is Object,
        r matches Some(m) ==> value_model(*v) == Json::Object(object_model(*m)),
{
    v.as_object()
}

/// `json5::from_str`, reading a `serde_json::Value`. Whether a text is read
/// depends on more than the text (the reader gives up where the stack runs
/// low, or a call limit was set), so nothing is claimed of the outcome. An
/// error comes back as its message.
#[verifier::external_body]
pub(crate) fn parse_json5(text: &str) -> Result<serde_json::Value, String> {
    json5::from_str::<serde_json::Value>(text).map_err(|e| e.to_string())
}

} // verus!
