use vstd::prelude::*;
use crate::text::texts;

verus! {

/// The compact JSON text of an array of strings, as serde_json writes it.
pub uninterp spec fn json_array_text(items: Seq<Seq<char>>) -> Seq<char>;

/// The compact JSON text of an object with one member, `key`, whose value is
/// an array of strings, as serde_json writes it.
pub uninterp spec fn json_object_text(key: Seq<char>, items: Seq<Seq<char>>) -> Seq<char>;

/// Writes `items` as a JSON array with serde_json: the list becomes a
/// `serde_json::Value::Array` of strings (`Value::from(&[String])`) and is
/// written by the value's `Display`, which never fails. The contract claims
/// that the text depends on the strings alone (named `json_array_text`); it
/// does not say what the text is.
#[verifier::external_body]
pub(crate) fn json_array_string(items: &Vec<String>) -> (json: String)
    ensures
        json@ == json_array_text(texts(items@)),
{
    serde_json::Value::from(items.as_slice()).to_string()
}

/// Writes the object `{key: items}` with serde_json: a one-member
/// `serde_json::Map` whose value is `Value::from(&[String])`, written by the
/// `Display` of `Value::Object`, which never fails. The contract claims that
/// the text depends on `key` and the strings alone (named
/// `json_object_text`); it does not say what the text is.
#[verifier::external_body]
pub(crate) fn json_object_string(key: &str, items: &Vec<String>) -> (json: String)
    ensures
        json@ == json_object_text(key@, texts(items@)),
{
    let mut object = serde_json::Map::new();
    object.insert(key.to_string(), serde_json::Value::from(items.as_slice()));
    serde_json::Value::Object(object).to_string()
}

} // verus!
