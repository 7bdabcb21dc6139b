//! JSON objects, built and rendered by `serde_json`.

use crate::text::texts;
use vstd::prelude::*;

verus! {

/// `serde_json::Map`, a JSON object; what it holds is known only by
/// `json_entries`.
#[verifier::external_type_specification]
#[verifier::external_body]
#[verifier::reject_recursive_types(K)]
#[verifier::reject_recursive_types(V)]
pub struct ExJsonMap<K, V>(serde_json::Map<K, V>);

/// `serde_json::Value`, a JSON value; nothing of what it holds is known
/// here.
#[verifier::external_type_specification]
#[verifier::external_body]
pub struct ExJsonValue(serde_json::Value);

/// The value of one member of a JSON object, of the shapes that records use.
pub enum JsonField {
    /// A string.
    Text(Seq<char>),
    /// A non-negative whole number.
    Number(nat),
    /// An array of strings.
    TextList(Seq<Seq<char>>),
}

/// The members that a JSON object holds, each under its key. It is stated
/// only of objects whose members are strings, numbers and arrays of
/// strings, as the objects made here are.
pub uninterp spec fn json_entries(object: serde_json::Map<String, serde_json::Value>) -> Map<
    Seq<char>,
    JsonField,
>;

/// The compact JSON text of the object that holds `entries`.
pub uninterp spec fn json_text(entries: Map<Seq<char>, JsonField>) -> Seq<char>;

/// No members.
pub open spec fn no_members() -> Map<Seq<char>, JsonField> {
    Map::empty()
}

/// `serde_json::Map::new` makes an object that holds no member.
#[verifier::external_body]
pub(crate) fn json_object() -> (object: serde_json::Map<String, serde_json::Value>)
    ensures
        json_entries(object) == no_members(),
{
    serde_json::Map::new()
}

/// A value to put into a JSON object.
pub enum JsonValue<'a> {
    /// A string.
    Text(&'a str),
    /// A non-negative whole number.
    Number(usize),
    /// An array of strings.
    Texts(&'a Vec<String>),
}

impl<'a> View for JsonValue<'a> {
    type V = JsonField;

    open spec fn view(&self) -> JsonField {
        match *self {
            JsonValue::Text(text) => JsonField::Text(text@),
            JsonValue::Number(number) => JsonField::Number(number as nat),
            JsonValue::Texts(items) => JsonField::TextList(texts(items@)),
        }
    }
}

/// `serde_json::Map::insert` of a string, a number or an array of strings:
/// afterwards the object holds the value under the key, in place of what it
/// held there, and its other members as before.
#[verifier::external_body]
pub(crate) fn json_put(
    object: &mut serde_json::Map<String, serde_json::Value>,
    key: &str,
    value: JsonValue,
)
    ensures
        json_entries(*final(object)) == json_entries(*old(object)).insert(key@, value@),
{
    let value = match value {
        JsonValue::Text(text) => serde_json::Value::from(text),
        JsonValue::Number(number) => serde_json::Value::from(number),
        JsonValue::Texts(items) => serde_json::Value::from(items.clone()),
    };
    object.insert(key.to_string(), value);
}

/// `to_string` of `serde_json::Value::Object`: the compact rendering, which
/// is determined by the members that the object holds, written in the order
/// of their keys, and which holds no line feed, since the compact form has
/// no white space between tokens and strings are written with their control
/// characters escaped.
///
/// That the members come in the order of their keys, and so that the text
/// depends on nothing but the members, is assumed of the build: it holds of
/// `serde_json` without its feature `preserve_order`, which this crate does
/// not ask for. Built with that feature, an object would keep the order in
/// which its members were put, and the text would depend on that order.
#[verifier::external_body]
pub(crate) fn json_render(object: serde_json::Map<String, serde_json::Value>) -> (text: String)
    ensures
        text@ == json_text(json_entries(object)),
        !text@.contains('\n'),
{
    serde_json::Value::Object(object).to_string()
}

} // verus!
