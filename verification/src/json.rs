//! The boundary with `serde_json`. A decoded document stays a `serde_json::Value`;
//! contracts speak of its mathematical content, a `JsonModel`. Each trusted item
//! below stands for exactly one function of `serde_json` and says what that
//! function's source shows.

use vstd::prelude::*;

verus! {

/// `serde_json::Value`, a decoded JSON document. The verifier sees nothing
/// inside it; `model` names its content.
#[verifier::external_type_specification]
#[verifier::external_body]
pub struct ExValue(serde_json::Value);

/// `serde_json::Error`, the error of decoding and of serializing. It is only
/// passed on.
#[verifier::external_type_specification]
#[verifier::external_body]
pub struct ExJsonError(serde_json::Error);

/// The content of a JSON document. A number is held by the text it is printed
/// as, so two literals of one number give one document. An object is a map
/// from keys to members: `serde_json`, as built for this crate, keeps the
/// members of an object sorted by key, so their order carries no information.
pub enum JsonModel {
    Null,
    Bool(bool),
    Number(Seq<char>),
    Text(Seq<char>),
    Array(Seq<JsonModel>),
    Object(Map<Seq<char>, JsonModel>),
}

impl JsonModel {
    /// The member of an object under `key`; nothing for a missing key and for any
    /// value that is not an object.
    pub open spec fn field(self, key: Seq<char>) -> Option<JsonModel> {
        match self {
            JsonModel::Object(members) => if members.contains_key(key) {
                Some(members[key])
            } else {
                None
            },
            _ => None,
        }
    }

    /// The text of a JSON string; nothing for any other value.
    pub open spec fn text(self) -> Option<Seq<char>> {
        match self {
            JsonModel::Text(s) => Some(s),
            _ => None,
        }
    }

    /// The elements of a JSON array; nothing for any other value.
    pub open spec fn items(self) -> Option<Seq<JsonModel>> {
        match self {
            JsonModel::Array(elements) => Some(elements),
            _ => None,
        }
    }

    /// The text of the string member under `key`; nothing where the member is
    /// missing or is not a string.
    pub open spec fn text_field(self, key: Seq<char>) -> Option<Seq<char>> {
        match self.field(key) {
            Some(member) => member.text(),
            None => None,
        }
    }

    /// The member under `key` where it may be left out: nothing for a missing
    /// member and for `null`.
    pub open spec fn optional_field(self, key: Seq<char>) -> Option<JsonModel> {
        match self.field(key) {
            Some(member) => if member is Null {
                None
            } else {
                Some(member)
            },
            None => None,
        }
    }

    /// Whether the member under `key` is text wherever it is given: missing,
    /// `null` or a string.
    pub open spec fn optional_text_ok(self, key: Seq<char>) -> bool {
        match self.optional_field(key) {
            Some(member) => member.text() is Some,
            None => true,
        }
    }

    /// The text of the member under `key` where it may be left out.
    pub open spec fn optional_text(self, key: Seq<char>) -> Option<Seq<char>> {
        match self.optional_field(key) {
            Some(member) => member.text(),
            None => None,
        }
    }
}

/// The content of a decoded document.
pub uninterp spec fn model(v: serde_json::Value) -> JsonModel;

/// What `serde_json::from_str` decodes a text to; nothing where it reports an
/// error.
pub uninterp spec fn parsed(text: Seq<char>) -> Option<JsonModel>;

/// The text that `serde_json::to_string` gives for a document; nothing where it
/// reports an error.
pub uninterp spec fn serialized(m: JsonModel) -> Option<Seq<char>>;

/// The text that the `Display` form of a document gives.
pub uninterp spec fn displayed(m: JsonModel) -> Seq<char>;

/// The contents of a sequence of decoded documents.
pub open spec fn models(vs: Seq<serde_json::Value>) -> Seq<JsonModel> {
    vs.map_values(|v: serde_json::Value| model(v))
}

/// The content of a document that may be absent.
pub open spec fn opt_model(v: Option<serde_json::Value>) -> Option<JsonModel> {
    match v {
        Some(v) => Some(model(v)),
        None => None,
    }
}

/// `serde_json::from_str::<Value>`: decoding depends on the text alone, so the
/// contract names the outcome and claims nothing else of it.
#[verifier::external_body]
pub(crate) fn from_text(text: &str) -> (r: Result<serde_json::Value, serde_json::Error>)
    ensures
        match r {
            Ok(v) => parsed(text@) == Some(model(v)),
            Err(_) => parsed(text@) is None,
        },
{
    serde_json::from_str::<serde_json::Value>(text)
}

/// `serde_json::to_string` on a `Value`: serialization depends on the document
/// alone, so the contract names the outcome and claims nothing else of it.
#[verifier::external_body]
pub(crate) fn to_text(v: &serde_json::Value) -> (r: Result<String, serde_json::Error>)
    ensures
        match r {
            Ok(s) => serialized(model(*v)) == Some(s@),
            Err(_) => serialized(model(*v)) is None,
        },
{
    serde_json::to_string(v)
}

/// `ToString::to_string` through `Value`'s `Display`: the compact text of the
/// document, which the contract names. The call returns for every document:
/// `Display` writes into a `String`, which takes every write, and each part of a
/// `Value` can be written.
#[verifier::external_body]
pub(crate) fn display(v: &serde_json::Value) -> (r: String)
    ensures
        r@ == displayed(model(*v)),
{
    v.to_string()
}

/// `Value::get` with a string index: the member of an object under that key, and
/// `None` for a missing key and for any value that is not an object.
#[verifier::external_body]
pub(crate) fn member<'a>(v: &'a serde_json::Value, key: &str) -> (r: Option<&'a serde_json::Value>)
    ensures
        match r {
            Some(m) => model(*v).field(key@) == Some(model(*m)),
            None => model(*v).field(key@) is None,
        },
{
    v.get(key)
}

/// `Value::as_str`: the text of a JSON string, and `None` for any other value.
pub assume_specification[ serde_json::Value::as_str ](v: &serde_json::Value) -> (r: Option<&str>)
    ensures
        match r {
            Some(s) => model(*v).text() == Some(s@),
            None => model(*v).text() is None,
        },
;

/// `Value::as_array`: the elements of a JSON array, and `None` for any other
/// value.
pub assume_specification[ serde_json::Value::as_array ](v: &serde_json::Value) -> (r: Option<
    &Vec<serde_json::Value>,
>)
    ensures
        match r {
            Some(elements) => model(*v).items() == Some(models(elements@)),
            None => model(*v).items() is None,
        },
;

/// `Value::is_null`: whether the document is the JSON `null`.
pub assume_specification[ serde_json::Value::is_null ](v: &serde_json::Value) -> (r: bool)
    ensures
        r == (model(*v) is Null),
;

/// `Value::clone`: a document with the same content.
pub assume_specification[ <serde_json::Value as Clone>::clone ](v: &serde_json::Value) -> (r:
    serde_json::Value)
    ensures
        model(r) == model(*v),
;

/// Decodes a line of JSON text; `None` where the text is no JSON document.
pub fn decode(text: &str) -> (r: Option<serde_json::Value>)
    ensures
        opt_model(r) == parsed(text@),
{
    match from_text(text) {
        Ok(v) => Some(v),
        Err(_) => None,
    }
}

/// The compact JSON text of a document, or the empty text where the document
/// cannot be serialized.
pub open spec fn encoded(m: JsonModel) -> Seq<char> {
    match serialized(m) {
        Some(s) => s,
        None => Seq::empty(),
    }
}

/// The compact JSON text of a document, or the empty text where the document
/// cannot be serialized.
pub fn encode(v: &serde_json::Value) -> (r: String)
    ensures
        r@ == encoded(model(*v)),
{
    match to_text(v) {
        Ok(s) => s,
        Err(_) => String::new(),
    }
}

/// The member of `v` under `key`, where it is given and is not `null`.
pub fn optional_member<'a>(v: &'a serde_json::Value, key: &str) -> (r: Option<
    &'a serde_json::Value,
>)
    ensures
        match r {
            Some(m) => model(*v).optional_field(key@) == Some(model(*m)),
            None => model(*v).optional_field(key@) is None,
        },
{
    match member(v, key) {
        Some(m) => if m.is_null() {
            None
        } else {
            Some(m)
        },
        None => None,
    }
}

/// The text of the string member of `v` under `key`.
pub fn text_member(v: &serde_json::Value, key: &str) -> (r: Option<String>)
    ensures
        match r {
            Some(s) => model(*v).text_field(key@) == Some(s@),
            None => model(*v).text_field(key@) is None,
        },
{
    match member(v, key) {
        Some(m) => match m.as_str() {
            Some(s) => Some(s.to_owned()),
            None => None,
        },
        None => None,
    }
}

} // verus!
