//! JSON documents as plain data, and the two calls into `serde_json` that
//! turn text into a document and a document into text.

use vstd::prelude::*;

verus! {

/// A JSON document. Object members keep the order in which they were
/// written. A number that is not an unsigned 64-bit integer is `Number(None)`.
#[derive(Debug, PartialEq, Eq)]
pub enum Json {
    Null,
    Bool(bool),
    Number(Option<u64>),
    Text(String),
    Array(Vec<Json>),
    Object(Vec<(String, Json)>),
}

/// Mathematical value of a [`Json`] document.
pub enum JsonView {
    Null,
    Bool(bool),
    Number(Option<u64>),
    Text(Seq<char>),
    Array(Seq<JsonView>),
    Object(Seq<(Seq<char>, JsonView)>),
}

impl Json {
    /// The value of the document.
    pub open spec fn model(self) -> JsonView
        decreases self,
    {
        match self {
            Json::Null => JsonView::Null,
            Json::Bool(b) => JsonView::Bool(b),
            Json::Number(n) => JsonView::Number(n),
            Json::Text(s) => JsonView::Text(s@),
            Json::Array(items) => JsonView::Array(
                Seq::new(
                    items@.len(),
                    |i: int|
                        if 0 <= i < items@.len() {
                            items@[i].model()
                        } else {
                            JsonView::Null
                        },
                ),
            ),
            Json::Object(fields) => JsonView::Object(
                Seq::new(
                    fields@.len(),
                    |i: int|
                        if 0 <= i < fields@.len() {
                            (fields@[i].0@, fields@[i].1.model())
                        } else {
                            (Seq::empty(), JsonView::Null)
                        },
                ),
            ),
        }
    }
}

impl View for Json {
    type V = JsonView;

    open spec fn view(&self) -> JsonView {
        self.model()
    }
}

/// The values of an object's members, in order.
pub open spec fn member_views(fields: Seq<(String, Json)>) -> Seq<(Seq<char>, JsonView)> {
    Seq::new(fields.len(), |i: int| (fields[i].0@, fields[i].1@))
}

/// The value of an object is made of the values of its members.
pub proof fn lemma_object_view(fields: Vec<(String, Json)>)
    ensures
        Json::Object(fields)@ == JsonView::Object(member_views(fields@)),
{
    assert(Json::Object(fields)@->Object_0 =~= member_views(fields@));
}

/// `serde_json::Value`, carried between the parser and the converters.
#[verifier::external_type_specification]
#[verifier::external_body]
pub struct ExValue(serde_json::Value);

/// The document that `serde_json::from_str` reads from a text, or `None`
/// where it rejects the text.
pub uninterp spec fn json_parsed(text: Seq<char>) -> Option<JsonView>;

/// The compact text that `serde_json::to_string` writes for a document.
pub uninterp spec fn json_text(doc: JsonView) -> Seq<char>;

/// A text without a line feed in it.
pub open spec fn is_one_line(text: Seq<char>) -> bool {
    forall|i: int| 0 <= i < text.len() ==> text[i] != '\n'
}

/// A member value that is a text or an unsigned integer.
pub open spec fn is_scalar(doc: JsonView) -> bool {
    match doc {
        JsonView::Text(_) => true,
        JsonView::Number(n) => n is Some,
        _ => false,
    }
}

/// An object whose members are all texts or unsigned integers.
pub open spec fn is_record(doc: JsonView) -> bool {
    match doc {
        JsonView::Object(fields) => forall|i: int|
            0 <= i < fields.len() ==> is_scalar(#[trigger] fields[i].1),
        _ => false,
    }
}

/// Documents of at most two levels of objects over texts and unsigned
/// integers: the ones this library writes.
pub open spec fn is_flat(doc: JsonView) -> bool {
    match doc {
        JsonView::Object(fields) => forall|i: int|
            0 <= i < fields.len() ==> is_scalar(#[trigger] fields[i].1) || is_record(fields[i].1),
        _ => false,
    }
}

/// Copies a `serde_json::Value` into a [`Json`], variant by variant, with
/// `Number::as_u64` for numbers. Nothing is claimed of the result here.
#[verifier::external_body]
fn json_of_value(v: &serde_json::Value) -> Json {
    match v {
        serde_json::Value::Null => Json::Null,
        serde_json::Value::Bool(b) => Json::Bool(*b),
        serde_json::Value::Number(n) => Json::Number(n.as_u64()),
        serde_json::Value::String(s) => Json::Text(s.clone()),
        serde_json::Value::Array(a) => Json::Array(a.iter().map(json_of_value).collect()),
        serde_json::Value::Object(m) => Json::Object(
            m.iter().map(|(k, x)| (k.clone(), json_of_value(x))).collect(),
        ),
    }
}

/// Copies a [`Json`] into a `serde_json::Value`, variant by variant.
/// Nothing is claimed of the result here.
#[verifier::external_body]
fn value_of_json(j: &Json) -> serde_json::Value {
    match j {
        Json::Null => serde_json::Value::Null,
        Json::Bool(b) => serde_json::Value::Bool(*b),
        Json::Number(n) => serde_json::Value::from(*n),
        Json::Text(s) => serde_json::Value::String(s.clone()),
        Json::Array(a) => serde_json::Value::Array(a.iter().map(value_of_json).collect()),
        Json::Object(m) => serde_json::Value::Object(
            m.iter().map(|(k, x)| (k.clone(), value_of_json(x))).collect(),
        ),
    }
}

/// Calls `serde_json::from_str` for a `serde_json::Value`. The contract
/// claims only that the outcome is a function of the text: the document
/// read, or `None` where the parser reports an error.
#[verifier::external_body]
pub(crate) fn parse_json(text: &str) -> (r: Option<Json>)
    ensures
        match r {
            Some(doc) => json_parsed(text@) == Some(doc@),
            None => json_parsed(text@) is None,
        },
{
    match serde_json::from_str::<serde_json::Value>(text) {
        Ok(v) => Some(json_of_value(&v)),
        Err(_) => None,
    }
}

/// Calls `serde_json::to_string` on the document as a `serde_json::Value`.
/// The contract claims that the text is a function of the document, and
/// that it holds no line feed: the compact form has no whitespace between
/// tokens, and inside a string a line feed is written as an escape.
/// Writing a value into memory does not fail; the error arm is never taken.
#[verifier::external_body]
pub(crate) fn print_json(doc: &Json) -> (r: String)
    requires
        is_flat(doc@),
    ensures
        r@ == json_text(doc@),
        is_one_line(r@),
{
    match serde_json::to_string(&value_of_json(doc)) {
        Ok(s) => s,
        Err(_) => String::new(),
    }
}

} // verus!
