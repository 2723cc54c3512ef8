//! JSON documents, as herdr speaks them.
//!
//! A document is known by its nodes: each one under the JSON pointer that
//! leads to it, the empty pointer leading to the document itself.

use serde_json::Value;
use vstd::prelude::*;

pub mod tree;

verus! {

/// A JSON value of the crate `serde_json`, the tree that it parses a text into.
#[verifier::external_type_specification]
#[verifier::external_body]
pub struct ExValue(serde_json::Value);

/// One node of a document, without what is below it.
#[derive(Debug, Clone, PartialEq)]
pub enum JsonNode {
    Null,
    Bool(bool),
    /// A number: its value where that is a natural number that fits, and its
    /// text.
    Number { whole: Option<u64>, text: String },
    Text(String),
    /// An array, by its length.
    Array(usize),
    Object,
}

/// The mathematical value of a [`JsonNode`].
pub enum JsonNodeView {
    Null,
    Bool(bool),
    Number { whole: Option<u64>, text: Seq<char> },
    Text(Seq<char>),
    Array(nat),
    Object,
}

impl DeepView for JsonNode {
    type V = JsonNodeView;

    open spec fn deep_view(&self) -> JsonNodeView {
        match self {
            JsonNode::Null => JsonNodeView::Null,
            JsonNode::Bool(b) => JsonNodeView::Bool(*b),
            JsonNode::Number { whole, text } => JsonNodeView::Number { whole: *whole, text: text@ },
            JsonNode::Text(text) => JsonNodeView::Text(text@),
            JsonNode::Array(len) => JsonNodeView::Array(*len as nat),
            JsonNode::Object => JsonNodeView::Object,
        }
    }
}

/// The nodes that a JSON value holds, by the pointers that lead to them.
pub uninterp spec fn json_contents(value: Value) -> Map<Seq<char>, JsonNodeView>;

/// What `serde_json` parses a text into: the nodes of the document, or the
/// message of the error.
pub uninterp spec fn json_document(text: Seq<char>) -> Result<
    Map<Seq<char>, JsonNodeView>,
    Seq<char>,
>;

/// What `serde_json` makes of the value that a text opens with, whatever comes
/// behind it: the nodes of the value, and how many characters it takes up,
/// space in front of it included, or the message of the error.
pub uninterp spec fn json_opening(text: Seq<char>) -> Result<
    (Map<Seq<char>, JsonNodeView>, nat),
    Seq<char>,
>;

/// The bytes that `serde_json` writes a document as, or the message of the
/// error.
pub uninterp spec fn json_encoding(contents: Map<Seq<char>, JsonNodeView>) -> Result<
    Seq<u8>,
    Seq<char>,
>;

/// Calls `serde_json::from_str`. Whether the text is a document, which nodes
/// that document has and how an error is worded depend on the text alone.
#[verifier::external_body]
pub(crate) fn parse_json(text: &str) -> (r: Result<Value, String>)
    ensures
        match r {
            Ok(value) => json_document(text@) == Ok::<Map<Seq<char>, JsonNodeView>, Seq<char>>(
                json_contents(value),
            ),
            Err(message) => json_document(text@) == Err::<
                Map<Seq<char>, JsonNodeView>,
                Seq<char>,
            >(message@),
        },
{
    serde_json::from_str::<Value>(text).map_err(|e| e.to_string())
}

/// Calls `serde::Deserialize::deserialize`, for a `serde_json::Value`, on what
/// `serde_json::Deserializer::from_str` makes of the text. That reads one value
/// and leaves what comes behind it; `serde_json::StreamDeserializer::byte_offset`
/// then tells where the value ends. Whether the text opens with a value, which
/// nodes the value has, where it ends and how an error is worded depend on the
/// text alone. A value takes up at least one character.
#[verifier::external_body]
pub(crate) fn open_json<'a>(text: &'a str) -> (r: Result<(Value, &'a str), String>)
    ensures
        match r {
            Ok((value, rest)) => {
                &&& rest@.len() < text@.len()
                &&& rest@ == text@.skip(text@.len() - rest@.len())
                &&& json_opening(text@) == Ok::<(Map<Seq<char>, JsonNodeView>, nat), Seq<char>>(
                    (json_contents(value), (text@.len() - rest@.len()) as nat),
                )
            },
            Err(message) => json_opening(text@) == Err::<
                (Map<Seq<char>, JsonNodeView>, nat),
                Seq<char>,
            >(message@),
        },
{
    let mut source = serde_json::Deserializer::from_str(text);
    let value: Value = serde::Deserialize::deserialize(&mut source).map_err(
        |e: serde_json::Error| e.to_string(),
    )?;
    let end: usize = source.into_iter::<Value>().byte_offset();
    Ok((value, &text[end..]))
}

/// Calls `serde_json::Value::pointer`, which follows a pointer into the value
/// and gives the node it leads to, if it leads to one. Of a number it takes
/// what `serde_json::Number::as_u64` gives, and the text it is shown as.
#[verifier::external_body]
pub(crate) fn json_at(value: &Value, pointer: &str) -> (node: Option<JsonNode>)
    ensures
        match node {
            Some(node) => {
                &&& json_contents(*value).contains_key(pointer@)
                &&& json_contents(*value)[pointer@] == node.deep_view()
            },
            None => !json_contents(*value).contains_key(pointer@),
        },
{
    Some(match value.pointer(pointer)? {
        Value::Null => JsonNode::Null,
        Value::Bool(b) => JsonNode::Bool(*b),
        Value::Number(n) => JsonNode::Number { whole: n.as_u64(), text: n.to_string() },
        Value::String(text) => JsonNode::Text(text.clone()),
        Value::Array(items) => JsonNode::Array(items.len()),
        Value::Object(_) => JsonNode::Object,
    })
}

/// The nodes of a document that is one text.
pub open spec fn text_contents(text: Seq<char>) -> Map<Seq<char>, JsonNodeView> {
    map![Seq::empty() => JsonNodeView::Text(text)]
}

/// Makes a `serde_json::Value::String`, whose only node is the text.
#[verifier::external_body]
pub(crate) fn json_text(text: &str) -> (value: Value)
    ensures
        json_contents(value) == text_contents(text@),
{
    Value::String(text.to_string())
}

/// The pointer to the field `key` of the object at `at`.
pub open spec fn field_pointer(at: Seq<char>, key: Seq<char>) -> Seq<char> {
    at + "/"@ + key
}

/// The nodes of a document that stands under `key` in another.
pub open spec fn under(key: Seq<char>, contents: Map<Seq<char>, JsonNodeView>) -> Map<
    Seq<char>,
    JsonNodeView,
> {
    let head = field_pointer(Seq::empty(), key);
    Map::new(
        |pointer: Seq<char>|
            head.is_prefix_of(pointer) && contents.contains_key(pointer.skip(head.len() as int)),
        |pointer: Seq<char>| contents[pointer.skip(head.len() as int)],
    )
}

/// The nodes of an object with these fields.
pub open spec fn object_contents(
    fields: Seq<(Seq<char>, Map<Seq<char>, JsonNodeView>)>,
) -> Map<Seq<char>, JsonNodeView>
    decreases fields.len(),
{
    if fields.len() == 0 {
        map![Seq::empty() => JsonNodeView::Object]
    } else {
        object_contents(fields.drop_last()).union_prefer_right(
            under(fields.last().0, fields.last().1),
        )
    }
}

/// A key that stands for itself in a pointer.
pub open spec fn plain_key(key: Seq<char>) -> bool {
    !key.contains('/') && !key.contains('~')
}

/// The keys and the nodes of fields.
pub open spec fn fields_view(fields: Seq<(String, Value)>) -> Seq<
    (Seq<char>, Map<Seq<char>, JsonNodeView>),
> {
    fields.map_values(|field: (String, Value)| (field.0@, json_contents(field.1)))
}

/// Makes a `serde_json::Value::Object` out of a `serde_json::Map` that is
/// collected from the fields: its nodes are the object itself and, under each
/// key, those of the value.
#[verifier::external_body]
pub(crate) fn json_object(fields: Vec<(String, Value)>) -> (value: Value)
    requires
        forall|i: int| 0 <= i < fields@.len() ==> plain_key((#[trigger] fields@[i]).0@),
        forall|i: int, j: int|
            0 <= i < j < fields@.len() ==> (#[trigger] fields@[i]).0@ != (#[trigger] fields@[j]).0@,
    ensures
        json_contents(value) == object_contents(fields_view(fields@)),
{
    Value::Object(fields.into_iter().collect::<serde_json::Map<String, Value>>())
}

/// Calls `serde_json::to_vec`. The bytes depend on the nodes of the value
/// alone: fields are written in the order of their keys.
#[verifier::external_body]
pub(crate) fn json_bytes(value: &Value) -> (r: Result<Vec<u8>, String>)
    ensures
        match r {
            Ok(bytes) => json_encoding(json_contents(*value)) == Ok::<Seq<u8>, Seq<char>>(bytes@),
            Err(message) => json_encoding(json_contents(*value)) == Err::<Seq<u8>, Seq<char>>(
                message@,
            ),
        },
{
    serde_json::to_vec(value).map_err(|e| e.to_string())
}

/// The text at `at`, if there is one.
pub open spec fn text_at(contents: Map<Seq<char>, JsonNodeView>, at: Seq<char>) -> Option<
    Seq<char>,
> {
    if contents.contains_key(at) {
        match contents[at] {
            JsonNodeView::Text(text) => Some(text),
            _ => None,
        }
    } else {
        None
    }
}

/// The text at `at`, if there is one.
pub fn text_node(value: &Value, at: &str) -> (text: Option<String>)
    ensures
        text.deep_view() == text_at(json_contents(*value), at@),
{
    match json_at(value, at) {
        Some(JsonNode::Text(text)) => Some(text),
        _ => None,
    }
}

} // verus!
