//! JSON documents as bytes, and the values that stand at places in them.
//!
//! A place is given by a JSON pointer (RFC 6901).
use vstd::prelude::*;

verus! {

/// What stands at a place in a document.
#[derive(Debug)]
pub enum JsonNode {
    /// There is no such place.
    Missing,
    Null,
    Bool(bool),
    /// A number, with its value where it is an integer from 0 to `u64::MAX`.
    Number(Option<u64>),
    Text(String),
    /// An array, with the number of its items.
    Array(usize),
    Object,
}

/// The content of a `JsonNode`.
pub ghost enum Node {
    Missing,
    Null,
    Bool(bool),
    Number(Option<u64>),
    Text(Seq<char>),
    Array(usize),
    Object,
}

impl View for JsonNode {
    type V = Node;

    open spec fn view(&self) -> Node {
        match self {
            JsonNode::Missing => Node::Missing,
            JsonNode::Null => Node::Null,
            JsonNode::Bool(b) => Node::Bool(*b),
            JsonNode::Number(n) => Node::Number(*n),
            JsonNode::Text(text) => Node::Text(text@),
            JsonNode::Array(len) => Node::Array(*len),
            JsonNode::Object => Node::Object,
        }
    }
}

/// The reason for which `serde_json` does not accept a document.
pub uninterp spec fn json_fault(document: Seq<u8>) -> Option<Seq<char>>;

/// Calls `serde_json::from_slice`: nothing for a document that is JSON, and
/// the text of the error for one that is not.
#[verifier::external_body]
pub(crate) fn json_error(document: &[u8]) -> (r: Option<String>)
    ensures
        match r {
            Some(text) => json_fault(document@) == Some(text@),
            None => json_fault(document@) is None,
        },
{
    serde_json::from_slice::<serde_json::Value>(document).err().map(|error| error.to_string())
}

/// What `serde_json` finds in a document at the place that a pointer names.
pub uninterp spec fn json_at(document: Seq<u8>, pointer: Seq<char>) -> Node;

/// Calls `serde_json::Value::pointer` on the parsed document. A document that
/// is no JSON has nothing at any place.
#[verifier::external_body]
pub(crate) fn json_node(document: &[u8], pointer: &str) -> (r: JsonNode)
    ensures
        r@ == json_at(document@, pointer@),
        json_fault(document@) is Some ==> r@ == Node::Missing,
{
    let value = serde_json::from_slice::<serde_json::Value>(document).ok();
    match value.as_ref().and_then(|value| value.pointer(pointer)) {
        None => JsonNode::Missing,
        Some(serde_json::Value::Null) => JsonNode::Null,
        Some(serde_json::Value::Bool(b)) => JsonNode::Bool(*b),
        Some(serde_json::Value::Number(n)) => JsonNode::Number(n.as_u64()),
        Some(serde_json::Value::String(text)) => JsonNode::Text(text.clone()),
        Some(serde_json::Value::Array(items)) => JsonNode::Array(items.len()),
        Some(serde_json::Value::Object(_)) => JsonNode::Object,
    }
}

/// The first key that `serde_json` hands out of the object at the place that a
/// pointer names.
pub uninterp spec fn json_first_key(document: Seq<u8>, pointer: Seq<char>) -> Option<Seq<char>>;

/// Calls `serde_json::Map::keys` on the object at the place that a pointer
/// names in the parsed document, and takes the first. The map keeps its keys in
/// their order, so this is the least key; there is none where no object, or an
/// empty one, stands there.
#[verifier::external_body]
pub(crate) fn first_key(document: &[u8], pointer: &str) -> (r: Option<String>)
    ensures
        match r {
            Some(key) => json_first_key(document@, pointer@) == Some(key@),
            None => json_first_key(document@, pointer@) is None,
        },
        r is Some ==> json_at(document@, pointer@) == Node::Object,
{
    let value = serde_json::from_slice::<serde_json::Value>(document).ok()?;
    value.pointer(pointer)?.as_object()?.keys().next().cloned()
}

/// A character as it stands in a JSON text.
pub open spec fn escaped_char(c: char) -> Seq<char> {
    if c == '"' {
        seq!['\\', '"']
    } else if c == '\\' {
        seq!['\\', '\\']
    } else if c as int == 8 {
        seq!['\\', 'b']
    } else if c as int == 9 {
        seq!['\\', 't']
    } else if c as int == 10 {
        seq!['\\', 'n']
    } else if c as int == 12 {
        seq!['\\', 'f']
    } else if c as int == 13 {
        seq!['\\', 'r']
    } else if (c as int) < 32 {
        seq![
            '\\',
            'u',
            '0',
            '0',
            crate::digest::hex_digit(c as int / 16),
            crate::digest::hex_digit(c as int % 16),
        ]
    } else {
        seq![c]
    }
}

/// The characters of a text as they stand in a JSON text.
pub open spec fn escaped_chars(text: Seq<char>) -> Seq<char>
    decreases text.len(),
{
    if text.len() == 0 {
        seq![]
    } else {
        escaped_chars(text.drop_last()) + escaped_char(text.last())
    }
}

/// A text as JSON.
pub open spec fn json_literal(text: Seq<char>) -> Seq<char> {
    seq!['"'] + escaped_chars(text) + seq!['"']
}

/// Calls `serde_json::to_string` on a text. It puts the text in quotes, and a
/// backslash before quotes, backslashes and control characters, of which some
/// have a letter and the others a number. Writing a text does not fail.
#[verifier::external_body]
pub(crate) fn json_string(text: &str) -> (r: Option<String>)
    ensures
        match r {
            Some(literal) => literal@ == json_literal(text@),
            None => false,
        },
{
    serde_json::to_string(text).ok()
}

}
