//! JSON documents as plain values. Reading and writing JSON text is serde_json's work; what
//! is read from a document is decided here.

use crate::text::str_eq;
use vstd::prelude::*;

verus! {

/// A JSON document.
#[derive(Debug, PartialEq, Eq)]
pub enum Json {
    Null,
    Bool(bool),
    /// A number, as the text that serde_json prints for it.
    Number(String),
    Text(String),
    Array(Vec<Json>),
    /// The members of an object, in the order in which serde_json holds them.
    Object(Vec<(String, Json)>),
}

/// The first member of `members` named `key`, if there is one.
pub open spec fn lookup(members: Seq<(String, Json)>, key: Seq<char>) -> Option<Json>
    decreases members.len(),
{
    if members.len() == 0 {
        None
    } else if members[0].0@ == key {
        Some(members[0].1)
    } else {
        lookup(members.drop_first(), key)
    }
}

impl Json {
    /// The member `key` of an object; `None` for a value of another kind.
    pub open spec fn spec_member(self, key: Seq<char>) -> Option<Json> {
        match self {
            Json::Object(members) => lookup(members@, key),
            _ => None,
        }
    }

    /// The element at `index` of an array; `None` for a value of another kind.
    pub open spec fn spec_element(self, index: int) -> Option<Json> {
        match self {
            Json::Array(elements) => if 0 <= index < elements@.len() {
                Some(elements@[index])
            } else {
                None
            },
            _ => None,
        }
    }

    /// The characters of a string; `None` for a value of another kind.
    pub open spec fn spec_text(self) -> Option<Seq<char>> {
        match self {
            Json::Text(text) => Some(text@),
            _ => None,
        }
    }

    /// The member `key` of an object.
    pub fn member(&self, key: &str) -> (r: Option<&Json>)
        ensures
            match r {
                Some(found) => self.spec_member(key@) == Some(*found),
                None => self.spec_member(key@) is None,
            },
    {
        match self {
            Json::Object(members) => {
                let mut i: usize = 0;
                assert(members@.skip(0) =~= members@);
                while i < members.len()
                    invariant
                        i <= members.len(),
                        self.spec_member(key@) == lookup(members@, key@),
                        lookup(members@, key@) == lookup(members@.skip(i as int), key@),
                    decreases members.len() - i,
                {
                    assert(members@.skip(i as int)[0] == members@[i as int]);
                    if str_eq(members[i].0.as_str(), key) {
                        return Some(&members[i].1);
                    }
                    assert(members@.skip(i as int).drop_first() =~= members@.skip(i + 1));
                    i += 1;
                }
                None
            },
            _ => None,
        }
    }

    /// The element at `index` of an array.
    pub fn element(&self, index: usize) -> (r: Option<&Json>)
        ensures
            match r {
                Some(found) => self.spec_element(index as int) == Some(*found),
                None => self.spec_element(index as int) is None,
            },
    {
        match self {
            Json::Array(elements) => if index < elements.len() {
                Some(&elements[index])
            } else {
                None
            },
            _ => None,
        }
    }

    /// The characters of a string.
    pub fn as_text(&self) -> (r: Option<&str>)
        ensures
            match r {
                Some(text) => self.spec_text() == Some(text@),
                None => self.spec_text() is None,
            },
    {
        match self {
            Json::Text(text) => Some(text.as_str()),
            _ => None,
        }
    }
}

#[verifier::external_type_specification]
#[verifier::external_body]
pub struct ExValue(serde_json::Value);

#[verifier::external_type_specification]
#[verifier::external_body]
pub struct ExError(serde_json::Error);

/// What a value of serde_json holds, as a document.
pub uninterp spec fn json_tree(value: serde_json::Value) -> Json;

/// The document that serde_json reads from `bytes`; `None` where it refuses them as no
/// JSON text.
pub uninterp spec fn json_parse(bytes: Seq<u8>) -> Option<Json>;

/// The hexadecimal digit `d`, in lower case.
pub open spec fn hex_digit(d: nat) -> char
    recommends
        d < 16,
{
    if d < 10 {
        crate::text::digit_char(d)
    } else if d == 10 {
        'a'
    } else if d == 11 {
        'b'
    } else if d == 12 {
        'c'
    } else if d == 13 {
        'd'
    } else if d == 14 {
        'e'
    } else {
        'f'
    }
}

/// How a character stands inside a JSON string literal: quotation mark and backslash behind
/// a backslash, the control characters below the space as their short escape or as `\u00`
/// and two hexadecimal digits, every other character as itself.
pub open spec fn escaped_char(c: char) -> Seq<char> {
    if c == '"' {
        seq!['\\', '"']
    } else if c == '\\' {
        seq!['\\', '\\']
    } else if c == '\u{8}' {
        seq!['\\', 'b']
    } else if c == '\t' {
        seq!['\\', 't']
    } else if c == '\n' {
        seq!['\\', 'n']
    } else if c == '\u{c}' {
        seq!['\\', 'f']
    } else if c == '\r' {
        seq!['\\', 'r']
    } else if c <= '\u{1f}' {
        seq!['\\', 'u', '0', '0', hex_digit((c as nat) / 16), hex_digit((c as nat) % 16)]
    } else {
        seq![c]
    }
}

/// The characters of `text` as they stand inside a JSON string literal.
pub open spec fn escaped(text: Seq<char>) -> Seq<char>
    decreases text.len(),
{
    if text.len() == 0 {
        Seq::empty()
    } else {
        escaped(text.drop_last()) + escaped_char(text.last())
    }
}

/// Whether the character stands for itself in a JSON string literal.
pub open spec fn is_plain(c: char) -> bool {
    c >= ' ' && c != '"' && c != '\\'
}

/// A text of plain characters is escaped as itself: its literal is the text between
/// quotation marks.
pub proof fn lemma_plain_literal(text: Seq<char>)
    requires
        forall|i: int| 0 <= i < text.len() ==> is_plain(#[trigger] text[i]),
    ensures
        escaped(text) == text,
        json_literal(text) == seq!['"'] + text + seq!['"'],
    decreases text.len(),
{
    if text.len() > 0 {
        let front = text.drop_last();
        assert forall|i: int| 0 <= i < front.len() implies is_plain(#[trigger] front[i]) by {
            assert(front[i] == text[i]);
        }
        lemma_plain_literal(front);
        assert(is_plain(text[text.len() - 1]));
        assert(escaped(text) =~= text);
    } else {
        assert(escaped(text) =~= text);
    }
}

/// The JSON string literal for `text`: its escaped characters between quotation marks.
pub open spec fn json_literal(text: Seq<char>) -> Seq<char> {
    seq!['"'] + escaped(text) + seq!['"']
}

/// Calls `serde_json::from_slice` for a `Value`. The contract gives what the value holds
/// the name `json_parse`: it depends on the bytes alone.
#[verifier::external_body]
fn read_value(bytes: &[u8]) -> (r: Result<serde_json::Value, serde_json::Error>)
    ensures
        match r {
            Ok(value) => json_parse(bytes@) == Some(json_tree(value)),
            Err(_) => json_parse(bytes@) is None,
        },
{
    serde_json::from_slice::<serde_json::Value>(bytes)
}

/// Copies a `Value` of serde_json into a `Json`, variant by variant; a number becomes the
/// text that its `Display` prints, an object its members in the order of `Map::iter`. The
/// contract gives the copy the name `json_tree`.
#[verifier::external_body]
fn tree_of(value: &serde_json::Value) -> (r: Json)
    ensures
        r == json_tree(*value),
{
    match value {
        serde_json::Value::Null => Json::Null,
        serde_json::Value::Bool(b) => Json::Bool(*b),
        serde_json::Value::Number(n) => Json::Number(n.to_string()),
        serde_json::Value::String(s) => Json::Text(s.clone()),
        serde_json::Value::Array(a) => Json::Array(a.iter().map(tree_of).collect()),
        serde_json::Value::Object(m) => Json::Object(
            m.iter().map(|(k, v)| (k.clone(), tree_of(v))).collect(),
        ),
    }
}

/// Calls `serde_json::to_string` on a string. It writes into memory and does not fail; what
/// it writes is the string literal as `json_literal` states it.
#[verifier::external_body]
fn write_text(text: &str) -> (r: Result<String, serde_json::Error>)
    ensures
        match r {
            Ok(literal) => literal@ == json_literal(text@),
            Err(_) => false,
        },
{
    serde_json::to_string(text)
}

/// Calls `to_string` on an error of serde_json, which gives its message. The contract says
/// nothing of the message.
#[verifier::external_body]
fn fault_text(error: &serde_json::Error) -> (r: String) {
    error.to_string()
}

/// Reads a JSON document from `bytes`. Where they are no JSON text, the error is the message
/// of serde_json.
pub fn parse(bytes: &[u8]) -> (r: Result<Json, String>)
    ensures
        match r {
            Ok(doc) => json_parse(bytes@) == Some(doc),
            Err(_) => json_parse(bytes@) is None,
        },
{
    match read_value(bytes) {
        Ok(value) => Ok(tree_of(&value)),
        Err(error) => Err(fault_text(&error)),
    }
}

/// The JSON string literal for `text`.
pub fn quote(text: &str) -> (r: String)
    ensures
        r@ == json_literal(text@),
{
    match write_text(text) {
        Ok(literal) => literal,
        Err(_) => String::new(),
    }
}

} // verus!
