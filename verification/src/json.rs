//! JSON values, read and written by `serde_json`.
use vstd::prelude::*;
use serde_json::Value;
use crate::text::same_text;

verus! {

/// A JSON value. A number is kept as text.
#[derive(Debug)]
pub enum Json {
    Null,
    Bool(bool),
    Number(String),
    Text(String),
    List(Vec<Json>),
    /// The fields, each with its name.
    Object(Vec<(String, Json)>),
}

/// The first of `fields` from `from` on that is called `key`.
pub open spec fn first_field(fields: Seq<(String, Json)>, key: Seq<char>, from: int) -> Option<Json>
    decreases fields.len() - from,
{
    if from < 0 || from >= fields.len() {
        None
    } else if fields[from].0@ == key {
        Some(fields[from].1)
    } else {
        first_field(fields, key, from + 1)
    }
}

impl Json {
    /// The text, if the value is one.
    pub open spec fn text(self) -> Option<Seq<char>> {
        match self {
            Json::Text(s) => Some(s@),
            _ => None,
        }
    }

    /// The items, if the value is a list.
    pub open spec fn items(self) -> Option<Seq<Json>> {
        match self {
            Json::List(v) => Some(v@),
            _ => None,
        }
    }

    /// The field called `key`, if the value is an object that has one.
    pub open spec fn field(self, key: Seq<char>) -> Option<Json> {
        match self {
            Json::Object(fields) => first_field(fields@, key, 0),
            _ => None,
        }
    }

    /// The text of the field called `key`.
    pub open spec fn text_field(self, key: Seq<char>) -> Option<Seq<char>> {
        match self.field(key) {
            Some(value) => value.text(),
            None => None,
        }
    }

    /// The text, if the value is one.
    pub fn get_text(&self) -> (r: Option<&str>)
        ensures
            match r {
                Some(s) => self.text() == Some(s@),
                None => self.text() is None,
            },
    {
        match self {
            Json::Text(s) => Some(s.as_str()),
            _ => None,
        }
    }

    /// The items, if the value is a list.
    pub fn get_items(&self) -> (r: Option<&Vec<Json>>)
        ensures
            match r {
                Some(v) => self.items() == Some(v@),
                None => self.items() is None,
            },
    {
        match self {
            Json::List(v) => Some(v),
            _ => None,
        }
    }

    /// The first field called `key`, if the value is an object that has one.
    pub fn get_field(&self, key: &str) -> (r: Option<&Json>)
        ensures
            match r {
                Some(value) => self.field(key@) == Some(*value),
                None => self.field(key@) is None,
            },
    {
        match self {
            Json::Object(fields) => {
                let mut i: usize = 0;
                while i < fields.len()
                    invariant
                        i <= fields.len(),
                        self.field(key@) == first_field(fields@, key@, 0),
                        first_field(fields@, key@, 0) == first_field(fields@, key@, i as int),
                    decreases fields.len() - i,
                {
                    if same_text(fields[i].0.as_str(), key) {
                        return Some(&fields[i].1);
                    }
                    i += 1;
                }
                None
            },
            _ => None,
        }
    }

    /// The text of the field called `key`.
    pub fn get_text_field(&self, key: &str) -> (r: Option<&str>)
        ensures
            match r {
                Some(s) => self.text_field(key@) == Some(s@),
                None => self.text_field(key@) is None,
            },
    {
        match self.get_field(key) {
            Some(value) => value.get_text(),
            None => None,
        }
    }
}

/// `serde_json::Value`: a JSON value as `serde_json` holds it.
#[verifier::external_type_specification]
#[verifier::external_body]
pub struct ExValue(Value);

/// `serde_json::Error`: why a text is no JSON.
#[verifier::external_type_specification]
#[verifier::external_body]
pub struct ExError(serde_json::Error);

/// The value that `serde_json::from_str` reads from a text, where it reads
/// one.
pub uninterp spec fn json_of_text(text: Seq<char>) -> Option<Json>;

/// The text that `serde_json` writes for a value.
pub uninterp spec fn text_of_json(value: Json) -> Seq<char>;

/// A `serde_json::Value` as a `Json`, variant by variant; a number becomes
/// the text that `serde_json` writes for it. Nothing is claimed of the result
/// here.
#[verifier::external_body]
fn from_value(value: Value) -> Json {
    match value {
        Value::Null => Json::Null,
        Value::Bool(b) => Json::Bool(b),
        Value::Number(n) => Json::Number(n.to_string()),
        Value::String(s) => Json::Text(s),
        Value::Array(items) => Json::List(items.into_iter().map(from_value).collect()),
        Value::Object(fields) => Json::Object(
            fields.into_iter().map(|(k, v)| (k, from_value(v))).collect(),
        ),
    }
}

/// A `Json` as a `serde_json::Value`, variant by variant; a number that
/// `serde_json` does not read becomes null. Nothing is claimed of the result
/// here.
#[verifier::external_body]
fn to_value(json: &Json) -> Value {
    match json {
        Json::Null => Value::Null,
        Json::Bool(b) => Value::Bool(*b),
        Json::Number(n) => n.parse().map(Value::Number).unwrap_or(Value::Null),
        Json::Text(s) => Value::String(s.clone()),
        Json::List(items) => Value::Array(items.iter().map(to_value).collect()),
        Json::Object(fields) => Value::Object(
            fields.iter().map(|(k, v)| (k.clone(), to_value(v))).collect(),
        ),
    }
}

/// `serde_json::from_str`, for a `Value`: the value that the text stands for,
/// or the error where the text is no JSON. The contract only names the
/// result: the same text gives the same value.
#[verifier::external_body]
fn read_json(text: &str) -> (r: Result<Json, serde_json::Error>)
    ensures
        match r {
            Ok(value) => json_of_text(text@) == Some(value),
            Err(_) => json_of_text(text@) is None,
        },
{
    serde_json::from_str::<Value>(text).map(from_value)
}

/// `to_string` of a `serde_json::Value`: the value as compact JSON text. The
/// contract only names the result: the same value gives the same text.
#[verifier::external_body]
fn write_json(value: &Json) -> (r: String)
    ensures
        r@ == text_of_json(*value),
{
    to_value(value).to_string()
}

impl Json {
    /// Reads a JSON text.
    pub fn parse(text: &str) -> (r: Option<Json>)
        ensures
            r == json_of_text(text@),
    {
        match read_json(text) {
            Ok(value) => Some(value),
            Err(_) => None,
        }
    }

    /// The value as JSON text.
    pub fn to_text(&self) -> (r: String)
        ensures
            r@ == text_of_json(*self),
    {
        write_json(self)
    }
}

} // verus!
