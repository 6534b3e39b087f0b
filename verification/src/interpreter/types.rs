use crate::text::{i64_to_string, parse_decimal, parse_i64, render_int};
use vstd::prelude::*;
use vstd::string::*;

verus! {

/// What a `RuntimeTypes` says: the value that a variable holds.
pub enum Value {
    Number(i64),
    Text(Seq<char>),
}

impl Value {
    /// The value as a number: a number is itself, and a text is the number
    /// that it spells, if it spells one.
    pub open spec fn as_number(self) -> Option<i64> {
        match self {
            Value::Number(v) => Some(v),
            Value::Text(s) => parse_decimal(s),
        }
    }

    /// The value as text: a text is itself, and a number is written in base ten.
    pub open spec fn render(self) -> Seq<char> {
        match self {
            Value::Number(v) => render_int(v as int),
            Value::Text(s) => s,
        }
    }
}

/// The value that a variable holds: a number or a text. The kind goes with
/// the value, not with the name.
#[derive(Debug)]
pub enum RuntimeTypes {
    Number(i64),
    String(String),
}

impl View for RuntimeTypes {
    type V = Value;

    open spec fn view(&self) -> Value {
        match self {
            RuntimeTypes::Number(v) => Value::Number(*v),
            RuntimeTypes::String(s) => Value::Text(s@),
        }
    }
}

impl Clone for RuntimeTypes {
    fn clone(&self) -> (r: Self)
        ensures
            r == *self,
    {
        match self {
            RuntimeTypes::Number(v) => RuntimeTypes::Number(*v),
            RuntimeTypes::String(s) => RuntimeTypes::String(s.clone()),
        }
    }
}

impl RuntimeTypes {
    /// The value as a number: a number is itself, and a text is the number
    /// that it spells, if it spells one.
    pub fn as_number(&self) -> (r: Option<i64>)
        ensures
            r == self@.as_number(),
    {
        match self {
            RuntimeTypes::Number(value) => Some(*value),
            RuntimeTypes::String(string) => parse_i64(string.as_str()),
        }
    }

    /// The value as text, which every value has: a text is itself, and a
    /// number is written in base ten.
    pub fn as_string(&self) -> (r: Option<String>)
        ensures
            r matches Some(s) && s@ == self@.render(),
    {
        match self {
            RuntimeTypes::Number(val) => Some(i64_to_string(*val)),
            RuntimeTypes::String(val) => Some(val.clone()),
        }
    }
}

} // verus!
