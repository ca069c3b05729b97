//! Plain JSON values as handed to the library, and the typed field values
//! that documents store.

use crate::analysis::string_views;
use vstd::prelude::*;

verus! {

/// A JSON value. A floating-point number is held as its IEEE-754 bit
/// pattern; an object keeps its members in the order given.
#[derive(Debug, PartialEq)]
pub enum Json {
    Null,
    Boolean(bool),
    I64(i64),
    U64(u64),
    F64 { bits: u64 },
    String(String),
    Array(Vec<Json>),
    Object(Vec<(String, Json)>),
}

/// A stored field value. `TokenVector` holds the terms that analysis
/// produced; a floating-point number is held as its IEEE-754 bit pattern.
#[derive(Clone, Debug, PartialEq)]
pub enum Value {
    String(String),
    TokenVector(Vec<String>),
    Boolean(bool),
    I64(i64),
    U64(u64),
    F64 { bits: u64 },
    Null,
}

/// The mathematical form of a `Value`.
pub enum ValueView {
    String(Seq<char>),
    TokenVector(Seq<Seq<char>>),
    Boolean(bool),
    I64(i64),
    U64(u64),
    F64 { bits: u64 },
    Null,
}

impl View for Value {
    type V = ValueView;

    open spec fn view(&self) -> ValueView {
        match self {
            Value::String(s) => ValueView::String(s@),
            Value::TokenVector(v) => ValueView::TokenVector(string_views(v@)),
            Value::Boolean(b) => ValueView::Boolean(*b),
            Value::I64(n) => ValueView::I64(*n),
            Value::U64(n) => ValueView::U64(*n),
            Value::F64 { bits } => ValueView::F64 { bits: *bits },
            Value::Null => ValueView::Null,
        }
    }
}

/// The direct conversion of a JSON value: scalars keep their shape, and
/// arrays and objects, which have no field form, become `Null`.
pub open spec fn json_value(j: Json) -> ValueView {
    match j {
        Json::Null => ValueView::Null,
        Json::Boolean(b) => ValueView::Boolean(b),
        Json::I64(n) => ValueView::I64(n),
        Json::U64(n) => ValueView::U64(n),
        Json::F64 { bits } => ValueView::F64 { bits },
        Json::String(s) => ValueView::String(s@),
        Json::Array(_) => ValueView::Null,
        Json::Object(_) => ValueView::Null,
    }
}

/// What `as_json` gives back for a value: analyzed terms have no JSON form.
pub open spec fn json_form(v: ValueView) -> ValueView {
    match v {
        ValueView::TokenVector(_) => ValueView::Null,
        _ => v,
    }
}

impl Value {
    /// Converts a JSON value directly (see `json_value`).
    pub fn from_json(json: &Json) -> (r: Value)
        ensures
            r@ == json_value(*json),
    {
        match json {
            Json::String(s) => Value::String(s.clone()),
            Json::Boolean(b) => Value::Boolean(*b),
            Json::F64 { bits } => Value::F64 { bits: *bits },
            Json::I64(n) => Value::I64(*n),
            Json::U64(n) => Value::U64(*n),
            Json::Null => Value::Null,
            Json::Array(_) => Value::Null,
            Json::Object(_) => Value::Null,
        }
    }

    /// The JSON form of a stored value; a token vector becomes `Null`.
    pub fn as_json(&self) -> (r: Json)
        ensures
            json_value(r) == json_form(self@),
            !(r is Array),
            !(r is Object),
    {
        match self {
            Value::String(s) => Json::String(s.clone()),
            Value::TokenVector(_) => Json::Null,
            Value::Boolean(b) => Json::Boolean(*b),
            Value::F64 { bits } => Json::F64 { bits: *bits },
            Value::I64(n) => Json::I64(*n),
            Value::U64(n) => Json::U64(*n),
            Value::Null => Json::Null,
        }
    }
}

} // verus!
