//! A decoded JSON document, as the argument parser reads it.
use vstd::prelude::*;

verus! {

/// A decoded JSON value. Integers are held exactly: as a sign and a magnitude where the
/// magnitude fits in 128 bits, else as a sign and decimal digits. A number with a fraction or
/// an exponent is kept as its text.
pub enum JsonValue {
    Null,
    Bool(bool),
    Int { negative: bool, magnitude: u128 },
    WideInt { negative: bool, digits: String },
    NonInteger(String),
    Str(String),
    Array(Vec<JsonValue>),
    Object(Vec<(String, JsonValue)>),
}

/// An integer as given in a document: one whose magnitude fits in 128 bits, or a wider one as
/// its decimal digits.
#[derive(Debug, PartialEq, Eq)]
pub enum JsonInteger {
    Fits { negative: bool, magnitude: u128 },
    Wide { negative: bool, digits: String },
}

/// The shape of a JSON value, as named in type errors.
#[derive(Clone, Copy, Debug, PartialEq, Eq, Structural)]
pub enum Shape {
    Null,
    Bool,
    Integer,
    Number,
    String,
    HexString,
    Array,
    Object,
    NonNull,
}

/// The integer a sign and a magnitude stand for.
pub open spec fn int_value(negative: bool, magnitude: u128) -> int {
    if negative {
        -(magnitude as int)
    } else {
        magnitude as int
    }
}

/// The shape a value has.
pub open spec fn shape_of(v: JsonValue) -> Shape {
    match v {
        JsonValue::Null => Shape::Null,
        JsonValue::Bool(_) => Shape::Bool,
        JsonValue::Int { .. } => Shape::Integer,
        JsonValue::WideInt { .. } => Shape::Integer,
        JsonValue::NonInteger(_) => Shape::Number,
        JsonValue::Str(_) => Shape::String,
        JsonValue::Array(_) => Shape::Array,
        JsonValue::Object(_) => Shape::Object,
    }
}

/// The shape a value has.
pub fn shape(v: &JsonValue) -> (r: Shape)
    ensures
        r == shape_of(*v),
{
    match v {
        JsonValue::Null => Shape::Null,
        JsonValue::Bool(_) => Shape::Bool,
        JsonValue::Int { .. } => Shape::Integer,
        JsonValue::WideInt { .. } => Shape::Integer,
        JsonValue::NonInteger(_) => Shape::Number,
        JsonValue::Str(_) => Shape::String,
        JsonValue::Array(_) => Shape::Array,
        JsonValue::Object(_) => Shape::Object,
    }
}

} // verus!
