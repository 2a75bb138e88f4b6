//! Cell values stored in table rows: null, integer, or text.

use vstd::prelude::*;

verus! {

/// A single cell value as it appears in a row of the store.
#[derive(Debug, Clone, PartialEq, Eq)]
pub enum Value {
    NullVal,
    IntVal(i64),
    TextVal(String),
}

/// The mathematical model of a cell value: text is a sequence of characters.
pub enum ValueModel {
    NullVal,
    IntVal(int),
    TextVal(Seq<char>),
}

impl View for Value {
    type V = ValueModel;

    open spec fn view(&self) -> ValueModel {
        match self {
            Value::NullVal => ValueModel::NullVal,
            Value::IntVal(i) => ValueModel::IntVal(*i as int),
            Value::TextVal(s) => ValueModel::TextVal(s@),
        }
    }
}

/// Decides equality of two cell values, exactly as their models compare.
pub fn value_eq(a: &Value, b: &Value) -> (r: bool)
    ensures
        r == (a@ == b@),
{
    match (a, b) {
        (Value::NullVal, Value::NullVal) => true,
        (Value::IntVal(x), Value::IntVal(y)) => x == y,
        (Value::TextVal(x), Value::TextVal(y)) => x.eq(y),
        _ => false,
    }
}

/// Produces a value equal in model to the given one.
pub fn copy_value(v: &Value) -> (r: Value)
    ensures
        r@ == v@,
{
    match v {
        Value::NullVal => Value::NullVal,
        Value::IntVal(i) => Value::IntVal(*i),
        Value::TextVal(s) => Value::TextVal(s.clone()),
    }
}

/// True when the value is the null marker.
pub fn value_is_null(v: &Value) -> (r: bool)
    ensures
        r == (v@ == ValueModel::NullVal),
{
    match v {
        Value::NullVal => true,
        _ => false,
    }
}

} // verus!
