//! The values that programs compute.

use vstd::prelude::*;
use crate::number::{equal, nan, num_eq};

verus! {

/// A run-time value. A `Number` holds the IEEE-754 binary64 bit pattern of
/// the number it stands for.
#[derive(Clone, Debug, PartialEq)]
pub enum Value {
    Number(u64),
    Boolean(bool),
    String(String),
    Null,
}

/// The mathematical content of a [`Value`]: text is a sequence of characters.
pub enum ValueView {
    Number(u64),
    Boolean(bool),
    String(Seq<char>),
    Null,
}

impl View for Value {
    type V = ValueView;

    open spec fn view(&self) -> ValueView {
        match self {
            Value::Number(bits) => ValueView::Number(*bits),
            Value::Boolean(b) => ValueView::Boolean(*b),
            Value::String(s) => ValueView::String(s@),
            Value::Null => ValueView::Null,
        }
    }
}

/// The views of a sequence of values, element by element.
pub open spec fn views(values: Seq<Value>) -> Seq<ValueView> {
    values.map_values(|v: Value| v@)
}

/// The values that count as false in a condition: `false` and `null`, and
/// nothing else. Every number is true, zero included.
pub open spec fn falsey(value: ValueView) -> bool {
    match value {
        ValueView::Boolean(b) => !b,
        ValueView::Null => true,
        _ => false,
    }
}

/// Equality of values: two values of different variants are never equal;
/// booleans and text are equal when they are the same, numbers when they are
/// numerically equal, and `null` equals `null`.
pub open spec fn values_equal(a: ValueView, b: ValueView) -> bool {
    match (a, b) {
        (ValueView::Number(x), ValueView::Number(y)) => num_eq(x, y),
        (ValueView::Boolean(x), ValueView::Boolean(y)) => x == y,
        (ValueView::String(x), ValueView::String(y)) => x == y,
        (ValueView::Null, ValueView::Null) => true,
        _ => false,
    }
}

/// Whether two views are of the same variant.
pub open spec fn same_variant(a: ValueView, b: ValueView) -> bool {
    match (a, b) {
        (ValueView::Number(_), ValueView::Number(_)) => true,
        (ValueView::Boolean(_), ValueView::Boolean(_)) => true,
        (ValueView::String(_), ValueView::String(_)) => true,
        (ValueView::Null, ValueView::Null) => true,
        _ => false,
    }
}

impl Value {
    /// A copy of the value with the same content.
    pub fn duplicate(&self) -> (copy: Value)
        ensures
            copy@ == self@,
    {
        match self {
            Value::Number(bits) => Value::Number(*bits),
            Value::Boolean(b) => Value::Boolean(*b),
            Value::String(s) => Value::String(s.clone()),
            Value::Null => Value::Null,
        }
    }
}

/// Tells whether a value counts as false in a condition.
pub fn is_falsey(value: &Value) -> (r: bool)
    ensures
        r == falsey(value@),
{
    match value {
        Value::Boolean(b) => !*b,
        Value::Null => true,
        _ => false,
    }
}

/// Compares two values for equality.
pub fn value_equal(a: Value, b: Value) -> (r: bool)
    ensures
        r == values_equal(a@, b@),
{
    match (a, b) {
        (Value::Number(x), Value::Number(y)) => equal(x, y),
        (Value::Boolean(x), Value::Boolean(y)) => x == y,
        (Value::String(x), Value::String(y)) => x == y,
        (Value::Null, Value::Null) => true,
        _ => false,
    }
}

/// Equality is symmetric, and it never holds between values of different
/// variants.
pub proof fn equality_is_symmetric(a: ValueView, b: ValueView)
    ensures
        values_equal(a, b) == values_equal(b, a),
        !same_variant(a, b) ==> !values_equal(a, b),
{
}

/// Every value equals itself, except a number that is NaN.
pub proof fn equality_is_reflexive(a: ValueView)
    requires
        !(a matches ValueView::Number(bits) && nan(bits)),
    ensures
        values_equal(a, a),
{
}

} // verus!
