//! Values of the intermediate representation, interned in a module's value pool.

use vstd::prelude::*;

use crate::ir::GlobalId;
use crate::text::str_eq;

verus! {

/// A value by its position in the value pool.
#[derive(Debug, Clone, Copy, PartialEq, Eq, Structural)]
pub struct ValueRef(pub usize);

/// A local slot of a function, numbered from 0.
#[derive(Debug, Clone, Copy, PartialEq, Eq, Structural)]
pub struct LocalId(pub usize);

#[derive(Debug, Clone)]
pub enum Value {
    ConstantInt(i64),
    ConstantString(String),
    True,
    False,
    Unit,
    Ref(LocalId),
    RefParam(usize),
    RefGlobal(GlobalId),
}

/// Two values are the same: the same variant with the same contents, strings compared
/// by their characters.
pub open spec fn same_value(a: Value, b: Value) -> bool {
    match (a, b) {
        (Value::ConstantInt(x), Value::ConstantInt(y)) => x == y,
        (Value::ConstantString(x), Value::ConstantString(y)) => x@ == y@,
        (Value::True, Value::True) => true,
        (Value::False, Value::False) => true,
        (Value::Unit, Value::Unit) => true,
        (Value::Ref(x), Value::Ref(y)) => x == y,
        (Value::RefParam(x), Value::RefParam(y)) => x == y,
        (Value::RefGlobal(x), Value::RefGlobal(y)) => x == y,
        _ => false,
    }
}

/// Whether `a` and `b` are the same value.
pub fn values_equal(a: &Value, b: &Value) -> (r: bool)
    ensures
        r == same_value(*a, *b),
{
    match (a, b) {
        (Value::ConstantInt(x), Value::ConstantInt(y)) => *x == *y,
        (Value::ConstantString(x), Value::ConstantString(y)) => str_eq(x.as_str(), y.as_str()),
        (Value::True, Value::True) => true,
        (Value::False, Value::False) => true,
        (Value::Unit, Value::Unit) => true,
        (Value::Ref(x), Value::Ref(y)) => x.0 == y.0,
        (Value::RefParam(x), Value::RefParam(y)) => *x == *y,
        (Value::RefGlobal(x), Value::RefGlobal(y)) => x.0 == y.0,
        _ => false,
    }
}

} // verus!
