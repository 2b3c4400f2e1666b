//! The typed cell-value model: the physical kinds a column can hold, the
//! mathematical view of a single cell, and value-level equality.
use vstd::prelude::*;

verus! {

/// The physical type of a column.
#[derive(Clone, Copy, Debug, PartialEq, Eq, Structural)]
pub enum DataType {
    Int32,
    Int64,
    Boolean,
    Utf8,
}

/// One non-null cell value.
#[derive(Debug)]
pub enum Value {
    Int32(i32),
    Int64(i64),
    Bool(bool),
    Str(String),
}

/// The mathematical view of a cell value: text is a character sequence.
#[verifier::ext_equal]
pub enum ValueV {
    Int32(i32),
    Int64(i64),
    Bool(bool),
    Str(Seq<char>),
}

impl View for Value {
    type V = ValueV;

    open spec fn view(&self) -> ValueV {
        match self {
            Value::Int32(x) => ValueV::Int32(*x),
            Value::Int64(x) => ValueV::Int64(*x),
            Value::Bool(b) => ValueV::Bool(*b),
            Value::Str(s) => ValueV::Str(s@),
        }
    }
}

/// The physical type a value belongs to.
pub open spec fn dtype_of(v: ValueV) -> DataType {
    match v {
        ValueV::Int32(_) => DataType::Int32,
        ValueV::Int64(_) => DataType::Int64,
        ValueV::Bool(_) => DataType::Boolean,
        ValueV::Str(_) => DataType::Utf8,
    }
}

/// Value equality: same physical kind and same content. Values of different
/// kinds are never equal here; numeric widening is the coercion pass's job.
pub open spec fn val_eq(a: ValueV, b: ValueV) -> bool {
    match (a, b) {
        (ValueV::Int32(x), ValueV::Int32(y)) => x == y,
        (ValueV::Int64(x), ValueV::Int64(y)) => x == y,
        (ValueV::Bool(x), ValueV::Bool(y)) => x == y,
        (ValueV::Str(x), ValueV::Str(y)) => x == y,
        _ => false,
    }
}

impl Value {
    /// The physical type of this value.
    pub fn dtype(&self) -> (d: DataType)
        ensures
            d == dtype_of(self@),
    {
        match self {
            Value::Int32(_) => DataType::Int32,
            Value::Int64(_) => DataType::Int64,
            Value::Bool(_) => DataType::Boolean,
            Value::Str(_) => DataType::Utf8,
        }
    }

    /// A copy of this value with the same view.
    pub fn dup(&self) -> (r: Value)
        ensures
            r@ == self@,
    {
        match self {
            Value::Int32(x) => Value::Int32(*x),
            Value::Int64(x) => Value::Int64(*x),
            Value::Bool(b) => Value::Bool(*b),
            Value::Str(s) => Value::Str(s.clone()),
        }
    }

    /// Decides `val_eq` on two cell values.
    pub fn eq_value(&self, other: &Value) -> (r: bool)
        ensures
            r == val_eq(self@, other@),
    {
        match (self, other) {
            (Value::Int32(x), Value::Int32(y)) => *x == *y,
            (Value::Int64(x), Value::Int64(y)) => *x == *y,
            (Value::Bool(x), Value::Bool(y)) => *x == *y,
            (Value::Str(x), Value::Str(y)) => *x == *y,
            _ => false,
        }
    }
}

/// The view of a nullable cell.
pub open spec fn cell_view(c: Option<Value>) -> Option<ValueV> {
    match c {
        Some(v) => Some(v@),
        None => None,
    }
}

/// Equality of nullable cells under `val_eq`, with null equal to null.
/// Group-by keys use this; join keys do not (a null key matches nothing).
pub open spec fn cell_eq(a: Option<ValueV>, b: Option<ValueV>) -> bool {
    match (a, b) {
        (Some(x), Some(y)) => val_eq(x, y),
        (None, None) => true,
        _ => false,
    }
}

} // verus!
