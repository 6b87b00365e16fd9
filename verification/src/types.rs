//! The vocabulary of declared types.
use vstd::prelude::*;

verus! {

/// A declared type: one of five kinds of scalar, or an array of one.
#[derive(Clone, Copy, Debug, PartialEq, Eq, Structural)]
pub enum Primitive {
    Any,
    AnyArray,
    Str,
    StrArray,
    Boolean,
    BooleanArray,
    Integer,
    IntegerArray,
    Float,
    FloatArray,
}

impl Primitive {
    /// Whether the type is one of arrays.
    pub open spec fn is_array_type(self) -> bool {
        self is AnyArray || self is StrArray || self is BooleanArray || self is IntegerArray
            || self is FloatArray
    }
}

/// A value that does not have the type it was declared with.
#[derive(Clone, Copy, Debug, PartialEq, Eq, Structural)]
pub enum TypeError {
    BadValue(Primitive),
}

/// A parameter of a function: its name and its declared type.
#[derive(Debug, PartialEq)]
pub struct TypeArg {
    pub name: String,
    pub kind: Primitive,
}

} // verus!
