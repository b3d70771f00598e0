//! The errors that the core hands back as values.

use vstd::prelude::*;
use crate::object::tagged::Object;

verus! {

/// The name of a kind of value, or of a set of kinds that a projection takes.
#[derive(Clone, Copy, Debug, PartialEq, Eq, Hash, Structural)]
pub enum Type {
    Int,
    Float,
    Symbol,
    Cons,
    Vec,
    Record,
    HashTable,
    String,
    Func,
    Number,
    List,
}

/// A projection met a value outside the set it takes.
#[derive(Clone, Copy, Debug, PartialEq, Eq, Structural)]
pub struct TypeError {
    /// The set that the projection takes.
    pub expected: Type,
    /// The value that was met.
    pub actual: Object,
}

impl TypeError {
    pub fn new(expected: Type, actual: Object) -> (err: TypeError)
        ensures
            err == (TypeError { expected, actual }),
    {
        TypeError { expected, actual }
    }

    /// The kind of the value that was met.
    pub fn actual_type(&self) -> (kind: Type)
        ensures
            kind == self.actual.type_of(),
    {
        self.actual.get_type()
    }
}

/// A function was called with a number of arguments that it does not take.
#[derive(Clone, Debug, PartialEq, Eq)]
pub struct ArgError {
    /// The number of arguments that would have been taken.
    pub expected: u16,
    /// The number of arguments in the call.
    pub actual: u16,
    /// The name of the function.
    pub name: String,
}

impl ArgError {
    pub fn new(expected: u16, actual: u16, name: &str) -> (err: ArgError)
        ensures
            err.expected == expected,
            err.actual == actual,
            err.name@ == name@,
    {
        ArgError { expected, actual, name: name.to_owned() }
    }
}

/// Every error that a call into the core can return.
#[derive(Clone, Debug, PartialEq, Eq)]
pub enum Error {
    /// A value was not of the kind that an operation takes.
    Type(TypeError),
    /// A function was called with the wrong number of arguments.
    ArgCount(ArgError),
    /// A built-in function reported a failure of its own.
    User(String),
}

} // verus!
