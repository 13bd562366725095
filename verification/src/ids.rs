//! Identifiers of generic types, generic library functions and concrete
//! types: short names carried as strings.

use vstd::prelude::*;

verus! {

/// Identifier of a generic type.
#[derive(Debug, PartialEq, Eq)]
pub struct GenericTypeId(pub String);

/// Identifier of a generic library function.
#[derive(Debug, PartialEq, Eq)]
pub struct GenericLibFuncId(pub String);

/// Identifier of a concrete (fully instantiated) type.
#[derive(Debug, PartialEq, Eq)]
pub struct ConcreteTypeId(pub String);

impl GenericTypeId {
    /// Builds the id carrying the given name.
    pub fn new_inline(name: &str) -> (r: GenericTypeId)
        ensures
            r.0@ == name@,
    {
        GenericTypeId(String::from_str(name))
    }
}

impl GenericLibFuncId {
    /// Builds the id carrying the given name.
    pub fn new_inline(name: &str) -> (r: GenericLibFuncId)
        ensures
            r.0@ == name@,
    {
        GenericLibFuncId(String::from_str(name))
    }
}

impl ConcreteTypeId {
    /// Builds the id carrying the given name.
    pub fn new_inline(name: &str) -> (r: ConcreteTypeId)
        ensures
            r.0@ == name@,
    {
        ConcreteTypeId(String::from_str(name))
    }

    /// A fresh id with the same name.
    pub fn duplicate(&self) -> (r: ConcreteTypeId)
        ensures
            r.0@ == self.0@,
    {
        ConcreteTypeId(String::from_str(self.0.as_str()))
    }
}

} // verus!
