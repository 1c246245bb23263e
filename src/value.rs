//! The data model that instances are validated in: the values that JSON and
//! CBOR documents decode to.
use vstd::prelude::*;

verus! {

/// A non-integral number, held exactly as `numer / denom`.
#[derive(Debug, Clone, Copy, PartialEq, Eq, Structural)]
pub struct Fraction {
    pub numer: i64,
    pub denom: u64,
}

/// A decoded instance. JSON yields no `Bytes` and no `Tag`.
#[derive(Debug)]
pub enum Value {
    Null,
    Bool(bool),
    Integer(i128),
    Float(Fraction),
    /// A float that no `Fraction` holds exactly (far too large or too
    /// small): it is a number, but equals no literal and lies in no range.
    OtherFloat,
    Text(String),
    Bytes(Vec<u8>),
    Array(Vec<Value>),
    Object(Vec<(Value, Value)>),
    Tag(u64, Box<Value>),
}

/// Which data model a value came from; it decides the few rules that differ
/// between JSON and CBOR.
#[derive(Debug, Clone, Copy, PartialEq, Eq, Structural)]
pub enum Target {
    Json,
    Cbor,
}

} // verus!
