//! The decoded value of one field.
use vstd::prelude::*;
use vstd::string::StringExecFns;
use crate::num::Float64;

verus! {

/// One decoded field. `Missing` says that the field has no value in this row.
#[derive(Clone, Copy, Debug)]
pub enum SlotValue<'a> {
    Missing,
    U64(u64),
    I64(i64),
    F64(Float64),
    Bool(bool),
    Str(&'a str),
    IPv4(u32),
    IPv6(u128),
    DateTime64 { epoch: i64, scale: u32 },
    Uuid([u8; 16]),
}

impl<'a> SlotValue<'a> {
    /// The unsigned integer that the slot holds, or the name of the kind that was asked for.
    pub fn as_u64(&self) -> (r: Result<&u64, String>)
        ensures
            match r {
                Ok(x) => *self == SlotValue::U64(*x),
                Err(e) => !(self is U64) && e@ == "u64"@,
            },
    {
        match self {
            SlotValue::U64(x) => Ok(x),
            _ => Err(String::from_str("u64")),
        }
    }

    /// The signed integer that the slot holds, or the name of the kind that was asked for.
    pub fn as_i64(&self) -> (r: Result<&i64, String>)
        ensures
            match r {
                Ok(x) => *self == SlotValue::I64(*x),
                Err(e) => !(self is I64) && e@ == "i64"@,
            },
    {
        match self {
            SlotValue::I64(x) => Ok(x),
            _ => Err(String::from_str("i64")),
        }
    }

    /// The binary64 number that the slot holds, or the name of the kind that was asked for.
    pub fn as_f64(&self) -> (r: Result<&Float64, String>)
        ensures
            match r {
                Ok(x) => *self == SlotValue::F64(*x),
                Err(e) => !(self is F64) && e@ == "f64"@,
            },
    {
        match self {
            SlotValue::F64(x) => Ok(x),
            _ => Err(String::from_str("f64")),
        }
    }

    /// The string that the slot holds, or the name of the kind that was asked for.
    pub fn as_str(&self) -> (r: Result<&'a str, String>)
        ensures
            match r {
                Ok(x) => *self == SlotValue::Str(x),
                Err(e) => !(self is Str) && e@ == "str"@,
            },
    {
        match self {
            SlotValue::Str(x) => Ok(x),
            _ => Err(String::from_str("str")),
        }
    }

    /// The boolean that the slot holds, or the name of the kind that was asked for.
    pub fn as_bool(&self) -> (r: Result<&bool, String>)
        ensures
            match r {
                Ok(x) => *self == SlotValue::Bool(*x),
                Err(e) => !(self is Bool) && e@ == "bool"@,
            },
    {
        match self {
            SlotValue::Bool(x) => Ok(x),
            _ => Err(String::from_str("bool")),
        }
    }
}

} // verus!
