//! Values made of the primitive types.
use vstd::prelude::*;
use vstd::std_specs::convert::FromSpecImpl;
use crate::datavalue::{DataValue, Number};
use crate::floating::{from_unsigned, int_bits};

verus! {

impl From<i8> for DataValue {
    fn from(value: i8) -> (v: DataValue) {
        DataValue::Number(Number::Integer(value as i64))
    }
}

impl FromSpecImpl<i8> for DataValue {
    open spec fn obeys_from_spec() -> bool {
        true
    }

    open spec fn from_spec(value: i8) -> DataValue {
        DataValue::Number(Number::Integer(value as i64))
    }
}

impl From<i16> for DataValue {
    fn from(value: i16) -> (v: DataValue) {
        DataValue::Number(Number::Integer(value as i64))
    }
}

impl FromSpecImpl<i16> for DataValue {
    open spec fn obeys_from_spec() -> bool {
        true
    }

    open spec fn from_spec(value: i16) -> DataValue {
        DataValue::Number(Number::Integer(value as i64))
    }
}

impl From<i32> for DataValue {
    fn from(value: i32) -> (v: DataValue) {
        DataValue::Number(Number::Integer(value as i64))
    }
}

impl FromSpecImpl<i32> for DataValue {
    open spec fn obeys_from_spec() -> bool {
        true
    }

    open spec fn from_spec(value: i32) -> DataValue {
        DataValue::Number(Number::Integer(value as i64))
    }
}

impl From<i64> for DataValue {
    fn from(value: i64) -> (v: DataValue) {
        DataValue::Number(Number::Integer(value))
    }
}

impl FromSpecImpl<i64> for DataValue {
    open spec fn obeys_from_spec() -> bool {
        true
    }

    open spec fn from_spec(value: i64) -> DataValue {
        DataValue::Number(Number::Integer(value))
    }
}

impl From<u8> for DataValue {
    fn from(value: u8) -> (v: DataValue) {
        DataValue::Number(Number::Integer(value as i64))
    }
}

impl FromSpecImpl<u8> for DataValue {
    open spec fn obeys_from_spec() -> bool {
        true
    }

    open spec fn from_spec(value: u8) -> DataValue {
        DataValue::Number(Number::Integer(value as i64))
    }
}

impl From<u16> for DataValue {
    fn from(value: u16) -> (v: DataValue) {
        DataValue::Number(Number::Integer(value as i64))
    }
}

impl FromSpecImpl<u16> for DataValue {
    open spec fn obeys_from_spec() -> bool {
        true
    }

    open spec fn from_spec(value: u16) -> DataValue {
        DataValue::Number(Number::Integer(value as i64))
    }
}

impl From<u32> for DataValue {
    fn from(value: u32) -> (v: DataValue) {
        DataValue::Number(Number::Integer(value as i64))
    }
}

impl FromSpecImpl<u32> for DataValue {
    open spec fn obeys_from_spec() -> bool {
        true
    }

    open spec fn from_spec(value: u32) -> DataValue {
        DataValue::Number(Number::Integer(value as i64))
    }
}

/// The value of an unsigned number: an integer where it fits in 64 bits
/// with a sign, else the nearest float.
pub open spec fn unsigned_value(value: u64) -> DataValue {
    if value <= i64::MAX {
        DataValue::Number(Number::Integer(value as i64))
    } else {
        DataValue::Number(Number::Float(int_bits(value as int) as u64))
    }
}

impl From<u64> for DataValue {
    fn from(value: u64) -> (v: DataValue) {
        if value <= i64::MAX as u64 {
            DataValue::Number(Number::Integer(value as i64))
        } else {
            DataValue::Number(Number::Float(from_unsigned(value)))
        }
    }
}

impl FromSpecImpl<u64> for DataValue {
    open spec fn obeys_from_spec() -> bool {
        true
    }

    open spec fn from_spec(value: u64) -> DataValue {
        unsigned_value(value)
    }
}

impl From<usize> for DataValue {
    fn from(value: usize) -> (v: DataValue) {
        if value as u64 <= i64::MAX as u64 {
            DataValue::Number(Number::Integer(value as i64))
        } else {
            DataValue::Number(Number::Float(from_unsigned(value as u64)))
        }
    }
}

impl FromSpecImpl<usize> for DataValue {
    open spec fn obeys_from_spec() -> bool {
        true
    }

    open spec fn from_spec(value: usize) -> DataValue {
        unsigned_value(value as u64)
    }
}

impl From<bool> for DataValue {
    fn from(value: bool) -> (v: DataValue) {
        DataValue::Bool(value)
    }
}

impl FromSpecImpl<bool> for DataValue {
    open spec fn obeys_from_spec() -> bool {
        true
    }

    open spec fn from_spec(value: bool) -> DataValue {
        DataValue::Bool(value)
    }
}

} // verus!
