//! Functions that make values.
use vstd::prelude::*;
use crate::datavalue::{DataValue, Number, ValueView};
use crate::error::{Error, ErrorView};
use crate::time::{
    date_instant, date_time_instant, parse_date, parse_date_time, parse_rfc3339, rfc3339_instant,
    Span, Timestamp, MAX_SPAN_SECONDS,
};

verus! {

/// The null value.
pub fn null() -> (v: DataValue)
    ensures
        v@ == ValueView::Null,
{
    DataValue::Null
}

/// A boolean value.
pub fn boolean(value: bool) -> (v: DataValue)
    ensures
        v@ == ValueView::Bool(value),
{
    DataValue::Bool(value)
}

/// An integer value.
pub fn integer(value: i64) -> (v: DataValue)
    ensures
        v@ == ValueView::Integer(value),
{
    DataValue::Number(Number::Integer(value))
}

/// The float with the given bit pattern.
pub fn float(bits: u64) -> (v: DataValue)
    ensures
        v@ == ValueView::Float(bits),
{
    DataValue::Number(Number::Float(bits))
}

/// A string value.
pub fn string(value: &str) -> (v: DataValue)
    ensures
        v@ == ValueView::String(value@),
{
    DataValue::String(String::from_str(value))
}

/// The array of the given elements, in their order.
pub fn array(values: Vec<DataValue>) -> (v: DataValue)
    ensures
        v@ is Array,
        v@->Array_0.len() == values@.len(),
        forall|i: int| 0 <= i < values@.len() ==> v@->Array_0[i] == (#[trigger] values@[i])@,
{
    DataValue::Array(values)
}

/// The object of the given pairs, in their order; keys may repeat.
pub fn object(entries: Vec<(String, DataValue)>) -> (v: DataValue)
    ensures
        v@ is Object,
        v@->Object_0.len() == entries@.len(),
        forall|i: int|
            0 <= i < entries@.len() ==> v@->Object_0[i] == ((#[trigger] entries@[i]).0@, entries@[i].1@),
{
    DataValue::Object(entries)
}

/// A span of `value` seconds, as a value.
pub fn duration(value: i64) -> (v: DataValue)
    requires
        -MAX_SPAN_SECONDS <= value <= MAX_SPAN_SECONDS,
    ensures
        v@ matches ValueView::Duration(d) && d.total() == value,
{
    match Span::seconds(value) {
        Some(span) => DataValue::Duration(span),
        None => vstd::pervasive::unreached(),
    }
}

/// The instant that a text names: as RFC 3339 text; if it is none, as a
/// day, which stands for its start; if it is none, as a day and a time of
/// day. Where it is none of the three, the message of the last attempt.
pub open spec fn instant_of_text(text: Seq<char>) -> Result<(i64, u32), Seq<char>> {
    match rfc3339_instant(text) {
        Some(p) => Ok(p),
        None => match date_instant(text) {
            Some(p) => Ok(p),
            None => date_time_instant(text),
        },
    }
}

/// The instant that a text names, as a value; see [`instant_of_text`].
pub fn datetime(value: &str) -> (r: Result<DataValue, Error>)
    ensures
        match instant_of_text(value@) {
            Ok(p) => r matches Ok(v) && v@ matches ValueView::DateTime(t) && t.parts() == p,
            Err(message) => r matches Err(e) && e@ == ErrorView::Custom(message),
        },
{
    match parse_rfc3339(value) {
        Some((secs, nanos)) => Ok(DataValue::DateTime(Timestamp::from_parts(secs, nanos))),
        None => match parse_date(value) {
            Some((secs, nanos)) => Ok(DataValue::DateTime(Timestamp::from_parts(secs, nanos))),
            None => match parse_date_time(value) {
                Ok((secs, nanos)) => Ok(DataValue::DateTime(Timestamp::from_parts(secs, nanos))),
                Err(message) => Err(Error::custom(message.as_str())),
            },
        },
    }
}

} // verus!
