//! Instants and spans of time, held as plain numbers and written out by the
//! calendar library.
use vstd::prelude::*;
use crate::text::decimal;

verus! {

/// The largest number of whole seconds, of either sign, that a span holds.
pub const MAX_SPAN_SECONDS: i64 = 9_223_372_036_854_775;

/// The seconds of the first instant that the calendar library holds: the
/// start of the year -262143.
pub const MIN_INSTANT_SECONDS: i64 = -8_334_601_228_800;

/// The seconds of the last second that the calendar library holds: the
/// end of the year 262142.
pub const MAX_INSTANT_SECONDS: i64 = 8_210_266_876_799;

/// Whether the calendar library has an instant `secs` seconds and `nanos`
/// nanoseconds after the start of 1970, in UTC: the second lies within
/// its years, and the nanoseconds are fewer than a second's, or, in the
/// last second of a minute, fewer than two seconds', where they stand for
/// a leap second.
pub open spec fn instant_in_range(secs: i64, nanos: u32) -> bool {
    &&& MIN_INSTANT_SECONDS <= secs <= MAX_INSTANT_SECONDS
    &&& (nanos < 1_000_000_000 || (nanos < 2_000_000_000 && secs % 60 == 59))
}

/// The RFC 3339 text of the instant `secs` seconds and `nanos` nanoseconds
/// after the start of 1970, in UTC.
pub uninterp spec fn rfc3339_text(secs: i64, nanos: u32) -> Seq<char>;

/// The ISO 8601 text of a span of `secs` whole seconds: `P0D` for none,
/// else `PT`, the seconds and `S`, after a `-` if the span is negative.
pub open spec fn span_text(secs: int) -> Seq<char> {
    if secs == 0 {
        "P0D"@
    } else if secs < 0 {
        "-PT"@ + decimal((-secs) as nat) + "S"@
    } else {
        "PT"@ + decimal(secs as nat) + "S"@
    }
}

/// The instant that an RFC 3339 text names, by its seconds and nanoseconds,
/// where the calendar library reads the text as one.
pub uninterp spec fn rfc3339_instant(text: Seq<char>) -> Option<(i64, u32)>;

/// The instant at the start of the day that a text of the form
/// `year-month-day` names, where the calendar library reads it as one.
pub uninterp spec fn date_instant(text: Seq<char>) -> Option<(i64, u32)>;

/// The instant that a text of the form `year-month-day hour:minute:second`
/// names, or the calendar library's message on why it names none.
pub uninterp spec fn date_time_instant(text: Seq<char>) -> Result<(i64, u32), Seq<char>>;

/// Calls `chrono::DateTime::parse_from_rfc3339` and takes the instant in
/// UTC apart with `timestamp` and `timestamp_subsec_nanos`. The parser
/// reads nothing but the text, so the answer is what `rfc3339_instant`
/// names; the two numbers of an instant make that instant again.
#[verifier::external_body]
pub(crate) fn parse_rfc3339(text: &str) -> (r: Option<(i64, u32)>)
    ensures
        r == rfc3339_instant(text@),
        r matches Some(p) ==> instant_in_range(p.0, p.1),
{
    match chrono::DateTime::parse_from_rfc3339(text) {
        Ok(parsed) => {
            let instant = parsed.with_timezone(&chrono::Utc);
            Some((instant.timestamp(), instant.timestamp_subsec_nanos()))
        },
        Err(_) => None,
    }
}

/// Calls `chrono::NaiveDate::parse_from_str` with the format `%Y-%m-%d`
/// and takes the start of that day in UTC apart as `parse_rfc3339` does:
/// the answer is what `date_instant` names.
#[verifier::external_body]
pub(crate) fn parse_date(text: &str) -> (r: Option<(i64, u32)>)
    ensures
        r == date_instant(text@),
        r matches Some(p) ==> instant_in_range(p.0, p.1),
{
    match chrono::NaiveDate::parse_from_str(text, "%Y-%m-%d") {
        Ok(date) => {
            let instant = date.and_time(chrono::NaiveTime::MIN).and_utc();
            Some((instant.timestamp(), instant.timestamp_subsec_nanos()))
        },
        Err(_) => None,
    }
}

/// Calls `chrono::NaiveDateTime::parse_from_str` with the format
/// `%Y-%m-%d %H:%M:%S` and takes the instant in UTC apart as
/// `parse_rfc3339` does, or writes the error with its `Display`: the
/// answer is what `date_time_instant` names.
#[verifier::external_body]
pub(crate) fn parse_date_time(text: &str) -> (r: Result<(i64, u32), String>)
    ensures
        match date_time_instant(text@) {
            Ok(p) => r == Ok::<(i64, u32), String>(p) && instant_in_range(p.0, p.1),
            Err(message) => r matches Err(m) && m@ == message,
        },
{
    match chrono::NaiveDateTime::parse_from_str(text, "%Y-%m-%d %H:%M:%S") {
        Ok(naive) => {
            let instant = naive.and_utc();
            Ok((instant.timestamp(), instant.timestamp_subsec_nanos()))
        },
        Err(error) => Err(error.to_string()),
    }
}

/// Calls `chrono::DateTime::from_timestamp` and says whether it made an
/// instant. It makes one where the day of the second lies in the years
/// from -262143 to 262142, and the nanoseconds are below 1,000,000,000 or,
/// in a second that ends a minute, below 2,000,000,000: that is what
/// `instant_in_range` says.
#[verifier::external_body]
fn instant_exists(secs: i64, nanos: u32) -> (r: bool)
    ensures
        r == instant_in_range(secs, nanos),
{
    chrono::DateTime::from_timestamp(secs, nanos).is_some()
}

/// Calls `chrono::DateTime::to_rfc3339` on the instant that
/// `chrono::DateTime::from_timestamp` makes of the two numbers. There is a
/// text exactly when there is an instant, and it is what `rfc3339_text`
/// names.
#[verifier::external_body]
fn instant_rfc3339(secs: i64, nanos: u32) -> (r: Option<String>)
    ensures
        r is Some <==> instant_in_range(secs, nanos),
        r matches Some(t) ==> t@ == rfc3339_text(secs, nanos),
{
    match chrono::DateTime::from_timestamp(secs, nanos) {
        Some(instant) => Some(instant.to_rfc3339()),
        None => None,
    }
}

/// Calls `chrono::TimeDelta::seconds` and writes the span with its
/// `Display`, which prints `P0D` for an empty span and otherwise `PT`, the
/// absolute number of seconds and `S`, with `-` in front of a negative
/// span. Outside the range required here the constructor panics.
#[verifier::external_body]
fn span_display(secs: i64) -> (s: String)
    requires
        -MAX_SPAN_SECONDS <= secs <= MAX_SPAN_SECONDS,
    ensures
        s@ == span_text(secs as int),
{
    chrono::TimeDelta::seconds(secs).to_string()
}

/// An instant in UTC: whole seconds since the start of 1970 and the
/// nanoseconds after them. Every value is an instant that the calendar
/// library can hold.
#[derive(Debug, Clone, Copy, PartialEq, Eq, Structural)]
pub struct Timestamp {
    secs: i64,
    nanos: u32,
}

impl Timestamp {
    #[verifier::type_invariant]
    spec fn in_range(self) -> bool {
        instant_in_range(self.secs, self.nanos)
    }

    /// The seconds and nanoseconds of this instant.
    pub closed spec fn parts(self) -> (i64, u32) {
        (self.secs, self.nanos)
    }

    /// The instant with these seconds and nanoseconds, if there is one.
    pub fn new(secs: i64, nanos: u32) -> (r: Option<Timestamp>)
        ensures
            r is Some <==> instant_in_range(secs, nanos),
            r matches Some(t) ==> t.parts() == (secs, nanos),
    {
        if instant_exists(secs, nanos) {
            Some(Timestamp { secs, nanos })
        } else {
            None
        }
    }

    /// The instant with these seconds and nanoseconds, which is known to exist.
    pub(crate) fn from_parts(secs: i64, nanos: u32) -> (t: Timestamp)
        requires
            instant_in_range(secs, nanos),
        ensures
            t.parts() == (secs, nanos),
    {
        Timestamp { secs, nanos }
    }

    /// Whole seconds since the start of 1970.
    pub fn seconds(&self) -> (s: i64)
        ensures
            s == self.parts().0,
    {
        self.secs
    }

    /// Nanoseconds after the last whole second.
    pub fn subsec_nanos(&self) -> (n: u32)
        ensures
            n == self.parts().1,
    {
        self.nanos
    }

    /// Two instants with the same parts are the same instant.
    pub proof fn lemma_parts_injective(self, other: Timestamp)
        requires
            self.parts() == other.parts(),
        ensures
            self == other,
    {
    }

    /// This instant as RFC 3339 text.
    pub fn to_rfc3339(&self) -> (s: String)
        ensures
            s@ == rfc3339_text(self.parts().0, self.parts().1),
    {
        proof {
            use_type_invariant(self);
        }
        match instant_rfc3339(self.secs, self.nanos) {
            Some(text) => text,
            None => String::new(),
        }
    }
}

/// A signed span of whole seconds, within the range of the calendar
/// library's spans.
#[derive(Debug, Clone, Copy, PartialEq, Eq, Structural)]
pub struct Span {
    secs: i64,
}

impl Span {
    #[verifier::type_invariant]
    spec fn in_range(self) -> bool {
        -MAX_SPAN_SECONDS <= self.secs <= MAX_SPAN_SECONDS
    }

    /// The number of seconds in this span.
    pub closed spec fn total(self) -> i64 {
        self.secs
    }

    /// The span of `secs` seconds, if it is in range.
    pub fn seconds(secs: i64) -> (r: Option<Span>)
        ensures
            r is Some <==> -MAX_SPAN_SECONDS <= secs <= MAX_SPAN_SECONDS,
            r matches Some(s) ==> s.total() == secs,
    {
        if -MAX_SPAN_SECONDS <= secs && secs <= MAX_SPAN_SECONDS {
            Some(Span { secs })
        } else {
            None
        }
    }

    /// The number of whole seconds in this span.
    pub fn num_seconds(&self) -> (s: i64)
        ensures
            s == self.total(),
            -MAX_SPAN_SECONDS <= s <= MAX_SPAN_SECONDS,
    {
        proof {
            use_type_invariant(self);
        }
        self.secs
    }

    /// Two spans of the same length are the same span.
    pub proof fn lemma_total_injective(self, other: Span)
        requires
            self.total() == other.total(),
        ensures
            self == other,
    {
    }

    /// This span as ISO 8601 text.
    pub fn to_text(&self) -> (s: String)
        ensures
            s@ == span_text(self.total() as int),
    {
        proof {
            use_type_invariant(self);
        }
        span_display(self.secs)
    }
}

} // verus!
