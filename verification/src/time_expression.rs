//! Time expressions: English descriptions of a point in time ("2 hours ago",
//! "yesterday 5pm", "2023-03-25") resolved against the current time.

use vstd::prelude::*;

use crate::date_text::{parse_supported, supported_input};

verus! {

/// An instant, as seconds since the Unix epoch plus nanoseconds.
#[derive(Clone, Copy, Debug, PartialEq, Eq, Structural)]
pub struct UtcInstant {
    pub timestamp: i64,
    pub nanos: u32,
}

/// An instant together with the fixed UTC offset (in seconds east of UTC) of
/// the time zone it is seen in. Dates without a time zone in a time
/// expression are taken in this time zone.
#[derive(Clone, Copy, Debug, PartialEq, Eq, Structural)]
pub struct ZonedDateTime {
    pub timestamp: i64,
    pub nanos: u32,
    pub utc_offset: i32,
}

/// The error of an expression that does not describe a point in time, with
/// the parser's explanation.
#[derive(Debug)]
pub struct DateParseError {
    pub details: String,
}

/// Represents an expression to match dates and times.
#[derive(Clone, Copy, Debug, PartialEq, Eq, Structural)]
pub enum TimeExpression {
    /// Represents all times at or after the given instant in time.
    AtOrAfter(UtcInstant),
}

/// What `chrono_english::parse_date_string` gives for `text` in the US
/// dialect, relative to the time `timestamp`/`nanos` seen at `utc_offset`: the
/// resulting instant (seconds since the epoch, nanoseconds), or the text of
/// its error.
pub uninterp spec fn english_date(text: Seq<char>, timestamp: i64, nanos: u32, utc_offset: i32) -> Result<(i64, u32), Seq<char>>;

/// Calls `chrono_english::parse_date_string(text, now, Dialect::Us)` with
/// `now` as a `chrono::DateTime<FixedOffset>`, and returns the instant of the
/// resulting date-time, or the message of its `DateError`.
///
/// The contract claims that the result is `english_date` of the text and the
/// reference time. The parser panics on some inputs; `requires` leaves
/// them out (`supported_input` in `crate::date_text` says which and why).
#[verifier::external_body]
fn parse_english_date(text: &str, now: ZonedDateTime) -> (r: Result<UtcInstant, String>)
    requires
        supported_input(text@, now),
    ensures
        match r {
            Ok(t) => english_date(text@, now.timestamp, now.nanos, now.utc_offset) == Ok::<
                (i64, u32),
                Seq<char>,
            >((t.timestamp, t.nanos)),
            Err(m) => english_date(text@, now.timestamp, now.nanos, now.utc_offset) == Err::<
                (i64, u32),
                Seq<char>,
            >(m@),
        },
{
    let offset = chrono::FixedOffset::east_opt(now.utc_offset).unwrap();
    let now = chrono::TimeZone::timestamp_opt(&offset, now.timestamp, now.nanos).unwrap();
    match chrono_english::parse_date_string(text, now, chrono_english::Dialect::Us) {
        Ok(d) => Ok(UtcInstant { timestamp: d.timestamp(), nanos: d.timestamp_subsec_nanos() }),
        Err(e) => Err(e.to_string()),
    }
}

impl TimeExpression {
    /// The time expression for a parse result: at or after the parsed
    /// instant, or the parser's error.
    pub fn from_parsed(parsed: Result<UtcInstant, String>) -> (r: Result<
        TimeExpression,
        DateParseError,
    >)
        ensures
            match parsed {
                Ok(t) => r == Ok::<TimeExpression, DateParseError>(TimeExpression::AtOrAfter(t)),
                Err(m) => r matches Err(e) && e.details@ == m@,
            },
    {
        match parsed {
            Ok(t) => Ok(TimeExpression::AtOrAfter(t)),
            Err(details) => Err(DateParseError { details }),
        }
    }

    /// Parses a string into a TimeExpression.
    ///
    /// The text is read as an English date (US dialect, so "3/25/23" is March
    /// 25th) relative to `now`; the expression matches the resulting instant
    /// and every later one.
    pub fn parse(s: &str, now: ZonedDateTime) -> (r: Result<TimeExpression, DateParseError>)
        requires
            supported_input(s@, now),
        ensures
            match english_date(s@, now.timestamp, now.nanos, now.utc_offset) {
                Ok((timestamp, nanos)) => r == Ok::<TimeExpression, DateParseError>(
                    TimeExpression::AtOrAfter(UtcInstant { timestamp, nanos }),
                ),
                Err(m) => r matches Err(e) && e.details@ == m,
            },
    {
        let parsed = parse_english_date(s, now);
        TimeExpression::from_parsed(parsed)
    }

    /// Parses a string into a TimeExpression as `parse` does, where the
    /// input is one the date parser is known to handle (`supported_input`),
    /// and returns `None` otherwise.
    pub fn parse_checked(s: &str, now: ZonedDateTime) -> (r: Option<
        Result<TimeExpression, DateParseError>,
    >)
        ensures
            r is None <==> !supported_input(s@, now),
            r matches Some(p) ==> match english_date(s@, now.timestamp, now.nanos, now.utc_offset) {
                Ok((timestamp, nanos)) => p == Ok::<TimeExpression, DateParseError>(
                    TimeExpression::AtOrAfter(UtcInstant { timestamp, nanos }),
                ),
                Err(m) => p matches Err(e) && e.details@ == m,
            },
    {
        if parse_supported(s, now) {
            Some(TimeExpression::parse(s, now))
        } else {
            None
        }
    }
}

} // verus!
