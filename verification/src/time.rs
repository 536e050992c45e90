//! Instants in UTC, and the trusted parsers that produce them.

use vstd::prelude::*;

verus! {

/// An instant in UTC: milliseconds since the epoch, together with the civil
/// date it falls on. The date fields serve day-level comparisons; callers
/// that build a value by hand are expected to keep them consistent with
/// `millis`.
#[derive(Debug, Clone, Copy, PartialEq, Eq, Structural)]
pub struct UtcInstant {
    pub millis: i64,
    pub year: i32,
    pub month: u8,
    pub day: u8,
}

/// What an RFC 3339 timestamp string denotes, as epoch milliseconds and the
/// UTC civil date, or nothing when the string is not a valid timestamp.
/// The denotation depends on the string alone.
pub uninterp spec fn rfc3339_of(s: Seq<char>) -> Option<(i64, i32, u8, u8)>;

/// Relies on chrono's `DateTime::parse_from_rfc3339`: a timestamp string
/// parses, or fails to, the same way on every call, and the instant and its
/// UTC calendar date are functions of the string alone.
#[verifier::external_body]
pub(crate) fn parse_rfc3339(s: &str) -> (r: Option<UtcInstant>)
    ensures
        match r {
            Some(t) => rfc3339_of(s@) == Some((t.millis, t.year, t.month, t.day)),
            None => rfc3339_of(s@) is None,
        },
{
    match chrono::DateTime::parse_from_rfc3339(s) {
        Ok(dt) => {
            let u = dt.with_timezone(&chrono::Utc);
            Some(UtcInstant {
                millis: u.timestamp_millis(),
                year: chrono::Datelike::year(&u),
                month: chrono::Datelike::month(&u) as u8,
                day: chrono::Datelike::day(&u) as u8,
            })
        }
        Err(_) => None,
    }
}

/// Epoch milliseconds a timestamp string denotes, if it is valid RFC 3339.
pub open spec fn rfc3339_millis_of(s: Seq<char>) -> Option<i64> {
    match rfc3339_of(s) {
        Some(t) => Some(t.0),
        None => None,
    }
}

/// Relies on parse_datetime's `parse_datetime`: free-form time phrases
/// ("yesterday", "2 hours ago", RFC 3339 strings) resolve against the clock
/// and time zone of the moment, so nothing is promised of the value.
#[verifier::external_body]
pub(crate) fn parse_free_datetime(s: &str) -> (r: Option<i64>)
{
    match parse_datetime::parse_datetime(s) {
        Ok(p) => p.as_zoned().map(|z| z.timestamp().as_millisecond()),
        Err(_) => None,
    }
}

/// Relies on chrono's `Utc::now`: the clock value is outside any promise.
#[verifier::external_body]
pub(crate) fn now_millis() -> (r: i64)
{
    chrono::Utc::now().timestamp_millis()
}

} // verus!
