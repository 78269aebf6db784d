//! Moments in time as RFC 3339 text.

use vstd::prelude::*;

use crate::error::Error;
use crate::model::Timestamp;
use crate::text;

verus! {

/// What RFC 3339 text stands for: seconds and nanoseconds since the Unix epoch,
/// or the reason why it stands for nothing.
pub uninterp spec fn rfc3339_reading(s: Seq<char>) -> Result<(i64, u32), Seq<char>>;

/// A moment as RFC 3339 text, if the calendar reaches that far.
pub uninterp spec fn rfc3339_text(secs: i64, nanos: u32) -> Option<Seq<char>>;

/// Whether a moment lies in the years 0 to 9999 and in no leap second.
pub open spec fn is_common(t: Timestamp) -> bool {
    -62_167_219_200 <= t.secs <= 253_402_300_799 && t.nanos < 1_000_000_000
}

/// Whether there is a text, and reading it gives the moment back.
pub open spec fn reads_back(s: Option<Seq<char>>, t: Timestamp) -> bool {
    s matches Some(x) && (rfc3339_reading(x) matches Ok(m) && m == (t.secs, t.nanos))
}

/// Reads RFC 3339 text.
///
/// Trusted: `chrono::DateTime::parse_from_rfc3339`, brought to UTC. The moment,
/// or the text of the error, depends on the text alone.
#[verifier::external_body]
fn read_rfc3339(s: &str) -> (r: Result<Timestamp, String>)
    ensures
        match r {
            Ok(t) => rfc3339_reading(s@) matches Ok(m) && m == (t.secs, t.nanos),
            Err(why) => rfc3339_reading(s@) matches Err(m) && m == why@,
        },
{
    match chrono::DateTime::parse_from_rfc3339(s) {
        Ok(t) => Ok(Timestamp { secs: t.timestamp(), nanos: t.timestamp_subsec_nanos() }),
        Err(e) => Err(e.to_string()),
    }
}

/// Writes a moment as RFC 3339 text.
///
/// Trusted: `chrono::DateTime::to_rfc3339` on the moment made by
/// `chrono::DateTime::from_timestamp`. The text depends on the moment alone; in
/// the years 0 to 9999 and outside leap seconds there is one, and reading it
/// gives the moment back.
#[verifier::external_body]
fn write_rfc3339(t: Timestamp) -> (r: Option<String>)
    ensures
        text::opt_view(r) == rfc3339_text(t.secs, t.nanos),
        is_common(t) ==> reads_back(text::opt_view(r), t),
{
    chrono::DateTime::<chrono::Utc>::from_timestamp(t.secs, t.nanos).map(|d| d.to_rfc3339())
}

/// Reads a stored moment. Text that cannot be read counts as `now`.
pub fn parse_dt(s: &str, now: Timestamp) -> (r: Timestamp)
    ensures
        match rfc3339_reading(s@) {
            Ok(m) => (r.secs, r.nanos) == m,
            Err(_) => r == now,
        },
{
    match read_rfc3339(s) {
        Ok(t) => t,
        Err(_) => now,
    }
}

/// What is said of stored text that stands for no moment.
pub open spec fn bad_moment(s: Seq<char>, why: Seq<char>) -> Seq<char> {
    "invalid timestamp '"@ + s + "': "@ + why
}

/// Reads a stored moment.
pub fn parse_ts(s: &str) -> (r: Result<Timestamp, Error>)
    ensures
        match rfc3339_reading(s@) {
            Ok(m) => r matches Ok(t) && (t.secs, t.nanos) == m,
            Err(why) => r matches Err(Error::Other(m)) && m@ == bad_moment(s@, why),
        },
{
    match read_rfc3339(s) {
        Ok(t) => Ok(t),
        Err(why) => Err(
            Error::Other(text::cat4("invalid timestamp '", s, "': ", why.as_str())),
        ),
    }
}

/// Reads an optional stored moment. Text that cannot be read counts as none.
pub fn parse_opt(s: &Option<String>) -> (r: Option<Timestamp>)
    ensures
        match *s {
            Some(t) => match rfc3339_reading(t@) {
                Ok(m) => r matches Some(v) && (v.secs, v.nanos) == m,
                Err(_) => r is None,
            },
            None => r is None,
        },
{
    match s {
        Some(t) => match read_rfc3339(t.as_str()) {
            Ok(v) => Some(v),
            Err(_) => None,
        },
        None => None,
    }
}

/// A moment as stored. There is none for a moment that the calendar does not
/// reach.
pub fn format_ts(t: Timestamp) -> (r: Option<String>)
    ensures
        text::opt_view(r) == rfc3339_text(t.secs, t.nanos),
        is_common(t) ==> reads_back(text::opt_view(r), t),
{
    write_rfc3339(t)
}

} // verus!
