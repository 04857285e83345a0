//! Instants of time as plain numbers, and the ways a text is read as one.

use crate::text::replace_char;
use crate::text::replaced;
use chrono::DateTime;
use chrono::NaiveDateTime;
use chrono::Utc;
use vstd::prelude::*;

verus! {

/// An instant: seconds since 1970-01-01T00:00:00Z, and the nanoseconds past
/// that second. Instants are ordered by seconds first, then nanoseconds.
#[derive(Debug, Clone, Copy, PartialEq, Eq, Structural)]
pub struct Timestamp {
    pub secs: i64,
    pub nanos: u32,
}

impl Timestamp {
    /// `self` is strictly earlier than `other`.
    pub open spec fn spec_before(self, other: Timestamp) -> bool {
        self.secs < other.secs || (self.secs == other.secs && self.nanos < other.nanos)
    }

    /// Tells whether `self` is strictly earlier than `other`.
    pub fn before(&self, other: &Timestamp) -> (b: bool)
        ensures
            b == self.spec_before(*other),
    {
        self.secs < other.secs || (self.secs == other.secs && self.nanos < other.nanos)
    }
}

/// The instant that `DateTime::parse_from_rfc3339` reads from a text, if it
/// reads one.
pub uninterp spec fn rfc3339_instant(text: Seq<char>) -> Option<Timestamp>;

/// The instant that `NaiveDateTime::parse_from_str` reads from a text under
/// a format, taken as UTC, if it reads one.
pub uninterp spec fn naive_instant(text: Seq<char>, format: Seq<char>) -> Option<Timestamp>;

/// Calls `DateTime::parse_from_rfc3339` and takes the instant as seconds and
/// nanoseconds. Trusted: the outcome is the one that `rfc3339_instant` names.
#[verifier::external_body]
pub(crate) fn parse_rfc3339(text: &str) -> (r: Option<Timestamp>)
    ensures
        r == rfc3339_instant(text@),
{
    DateTime::parse_from_rfc3339(text).ok().map(|dt| dt.with_timezone(&Utc)).map(
        |dt| Timestamp { secs: dt.timestamp(), nanos: dt.timestamp_subsec_nanos() },
    )
}

/// Calls `NaiveDateTime::parse_from_str` and takes the result as an instant of
/// UTC. Trusted: the outcome is the one that `naive_instant` names.
#[verifier::external_body]
pub(crate) fn parse_naive(text: &str, format: &str) -> (r: Option<Timestamp>)
    ensures
        r == naive_instant(text@, format@),
{
    NaiveDateTime::parse_from_str(text, format).ok().map(|naive| naive.and_utc()).map(
        |dt| Timestamp { secs: dt.timestamp(), nanos: dt.timestamp_subsec_nanos() },
    )
}

/// The first of two readings that succeeded.
pub open spec fn first_some(a: Option<Timestamp>, b: Option<Timestamp>) -> Option<Timestamp> {
    if a is Some {
        a
    } else {
        b
    }
}

/// The instant that a text stands for. The readings are tried in this order:
/// RFC 3339; `YYYY-MM-DD HH:MM:SS`; the same with a fraction of a second; then
/// both again with every `T` of the text turned into a space.
pub open spec fn spec_parse_timestamp(text: Seq<char>) -> Option<Timestamp> {
    let spaced = replaced(text, 'T', " "@);
    first_some(
        rfc3339_instant(text),
        first_some(
            naive_instant(text, "%Y-%m-%d %H:%M:%S"@),
            first_some(
                naive_instant(text, "%Y-%m-%d %H:%M:%S%.3f"@),
                first_some(
                    naive_instant(spaced, "%Y-%m-%d %H:%M:%S"@),
                    naive_instant(spaced, "%Y-%m-%d %H:%M:%S%.3f"@),
                ),
            ),
        ),
    )
}

/// Reads a text as an instant, or gives nothing where no reading succeeds.
pub fn parse_timestamp(text: &str) -> (r: Option<Timestamp>)
    ensures
        r == spec_parse_timestamp(text@),
{
    let direct = parse_rfc3339(text);
    if direct.is_some() {
        return direct;
    }
    let seconds = parse_naive(text, "%Y-%m-%d %H:%M:%S");
    if seconds.is_some() {
        return seconds;
    }
    let millis = parse_naive(text, "%Y-%m-%d %H:%M:%S%.3f");
    if millis.is_some() {
        return millis;
    }
    let spaced = replace_char(text, 'T', " ");
    let spaced_seconds = parse_naive(spaced.as_str(), "%Y-%m-%d %H:%M:%S");
    if spaced_seconds.is_some() {
        return spaced_seconds;
    }
    parse_naive(spaced.as_str(), "%Y-%m-%d %H:%M:%S%.3f")
}

} // verus!
