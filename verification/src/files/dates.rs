//! Dates as texts.

use vstd::prelude::*;

verus! {

/// A moment that was read: seconds since 1970 with the nanoseconds of the last one, the same in
/// milliseconds, and its date in UTC to the second.
pub struct Moment {
    pub seconds: i64,
    pub nanos: u32,
    pub millis: i64,
    pub utc: String,
}

/// The model of a [`Moment`].
pub struct Instant {
    pub seconds: i64,
    pub nanos: u32,
    pub millis: i64,
    pub utc: Seq<char>,
}

impl View for Moment {
    type V = Instant;

    open spec fn view(&self) -> Instant {
        Instant {
            seconds: self.seconds,
            nanos: self.nanos,
            millis: self.millis,
            utc: self.utc@,
        }
    }
}

/// The model of a moment that may not have been read.
pub open spec fn instant(m: Option<Moment>) -> Option<Instant> {
    match m {
        Some(m) => Some(m@),
        None => None,
    }
}

/// What `chrono::DateTime::parse_from_rfc3339` reads; `None` where the text is no such date.
pub uninterp spec fn rfc3339_moment(s: Seq<char>) -> Option<Instant>;

/// Calls `chrono::DateTime::parse_from_rfc3339` and reads the parts by `timestamp`,
/// `timestamp_subsec_nanos`, `timestamp_millis` and, turned to UTC, `to_rfc3339_opts`. The result
/// depends on the text alone.
#[verifier::external_body]
pub(crate) fn read_rfc3339(s: &str) -> (r: Option<Moment>)
    ensures
        instant(r) == rfc3339_moment(s@),
{
    let t = chrono::DateTime::parse_from_rfc3339(s).ok()?.with_timezone(&chrono::Utc);
    Some(Moment {
        seconds: t.timestamp(),
        nanos: t.timestamp_subsec_nanos(),
        millis: t.timestamp_millis(),
        utc: t.to_rfc3339_opts(chrono::SecondsFormat::Secs, true),
    })
}

/// What `chrono::DateTime::parse_from_rfc2822` reads: seconds and nanoseconds since 1970; `None`
/// where the text is no such date.
pub uninterp spec fn rfc2822_instant(s: Seq<char>) -> Option<(i64, u32)>;

/// Calls `chrono::DateTime::parse_from_rfc2822` and reads the parts by `timestamp` and
/// `timestamp_subsec_nanos`. The result depends on the text alone.
#[verifier::external_body]
pub(crate) fn read_rfc2822(s: &str) -> (r: Option<(i64, u32)>)
    ensures
        r == rfc2822_instant(s@),
{
    let t = chrono::DateTime::parse_from_rfc2822(s).ok()?;
    Some((t.timestamp(), t.timestamp_subsec_nanos()))
}

} // verus!
