//! The time field: an instant, held as seconds and nanoseconds of the
//! Unix epoch, in UTC. The bracketed text of the field is RFC 3339
//! date-and-time text carrying its own zone offset; parsing normalizes
//! it to UTC.

use vstd::prelude::*;

verus! {

/// An instant in UTC: whole seconds since the Unix epoch, and the
/// nanoseconds past that second (1,000,000,000 or more when the text
/// carried a leap second).
#[derive(Debug, Clone, Copy, PartialEq, Eq, Structural)]
pub struct Timestamp {
    pub secs: i64,
    pub nanos: u32,
}

/// The instant that RFC 3339 date-and-time text denotes, normalized to
/// UTC, as (seconds, nanoseconds) of the Unix epoch; nothing when the
/// text is not valid RFC 3339. The result depends on the text alone.
pub uninterp spec fn rfc3339_utc_parts(s: Seq<char>) -> Option<(i64, u32)>;

/// [`rfc3339_utc_parts`] packaged as a [`Timestamp`].
pub open spec fn spec_rfc3339_ts(s: Seq<char>) -> Option<Timestamp> {
    match rfc3339_utc_parts(s) {
        Some(p) => Some(Timestamp { secs: p.0, nanos: p.1 }),
        None => None,
    }
}

/// Relies on chrono's `DateTime::parse_from_rfc3339` to parse RFC 3339
/// date-and-time text, and on `DateTime::timestamp` and
/// `DateTime::timestamp_subsec_nanos` to read the parsed instant as
/// plain epoch values (which are offset-independent, hence UTC).
#[verifier::external_body]
pub(crate) fn parse_rfc3339_utc(s: &str) -> (r: Option<Timestamp>)
    ensures
        r matches Some(t) ==> rfc3339_utc_parts(s@) == Some((t.secs, t.nanos)),
        r is None ==> rfc3339_utc_parts(s@) is None,
{
    match chrono::DateTime::parse_from_rfc3339(s) {
        Ok(dt) => Some(Timestamp { secs: dt.timestamp(), nanos: dt.timestamp_subsec_nanos() }),
        Err(_) => None,
    }
}

} // verus!
