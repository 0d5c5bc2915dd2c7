//! Rendering unix timestamps as human-readable datetime strings for the
//! archived edit logs, through the datetime library.

use vstd::prelude::*;

verus! {

/// The smallest unix timestamp the datetime library accepts (the first
/// instant of year -9999).
pub const TS_FORMAT_MIN: i64 = -377705116800;

/// The largest unix timestamp the datetime library accepts (the last
/// second of year 9999).
pub const TS_FORMAT_MAX: i64 = 253402300799;

/// The display form of a unix timestamp, as the datetime library writes
/// it; a function of the timestamp alone.
pub uninterp spec fn datetime_display_of(ts: int) -> Seq<char>;

/// Relies on time::OffsetDateTime::from_unix_timestamp and its Display
/// impl: timestamps within the library's supported year range format to
/// their UTC datetime string; outside it the conversion is refused.
#[verifier::external_body]
pub(crate) fn format_unix_ts(ts: i64) -> (r: Option<String>)
    ensures
        (TS_FORMAT_MIN <= ts <= TS_FORMAT_MAX) <==> r is Some,
        r matches Some(s) ==> s@ == datetime_display_of(ts as int),
{
    match time::OffsetDateTime::from_unix_timestamp(ts) {
        Ok(dt) => Some(format!("{}", dt)),
        Err(_) => None,
    }
}

} // verus!
