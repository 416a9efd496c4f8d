//! Date-times through chrono: parsing, and applying a fixed UTC offset.

use vstd::prelude::*;
use crate::values::Timestamp;
use chrono::{DateTime, FixedOffset, NaiveDateTime, TimeZone};

verus! {

/// What `chrono::DateTime::<FixedOffset>::parse_from_str(s, fmt)` yields, as the
/// seconds since the Unix epoch and the nanoseconds of the instant it parses,
/// or `None` where it fails.
pub uninterp spec fn fixed_datetime_parsed(s: Seq<char>, fmt: Seq<char>) -> Option<(i64, u32)>;

/// What `chrono::NaiveDateTime::parse_from_str(s, fmt)` yields, as the seconds
/// and nanoseconds of that local date-time read as if it were UTC, or `None`
/// where it fails.
pub uninterp spec fn naive_datetime_parsed(s: Seq<char>, fmt: Seq<char>) -> Option<(i64, u32)>;

pub open spec fn as_timestamp(p: Option<(i64, u32)>) -> Option<Timestamp> {
    match p {
        Some((secs, nanos)) => Some(Timestamp { secs, nanos }),
        None => None,
    }
}

/// Calls `chrono::DateTime::<FixedOffset>::parse_from_str` and keeps the
/// instant it denotes; the result is named `fixed_datetime_parsed`.
#[verifier::external_body]
pub(crate) fn parse_fixed_datetime(s: &str, fmt: &str) -> (r: Option<Timestamp>)
    ensures
        r == as_timestamp(fixed_datetime_parsed(s@, fmt@)),
{
    match DateTime::parse_from_str(s, fmt) {
        Ok(d) => Some(Timestamp { secs: d.timestamp(), nanos: d.timestamp_subsec_nanos() }),
        Err(_) => None,
    }
}

/// Calls `chrono::NaiveDateTime::parse_from_str`; the result is named
/// `naive_datetime_parsed`.
#[verifier::external_body]
pub(crate) fn parse_naive_datetime(s: &str, fmt: &str) -> (r: Option<Timestamp>)
    ensures
        r == as_timestamp(naive_datetime_parsed(s@, fmt@)),
{
    match NaiveDateTime::parse_from_str(s, fmt) {
        Ok(d) => Some(Timestamp { secs: d.and_utc().timestamp(), nanos: d.and_utc().timestamp_subsec_nanos() }),
        Err(_) => None,
    }
}

/// Calls `chrono::FixedOffset::east_opt`, which accepts offsets strictly
/// within one day either way, and returns the offset's seconds east of UTC.
#[verifier::external_body]
pub(crate) fn fixed_offset_east(secs: i32) -> (r: Option<i32>)
    ensures
        r == (if -86_400 < secs && secs < 86_400 {
            Some(secs)
        } else {
            None::<i32>
        }),
{
    match FixedOffset::east_opt(secs) {
        Some(o) => Some(o.local_minus_utc()),
        None => None,
    }
}

/// What chrono's `FixedOffset::from_local_datetime(..).single()` yields for the
/// local date-time of `local_secs` and `local_nanos` (read as if UTC) in the
/// zone `offset_secs` east of UTC, as seconds and nanoseconds.
pub uninterp spec fn fixed_from_local(local_secs: i64, local_nanos: u32, offset_secs: i32) -> Option<(i64, u32)>;

/// Reads the local date-time `local` (seconds and nanoseconds as if UTC) in the
/// zone `offset_secs` east of UTC, through chrono's `DateTime::from_timestamp`
/// and `FixedOffset::from_local_datetime(..).single()`: the instant is the
/// local time minus the offset, or `None` where a date-time falls outside
/// chrono's range of years -262144 to 262143. The result is named
/// `fixed_from_local`. The contract states that every local time within
/// 8 * 10^12 seconds of the epoch (about 253 000 years either way) with fewer
/// than 10^9 nanoseconds is placed; it does not state the exact edge of the
/// range.
#[verifier::external_body]
pub(crate) fn from_local_datetime(local: Timestamp, offset_secs: i32) -> (r: Option<Timestamp>)
    requires
        -86_400 < offset_secs < 86_400,
    ensures
        r == as_timestamp(fixed_from_local(local.secs, local.nanos, offset_secs)),
        r matches Some(t) ==> t.secs == local.secs - offset_secs && t.nanos == local.nanos,
        -8_000_000_000_000 <= local.secs <= 8_000_000_000_000 && local.nanos < 1_000_000_000 ==> r is Some,
{
    let zone = FixedOffset::east_opt(offset_secs).unwrap();
    let naive = match DateTime::from_timestamp(local.secs, local.nanos) {
        Some(d) => d.naive_utc(),
        None => return None,
    };
    match zone.from_local_datetime(&naive).single() {
        Some(d) => Some(Timestamp { secs: d.timestamp(), nanos: d.timestamp_subsec_nanos() }),
        None => None,
    }
}

} // verus!
