use vstd::prelude::*;

use crate::error::Error;

verus! {

/// Smallest seconds-since-epoch value that `time::OffsetDateTime` can
/// represent (midnight of the smallest date, year -9999).
pub const MIN_UNIX_TIMESTAMP: i64 = -377_705_116_800;

/// Largest seconds-since-epoch value that `time::OffsetDateTime` can
/// represent (last second of the largest date, year 9999).
pub const MAX_UNIX_TIMESTAMP: i64 = 253_402_300_799;

/// Largest magnitude, in whole seconds, of a UTC offset that
/// `time::UtcOffset` can represent (25:59:59 east or west).
pub const MAX_UTC_OFFSET_SECONDS: i64 = 93_599;

/// A normalized instant: a point in time attached to a UTC offset.
///
/// Two instants compare by `seconds` alone; the offset never moves the
/// represented physical instant, it only records how the source expressed it.
#[derive(Clone, Copy, PartialEq, Eq, Structural, Debug)]
pub struct NormalizedTime {
    /// Seconds since the Unix epoch, in UTC.
    pub seconds: i64,
    /// Offset from UTC, in seconds, as the source recorded it.
    pub offset_seconds: i32,
}

/// A seconds-since-epoch value that the time backend can represent.
pub open spec fn timestamp_representable(seconds: i64) -> bool {
    MIN_UNIX_TIMESTAMP <= seconds <= MAX_UNIX_TIMESTAMP
}

/// An offset-from-UTC in minutes that the time backend can represent.
pub open spec fn offset_minutes_representable(offset_minutes: i32) -> bool {
    -MAX_UTC_OFFSET_SECONDS <= (offset_minutes as int) * 60 <= MAX_UTC_OFFSET_SECONDS
}

/// A raw backend timestamp that normalizes without error.
pub open spec fn valid_commit_time(seconds: i64, offset_minutes: i32) -> bool {
    timestamp_representable(seconds) && offset_minutes_representable(offset_minutes)
}

/// Relies on `time::OffsetDateTime::from_unix_timestamp`: it succeeds exactly
/// when the argument lies between the unix timestamps of the smallest and the
/// largest representable date (`timestamp::Seconds` in time's source).
#[verifier::external_body]
fn unix_timestamp_representable_exec(seconds: i64) -> (r: bool)
    ensures
        r <==> timestamp_representable(seconds),
{
    time::OffsetDateTime::from_unix_timestamp(seconds).is_ok()
}

/// Relies on `time::UtcOffset::from_whole_seconds`: it succeeds exactly when
/// the argument lies within (plus or minus 25 hours 59 minutes 59 seconds), the
/// `WholeSeconds` range in time's source.
#[verifier::external_body]
fn utc_offset_representable_exec(offset_seconds: i32) -> (r: bool)
    ensures
        r <==> -MAX_UTC_OFFSET_SECONDS <= offset_seconds <= MAX_UTC_OFFSET_SECONDS,
{
    time::UtcOffset::from_whole_seconds(offset_seconds).is_ok()
}

/// Converts a backend-native timestamp (seconds since epoch plus an offset
/// from UTC in minutes) into a normalized instant at that offset.
///
/// Fails with `Error::TimeOutOfRange` exactly when the timestamp or the
/// offset cannot be represented by the time backend; the represented instant
/// is never changed by the attached offset.
pub fn git2_time_to_offset(seconds: i64, offset_minutes: i32) -> (r: Result<NormalizedTime, Error>)
    ensures
        r is Ok <==> valid_commit_time(seconds, offset_minutes),
        r matches Ok(t) ==> t.seconds == seconds && t.offset_seconds as int == (
        offset_minutes as int) * 60,
        r matches Err(e) ==> e == (Error::TimeOutOfRange { seconds, offset_minutes }),
{
    if !unix_timestamp_representable_exec(seconds) {
        return Err(Error::TimeOutOfRange { seconds, offset_minutes });
    }
    // A 64-bit product cannot overflow; an offset too large for i32 is in
    // particular outside the representable offset range.
    let offset_seconds_wide: i64 = (offset_minutes as i64) * 60;
    if offset_seconds_wide < -MAX_UTC_OFFSET_SECONDS
        || offset_seconds_wide > MAX_UTC_OFFSET_SECONDS {
        return Err(Error::TimeOutOfRange { seconds, offset_minutes });
    }
    if !utc_offset_representable_exec(offset_seconds_wide as i32) {
        return Err(Error::TimeOutOfRange { seconds, offset_minutes });
    }
    Ok(NormalizedTime { seconds, offset_seconds: offset_seconds_wide as i32 })
}

} // verus!
