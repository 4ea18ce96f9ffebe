//! Block times.

use vstd::prelude::*;

verus! {

/// The first second that a calendar date can name: the start of the year -262143.
pub const FIRST_SECOND: i64 = -8_334_601_228_800;

/// The last second that a calendar date can name: the end of the year 262142.
pub const LAST_SECOND: i64 = 8_210_266_876_799;

/// A point in time, in UTC: whole seconds since the start of 1970, and the nanoseconds that have
/// passed since that second. During a leap second the nanoseconds run past 999,999,999.
#[derive(Clone, Copy, Debug, PartialEq, Eq, Structural)]
pub struct Timestamp {
    pub secs: i64,
    pub nanos: u32,
}

impl Timestamp {
    /// Whether a calendar date and a time of day name this point.
    pub open spec fn on_calendar(self) -> bool {
        &&& FIRST_SECOND <= self.secs <= LAST_SECOND
        &&& self.nanos < 2_000_000_000
        &&& self.nanos >= 1_000_000_000 ==> self.secs as int % 60 == 59
    }

    /// Milliseconds since the start of 1970.
    pub open spec fn millis(self) -> int {
        self.secs * 1000 + self.nanos as int / 1_000_000
    }

    /// Milliseconds since the start of 1970, where the calendar holds this point.
    pub fn timestamp_millis(self) -> (millis: Option<i64>)
        ensures
            millis is Some <==> self.on_calendar(),
            millis matches Some(n) ==> n == self.millis(),
    {
        utc_millis(self.secs, self.nanos)
    }
}

/// The milliseconds of the point that `secs` and `nanos` name.
///
/// Trusted: calls `chrono::DateTime::from_timestamp` and `timestamp_millis` on what it returns.
/// Claimed of them: the point exists exactly where `Timestamp::on_calendar` says so, and its
/// milliseconds are the seconds times a thousand plus the whole milliseconds of the nanoseconds.
#[verifier::external_body]
fn utc_millis(secs: i64, nanos: u32) -> (millis: Option<i64>)
    ensures
        millis is Some <==> (Timestamp { secs, nanos }).on_calendar(),
        millis matches Some(n) ==> n == (Timestamp { secs, nanos }).millis(),
{
    chrono::DateTime::from_timestamp(secs, nanos).map(|point| point.timestamp_millis())
}

} // verus!
