//! Capture times as plain numbers, and moving them by an offset.

use chrono::{DateTime, TimeDelta, Utc};
use vstd::prelude::*;

verus! {

pub const NS_PER_SEC: u32 = 1_000_000_000;

/// First second of the calendar that times are kept in.
pub const FIRST_SEC: i64 = -8_334_601_228_800;

/// Last second of the calendar that times are kept in.
pub const LAST_SEC: i64 = 8_210_266_876_799;

/// A moment in time: seconds since the Unix epoch, and nanoseconds into that
/// second.
#[derive(Debug, Clone, Copy, PartialEq, Eq, Structural)]
pub struct CaptureTime {
    pub secs: i64,
    pub subsec_ns: u32,
}

/// `ns` nanoseconds after the epoch lies within the calendar.
pub open spec fn in_calendar(ns: int) -> bool {
    FIRST_SEC * 1_000_000_000 <= ns < (LAST_SEC + 1) * 1_000_000_000
}

impl CaptureTime {
    /// The moment exists in the calendar and is written in its usual form.
    pub open spec fn wf(self) -> bool {
        FIRST_SEC <= self.secs <= LAST_SEC && self.subsec_ns < NS_PER_SEC
    }

    /// Nanoseconds since the Unix epoch.
    pub open spec fn ns(self) -> int {
        self.secs * 1_000_000_000 + self.subsec_ns
    }

    /// The moment `offset_ns` after (or, if negative, before) this one. `None`
    /// if the calendar does not reach that far.
    pub fn after_ns(self, offset_ns: i64) -> (moved: Option<CaptureTime>)
        requires
            self.wf(),
        ensures
            moved is Some <==> in_calendar(self.ns() + offset_ns),
            moved matches Some(t) ==> t.wf() && t.ns() == self.ns() + offset_ns,
    {
        if offset_ns >= 0 {
            self.moved(offset_ns / 1_000_000_000, (offset_ns % 1_000_000_000) as u32)
        } else {
            let short: i64 = -(offset_ns + 1);
            let whole: i64 = short / 1_000_000_000;
            let part: i64 = short % 1_000_000_000;
            self.moved(-whole - 1, (999_999_999 - part) as u32)
        }
    }

    /// The moment a duration of `secs` seconds and `nanos` nanoseconds after this
    /// one. `None` if the calendar does not reach that far.
    pub fn after_duration(self, secs: u64, nanos: u32) -> (moved: Option<CaptureTime>)
        requires
            self.wf(),
            nanos < NS_PER_SEC,
        ensures
            moved is Some <==> in_calendar(self.ns() + secs * 1_000_000_000 + nanos),
            moved matches Some(t) ==> t.wf() && t.ns() == self.ns() + secs * 1_000_000_000 + nanos,
    {
        if secs > i64::MAX as u64 {
            None
        } else {
            self.moved(secs as i64, nanos)
        }
    }

    fn moved(self, secs: i64, nanos: u32) -> (moved: Option<CaptureTime>)
        requires
            self.wf(),
            nanos < NS_PER_SEC,
        ensures
            moved is Some <==> in_calendar(self.ns() + secs * 1_000_000_000 + nanos),
            moved matches Some(t) ==> t.wf() && t.ns() == self.ns() + secs * 1_000_000_000 + nanos,
    {
        match add_to_time(self.secs, self.subsec_ns, secs, nanos) {
            Some((secs, subsec_ns)) => Some(CaptureTime { secs, subsec_ns }),
            None => None,
        }
    }
}

/// Adds a duration to a moment with `chrono`: `DateTime::<Utc>::checked_add_signed`
/// of a `TimeDelta`, both made from and taken apart into seconds and nanoseconds.
///
/// Relied on: moments reach from [`FIRST_SEC`] to the end of [`LAST_SEC`]
/// (`DateTime::MIN_UTC` to `DateTime::MAX_UTC`); the sum is exact, without leap
/// seconds, and given exactly when it lies in that range. A duration that
/// `TimeDelta` cannot hold is too long to stay in it.
#[verifier::external_body]
fn add_to_time(secs: i64, subsec_ns: u32, add_secs: i64, add_ns: u32) -> (sum: Option<(i64, u32)>)
    requires
        FIRST_SEC <= secs <= LAST_SEC,
        subsec_ns < NS_PER_SEC,
        add_ns < NS_PER_SEC,
    ensures
        sum is Some <==> in_calendar(
            secs * 1_000_000_000 + subsec_ns + add_secs * 1_000_000_000 + add_ns,
        ),
        sum matches Some((s, n)) ==> FIRST_SEC <= s <= LAST_SEC && n < NS_PER_SEC && s
            * 1_000_000_000 + n == secs * 1_000_000_000 + subsec_ns + add_secs * 1_000_000_000
            + add_ns,
{
    let start = DateTime::<Utc>::from_timestamp(secs, subsec_ns)?;
    let sum = start.checked_add_signed(TimeDelta::new(add_secs, add_ns)?)?;
    Some((sum.timestamp(), sum.timestamp_subsec_nanos()))
}

/// The calendar reaches from the year -262143 to the end of the year 262142, to the
/// nanosecond, and a moment in it is written with less than a second in nanoseconds.
pub proof fn the_calendar_reaches_this_far(ns: int, time: CaptureTime)
    ensures
        in_calendar(ns) <==> -8_334_601_228_800_000_000_000 <= ns < 8_210_266_876_800_000_000_000,
        time.wf() <==> -8_334_601_228_800 <= time.secs < 8_210_266_876_800 && time.subsec_ns
            < 1_000_000_000,
        time.ns() == time.secs * 1_000_000_000 + time.subsec_ns,
        time.wf() ==> in_calendar(time.secs * 1_000_000_000 + time.subsec_ns),
{
}

} // verus!
