//! Author-local calendar arithmetic on Unix timestamps with fixed UTC offsets.
use vstd::arithmetic::div_mod::lemma_fundamental_div_mod_converse;
use vstd::prelude::*;

verus! {

pub const SECONDS_PER_DAY: i64 = 86400;

pub const SECONDS_PER_HOUR: i64 = 3600;

/// Days added before dividing, so that the dividend is never negative.
/// A multiple of seven, so that weekdays are unaffected by the shift.
const SHIFT_DAYS: i128 = 246290604621824;

/// The offset in seconds that is actually applied for an offset given in
/// minutes: offsets of a full day or more are invalid and fall back to UTC.
pub open spec fn effective_offset(offset_minutes: int) -> int {
    if -86400 < offset_minutes * 60 && offset_minutes * 60 < 86400 {
        offset_minutes * 60
    } else {
        0
    }
}

/// Seconds since the epoch as read on a wall clock at the given offset.
pub open spec fn local_seconds(timestamp: int, offset_minutes: int) -> int {
    timestamp + effective_offset(offset_minutes)
}

/// Calendar day number (days since 1970-01-01) of a second count.
pub open spec fn day_of(seconds: int) -> int {
    seconds / 86400
}

/// Hour of the day, 0 to 23.
pub open spec fn hour_of(seconds: int) -> int {
    (seconds % 86400) / 3600
}

/// Day of the week, 0 for Monday to 6 for Sunday (1970-01-01 was a Thursday).
pub open spec fn weekday_of(seconds: int) -> int {
    (day_of(seconds) + 3) % 7
}

/// Position of an instant on a local calendar.
#[derive(Clone, Copy, Debug, PartialEq, Eq)]
pub struct LocalTime {
    pub day: i64,
    pub hour: usize,
    pub weekday: usize,
}

impl LocalTime {
    pub open spec fn describes(self, seconds: int) -> bool {
        &&& self.day as int == day_of(seconds)
        &&& self.hour as int == hour_of(seconds)
        &&& self.weekday as int == weekday_of(seconds)
    }
}

/// Places `seconds` (already shifted to the wanted offset) on the calendar.
fn calendar_position(seconds: i128) -> (r: LocalTime)
    requires
        -0x8000_0000_0000_0000 - 86400 <= seconds <= 0x7fff_ffff_ffff_ffff + 86400,
    ensures
        r.describes(seconds as int),
        r.hour < 24,
        r.weekday < 7,
{
    let shifted: i128 = seconds + SHIFT_DAYS * 86400;
    let shifted_days: i128 = shifted / 86400;
    let rem: i128 = shifted % 86400;
    let day: i128 = shifted_days - SHIFT_DAYS;
    proof {
        let s = seconds as int;
        lemma_fundamental_div_mod_converse(s, 86400, day as int, rem as int);
        let w = (shifted_days + 3) % 7;
        lemma_fundamental_div_mod_converse(
            day as int + 3,
            7,
            (shifted_days as int + 3) / 7 - SHIFT_DAYS / 7,
            w as int,
        );
    }
    LocalTime { day: day as i64, hour: (rem / 3600) as usize, weekday: ((shifted_days + 3) % 7) as usize }
}

/// Author-local calendar position of a commit time. An offset of a full day
/// or more is not a valid UTC offset and is replaced by UTC.
pub fn local_time(timestamp: i64, offset_minutes: i32) -> (r: LocalTime)
    ensures
        r.describes(local_seconds(timestamp as int, offset_minutes as int)),
        r.hour < 24,
        r.weekday < 7,
{
    let m: i64 = offset_minutes as i64 * 60;
    let offset: i64 = if -86400 < m && m < 86400 {
        m
    } else {
        0
    };
    calendar_position(timestamp as i128 + offset as i128)
}

/// UTC calendar day number of a timestamp.
pub fn utc_day(timestamp: i64) -> (r: i64)
    ensures
        r as int == day_of(timestamp as int),
{
    calendar_position(timestamp as i128).day
}

} // verus!
