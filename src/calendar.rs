use chrono::Datelike;
use vstd::prelude::*;

verus! {

pub const SECONDS_PER_HOUR: i64 = 3600;

pub const SECONDS_PER_DAY: i64 = 86400;

/// The day number (days since 1970-01-01, UTC) of a Unix time in seconds.
pub open spec fn day_number(secs: int) -> int {
    secs / (SECONDS_PER_DAY as int)
}

/// The hour of day (0..=23, UTC) of a Unix time in seconds.
pub open spec fn hour_of(secs: int) -> int {
    (secs % (SECONDS_PER_DAY as int)) / (SECONDS_PER_HOUR as int)
}

/// The day of week counted from Monday (Monday = 0 .. Sunday = 6), UTC.
/// 1970-01-01 was a Thursday.
pub open spec fn weekday_of(secs: int) -> int {
    (day_number(secs) + 3) % 7
}

/// The start of the hour that holds `secs`.
pub open spec fn hour_start(secs: int) -> int {
    secs - secs % (SECONDS_PER_HOUR as int)
}

/// The (month, day of month) of the proleptic Gregorian UTC date of a Unix
/// time as chrono computes it; `None` where chrono cannot represent the instant.
pub uninterp spec fn utc_month_day_of(secs: int) -> Option<(u32, u32)>;

/// Relies on chrono's `DateTime::<Utc>::from_timestamp` and its `Datelike::month`
/// and `Datelike::day` accessors: a month in 1..=12 and a day in 1..=31 for
/// every instant that chrono can represent.
#[verifier::external_body]
fn utc_month_day(secs: i64) -> (r: Option<(u32, u32)>)
    ensures
        r == utc_month_day_of(secs as int),
        r matches Some(md) ==> 1 <= md.0 <= 12 && 1 <= md.1 <= 31,
{
    match chrono::DateTime::from_timestamp(secs, 0) {
        Some(d) => Some((d.month(), d.day())),
        None => None,
    }
}

/// The calendar fields that the matching engine compares.
#[derive(Clone, Copy, Debug, PartialEq, Eq, Structural)]
pub struct CalendarSlot {
    pub month: u32,
    pub day: u32,
    pub hour: u32,
    pub week_day: u32,
}

/// The calendar slot of a Unix time, where its month and day are `md`.
pub open spec fn slot_spec(secs: int, md: (u32, u32)) -> CalendarSlot {
    CalendarSlot {
        month: md.0,
        day: md.1,
        hour: hour_of(secs) as u32,
        week_day: weekday_of(secs) as u32,
    }
}

/// Euclidean remainder of `a` by a positive `m`.
fn rem_euclid(a: i64, m: i64) -> (r: i64)
    requires
        m > 0,
    ensures
        r == a as int % m as int,
        0 <= r < m,
{
    match a.checked_rem_euclid(m) {
        Some(r) => r,
        None => 0,
    }
}

/// Euclidean quotient of `a` by a positive `m`.
fn div_euclid(a: i64, m: i64) -> (r: i64)
    requires
        m > 0,
    ensures
        r == a as int / m as int,
{
    proof {
        assert(a >= 0 ==> 0 <= (a as int) / (m as int) && (a as int) / (m as int) <= a) by (nonlinear_arith)
            requires
                m > 0,
        ;
        assert(a < 0 ==> a <= (a as int) / (m as int) && (a as int) / (m as int) < 0) by (nonlinear_arith)
            requires
                m > 0,
        ;
    }
    match a.checked_div_euclid(m) {
        Some(r) => r,
        None => 0,
    }
}

/// The calendar slot of a Unix time; `None` where chrono cannot represent it.
pub open spec fn calendar_slot_spec(secs: int) -> Option<CalendarSlot> {
    match utc_month_day_of(secs) {
        Some(md) => Some(slot_spec(secs, md)),
        None => None,
    }
}

/// Truncates a Unix time to the start of its hour (zero minutes and seconds).
pub fn truncate_to_hour(secs: i64) -> (r: i64)
    requires
        secs >= i64::MIN + SECONDS_PER_HOUR,
    ensures
        r == hour_start(secs as int),
        r <= secs,
        secs - r < SECONDS_PER_HOUR,
        r % SECONDS_PER_HOUR == 0,
{
    secs - rem_euclid(secs, SECONDS_PER_HOUR)
}

/// The calendar slot of a Unix time; `None` where chrono cannot represent it.
pub fn calendar_slot(secs: i64) -> (r: Option<CalendarSlot>)
    ensures
        r == calendar_slot_spec(secs as int),
        r matches Some(s) ==> 1 <= s.month <= 12 && 1 <= s.day <= 31 && s.hour < 24 && s.week_day
            < 7,
{
    match utc_month_day(secs) {
        None => None,
        Some(md) => {
            let in_day = rem_euclid(secs, SECONDS_PER_DAY);
            let hour = (in_day / SECONDS_PER_HOUR) as u32;
            let days = div_euclid(secs, SECONDS_PER_DAY);
            let week_day = rem_euclid(rem_euclid(days, 7) + 3, 7) as u32;
            assert((days % 7 + 3) % 7 == (days + 3) % 7) by (nonlinear_arith);
            Some(CalendarSlot { month: md.0, day: md.1, hour, week_day })
        },
    }
}

/// A school-holiday range of UTC dates, both ends included, as day numbers
/// (days since 1970-01-01).
#[derive(Clone, Copy, Debug, PartialEq, Eq, Structural)]
pub struct SchoolHolidays {
    pub start: i64,
    pub end: i64,
}

/// Whether the UTC date of `secs` lies within one of `holidays`.
pub open spec fn is_holiday_spec(holidays: Seq<SchoolHolidays>, secs: int) -> bool {
    exists|i: int|
        0 <= i < holidays.len() && holidays[i].start <= day_number(secs) && day_number(secs)
            <= holidays[i].end
}

/// Whether the UTC date of `secs` lies within one of `holidays`.
pub fn is_holiday(holidays: &Vec<SchoolHolidays>, secs: i64) -> (r: bool)
    ensures
        r == is_holiday_spec(holidays@, secs as int),
{
    let day = div_euclid(secs, SECONDS_PER_DAY);
    let mut i: usize = 0;
    while i < holidays.len()
        invariant
            i <= holidays.len(),
            day == day_number(secs as int),
            forall|j: int|
                0 <= j < i ==> !(holidays@[j].start <= day && day <= holidays@[j].end),
        decreases holidays.len() - i,
    {
        if holidays[i].start <= day && day <= holidays[i].end {
            return true;
        }
        i = i + 1;
    }
    false
}

} // verus!
