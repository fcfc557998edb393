//! The engine's model of local time.
//!
//! A timestamp is a `u64` count of seconds of local time since the epoch
//! (1970-01-01T00:00 local); a day number is a timestamp divided by the
//! seconds in a day. What the engine reads from a date — the civil year,
//! month and day of month — is computed by the `time` crate behind trusted
//! wrappers keyed by the Julian day number, `day number + 2_440_588`.

use vstd::prelude::*;

verus! {

/// Seconds in a day of local time.
pub const SECONDS_PER_DAY: u64 = 86400;

/// The Julian day number of the epoch day, 1970-01-01.
pub const EPOCH_JULIAN_DAY: u64 = 2440588;

/// The Julian day number of 9999-12-31, the last date the `time` crate
/// represents; day numbers beyond `MAX_JULIAN_DAY - EPOCH_JULIAN_DAY` are
/// out of the engine's range.
pub const MAX_JULIAN_DAY: u64 = 5373484;

/// The largest day number (days since the epoch) the engine accepts.
pub const MAX_DAY_NUMBER: u64 = 2932896;

/// The civil calendar date `(year, month, day of month)` of a Julian day
/// number. What it is on a given day takes the full Gregorian calendar to
/// state, so it stays a name; the trusted wrappers below relate it to the
/// `time` crate.
pub uninterp spec fn civil_of(julian_day: int) -> (int, int, int);

/// The Julian day number of a civil calendar date, the inverse direction:
/// also a function of the full Gregorian calendar, so it stays a name.
pub uninterp spec fn julian_of_civil(year: int, month: int, day: int) -> int;

/// The day number (days since the epoch) of a civil date.
pub open spec fn day_number_of_civil(year: int, month: int, day: int) -> int {
    julian_of_civil(year, month, day) - EPOCH_JULIAN_DAY
}

/// The Gregorian leap-year rule.
pub open spec fn is_leap_year_spec(year: int) -> bool {
    year % 4 == 0 && (year % 100 != 0 || year % 400 == 0)
}

/// Days in a month of the Gregorian calendar.
pub open spec fn days_in_month_spec(year: int, month: int) -> int {
    if month == 2 {
        if is_leap_year_spec(year) {
            29
        } else {
            28
        }
    } else if month == 4 || month == 6 || month == 9 || month == 11 {
        30
    } else {
        31
    }
}

/// The civil date of a day number (days since the epoch).
pub open spec fn civil_of_day(day: int) -> (int, int, int) {
    civil_of(day + EPOCH_JULIAN_DAY)
}

/// The day of month (1..=31) of a day number.
pub open spec fn day_of_month_of(day: int) -> int {
    civil_of_day(day).2
}

/// The day number a timestamp falls on.
pub open spec fn day_of(t: int) -> int {
    t / (SECONDS_PER_DAY as int)
}

/// Relies on `time::Date::from_julian_day` and `time::Date::to_calendar_date`:
/// the civil date is a function of the Julian day number alone; between the
/// epoch and the end of year 9999 the year is 1970..=9999, the month 1..=12
/// and the day of month 1..=31. `from_julian_day` accepts every Julian day in
/// that range.
#[verifier::external_body]
fn civil_from_julian(julian_day: u64) -> (r: (i32, u8, u8))
    requires
        EPOCH_JULIAN_DAY <= julian_day <= MAX_JULIAN_DAY,
    ensures
        (r.0 as int, r.1 as int, r.2 as int) == civil_of(julian_day as int),
        1970 <= r.0 <= 9999,
        1 <= r.1 <= 12,
        1 <= r.2 <= 31,
{
    let (year, month, day) = time::Date::from_julian_day(julian_day as i32)
        .unwrap()
        .to_calendar_date();
    (year, u8::from(month), day)
}

/// Relies on `time::Date::from_calendar_date` and `time::Date::to_julian_day`:
/// the constructed date's civil components are exactly the arguments, so its
/// Julian day satisfies `civil_of`; construction succeeds precisely when the
/// year is in the crate's range and the day fits the month, and the Julian day
/// grows with the date, so years 1970..=9999 stay between the epoch and
/// `MAX_JULIAN_DAY`.
#[verifier::external_body]
fn julian_from_civil(year: i32, month: u8, day: u8) -> (r: Option<i64>)
    requires
        1 <= month <= 12,
    ensures
        r matches Some(jd) ==> civil_of(jd as int) == (year as int, month as int, day as int),
        r matches Some(jd) ==> jd as int == julian_of_civil(year as int, month as int, day as int),
        r matches Some(jd) ==> (1970 <= year <= 9999 ==> EPOCH_JULIAN_DAY <= jd
            <= MAX_JULIAN_DAY),
        (1970 <= year <= 9999 && 1 <= day <= days_in_month_spec(year as int, month as int))
            ==> r is Some,
        !(-9999 <= year <= 9999 && 1 <= day <= days_in_month_spec(year as int, month as int))
            ==> r is None,
{
    let m = match time::Month::try_from(month) {
        Ok(m) => m,
        Err(_) => return None,
    };
    match time::Date::from_calendar_date(year, m, day) {
        Ok(date) => Some(date.to_julian_day() as i64),
        Err(_) => None,
    }
}

/// The civil date of a day number, from the trusted calendar.
pub fn civil_from_day(day: u64) -> (r: (i32, u8, u8))
    requires
        day <= MAX_DAY_NUMBER,
    ensures
        (r.0 as int, r.1 as int, r.2 as int) == civil_of_day(day as int),
        1970 <= r.0 <= 9999,
        1 <= r.1 <= 12,
        1 <= r.2 <= 31,
{
    civil_from_julian(day + EPOCH_JULIAN_DAY)
}

/// The day of month (1..=31) of a day number.
pub fn day_of_month(day: u64) -> (r: u8)
    requires
        day <= MAX_DAY_NUMBER,
    ensures
        r as int == day_of_month_of(day as int),
        1 <= r <= 31,
{
    let (_, _, d) = civil_from_day(day);
    d
}

/// The day number of a civil date, when the date exists in the engine's
/// range: years 1970..=9999, with the day validated against the month.
pub fn day_from_civil(year: i32, month: u8, day: u8) -> (r: Option<u64>)
    requires
        1 <= month <= 12,
    ensures
        r matches Some(d) ==> d <= MAX_DAY_NUMBER && civil_of_day(d as int) == (
            year as int,
            month as int,
            day as int,
        ),
        r matches Some(d) ==> d as int == day_number_of_civil(
            year as int,
            month as int,
            day as int,
        ),
        (1970 <= year <= 9999 && 1 <= day <= days_in_month_spec(year as int, month as int))
            <==> r is Some,
{
    if year < 1970 || year > 9999 {
        return None;
    }
    match julian_from_civil(year, month, day) {
        Some(jd) => Some((jd as u64) - EPOCH_JULIAN_DAY),
        None => None,
    }
}

} // verus!
