//! Calendar dates and times of day, and the milliseconds since the Unix epoch
//! that they stand for.
use vstd::prelude::*;

verus! {

pub open spec fn is_leap_year(y: int) -> bool {
    (y % 4 == 0 && y % 100 != 0) || y % 400 == 0
}

pub open spec fn year_length(y: int) -> int {
    if is_leap_year(y) { 366 } else { 365 }
}

pub open spec fn days_in_month(y: int, m: int) -> int {
    if m == 2 {
        if is_leap_year(y) { 29 } else { 28 }
    } else if m == 4 || m == 6 || m == 9 || m == 11 {
        30
    } else {
        31
    }
}

/// A day of the proleptic Gregorian calendar and a time of day without a
/// leap second.
pub open spec fn civil_valid(y: int, m: int, d: int, h: int, mi: int, s: int) -> bool {
    &&& 1 <= m <= 12
    &&& 1 <= d <= days_in_month(y, m)
    &&& 0 <= h < 24
    &&& 0 <= mi < 60
    &&& 0 <= s < 60
}

/// Days from 1970-01-01 to the first day of year `y`.
pub open spec fn days_to_year(y: int) -> int
    decreases (if y >= 1970 { y - 1970 } else { 1970 - y }),
{
    if y > 1970 {
        days_to_year(y - 1) + year_length(y - 1)
    } else if y < 1970 {
        days_to_year(y + 1) - year_length(y)
    } else {
        0
    }
}

/// Days from the first day of year `y` to the first day of month `m`.
pub open spec fn days_to_month(y: int, m: int) -> int
    decreases m,
{
    if m <= 1 {
        0
    } else {
        days_to_month(y, m - 1) + days_in_month(y, m - 1)
    }
}

/// Milliseconds from 1970-01-01 00:00:00 to the given day and time, in UTC.
pub open spec fn unix_millis(y: int, m: int, d: int, h: int, mi: int, s: int) -> int {
    ((days_to_year(y) + days_to_month(y, m) + d - 1) * 86400 + h * 3600 + mi * 60 + s) * 1000
}

/// Relies on chrono's `NaiveDate::from_ymd_opt` (`None` for a day that does
/// not exist), `NaiveDate::and_hms_opt` (`None` for an hour, minute or second
/// out of range, a leap second included) and `DateTime::<Utc>::timestamp_millis`
/// (non-leap milliseconds since 1970-01-01 UTC).
#[verifier::external_body]
pub(crate) fn chrono_unix_millis(year: i32, month: u32, day: u32, hour: u32, minute: u32, second: u32) -> (r: Option<i64>)
    requires
        0 <= year <= 9999,
    ensures
        r is Some <==> civil_valid(year as int, month as int, day as int, hour as int, minute as int, second as int),
        r matches Some(v) ==> v == unix_millis(year as int, month as int, day as int, hour as int, minute as int, second as int),
{
    let date = chrono::NaiveDate::from_ymd_opt(year, month, day)?;
    let time = date.and_hms_opt(hour, minute, second)?;
    Some(time.and_utc().timestamp_millis())
}

} // verus!
