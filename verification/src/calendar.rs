//! The one place where the scheduler touches the calendar library: turning a
//! calendar date into the day number that `Instant` holds. Everything else is
//! plain day arithmetic, verified in the other modules.

use vstd::prelude::*;

verus! {

/// The day number of the calendar date `(y, m, d)`: the exact value is the
/// calendar library's and is left unnamed; the trusted wrapper below ties it
/// to what `NaiveDate::num_days_from_ce` returns.
pub uninterp spec fn day_number_of(y: int, m: int, d: int) -> int;

/// Whether year `y` is a leap year of the proleptic Gregorian calendar.
pub open spec fn is_leap_year(y: int) -> bool {
    (y % 4 == 0 && y % 100 != 0) || y % 400 == 0
}

/// The number of days in month `m` of year `y`.
pub open spec fn days_in_month(y: int, m: int) -> int {
    if m == 2 {
        if is_leap_year(y) {
            29
        } else {
            28
        }
    } else if m == 4 || m == 6 || m == 9 || m == 11 {
        30
    } else {
        31
    }
}

/// Whether `(y, m, d)` is a real calendar date.
pub open spec fn valid_date(y: int, m: int, d: int) -> bool {
    1 <= m <= 12 && 1 <= d <= days_in_month(y, m)
}

/// The calendar date one day after `(y, m, d)`, rolling over month and year
/// ends.
pub open spec fn next_date(y: int, m: int, d: int) -> (int, int, int) {
    if d < days_in_month(y, m) {
        (y, m, d + 1)
    } else if m < 12 {
        (y, m + 1, 1)
    } else {
        (y + 1, 1, 1)
    }
}

/// Relies on chrono's `NaiveDate::from_ymd_opt`, which returns `Some` exactly
/// for real calendar dates, and `Datelike::num_days_from_ce`, which counts
/// the days of the proleptic Gregorian calendar: January 1 of year 1 is day
/// 1, each following calendar date counts one more, and for years 1 through
/// 9999 the count stays between 1 and 3,652,059 (the count for December 31
/// of year 9999).
#[verifier::external_body]
pub(crate) fn day_number_from_ymd(year: i32, month: u32, day: u32) -> (r: Option<u64>)
    requires
        1 <= year <= 9999,
    ensures
        r is Some <==> valid_date(year as int, month as int, day as int),
        r matches Some(n) ==> n == day_number_of(year as int, month as int, day as int) && 1 <= n
            <= 3_652_059,
        r is Some ==> day_number_of(1, 1, 1) == 1,
        r matches Some(n) ==> ({
            let (ny, nm, nd) = next_date(year as int, month as int, day as int);
            day_number_of(ny, nm, nd) == n + 1
        }),
{
    match chrono::NaiveDate::from_ymd_opt(year, month, day) {
        Some(date) => Some(chrono::Datelike::num_days_from_ce(&date) as u64),
        None => None,
    }
}

} // verus!
