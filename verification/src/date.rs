//! Day of the year of a `YYYY-MM-DD` date on a 365-day calendar.
use vstd::prelude::*;

use crate::text::{chars_of, parse_unsigned, parse_unsigned_exec, split_chars, split_on, views};

verus! {

/// Why a date string has no day of the year.
#[derive(Debug, Clone, Copy, PartialEq, Eq, Structural)]
pub enum DateError {
    /// The string does not have exactly three `-`-separated parts.
    Format,
    /// The month part is not an unsigned 32-bit number.
    BadMonth,
    /// The day part is not an unsigned 32-bit number.
    BadDay,
    /// The month is not in `1..=12`.
    MonthOutOfRange,
    /// The day is `0` or past the month's last day (February has 29).
    DayOutOfRange,
}

/// Days of the year before the first of month `m` (`1..=12`), on a
/// 365-day calendar.
pub open spec fn days_before(m: nat) -> nat {
    seq![0nat, 31, 59, 90, 120, 151, 181, 212, 243, 273, 304, 334][m - 1]
}

/// The last day of month `m` that a date may name (February: 29).
pub open spec fn last_day(m: nat) -> nat {
    seq![31nat, 29, 31, 30, 31, 30, 31, 31, 30, 31, 30, 31][m - 1]
}

/// Whether month `m`, day `d` names a date (29 February included).
pub open spec fn is_calendar_date(m: nat, d: nat) -> bool {
    1 <= m <= 12 && 1 <= d <= last_day(m)
}

/// Day of the year of month `m`, day `d`, with 29 February counted as
/// 28 February.
pub open spec fn ordinal(m: nat, d: nat) -> nat {
    days_before(m) + if m == 2 && d > 28 {
        28
    } else {
        d
    }
}

/// Day of the year of a `YYYY-MM-DD` string. The year part is not read; the
/// month and day parts are read as unsigned decimal numbers.
pub open spec fn day_of_year_spec(s: Seq<char>) -> Result<u32, DateError> {
    let parts = split_on(s, '-');
    if parts.len() != 3 {
        Err(DateError::Format)
    } else {
        match parse_unsigned(parts[1], u32::MAX as nat) {
            None => Err(DateError::BadMonth),
            Some(m) => match parse_unsigned(parts[2], u32::MAX as nat) {
                None => Err(DateError::BadDay),
                Some(d) => if !(1 <= m <= 12) {
                    Err(DateError::MonthOutOfRange)
                } else if d == 0 || d > last_day(m) {
                    Err(DateError::DayOutOfRange)
                } else {
                    Ok(ordinal(m, d) as u32)
                },
            },
        }
    }
}

/// Day of the year (1–365) of a `YYYY-MM-DD` date. 29 February is treated
/// as day 59 (28 February) and later days are not shifted, so the result
/// always falls in 1–365.
pub fn day_of_year(date: &str) -> (r: Result<u32, DateError>)
    ensures
        r == day_of_year_spec(date@),
        r matches Ok(d) ==> 1 <= d <= 365,
{
    let chars = chars_of(date);
    let parts = split_chars(&chars, '-');
    if parts.len() != 3 {
        return Err(DateError::Format);
    }
    assert(parts[1]@ == views(parts@)[1]);
    assert(parts[2]@ == views(parts@)[2]);
    let month = match parse_unsigned_exec(parts[1].as_slice(), 0xffff_ffffu64) {
        Some(m) => m,
        None => {
            return Err(DateError::BadMonth);
        },
    };
    let day = match parse_unsigned_exec(parts[2].as_slice(), 0xffff_ffffu64) {
        Some(d) => d,
        None => {
            return Err(DateError::BadDay);
        },
    };
    if !(1 <= month && month <= 12) {
        return Err(DateError::MonthOutOfRange);
    }
    let cum: [u64; 12] = [0, 31, 59, 90, 120, 151, 181, 212, 243, 273, 304, 334];
    let max_day: [u64; 12] = [31, 29, 31, 30, 31, 30, 31, 31, 30, 31, 30, 31];
    let mi = (month - 1) as usize;
    assert(cum@ =~= seq![0u64, 31, 59, 90, 120, 151, 181, 212, 243, 273, 304, 334]);
    assert(max_day@ =~= seq![31u64, 29, 31, 30, 31, 30, 31, 31, 30, 31, 30, 31]);
    assert(cum@[mi as int] == days_before(month as nat));
    assert(max_day@[mi as int] == last_day(month as nat));
    if day == 0 || day > max_day[mi] {
        return Err(DateError::DayOutOfRange);
    }
    let within = if month == 2 && day > 28 {
        28
    } else {
        day
    };
    let doy = cum[mi] + within;
    assert(doy == ordinal(month as nat, day as nat));
    assert(1 <= doy <= 365);
    Ok(doy as u32)
}

/// Every calendar date other than 29 February has its own day of the year,
/// and the days follow the calendar: a later date never has a smaller day,
/// and a strictly later one (29 February aside) a strictly larger day.
pub proof fn ordinal_follows_calendar(m1: nat, d1: nat, m2: nat, d2: nat)
    requires
        is_calendar_date(m1, d1),
        is_calendar_date(m2, d2),
        m1 < m2 || (m1 == m2 && d1 <= d2),
    ensures
        1 <= ordinal(m1, d1) <= ordinal(m2, d2) <= 365,
        !(m1 == 2 && d1 == 29) && !(m2 == 2 && d2 == 29) && (m1 != m2 || d1 != d2) ==> ordinal(
            m1,
            d1,
        ) < ordinal(m2, d2),
{
}

/// Length of month `m` (`1..=12`) in a 365-day year.
pub open spec fn month_length(m: nat) -> nat {
    if m == 2 {
        28
    } else if m == 4 || m == 6 || m == 9 || m == 11 {
        30
    } else {
        31
    }
}

/// Days of the whole months before month `m` in a 365-day year: the sum of
/// the lengths of months `1..m`.
pub open spec fn days_in_months_before(m: nat) -> nat
    decreases m,
{
    if m <= 1 {
        0
    } else {
        days_in_months_before((m - 1) as nat) + month_length((m - 1) as nat)
    }
}

/// The days before a month are the days of the whole months before it, and
/// the months add up to a 365-day year.
pub proof fn days_before_counts_whole_months(m: nat)
    requires
        1 <= m <= 12,
    ensures
        days_before(m) == days_in_months_before(m),
        days_in_months_before(12) + month_length(12) == 365,
{
    reveal_with_fuel(days_in_months_before, 13);
}

/// A date is accepted exactly when it has three `-`-separated parts whose
/// month is in 1–12 and whose day is a day of that month (29 days for
/// February), and its day of the year is then the days of the whole months
/// before it plus its day in the month, 29 February counting as 28 February.
pub proof fn day_of_year_counts_days(s: Seq<char>)
    ensures
        ({
            let parts = split_on(s, '-');
            let m = parse_unsigned(parts[1], u32::MAX as nat);
            let d = parse_unsigned(parts[2], u32::MAX as nat);
            day_of_year_spec(s) is Ok <==> (parts.len() == 3 && m is Some && d is Some && 1 <= m->0
                <= 12 && 1 <= d->0 <= (if m->0 == 2 {
                29
            } else {
                month_length(m->0)
            }))
        }),
        day_of_year_spec(s) matches Ok(doy) ==> {
            let parts = split_on(s, '-');
            let m = parse_unsigned(parts[1], u32::MAX as nat)->0;
            let d = parse_unsigned(parts[2], u32::MAX as nat)->0;
            doy == days_in_months_before(m) + (if m == 2 && d == 29 {
                28
            } else {
                d
            })
        },
{
    let parts = split_on(s, '-');
    if parts.len() == 3 {
        if let Some(m) = parse_unsigned(parts[1], u32::MAX as nat) {
            if 1 <= m <= 12 {
                days_before_counts_whole_months(m);
            }
        }
    }
}

} // verus!
