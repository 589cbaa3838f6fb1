//! Day of the year as the rainfall–runoff coupling reads its forcing dates:
//! a lenient reading that trusts the dates of a series already checked.
use vstd::prelude::*;

use crate::date::{
    day_of_year_spec, days_before, days_before_counts_whole_months, days_in_months_before,
};
use crate::text::{chars_of, parse_unsigned, parse_unsigned_exec, split_chars, split_on, views};

verus! {

/// Whether the coupling can read `s`: at least three `-`-separated parts,
/// a month in `1..=12` and a day that are unsigned 32-bit numbers, and a
/// sum of days that fits in 32 bits.
pub open spec fn readable_date(s: Seq<char>) -> bool {
    let parts = split_on(s, '-');
    &&& parts.len() >= 3
    &&& parse_unsigned(parts[1], u32::MAX as nat) matches Some(m) && 1 <= m <= 12
    &&& parse_unsigned(parts[2], u32::MAX as nat) matches Some(d) && days_before(
        parse_unsigned(parts[1], u32::MAX as nat)->0,
    ) + d <= u32::MAX
}

/// The day the coupling assigns to a readable date: days before the month
/// plus the day, capped at 365 (the day is not checked against the month).
pub open spec fn coupling_day(s: Seq<char>) -> nat {
    let parts = split_on(s, '-');
    let m = parse_unsigned(parts[1], u32::MAX as nat)->0;
    let d = parse_unsigned(parts[2], u32::MAX as nat)->0;
    if days_before(m) + d <= 365 {
        days_before(m) + d
    } else {
        365
    }
}

/// Day of the year of a `YYYY-MM-DD` date as the coupling computes it:
/// days before the month plus the day, capped at 365. Parts after the
/// third are ignored.
pub fn day_of_year(date: &str) -> (r: u32)
    requires
        readable_date(date@),
    ensures
        r == coupling_day(date@),
        r <= 365,
{
    let chars = chars_of(date);
    let p = split_chars(&chars, '-');
    assert(p[1]@ == views(p@)[1]);
    assert(p[2]@ == views(p@)[2]);
    let m = parse_unsigned_exec(p[1].as_slice(), 0xffff_ffffu64).unwrap();
    let d = parse_unsigned_exec(p[2].as_slice(), 0xffff_ffffu64).unwrap();
    let cum: [u64; 12] = [0, 31, 59, 90, 120, 151, 181, 212, 243, 273, 304, 334];
    assert(cum@ =~= seq![0u64, 31, 59, 90, 120, 151, 181, 212, 243, 273, 304, 334]);
    let mi = (m - 1) as usize;
    assert(cum@[mi as int] == days_before(m as nat));
    let total = cum[mi] + d;
    if total <= 365 {
        total as u32
    } else {
        365
    }
}

/// The coupling's day of a readable date is the days of the whole months
/// before its month plus its day, capped at 365.
pub proof fn coupling_day_counts_days(s: Seq<char>)
    requires
        readable_date(s),
    ensures
        ({
            let parts = split_on(s, '-');
            let m = parse_unsigned(parts[1], u32::MAX as nat)->0;
            let d = parse_unsigned(parts[2], u32::MAX as nat)->0;
            coupling_day(s) == if days_in_months_before(m) + d <= 365 {
                days_in_months_before(m) + d
            } else {
                365
            }
        }),
{
    let parts = split_on(s, '-');
    days_before_counts_whole_months(parse_unsigned(parts[1], u32::MAX as nat)->0);
}

/// On every date the command line accepts, other than 29 February, the
/// coupling can read it and gives it the same day of the year.
pub proof fn coupling_agrees_with_day_of_year(s: Seq<char>)
    requires
        day_of_year_spec(s) is Ok,
        !({
            let parts = split_on(s, '-');
            parse_unsigned(parts[1], u32::MAX as nat) == Some(2nat) && parse_unsigned(
                parts[2],
                u32::MAX as nat,
            ) == Some(29nat)
        }),
    ensures
        readable_date(s),
        day_of_year_spec(s) matches Ok(doy) && coupling_day(s) == doy,
{
    let parts = split_on(s, '-');
    days_before_counts_whole_months(parse_unsigned(parts[1], u32::MAX as nat)->0);
}

} // verus!
