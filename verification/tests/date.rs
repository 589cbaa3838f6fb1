use snowmelt::coupling;
use snowmelt::date::{day_of_year, DateError};

#[test]
fn day_of_year_handles_boundaries_and_leap() {
    assert_eq!(day_of_year("2025-01-01").unwrap(), 1);
    assert_eq!(day_of_year("2025-12-31").unwrap(), 365);
    assert_eq!(day_of_year("2025-06-21").unwrap(), 172);
    assert_eq!(day_of_year("2024-02-29").unwrap(), 59);
    assert!(day_of_year("2025-13-01").is_err());
    assert!(day_of_year("2025-02-30").is_err());
    assert!(day_of_year("no-fecha").is_err());
}

#[test]
fn day_of_year_reports_each_fault() {
    assert_eq!(day_of_year("no-fecha"), Err(DateError::Format));
    assert_eq!(day_of_year("2025-06-21-x"), Err(DateError::Format));
    assert_eq!(day_of_year("2025-jun-21"), Err(DateError::BadMonth));
    assert_eq!(day_of_year("2025--21"), Err(DateError::BadMonth));
    assert_eq!(day_of_year("2025-06-"), Err(DateError::BadDay));
    assert_eq!(day_of_year("2025-06-99999999999"), Err(DateError::BadDay));
    assert_eq!(day_of_year("2025-13-01"), Err(DateError::MonthOutOfRange));
    assert_eq!(day_of_year("2025-00-01"), Err(DateError::MonthOutOfRange));
    assert_eq!(day_of_year("2025-02-30"), Err(DateError::DayOutOfRange));
    assert_eq!(day_of_year("2025-04-31"), Err(DateError::DayOutOfRange));
    assert_eq!(day_of_year("2025-04-00"), Err(DateError::DayOutOfRange));
}

#[test]
fn day_of_year_reads_numbers_as_std_does() {
    // an optional leading `+`, leading zeros, and the year is never read
    assert_eq!(day_of_year("2025-+03-+05"), Ok(64));
    assert_eq!(day_of_year("-0003-0005"), Ok(64));
    assert_eq!(day_of_year("x-3-5"), Ok(64));
    assert_eq!(day_of_year("2025-+-5"), Err(DateError::BadMonth));
}

#[test]
fn day_of_year_follows_the_calendar() {
    assert_eq!(day_of_year("2025-01-31"), Ok(31));
    assert_eq!(day_of_year("2025-02-01"), Ok(32));
    assert_eq!(day_of_year("2025-02-28"), Ok(59));
    assert_eq!(day_of_year("2024-02-29"), Ok(59));
    assert_eq!(day_of_year("2025-03-01"), Ok(60));
    let mut prev = 0;
    for (m, last) in [31, 28, 31, 30, 31, 30, 31, 31, 30, 31, 30, 31].iter().enumerate() {
        for d in 1..=*last {
            let doy = day_of_year(&format!("2025-{:02}-{:02}", m + 1, d)).unwrap();
            assert_eq!(doy, prev + 1);
            prev = doy;
        }
    }
    assert_eq!(prev, 365);
}

#[test]
fn coupling_day_of_year_is_lenient() {
    assert_eq!(coupling::day_of_year("2025-06-21"), 172);
    assert_eq!(coupling::day_of_year("2025-12-31"), 365);
    // the day is not checked against the month, and the sum is capped
    assert_eq!(coupling::day_of_year("2025-02-30"), 61);
    assert_eq!(coupling::day_of_year("2025-12-40"), 365);
    // parts after the third are ignored
    assert_eq!(coupling::day_of_year("2025-01-10-extra"), 10);
}
