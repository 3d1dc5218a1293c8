use trabant::calendar::CalendarDate;
use trabant::eop::{date_to_mjd, mjd_to_date, MAX_MJD, MIN_MJD};

fn date(year: i32, month: u32, day: u32) -> CalendarDate {
    CalendarDate::new(year, month, day).unwrap()
}

#[test]
fn test_date_mjd_conversion() {
    let d = date(2020, 1, 1);
    let mjd = date_to_mjd(d);
    let converted_back = mjd_to_date(mjd);
    assert_eq!(d, converted_back);
}

#[test]
fn mjd_of_known_dates() {
    assert_eq!(date_to_mjd(date(1858, 11, 17)), 0);
    assert_eq!(date_to_mjd(date(2020, 1, 1)), 58849);
    assert_eq!(date_to_mjd(date(2000, 1, 1)), 51544);
    assert_eq!(date_to_mjd(date(1858, 11, 16)), -1);
}

#[test]
fn date_of_known_mjds() {
    assert_eq!(mjd_to_date(0), date(1858, 11, 17));
    assert_eq!(mjd_to_date(59000), date(2020, 5, 31));
    assert_eq!(mjd_to_date(-1), date(1858, 11, 16));
}

#[test]
fn calendar_rules() {
    assert!(CalendarDate::new(2023, 4, 31).is_none());
    assert!(CalendarDate::new(2015, 0, 14).is_none());
    assert!(CalendarDate::new(2015, 13, 1).is_none());
    assert!(CalendarDate::new(2015, 2, 29).is_none());
    assert!(CalendarDate::new(1900, 2, 29).is_none());
    assert!(CalendarDate::new(2000, 2, 29).is_some());
    assert!(CalendarDate::new(-4, 2, 29).is_some());
    assert!(CalendarDate::new(400000, 1, 1).is_none());
    assert!(CalendarDate::new(-400000, 1, 1).is_none());
    let d = date(2024, 2, 29);
    assert_eq!((d.year(), d.month(), d.day()), (2024, 2, 29));
}

#[test]
fn range_ends_round_trip() {
    assert_eq!(mjd_to_date(MIN_MJD), date(-262143, 1, 1));
    assert_eq!(mjd_to_date(MAX_MJD), date(262142, 12, 31));
    assert_eq!(date_to_mjd(date(-262143, 1, 1)), MIN_MJD);
    assert_eq!(date_to_mjd(date(262142, 12, 31)), MAX_MJD);
}

#[test]
fn leap_day_counts() {
    assert_eq!(date_to_mjd(date(2000, 3, 1)) - date_to_mjd(date(2000, 2, 28)), 2);
    assert_eq!(date_to_mjd(date(1900, 3, 1)) - date_to_mjd(date(1900, 2, 28)), 1);
    assert_eq!(date_to_mjd(date(2001, 1, 1)) - date_to_mjd(date(2000, 1, 1)), 366);
}
