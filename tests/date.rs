use chrono::{Datelike, NaiveDate, Weekday};
use track::date::Date;

fn date_of(d: &NaiveDate) -> Date {
    Date::from_ymd(d.year(), d.month(), d.day()).unwrap()
}

#[test]
fn monday_and_sunday_of_a_thursday() {
    let thursday = Date::parse("2023-02-16").unwrap();
    assert_eq!(thursday.monday_of_week(), Date::parse("2023-02-13").unwrap());
    assert_eq!(thursday.sunday_of_week(), Date::parse("2023-02-19").unwrap());
}

#[test]
fn week_bounds_fall_on_monday_and_sunday() {
    let mut d = NaiveDate::from_ymd_opt(1999, 12, 20).unwrap();
    for _ in 0..40 {
        let date = date_of(&d);
        let monday = date.monday_of_week();
        let sunday = date.sunday_of_week();
        let m = NaiveDate::from_num_days_from_ce_opt(monday.day as i32).unwrap();
        let s = NaiveDate::from_num_days_from_ce_opt(sunday.day as i32).unwrap();
        assert_eq!(m.weekday(), Weekday::Mon);
        assert_eq!(s.weekday(), Weekday::Sun);
        assert_eq!(sunday.day - monday.day, 6);
        assert!(monday.day <= date.day && date.day <= sunday.day);
        assert_eq!(date.weekday_from_monday(), d.weekday().num_days_from_monday() as i64);
        d = d.succ_opt().unwrap();
    }
}

#[test]
fn sunday_is_its_own_week_end() {
    let sunday = Date::parse("2023-02-19").unwrap();
    assert_eq!(sunday.sunday_of_week(), sunday);
    assert_eq!(sunday.weekday_from_monday(), 6);
}

#[test]
fn weeks_before_the_common_era() {
    let d = date_of(&NaiveDate::from_ymd_opt(-3, 7, 1).unwrap());
    let n = NaiveDate::from_ymd_opt(-3, 7, 1).unwrap();
    assert_eq!(d.weekday_from_monday(), n.weekday().num_days_from_monday() as i64);
    assert_eq!(Date { day: 1 }.weekday_from_monday(), 0);
    assert_eq!(Date { day: 0 }.weekday_from_monday(), 6);
    assert_eq!(Date { day: -6 }.weekday_from_monday(), 0);
}

#[test]
fn parse_reads_the_day_number() {
    assert_eq!(Date::parse("0001-01-01"), Some(Date { day: 1 }));
    assert_eq!(Date::parse("2022-01-01"), Some(Date { day: 738156 }));
    assert_eq!(Date::parse("2022-02-30"), None);
    assert_eq!(Date::parse("01.01.2022"), None);
    assert_eq!(Date::from_ymd(1999, 9, 3), Some(Date { day: 730000 }));
    assert_eq!(Date::from_ymd(2015, 2, 29), None);
}

#[test]
fn adding_days() {
    let d = Date::parse("2022-01-01").unwrap();
    assert_eq!(d.checked_add_days(-7), Date::parse("2021-12-25"));
    assert_eq!(Date { day: i64::MAX }.checked_add_days(1), None);
}

#[test]
fn weeks_at_the_ends_of_the_range() {
    let high = Date { day: track::date::HIGHEST_DAY };
    let sunday = high.sunday_of_week();
    let monday = high.monday_of_week();
    assert_eq!(sunday.day - monday.day, 6);
    assert!(sunday.day >= high.day);
    let low = Date { day: track::date::LOWEST_DAY };
    let monday = low.monday_of_week();
    let sunday = low.sunday_of_week();
    assert_eq!(sunday.day - monday.day, 6);
    assert!(monday.day <= low.day);
}
