use wine_cellar::clock::{checked_date, now, parse_date, CalendarDate, TimeOfDay, Timestamp};
use wine_cellar::error::ErrorKind;

fn at(year: i32, month: u32, day: u32, hour: u32, minute: u32, second: u32, nano: u32) -> Timestamp {
    Timestamp {
        date: CalendarDate::new(year, month, day).unwrap(),
        time: TimeOfDay::new(hour, minute, second, nano).unwrap(),
    }
}

#[test]
fn dates_that_exist_are_accepted() {
    assert_eq!(CalendarDate::new(2024, 2, 29), Some(CalendarDate { year: 2024, month: 2, day: 29 }));
    assert_eq!(CalendarDate::new(2000, 2, 29), Some(CalendarDate { year: 2000, month: 2, day: 29 }));
    assert_eq!(CalendarDate::new(2023, 12, 31), Some(CalendarDate { year: 2023, month: 12, day: 31 }));
    assert_eq!(CalendarDate::new(-4, 2, 29), Some(CalendarDate { year: -4, month: 2, day: 29 }));
    assert_eq!(CalendarDate::new(2023, 4, 30), Some(CalendarDate { year: 2023, month: 4, day: 30 }));
}

#[test]
fn dates_that_do_not_exist_are_refused() {
    assert_eq!(CalendarDate::new(2023, 2, 29), None);
    assert_eq!(CalendarDate::new(1900, 2, 29), None);
    assert_eq!(CalendarDate::new(2023, 4, 31), None);
    assert_eq!(CalendarDate::new(2023, 0, 1), None);
    assert_eq!(CalendarDate::new(2023, 13, 1), None);
    assert_eq!(CalendarDate::new(2023, 1, 0), None);
    assert_eq!(CalendarDate::new(2023, 1, 32), None);
    assert_eq!(CalendarDate::new(-1, 2, 29), None);
}

#[test]
fn times_of_day_are_checked_field_by_field() {
    assert!(TimeOfDay::new(23, 59, 59, 1_999_999_999).is_some());
    assert!(TimeOfDay::new(0, 0, 0, 0).is_some());
    assert_eq!(TimeOfDay::new(24, 0, 0, 0), None);
    assert_eq!(TimeOfDay::new(0, 60, 0, 0), None);
    assert_eq!(TimeOfDay::new(0, 0, 60, 0), None);
    assert_eq!(TimeOfDay::new(0, 0, 0, 2_000_000_000), None);
}

#[test]
fn the_first_differing_field_decides_the_order() {
    let base = at(2024, 6, 15, 10, 30, 20, 500);
    assert!(!base.precedes(&base));
    assert!(at(2023, 12, 31, 23, 59, 59, 999).precedes(&base));
    assert!(base.precedes(&at(2024, 7, 1, 0, 0, 0, 0)));
    assert!(base.precedes(&at(2024, 6, 16, 0, 0, 0, 0)));
    assert!(base.precedes(&at(2024, 6, 15, 11, 0, 0, 0)));
    assert!(base.precedes(&at(2024, 6, 15, 10, 31, 0, 0)));
    assert!(base.precedes(&at(2024, 6, 15, 10, 30, 21, 0)));
    assert!(base.precedes(&at(2024, 6, 15, 10, 30, 20, 501)));
    assert!(!at(2024, 6, 15, 10, 30, 20, 501).precedes(&base));
    assert!(!at(2025, 1, 1, 0, 0, 0, 0).precedes(&base));
}

#[test]
fn composing_takes_the_date_from_the_user_and_the_time_from_the_server() {
    let date = CalendarDate::new(2024, 1, 1).unwrap();
    let server = at(2031, 5, 6, 7, 8, 9, 10);
    let stamp = Timestamp::compose(date, server);
    assert_eq!(stamp.date, date);
    assert_eq!(stamp.time, server.time);
}

#[test]
fn a_date_in_writing_is_read() {
    assert_eq!(parse_date("2024-01-01").unwrap(), CalendarDate { year: 2024, month: 1, day: 1 });
    assert_eq!(parse_date("2015-09-05").unwrap(), CalendarDate { year: 2015, month: 9, day: 5 });
    assert_eq!(parse_date("2024-02-29").unwrap(), CalendarDate { year: 2024, month: 2, day: 29 });
}

#[test]
fn what_is_no_date_is_invalid_input() {
    for text in ["", "yesterday", "2024-13-01", "2023-02-29", "2024/01/01", "2024-01"] {
        let e = parse_date(text).unwrap_err();
        assert_eq!(e.kind, ErrorKind::InvalidInput);
        assert_eq!(e.message, "bad date format");
        assert_eq!(e.status_code(), 400);
    }
}

#[test]
fn the_answer_of_the_parser_is_handed_on() {
    let date = CalendarDate::new(2020, 5, 17).unwrap();
    assert_eq!(checked_date(Some(date)).unwrap(), date);
    let e = checked_date(None).unwrap_err();
    assert_eq!(e.kind, ErrorKind::InvalidInput);
    assert_eq!(e.message, "bad date format");
}

#[test]
fn the_clock_gives_a_valid_moment() {
    let t = now();
    assert!(CalendarDate::new(t.date.year, t.date.month, t.date.day).is_some());
    assert!(TimeOfDay::new(t.time.hour, t.time.minute, t.time.second, t.time.nano).is_some());
    assert!(t.date.year >= 2024);
}
