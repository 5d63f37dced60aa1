use todos_extension::date::Date;

#[test]
fn from_ymd_takes_days_of_the_calendar() {
    let d = Date::from_ymd(2024, 2, 29).unwrap();
    assert_eq!((d.year, d.month, d.day), (2024, 2, 29));
    assert!(Date::from_ymd(2000, 2, 29).is_some());
    assert!(Date::from_ymd(0, 1, 1).is_some());
    assert!(Date::from_ymd(9999, 12, 31).is_some());
}

#[test]
fn from_ymd_refuses_days_that_do_not_exist() {
    assert_eq!(Date::from_ymd(2023, 2, 29), None);
    assert_eq!(Date::from_ymd(1900, 2, 29), None);
    assert_eq!(Date::from_ymd(2023, 4, 31), None);
    assert_eq!(Date::from_ymd(2023, 0, 10), None);
    assert_eq!(Date::from_ymd(2023, 13, 10), None);
    assert_eq!(Date::from_ymd(2023, 1, 0), None);
    assert_eq!(Date::from_ymd(2023, 1, 32), None);
}

#[test]
fn from_ymd_refuses_years_that_four_digits_cannot_hold() {
    assert_eq!(Date::from_ymd(-1, 1, 1), None);
    assert_eq!(Date::from_ymd(10000, 1, 1), None);
}

#[test]
fn to_text_pads_with_zeros() {
    assert_eq!(Date::from_ymd(2024, 1, 5).unwrap().to_text(), "2024-01-05");
    assert_eq!(Date::from_ymd(987, 11, 30).unwrap().to_text(), "0987-11-30");
    assert_eq!(Date::from_ymd(0, 1, 1).unwrap().to_text(), "0000-01-01");
    assert_eq!(Date::from_ymd(9999, 12, 31).unwrap().to_text(), "9999-12-31");
}

#[test]
fn tomorrow_steps_over_the_end_of_month_and_year() {
    let day = |y, m, d| Date::from_ymd(y, m, d).unwrap();
    assert_eq!(day(2024, 1, 5).tomorrow(), Some(day(2024, 1, 6)));
    assert_eq!(day(2024, 1, 31).tomorrow(), Some(day(2024, 2, 1)));
    assert_eq!(day(2024, 2, 28).tomorrow(), Some(day(2024, 2, 29)));
    assert_eq!(day(2023, 2, 28).tomorrow(), Some(day(2023, 3, 1)));
    assert_eq!(day(2024, 12, 31).tomorrow(), Some(day(2025, 1, 1)));
}

#[test]
fn tomorrow_ends_with_the_year_9999() {
    assert_eq!(Date::from_ymd(9999, 12, 31).unwrap().tomorrow(), None);
    assert_eq!(
        Date::from_ymd(9999, 12, 30).unwrap().tomorrow(),
        Date::from_ymd(9999, 12, 31)
    );
}

#[test]
fn precedes_orders_by_year_month_day() {
    let day = |y, m, d| Date::from_ymd(y, m, d).unwrap();
    assert!(day(2023, 12, 31).precedes(&day(2024, 1, 1)));
    assert!(day(2024, 1, 31).precedes(&day(2024, 2, 1)));
    assert!(day(2024, 2, 1).precedes(&day(2024, 2, 2)));
    assert!(!day(2024, 2, 2).precedes(&day(2024, 2, 2)));
    assert!(!day(2024, 2, 3).precedes(&day(2024, 2, 2)));
}

#[test]
fn every_day_of_a_leap_year_is_followed_by_the_next() {
    let mut day = Date::from_ymd(2024, 1, 1).unwrap();
    let mut count = 1;
    while let Some(next) = day.tomorrow() {
        if next.year != 2024 {
            break;
        }
        assert!(day.precedes(&next));
        day = next;
        count += 1;
    }
    assert_eq!(count, 366);
    assert_eq!(day, Date::from_ymd(2024, 12, 31).unwrap());
}
