use blog_generator::date::Date;

#[test]
fn dates_are_checked_against_the_calendar() {
    assert!(Date::from_ymd(2024, 2, 29).is_some());
    assert!(Date::from_ymd(2025, 2, 29).is_none());
    assert!(Date::from_ymd(1900, 2, 29).is_none());
    assert!(Date::from_ymd(2000, 2, 29).is_some());
    assert!(Date::from_ymd(2025, 4, 31).is_none());
    assert!(Date::from_ymd(2025, 13, 1).is_none());
    assert!(Date::from_ymd(2025, 0, 1).is_none());
    assert!(Date::from_ymd(2025, 1, 0).is_none());
    assert!(Date::from_ymd(262143, 1, 1).is_none());
}

#[test]
fn long_format_matches_the_post_template() {
    let d = Date::from_ymd(2025, 1, 15).unwrap();
    assert_eq!(d.long_format(), "January 15, 2025");
    let d = Date::from_ymd(2024, 12, 5).unwrap();
    assert_eq!(d.long_format(), "December 5, 2024");
    let d = Date::from_ymd(5, 7, 4).unwrap();
    assert_eq!(d.long_format(), "July 4, 0005");
    let d = Date::from_ymd(-5, 3, 1).unwrap();
    assert_eq!(d.long_format(), "March 1, -0005");
    let d = Date::from_ymd(10000, 10, 31).unwrap();
    assert_eq!(d.long_format(), "October 31, +10000");
}

#[test]
fn dates_compare_by_year_month_day() {
    let a = Date::from_ymd(2024, 12, 31).unwrap();
    let b = Date::from_ymd(2025, 1, 1).unwrap();
    assert!(a.not_after(&b));
    assert!(!b.not_after(&a));
    assert!(a.not_after(&a));
    assert_eq!((b.year(), b.month(), b.day()), (2025, 1, 1));
}
