use kotoma::clock::LocalTime;

#[test]
fn four_digit_years_are_zero_padded() {
    let t = LocalTime::new(987, 1, 2, 3, 4, 5).expect("valid");
    assert_eq!(t.format("%Y-%m-%d %H:%M:%S"), "0987-01-02 03:04:05");
    assert_eq!(t.format("%H:%M"), "03:04");
}

#[test]
fn years_before_zero_carry_a_sign() {
    let t = LocalTime::new(-5, 12, 31, 23, 59, 58).expect("valid");
    assert_eq!(t.format("%Y-%m-%d %H:%M"), "-0005-12-31 23:59");
}

#[test]
fn years_past_9999_carry_a_sign() {
    let t = LocalTime::new(12345, 6, 7, 8, 9, 10).expect("valid");
    assert_eq!(t.format("%Y-%m-%d %H:%M:%S"), "+12345-06-07 08:09:10");
}

#[test]
fn impossible_dates_are_refused() {
    assert!(LocalTime::new(2023, 2, 29, 0, 0, 0).is_none());
    assert!(LocalTime::new(2024, 2, 29, 0, 0, 0).is_some());
    assert!(LocalTime::new(2024, 4, 31, 0, 0, 0).is_none());
    assert!(LocalTime::new(2024, 1, 1, 24, 0, 0).is_none());
}

#[test]
fn year_range_matches_the_calendar_library() {
    let t = LocalTime::new(-262143, 1, 1, 0, 0, 0).expect("earliest year");
    assert_eq!(t.format("%Y-%m-%d %H:%M"), "-262143-01-01 00:00");
    let t = LocalTime::new(262142, 12, 31, 23, 59, 59).expect("latest year");
    assert_eq!(t.format("%Y-%m-%d %H:%M:%S"), "+262142-12-31 23:59:59");
    assert!(LocalTime::new(-262144, 1, 1, 0, 0, 0).is_none());
    assert!(LocalTime::new(262143, 1, 1, 0, 0, 0).is_none());
}
