use lib::utc::format_utc;

#[test]
fn leap_days_and_year_ends() {
    // 2000-02-29 (a leap century) and 1900 is not a leap year
    assert_eq!(format_utc(951_782_400), "2000-02-29_00-00-00");
    assert_eq!(format_utc(951_868_799), "2000-02-29_23-59-59");
    assert_eq!(format_utc(-2_203_891_200), "1900-03-01_00-00-00");
    assert_eq!(format_utc(946_684_799), "1999-12-31_23-59-59");
}

#[test]
fn before_the_epoch() {
    assert_eq!(format_utc(-1), "1969-12-31_23-59-59");
    assert_eq!(format_utc(-86_400), "1969-12-31_00-00-00");
    assert_eq!(format_utc(-62_167_219_200), "0000-01-01_00-00-00");
    assert_eq!(format_utc(-62_167_219_201), "-001-12-31_23-59-59");
}

#[test]
fn far_future() {
    assert_eq!(format_utc(253_402_300_800), "10000-01-01_00-00-00");
    // the extremes of the input range still format
    assert!(format_utc(i64::MAX).len() > 19);
    assert!(format_utc(i64::MIN).starts_with('-'));
}
