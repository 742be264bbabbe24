use analytics::time::{create_timestamp, now, NaiveDateTime};

fn text(secs: i64, nanos: u32) -> String {
    analytics::time::format(&NaiveDateTime::from_timestamp_opt(secs, nanos).unwrap())
}

#[test]
fn timestamps_are_formatted() {
    assert_eq!(text(0, 0), "1970-01-01 00:00:00");
    assert_eq!(text(1_441_497_364, 5), "2015-09-05 23:56:04");
    assert_eq!(text(951_782_400, 0), "2000-02-29 00:00:00");
    assert_eq!(text(-1, 0), "1969-12-31 23:59:59");
    assert_eq!(text(-1, 1_000_000_000), "1969-12-31 23:59:60");
}

#[test]
fn years_outside_four_digits_have_a_sign() {
    assert_eq!(text(253_402_300_799, 0), "9999-12-31 23:59:59");
    assert_eq!(text(253_402_300_800, 0), "+10000-01-01 00:00:00");
    assert_eq!(text(-62_167_219_200, 0), "0000-01-01 00:00:00");
    assert_eq!(text(-62_167_219_201, 0), "-0001-12-31 23:59:59");
    let mut t = NaiveDateTime::from_timestamp_opt(0, 0).unwrap();
    t.year = 7;
    assert_eq!(analytics::time::format(&t), "0007-01-01 00:00:00");
}

#[test]
fn fields_of_a_timestamp() {
    let t = NaiveDateTime::from_timestamp_opt(1_441_497_364, 5).unwrap();
    assert_eq!(
        t,
        NaiveDateTime {
            year: 2015,
            month: 9,
            day: 5,
            hour: 23,
            minute: 56,
            second: 4,
            nanosecond: 5,
        }
    );
}

#[test]
fn range_of_timestamps() {
    // The first second of the year -262143 and the last of the year 262142.
    let first: i64 = -8_334_601_228_800;
    let last: i64 = 8_210_266_876_799;
    assert_eq!(text(first, 0), "-262143-01-01 00:00:00");
    assert_eq!(text(last, 0), "+262142-12-31 23:59:59");
    assert!(NaiveDateTime::from_timestamp_opt(first - 1, 0).is_none());
    assert!(NaiveDateTime::from_timestamp_opt(last + 1, 0).is_none());
    assert!(NaiveDateTime::from_timestamp_opt(i64::MAX, 0).is_none());
    assert!(NaiveDateTime::from_timestamp_opt(i64::MIN, 0).is_none());
}

#[test]
fn nanoseconds_of_a_timestamp() {
    assert!(NaiveDateTime::from_timestamp_opt(0, 999_999_999).is_some());
    assert!(NaiveDateTime::from_timestamp_opt(0, 1_000_000_000).is_none());
    assert!(NaiveDateTime::from_timestamp_opt(59, 1_999_999_999).is_some());
    assert!(NaiveDateTime::from_timestamp_opt(59, 2_000_000_000).is_none());
}

#[test]
fn leap_seconds_within_a_minute() {
    let mut t = NaiveDateTime::from_timestamp_opt(1_441_497_364, 0).unwrap();
    t.nanosecond = 1_333_333_333;
    assert!(t.is_valid());
    assert_eq!(analytics::time::format(&t), "2015-09-05 23:56:05");
    t.nanosecond = 2_000_000_000;
    assert!(!t.is_valid());
}

#[test]
fn dates_that_do_not_exist_are_not_valid() {
    let t = NaiveDateTime::from_timestamp_opt(951_782_400, 0).unwrap();
    assert!(t.is_valid());
    assert!(!NaiveDateTime { year: 1900, ..t }.is_valid());
    assert!(NaiveDateTime { year: -4, ..t }.is_valid());
    assert!(!NaiveDateTime { year: -5, ..t }.is_valid());
    assert!(!NaiveDateTime { day: 30, ..t }.is_valid());
    assert!(!NaiveDateTime { month: 4, day: 31, ..t }.is_valid());
    assert!(!NaiveDateTime { month: 13, ..t }.is_valid());
    assert!(!NaiveDateTime { hour: 24, ..t }.is_valid());
    assert!(!NaiveDateTime { minute: 60, ..t }.is_valid());
    assert!(!NaiveDateTime { second: 60, ..t }.is_valid());
    assert!(!NaiveDateTime { year: 262_143, day: 1, ..t }.is_valid());
}

#[test]
fn texts_are_ordered_as_times_and_equal_within_a_second() {
    let times = [-62_167_219_200, -1, 0, 59, 60, 86_399, 86_400, 951_782_400, 253_402_300_799];
    for pair in times.windows(2) {
        assert!(text(pair[0], 999_999_999) < text(pair[1], 0));
        assert_eq!(text(pair[0], 0), text(pair[0], 999_999_999));
    }
}

#[test]
fn texts_can_be_read_back() {
    for secs in [-62_167_219_200, -1, 0, 951_782_400, 1_441_497_364, 253_402_300_799] {
        let told = chrono::NaiveDateTime::parse_from_str(
            &text(secs, 5),
            analytics::time::TIMESTAMP_FORMAT,
        );
        assert_eq!(told.unwrap().and_utc().timestamp(), secs);
    }
}

fn is_plausible(text: &str) -> bool {
    text.len() == 19 && text.starts_with("2") && &text[4..5] == "-" && &text[10..11] == " "
}

#[test]
fn current_time() {
    let before = now();
    let text = create_timestamp();
    let root_text = analytics::create_timestamp();
    let after = now();
    assert!(is_plausible(&text));
    assert!(before.year >= 2024);
    // Texts of this width are ordered as the times are.
    assert!(analytics::time::format(&before) <= text && text <= root_text && root_text <= analytics::time::format(&after));
}
