use chrono::{NaiveDate, NaiveDateTime, NaiveTime};
use fim::timestamp::{decimal_string, format_timestamp};

fn chrono_text(year: i32, month: u32, day: u32, h: u32, m: u32, s: u32, nano: u32) -> String {
    let date = NaiveDate::from_ymd_opt(year, month, day).unwrap();
    let time = NaiveTime::from_hms_nano_opt(h, m, s, nano).unwrap();
    NaiveDateTime::new(date, time).format("%d:%m:%Y %H:%M:%S").to_string()
}

#[test]
fn timestamp_of_an_ordinary_day() {
    assert_eq!(format_timestamp(1, 2, 2024, 3, 4, 5), "01:02:2024 03:04:05");
    assert_eq!(format_timestamp(31, 12, 1999, 23, 59, 59), "31:12:1999 23:59:59");
}

#[test]
fn timestamp_years_outside_four_digits() {
    assert_eq!(format_timestamp(1, 1, 7, 0, 0, 0), "01:01:0007 00:00:00");
    assert_eq!(format_timestamp(1, 1, 12345, 0, 0, 0), "01:01:+12345 00:00:00");
    assert_eq!(format_timestamp(1, 1, -5, 0, 0, 0), "01:01:-0005 00:00:00");
    assert_eq!(format_timestamp(1, 1, i32::MIN, 0, 0, 0), "01:01:-2147483648 00:00:00");
}

#[test]
fn timestamp_agrees_with_chrono() {
    let cases = [
        (2024, 2, 29, 13, 7, 9, 0),
        (1, 1, 1, 0, 0, 0, 0),
        (999, 6, 15, 12, 30, 45, 0),
        (10000, 3, 1, 1, 2, 3, 0),
        (-44, 3, 15, 11, 0, 0, 0),
        (2016, 12, 31, 23, 59, 59, 1_500_000_000),
    ];
    for (y, mo, d, h, mi, s, nano) in cases {
        let second = s + nano / 1_000_000_000;
        assert_eq!(
            format_timestamp(d as u8, mo as u8, y, h as u8, mi as u8, second as u8),
            chrono_text(y, mo, d, h, mi, s, nano)
        );
    }
}

#[test]
fn decimal_digits() {
    assert_eq!(decimal_string(0), "0");
    assert_eq!(decimal_string(9), "9");
    assert_eq!(decimal_string(10), "10");
    assert_eq!(decimal_string(18446744073709551615), "18446744073709551615");
}
