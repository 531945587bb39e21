use desk::datetime::{
    advance_one_second, can_update, days_in_month, get, init, is_leap_year, parse, parse_number,
    save, update, Clock, Datetime,
};
use desk::decimal::{append_unsigned, digit_count, push_digits};

fn dt(year: u16, month: u8, day: u8, hour: u8, minute: u8, second: u8) -> Datetime {
    Datetime { year, month, day, hour, minute, second }
}

#[test]
fn leap_years() {
    assert!(is_leap_year(2024));
    assert!(!is_leap_year(2023));
    assert!(!is_leap_year(1900));
    assert!(is_leap_year(2000));
}

#[test]
fn month_lengths() {
    assert_eq!(days_in_month(2024, 2), 29);
    assert_eq!(days_in_month(2023, 2), 28);
    assert_eq!(days_in_month(2023, 4), 30);
    assert_eq!(days_in_month(2023, 12), 31);
    assert_eq!(days_in_month(2023, 0), 0);
    assert_eq!(days_in_month(2023, 13), 0);
}

#[test]
fn format_pads_fields() {
    let text = desk::datetime::format(&dt(2026, 8, 5, 7, 3, 9));
    assert_eq!(text.len(), 20);
    assert_eq!(&text[..19], b"2026-08-05 07:03:09");
    assert_eq!(text[19], 0);
}

#[test]
fn parse_full_and_date_only() {
    assert_eq!(parse(b"2025-02-28 23:59:58", false), Some(dt(2025, 2, 28, 23, 59, 58)));
    assert_eq!(parse(b"2024-02-29", true), Some(dt(2024, 2, 29, 0, 0, 0)));
}

#[test]
fn parse_rejects_bad_text() {
    assert_eq!(parse(b"2023-02-29", true), None);
    assert_eq!(parse(b"1979-12-31", true), None);
    assert_eq!(parse(b"2024-13-01", true), None);
    assert_eq!(parse(b"2024-01-00", true), None);
    assert_eq!(parse(b"2024-01-01 24:00:00", false), None);
    assert_eq!(parse(b"2024-01-01 12:60:00", false), None);
    assert_eq!(parse(b"2024-01-01T12:00:00", false), None);
    assert_eq!(parse(b"2024/01/01", true), None);
    assert_eq!(parse(b"2024-01-01", false), None);
    assert_eq!(parse(b"2024-0a-01", true), None);
}

#[test]
fn parse_number_reads_digits() {
    assert_eq!(parse_number(b"x1234", 1, 4), Some(1234));
    assert_eq!(parse_number(b"12", 1, 2), None);
    assert_eq!(parse_number(b"1-", 0, 2), None);
}

#[test]
fn format_then_parse_round_trip() {
    let d = dt(1999, 12, 31, 23, 59, 59);
    let text = desk::datetime::format(&d);
    assert_eq!(parse(&text[..19], false), Some(d));
}

#[test]
fn second_carries_through_new_year() {
    let mut d = dt(1999, 12, 31, 23, 59, 59);
    advance_one_second(&mut d);
    assert_eq!(d, dt(2000, 1, 1, 0, 0, 0));
    let mut leap = dt(2024, 2, 28, 23, 59, 59);
    advance_one_second(&mut leap);
    assert_eq!(leap, dt(2024, 2, 29, 0, 0, 0));
    let mut minute = dt(2024, 5, 6, 7, 8, 59);
    advance_one_second(&mut minute);
    assert_eq!(minute, dt(2024, 5, 6, 7, 9, 0));
}

#[test]
fn clock_starts_at_default() {
    let c = Clock::new();
    assert_eq!(get(&c), dt(2026, 8, 28, 12, 0, 0));
}

#[test]
fn init_loads_stored_time() {
    let mut c = Clock::new();
    init(&mut c, b"2030-01-02 03:04:05", 7_500);
    assert_eq!(get(&c), dt(2030, 1, 2, 3, 4, 5));
    assert_eq!(c.last_uptime_second, 7);
    let mut d = Clock::new();
    init(&mut d, b"2030-01-02 03:04:5", 0);
    assert_eq!(get(&d), dt(2026, 8, 28, 12, 0, 0));
    init(&mut d, b"2030-02-30 03:04:05", 0);
    assert_eq!(get(&d), dt(2026, 8, 28, 12, 0, 0));
}

#[test]
fn update_advances_by_elapsed_seconds() {
    let mut c = Clock::new();
    init(&mut c, b"2024-12-31 23:59:58", 1_000);
    assert!(can_update(&c, 4_999));
    assert!(update(&mut c, 4_999));
    assert_eq!(get(&c), dt(2025, 1, 1, 0, 0, 1));
    assert!(!update(&mut c, 4_999));
    assert!(!update(&mut c, 100));
}

#[test]
fn set_and_save() {
    let mut c = Clock::new();
    assert!(desk::datetime::set(&mut c, &dt(2027, 3, 4, 5, 6, 7), 9_000));
    assert!(c.save_pending);
    assert_eq!(c.last_uptime_second, 9);
    assert_eq!(save(&mut c), b"2027-03-04 05:06:07".to_vec());
    assert!(!c.save_pending);
}

#[test]
fn decimal_helpers() {
    let mut out = Vec::new();
    append_unsigned(&mut out, 7, 3);
    assert_eq!(out, b"007".to_vec());
    append_unsigned(&mut out, 12345, 2);
    assert_eq!(out, b"00712345".to_vec());
    let mut digits = Vec::new();
    push_digits(&mut digits, 4096);
    assert_eq!(digits, b"4096".to_vec());
    assert_eq!(digit_count(0), 1);
    assert_eq!(digit_count(4_294_967_295), 10);
}
