use desk::calc::{Calc, CalcMessage};
use desk::calendar::{self, weekday, CalendarApp, CalendarMessage};
use desk::clock::{self, ClockApp, ClockMessage};
use desk::datetime::{get, Clock, Datetime};
use desk::display::DrawOp;

fn keys_calc(c: &mut Calc, keys: &[u8]) {
    for &k in keys {
        assert!(desk::calc::handle_key(c, k));
    }
}

fn texts(ops: &[DrawOp]) -> Vec<Vec<u8>> {
    ops.iter()
        .filter_map(|op| match op {
            DrawOp::Text { text, .. } => Some(text.clone()),
            _ => None,
        })
        .collect()
}

#[test]
fn calc_adds() {
    let mut c = Calc::new();
    keys_calc(&mut c, b"12+30\n");
    assert_eq!(desk::calc::current_text(&c), b"42".to_vec());
    assert_eq!(c.message, CalcMessage::Result);
}

#[test]
fn calc_negative_result() {
    let mut c = Calc::new();
    keys_calc(&mut c, b"5-8=");
    assert_eq!(desk::calc::current_text(&c), b"-3".to_vec());
}

#[test]
fn calc_division_truncates() {
    let mut c = Calc::new();
    keys_calc(&mut c, b"7/2\r");
    assert_eq!(desk::calc::current_text(&c), b"3".to_vec());
    assert_eq!(c.message, CalcMessage::Result);
}

#[test]
fn calc_division_by_zero() {
    let mut c = Calc::new();
    keys_calc(&mut c, b"7/0\n");
    assert_eq!(desk::calc::current_text(&c), b"0".to_vec());
    assert_eq!(c.message, CalcMessage::DivisionByZero);
}

#[test]
fn calc_multiplication_wraps() {
    let mut c = Calc::new();
    keys_calc(&mut c, b"9223372036854775807*2\n");
    assert_eq!(desk::calc::current_text(&c), b"-2".to_vec());
}

#[test]
fn calc_clear_and_ignored_keys() {
    let mut c = Calc::new();
    keys_calc(&mut c, b"+\n5x");
    assert_eq!(desk::calc::current_text(&c), b"5".to_vec());
    assert!(!c.has_left);
    keys_calc(&mut c, b"C");
    assert_eq!(desk::calc::current_text(&c), b"0".to_vec());
    assert_eq!(c.message, CalcMessage::Empty);
}

#[test]
fn calc_input_capped() {
    let mut c = Calc::new();
    for _ in 0..50 {
        assert!(desk::calc::handle_key(&mut c, b'1'));
    }
    assert_eq!(c.input.len(), 39);
}

#[test]
fn calc_draw_lines() {
    let mut c = Calc::new();
    keys_calc(&mut c, b"6*7\n");
    let mut ops = Vec::new();
    desk::calc::draw(&c, 100, 50, &mut ops);
    assert_eq!(
        ops[0],
        DrawOp::Text { x: 120, y: 102, text: b"42".to_vec(), fg: 0xCDD6F4, bg: 0x1E1E2E, size: Some(16) }
    );
    assert_eq!(texts(&ops)[2], b"Result".to_vec());
}

#[test]
fn div_toward_zero_signs() {
    assert_eq!(desk::calc::div_toward_zero(-7, 2), -3);
    assert_eq!(desk::calc::div_toward_zero(7, -2), -3);
    assert_eq!(desk::calc::div_toward_zero(-7, -2), 3);
    assert_eq!(desk::calc::div_toward_zero(i64::MIN, 1), i64::MIN);
}

#[test]
fn clock_sets_time() {
    let mut s = ClockApp::new();
    let mut t = Clock::new();
    assert!(!clock::handle_key(&mut s, &mut t, b'x', 0));
    assert!(clock::handle_key(&mut s, &mut t, b'e', 0));
    assert_eq!(s.message, ClockMessage::EnterDateTime);
    for &k in b"2031-07-04 10:20:30" {
        assert!(clock::handle_key(&mut s, &mut t, k, 0));
    }
    assert!(clock::handle_key(&mut s, &mut t, b'\n', 3_000));
    assert_eq!(s.message, ClockMessage::Saved);
    assert!(!s.editing);
    assert_eq!(get(&t), Datetime { year: 2031, month: 7, day: 4, hour: 10, minute: 20, second: 30 });
    assert!(t.save_pending);
    assert_eq!(t.last_uptime_second, 3);
}

#[test]
fn clock_rejects_invalid() {
    let mut s = ClockApp::new();
    let mut t = Clock::new();
    clock::handle_key(&mut s, &mut t, b'E', 0);
    for &k in b"2031-02-30 10:20:30" {
        clock::handle_key(&mut s, &mut t, k, 0);
    }
    assert!(clock::handle_key(&mut s, &mut t, b'\r', 0));
    assert_eq!(s.message, ClockMessage::Invalid);
    assert!(s.editing);
    assert_eq!(get(&t), Datetime { year: 2026, month: 8, day: 28, hour: 12, minute: 0, second: 0 });
}

#[test]
fn clock_backspace_and_escape() {
    let mut s = ClockApp::new();
    let mut t = Clock::new();
    clock::handle_key(&mut s, &mut t, b'e', 0);
    clock::handle_key(&mut s, &mut t, b'1', 0);
    clock::handle_key(&mut s, &mut t, b'2', 0);
    clock::handle_key(&mut s, &mut t, 8, 0);
    assert_eq!(s.input, b"1".to_vec());
    assert!(clock::handle_key(&mut s, &mut t, 27, 0));
    assert!(!s.editing);
}

#[test]
fn clock_draw_shows_time() {
    let s = ClockApp::new();
    let t = Clock::new();
    let mut ops = Vec::new();
    clock::draw(&s, &t, 10, 20, &mut ops);
    assert_eq!(
        ops[0],
        DrawOp::Text { x: 38, y: 90, text: b"2026-08-28 12:00:00".to_vec(), fg: 0xCDD6F4, bg: 0x1E1E2E, size: Some(18) }
    );
}

#[test]
fn weekday_zeller() {
    assert_eq!(weekday(2026, 8, 1), 6);
    assert_eq!(weekday(2024, 1, 1), 1);
    assert_eq!(weekday(2000, 2, 29), 2);
}

#[test]
fn calendar_grid_august_2026() {
    let s = CalendarApp::new();
    let t = Clock::new();
    let mut ops = Vec::new();
    calendar::draw(&s, &t, 0, 0, &mut ops);
    let lines = texts(&ops);
    assert_eq!(lines[0], b"2026-08-28".to_vec());
    assert_eq!(lines[1], b"August".to_vec());
    assert_eq!(lines[2], b"Mo Tu We Th Fr Sa Su".to_vec());
    assert_eq!(lines[3], b"                1  2".to_vec());
    assert_eq!(lines[4], b" 3  4  5  6  7  8  9".to_vec());
    assert_eq!(lines[8], b"31                  ".to_vec());
    assert_eq!(lines[9], b"Press E to set YYYY-MM-DD".to_vec());
}

#[test]
fn calendar_sets_date_keeping_time() {
    let mut s = CalendarApp::new();
    let mut t = Clock::new();
    assert!(calendar::handle_key(&mut s, &mut t, b'e', 0));
    assert_eq!(s.message, CalendarMessage::EnterDate);
    for &k in b"2030-01-15" {
        calendar::handle_key(&mut s, &mut t, k, 0);
    }
    assert!(calendar::handle_key(&mut s, &mut t, b'\n', 0));
    assert_eq!(s.message, CalendarMessage::Saved);
    assert_eq!(get(&t), Datetime { year: 2030, month: 1, day: 15, hour: 12, minute: 0, second: 0 });
}

#[test]
fn calendar_rejects_invalid() {
    let mut s = CalendarApp::new();
    let mut t = Clock::new();
    calendar::handle_key(&mut s, &mut t, b'e', 0);
    for &k in b"2030-13-15" {
        calendar::handle_key(&mut s, &mut t, k, 0);
    }
    calendar::handle_key(&mut s, &mut t, b'\n', 0);
    assert_eq!(s.message, CalendarMessage::Invalid);
    for _ in 0..20 {
        calendar::handle_key(&mut s, &mut t, b'9', 0);
    }
    assert_eq!(s.input.len(), 10);
}

#[test]
fn weekday_advances_with_the_day() {
    for day in 1..28u8 {
        assert_eq!(weekday(2031, 3, day + 1), (weekday(2031, 3, day) + 1) % 7);
    }
}

#[test]
fn weekday_advances_across_month_and_year_ends() {
    let pairs: [((u16, u8, u8), (u16, u8, u8)); 8] = [
        ((2024, 1, 31), (2024, 2, 1)),
        ((2023, 2, 28), (2023, 3, 1)),
        ((2024, 2, 29), (2024, 3, 1)),
        ((2100, 2, 28), (2100, 3, 1)),
        ((2000, 2, 29), (2000, 3, 1)),
        ((2026, 4, 30), (2026, 5, 1)),
        ((2023, 12, 31), (2024, 1, 1)),
        ((1999, 12, 31), (2000, 1, 1)),
    ];
    for ((y, m, d), (y2, m2, d2)) in pairs {
        assert_eq!(weekday(y2, m2, d2), (weekday(y, m, d) + 1) % 7);
    }
    // 2023-12-31 was a Sunday (0), 2024-01-01 a Monday (1)
    assert_eq!(weekday(2023, 12, 31), 0);
}
