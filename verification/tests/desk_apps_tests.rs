use desk::apps::{self, Apps, AppWindow, APP_CALCULATOR, APP_CALENDAR, APP_CLOCK};
use desk::datetime::Datetime;
use desk::display::DrawOp;

fn opened(app: usize) -> (Apps, Vec<DrawOp>) {
    let mut a = Apps::new();
    let mut ops = Vec::new();
    apps::open(&mut a, app, 1280, 800, &mut ops);
    (a, ops)
}

#[test]
fn open_shows_and_draws_window() {
    let (a, ops) = opened(APP_CALCULATOR);
    assert!(apps::is_visible(&a));
    assert_eq!(a.focused, 1);
    assert_eq!(a.z_order, vec![0, 2, 1]);
    assert_eq!(ops[0], DrawOp::BeginUpdate);
    assert_eq!(ops[1], DrawOp::Rect { x: 205, y: 105, w: 360, h: 270, color: 0x11111B });
    assert_eq!(
        ops[5],
        DrawOp::Text { x: 212, y: 110, text: b"Calculator".to_vec(), fg: 0x1E1E2E, bg: 0x89B4FA, size: None }
    );
    assert_eq!(*ops.last().unwrap(), DrawOp::EndUpdate);
}

#[test]
fn open_out_of_range_does_nothing() {
    let (a, ops) = opened(7);
    assert!(!apps::is_visible(&a));
    assert!(ops.is_empty());
}

#[test]
fn open_moves_window_onto_small_screen() {
    let mut a = Apps::new();
    let mut ops = Vec::new();
    apps::open(&mut a, APP_CALENDAR, 400, 300, &mut ops);
    assert_eq!(a.windows[2], AppWindow { x: 58, y: 82, visible: true });
}

#[test]
fn contains_point_and_top_window() {
    let (mut a, _) = opened(APP_CLOCK);
    let mut ops = Vec::new();
    apps::open(&mut a, APP_CALCULATOR, 1280, 800, &mut ops);
    assert!(apps::contains_point(&a, 170, 80));
    assert!(!apps::contains_point(&a, 5, 5));
    assert_eq!(apps::top_window_at(&a, 210, 110), 1);
    assert_eq!(apps::top_window_at(&a, 170, 80), 0);
}

#[test]
fn close_button_hides_window() {
    let (mut a, _) = opened(APP_CLOCK);
    let mut redraw = false;
    // close box of the clock window at (160 + 333, 70 + 6)
    assert!(apps::handle_mouse(&mut a, 495, 80, 1, true, false, 1280, 800, &mut redraw));
    assert!(redraw);
    assert!(!a.windows[0].visible);
    assert_eq!(a.focused, -1);
    assert!(!apps::is_visible(&a));
}

#[test]
fn drag_title_bar_moves_window() {
    let (mut a, _) = opened(APP_CLOCK);
    let mut redraw = false;
    assert!(apps::handle_mouse(&mut a, 200, 80, 1, true, false, 1280, 800, &mut redraw));
    assert_eq!(a.dragged, 0);
    assert!(apps::handle_mouse(&mut a, 300, 180, 1, false, false, 1280, 800, &mut redraw));
    assert!(redraw);
    assert_eq!((a.windows[0].x, a.windows[0].y), (260, 170));
    // dragging far off screen keeps the window on it and below the top bar
    assert!(apps::handle_mouse(&mut a, -500, -500, 1, false, false, 1280, 800, &mut redraw));
    assert_eq!((a.windows[0].x, a.windows[0].y), (0, 28));
    assert!(apps::handle_mouse(&mut a, 5000, 5000, 1, false, false, 1280, 800, &mut redraw));
    assert_eq!((a.windows[0].x, a.windows[0].y), (920, 530));
    assert!(apps::handle_mouse(&mut a, 5000, 5000, 0, false, true, 1280, 800, &mut redraw));
    assert_eq!(a.dragged, -1);
}

#[test]
fn mouse_outside_windows_not_taken() {
    let (mut a, _) = opened(APP_CLOCK);
    let mut redraw = true;
    assert!(!apps::handle_mouse(&mut a, 5, 5, 1, true, false, 1280, 800, &mut redraw));
    assert!(!redraw);
}

#[test]
fn keys_go_to_focused_window() {
    let (mut a, _) = opened(APP_CALCULATOR);
    let mut ops = Vec::new();
    for &k in b"2+3\n" {
        assert!(apps::handle_key(&mut a, k, 0, &mut ops));
    }
    assert_eq!(a.calc.input, b"5".to_vec());
    let mut none = Apps::new();
    assert!(!apps::handle_key(&mut none, b'1', 0, &mut ops));
}

#[test]
fn clock_key_not_taken_without_edit() {
    let (mut a, _) = opened(APP_CLOCK);
    let mut ops = Vec::new();
    assert!(!apps::handle_key(&mut a, b'x', 0, &mut ops));
    assert!(ops.is_empty());
}

#[test]
fn update_redraws_clock() {
    let (mut a, _) = opened(APP_CLOCK);
    let mut ops = Vec::new();
    apps::init(&mut a, b"2024-01-01 00:00:00", 0);
    apps::update(&mut a, 2_000, &mut ops);
    assert_eq!(a.time.current, Datetime { year: 2024, month: 1, day: 1, hour: 0, minute: 0, second: 2 });
    assert!(ops.contains(&DrawOp::Text {
        x: 188,
        y: 140,
        text: b"2024-01-01 00:00:02".to_vec(),
        fg: 0xCDD6F4,
        bg: 0x1E1E2E,
        size: Some(18)
    }));
    let mut again = Vec::new();
    apps::update(&mut a, 2_500, &mut again);
    assert!(again.is_empty());
}

#[test]
fn save_time_text() {
    let mut a = Apps::new();
    assert_eq!(apps::save_time(&mut a), b"2026-08-28 12:00:00".to_vec());
}

#[test]
fn raising_keeps_each_window_once() {
    let mut a = Apps::new();
    let mut ops = Vec::new();
    for &app in &[APP_CALENDAR, APP_CLOCK, APP_CALCULATOR, APP_CLOCK] {
        apps::open(&mut a, app, 1280, 800, &mut ops);
        assert_eq!(a.z_order[2] as usize, app);
        let mut sorted = a.z_order.clone();
        sorted.sort();
        assert_eq!(sorted, vec![0, 1, 2]);
    }
}

#[test]
fn calculator_overflowing_division_detected() {
    let (mut a, _) = opened(APP_CALCULATOR);
    let mut ops = Vec::new();
    for &k in b"9223372036854775808/18446744073709551615" {
        apps::handle_key(&mut a, k, 0, &mut ops);
    }
    assert_eq!(a.calc.left, i64::MIN);
    assert!(apps::key_overflows(&a, b'\n'));
    assert!(!apps::key_overflows(&a, b'1'));
    let (b, _) = opened(APP_CLOCK);
    assert!(!apps::key_overflows(&b, b'\n'));
}

#[test]
fn update_fits_near_the_end_of_year_9999() {
    let mut a = Apps::new();
    apps::init(&mut a, b"9999-12-31 23:59:58", 0);
    assert!(apps::update_fits(&a, 1_000));
    // no window shows the date, so the year may pass 9999
    assert!(apps::update_fits(&a, 2_000));
    let mut ops = Vec::new();
    apps::open(&mut a, APP_CLOCK, 1280, 800, &mut ops);
    assert!(apps::update_fits(&a, 1_000));
    assert!(!apps::update_fits(&a, 2_000));
}

#[test]
fn update_past_year_9999_without_windows() {
    let mut a = Apps::new();
    apps::init(&mut a, b"9999-12-31 23:59:59", 0);
    assert!(apps::update_fits(&a, 1_000));
    let mut ops = Vec::new();
    apps::update(&mut a, 1_000, &mut ops);
    assert!(ops.is_empty());
    assert_eq!(a.time.current.year, 10000);
    assert_eq!(a.time.current.month, 1);
    assert_eq!(a.time.current.day, 1);
}
