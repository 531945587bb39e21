use desk::desktop::{
    detached_exited, draw_due, draw_icons, draw_power_button, draw_power_menu, draw_topbar,
    free_detached_slot, icon_drag, icon_press, launch, layout, mouse_begin, mouse_end,
    power_menu_click, record_detached, Desktop, Icon, Launch, PowerChoice,
};
use desk::display::{self, DisplayInfo, DrawOp, MouseState};
use desk::personal::{
    adopt, current_colors, font_face, font_size, font_size_clamped, label_size, load_config,
    parse_u32, poll_due, same, theme_colors, wallpaper_path_copy, Colors, Personal, PersonalState,
};
use desk::sysabi::{c_buffer, pointer_reply, write_chunks};

fn catppuccin() -> Colors {
    Colors {
        desktop: 0x181825,
        window: 0x1E1E2E,
        titlebar: 0x313244,
        border: 0x45475A,
        text: 0xCDD6F4,
        muted_text: 0x9399B2,
        accent: 0x89B4FA,
        danger: 0xF38BA8,
        shadow: 0x11111B,
    }
}

#[test]
fn personal_defaults() {
    let p = Personal::new();
    assert_eq!(p.theme, b"catppuccin-dark".to_vec());
    assert!(p.wallpaper.is_empty());
    assert_eq!(p.font, b"clean".to_vec());
    assert_eq!(font_size(&p), 8);
    assert_eq!(theme_colors(&p), catppuccin());
    assert_eq!(font_face(&p), 1);
}

#[test]
fn config_lines_applied() {
    let p = load_config(b"theme=nord\r\nwallpaper=/w/a.png\n\n\nfont=bold\nfont_size=14\nbogus=1");
    assert_eq!(p.theme, b"nord".to_vec());
    assert_eq!(p.wallpaper, b"/w/a.png".to_vec());
    assert_eq!(p.font, b"bold".to_vec());
    assert_eq!(p.font_size, 14);
    assert_eq!(font_face(&p), 2);
    assert_eq!(theme_colors(&p).accent, 0x88C0D0);
    assert_eq!(label_size(&p), 12);
}

#[test]
fn config_later_lines_win_and_sizes_clamp() {
    let p = load_config(b"font_size=2\nfont=classic\nfont_size=99999999999\ntheme=unknown");
    assert_eq!(p.font_size, 24);
    assert_eq!(font_face(&p), 0);
    assert_eq!(theme_colors(&p), catppuccin());
    let q = load_config(b"font_size=abc");
    assert_eq!(q.font_size, 8);
}

#[test]
fn config_values_capped() {
    let long = [b'x'; 100];
    let mut text = b"theme=".to_vec();
    text.extend_from_slice(&long);
    let p = load_config(&text);
    assert_eq!(p.theme.len(), 31);
    let mut big = vec![b' '; 600];
    big.extend_from_slice(b"\ntheme=light");
    let q = load_config(&big);
    assert_eq!(q.theme, b"catppuccin-dark".to_vec());
}

#[test]
fn empty_config_gives_defaults() {
    let p = load_config(b"");
    assert!(same(&p, &Personal::new()));
}

#[test]
fn parse_u32_saturates() {
    assert_eq!(parse_u32(b"123abc"), 123);
    assert_eq!(parse_u32(b""), 0);
    assert_eq!(parse_u32(b"4294967295"), u32::MAX);
    assert_eq!(parse_u32(b"4294967296"), u32::MAX);
    assert_eq!(parse_u32(b"x9"), 0);
}

#[test]
fn clamp_font_sizes() {
    assert_eq!(font_size_clamped(0), 8);
    assert_eq!(font_size_clamped(16), 16);
    assert_eq!(font_size_clamped(30), 24);
}

#[test]
fn wallpaper_path_copied() {
    let p = load_config(b"wallpaper=/w/long-name.png");
    let mut buf = vec![0u8; 4];
    assert_eq!(wallpaper_path_copy(&p, &mut buf), 4);
    assert_eq!(buf, b"/w/l".to_vec());
    let mut wide = vec![7u8; 40];
    assert_eq!(wallpaper_path_copy(&p, &mut wide), 16);
    assert_eq!(&wide[..16], b"/w/long-name.png".as_ref());
    assert_eq!(wide[16], 7);
}

#[test]
fn poll_reports_changes_only() {
    let mut st = PersonalState::new();
    assert!(poll_due(&mut st, 0));
    assert_eq!(adopt(&mut st, load_config(b"theme=nord")), (false, true));
    assert!(st.has_current);
    assert!(!poll_due(&mut st, 499));
    assert!(poll_due(&mut st, 500));
    assert_eq!(adopt(&mut st, load_config(b"theme=nord")), (false, false));
    assert!(poll_due(&mut st, 1_000));
    assert_eq!(adopt(&mut st, load_config(b"theme=dracula")), (true, true));
    assert_eq!(current_colors(&st).accent, 0xBD93F9);
}

fn ready_desktop() -> Desktop {
    let mut d = Desktop::new();
    layout(&mut d, 1280, 800);
    d
}

#[test]
fn layout_wide_and_narrow() {
    let d = ready_desktop();
    assert_eq!((d.screen_w, d.screen_h), (1280, 800));
    assert_eq!(d.icons[0], Icon { x: 420, y: 48 });
    assert_eq!(d.icons[2], Icon { x: 564, y: 48 });
    assert_eq!(d.icons[6], Icon { x: 256, y: 48 });
    let mut n = Desktop::new();
    layout(&mut n, 500, 0);
    assert_eq!((n.screen_w, n.screen_h), (500, 800));
    assert_eq!(n.icons[0], Icon { x: 288, y: 48 });
    assert_eq!(n.icons[1], Icon { x: 360, y: 48 });
    assert_eq!(n.icons[3], Icon { x: 40, y: 130 });
    assert_eq!(n.icons[7], Icon { x: 328, y: 130 });
    layout(&mut n, 1280, 800);
    assert_eq!(n.icons[0], Icon { x: 288, y: 48 });
    let mut z = Desktop::new();
    layout(&mut z, 0, 0);
    assert_eq!((z.screen_w, z.screen_h), (1280, 800));
}

#[test]
fn frames_throttled() {
    let mut d = ready_desktop();
    assert!(draw_due(&mut d, 100));
    assert!(!draw_due(&mut d, 132));
    assert!(draw_due(&mut d, 133));
}

#[test]
fn power_button_toggles_menu() {
    let mut d = ready_desktop();
    let (pressed, released, consumed) = mouse_begin(&mut d, 1250, 10, 1);
    assert!(pressed && !released && consumed);
    assert!(d.power_menu);
    mouse_end(&mut d, released, 1);
    let (pressed, released, _) = mouse_begin(&mut d, 1250, 10, 0);
    assert!(!pressed && released);
    mouse_end(&mut d, released, 0);
    let (_, _, consumed) = mouse_begin(&mut d, 1250, 10, 1);
    assert!(consumed);
    assert!(!d.power_menu);
}

#[test]
fn power_menu_entries() {
    let mut d = ready_desktop();
    d.power_menu = true;
    assert_eq!(power_menu_click(&mut d, 1130, 40, true, false), Some(PowerChoice::Restart));
    assert_eq!(power_menu_click(&mut d, 1130, 70, true, false), Some(PowerChoice::PowerOff));
    assert_eq!(power_menu_click(&mut d, 1130, 40, true, true), None);
    assert!(d.power_menu);
    assert_eq!(power_menu_click(&mut d, 10, 400, true, false), Some(PowerChoice::Dismiss));
    assert!(!d.power_menu);
    assert_eq!(power_menu_click(&mut d, 1130, 40, true, false), None);
}

#[test]
fn click_on_icon_launches() {
    let mut d = ready_desktop();
    icon_press(&mut d, 45, 60, true, false);
    assert_eq!(d.dragged_icon, 3);
    assert_eq!((d.drag_off_x, d.drag_off_y), (5, 12));
    assert!(!icon_drag(&mut d, 45, 60, 1));
    let (redraw, icon) = mouse_end(&mut d, true, 0);
    assert!(redraw);
    assert_eq!(icon, Some(3));
    assert_eq!(d.dragged_icon, -1);
    match launch(&mut d, 3, 1_000) {
        Launch::OpenApp(app) => assert_eq!(app, 0),
        _ => panic!("expected the clock"),
    }
    assert!(matches!(launch(&mut d, 0, 1_200), Launch::Wait));
    match launch(&mut d, 0, 1_500) {
        Launch::Program(path) => assert_eq!(path, b"/bin/program/files".to_vec()),
        _ => panic!("expected the file manager"),
    }
}

#[test]
fn dragged_icon_stays_on_screen() {
    let mut d = ready_desktop();
    icon_press(&mut d, 45, 60, true, false);
    assert!(icon_drag(&mut d, -100, 5, 1));
    assert_eq!(d.icons[3], Icon { x: 0, y: 28 });
    assert!(icon_drag(&mut d, 5000, 5000, 1));
    assert_eq!(d.icons[3], Icon { x: 1222, y: 728 });
    let (redraw, icon) = mouse_end(&mut d, true, 0);
    assert!(redraw);
    assert_eq!(icon, None);
    assert!(!icon_drag(&mut d, 10, 10, 1));
}

#[test]
fn hidden_installer_not_pressed() {
    let mut d = ready_desktop();
    d.installer_visible = false;
    icon_press(&mut d, 330, 50, true, false);
    assert_eq!(d.dragged_icon, -1);
    d.installer_visible = true;
    icon_press(&mut d, 330, 50, true, false);
    assert_eq!(d.dragged_icon, 7);
    let mut e = ready_desktop();
    icon_press(&mut e, 45, 60, true, true);
    assert_eq!(e.dragged_icon, -1);
}

#[test]
fn detached_slots() {
    let mut d = ready_desktop();
    assert_eq!(free_detached_slot(&d), Some(0));
    record_detached(&mut d, 0, 42);
    assert_eq!(free_detached_slot(&d), Some(1));
    record_detached(&mut d, 1, -3);
    assert_eq!(free_detached_slot(&d), Some(1));
    for slot in 1..8 {
        record_detached(&mut d, slot, 100 + slot as i32);
    }
    assert_eq!(free_detached_slot(&d), None);
    detached_exited(&mut d, 4, true);
    assert_eq!(free_detached_slot(&d), Some(4));
    assert!(!d.installer_visible);
}

#[test]
fn desktop_drawing() {
    let d = ready_desktop();
    let th = catppuccin();
    let mut ops = Vec::new();
    draw_topbar(&d, th, &mut ops);
    assert_eq!(ops[0], DrawOp::Clear { color: th.desktop });
    assert_eq!(ops[1], DrawOp::Rect { x: 0, y: 0, w: 1280, h: 28, color: th.titlebar });
    let mut icons = Vec::new();
    draw_icons(&d, th, 10, &mut icons);
    assert_eq!(icons.len(), 5 + 3 + 4 + 4 * 9);
    assert_eq!(icons[0], DrawOp::Rect { x: 420, y: 48, w: 58, h: 50, color: th.titlebar });
    let mut hidden = ready_desktop();
    hidden.installer_visible = false;
    let mut fewer = Vec::new();
    draw_icons(&hidden, th, 10, &mut fewer);
    assert_eq!(fewer.len(), icons.len() - 4);
    let mut button = Vec::new();
    draw_power_button(&d, th, &mut button);
    assert_eq!(button[0], DrawOp::Rect { x: 1242, y: 3, w: 30, h: 22, color: th.border });
    let mut menu = Vec::new();
    draw_power_menu(&d, th, &mut menu);
    assert!(menu.is_empty());
    let mut open = ready_desktop();
    open.power_menu = true;
    draw_power_menu(&open, th, &mut menu);
    assert_eq!(menu.len(), 5);
    assert_eq!(menu[0], DrawOp::Rect { x: 1122, y: 28, w: 150, h: 62, color: th.border });
}

#[test]
fn display_queries() {
    let info = Some(DisplayInfo { width: 800, height: 600, pitch: 3200, size_bytes: 1_920_000, bpp: 32, available: true });
    assert!(display::is_available(&info));
    assert_eq!(display::width(&info), 800);
    assert_eq!(display::height(&info), 600);
    assert!(!display::is_available(&None));
    assert_eq!(display::width(&None), 0);
    assert_eq!(MouseState::default().buttons, 0);
    let mut ops = Vec::new();
    display::draw_rect(&mut ops, 1, 2, 3, 4, 5);
    display::begin_update(&mut ops);
    display::end_update(&mut ops);
    assert_eq!(ops, vec![DrawOp::Rect { x: 1, y: 2, w: 3, h: 4, color: 5 }, DrawOp::BeginUpdate, DrawOp::EndUpdate]);
    assert_eq!(display::c_string(b"hi"), b"hi\0".to_vec());
    assert_eq!(display::c_string(&[b'a'; 300]).len(), 256);
}

#[test]
fn system_buffers() {
    assert_eq!(c_buffer(b"/bin/x", 128), Some(b"/bin/x\0".to_vec()));
    assert_eq!(c_buffer(&[b'a'; 128], 128), None);
    assert_eq!(c_buffer(&[b'a'; 127], 128).map(|v| v.len()), Some(128));
    let pieces = write_chunks(&[b'z'; 250]);
    assert_eq!(pieces.len(), 3);
    assert_eq!(pieces[0].len(), 121);
    assert_eq!(pieces[2], {
        let mut last = vec![b'z'; 10];
        last.push(0);
        last
    });
    assert!(write_chunks(b"").is_empty());
    assert_eq!(pointer_reply(-1), (false, false));
    assert_eq!(pointer_reply(3), (true, true));
    assert_eq!(pointer_reply(2), (false, true));
}

#[test]
fn last_theme_line_wins() {
    let p = load_config(b"theme=nord\r\nfont=bold\n\ntheme=light");
    assert_eq!(p.theme, b"light".to_vec());
    assert_eq!(theme_colors(&p).accent, 0x1E66F5);
    let q = load_config(b"\ntheme=tokyo-night");
    assert_eq!(q.theme, b"tokyo-night".to_vec());
}
