use vstd::prelude::*;
use vstd::wrapping::i32_specs::wrapping_sub;
use crate::calc::{calc_draw_ops, calc_wf, evaluates, overflowing_division, parse_value, Calc};
use crate::calendar::{calendar_draw_ops, calendar_wf, CalendarApp};
use crate::clock::{clock_draw_ops, clock_wf, ClockApp};
use crate::datetime::{advance_n, spec_format, spec_parse, steps_ok, valid_datetime, Clock, Datetime};
use crate::display::{begin_update, bytes_of, draw_rect, draw_text, end_update, ops_view, str_bytes, DrawOp, Op};

verus! {

pub const APP_CLOCK: usize = 0;
pub const APP_CALCULATOR: usize = 1;
pub const APP_CALENDAR: usize = 2;
pub const APP_COUNT: usize = 3;
pub const WINDOW_WIDTH: u32 = 360;
pub const WINDOW_HEIGHT: u32 = 270;
pub const TITLE_BAR_HEIGHT: u32 = 30;

/// Where a window is and whether it is shown.
#[derive(Clone, Copy, Debug, PartialEq, Eq, Structural)]
pub struct AppWindow {
    pub x: u32,
    pub y: u32,
    pub visible: bool,
}

/// The three desk applications: their windows, the stacking order (bottom first),
/// the focused and the dragged window (-1 for none), the grip of a drag, the date
/// the calendar last showed, the clock, and each application's state.
pub struct Apps {
    pub windows: Vec<AppWindow>,
    pub z_order: Vec<u8>,
    pub focused: i8,
    pub dragged: i8,
    pub drag_off_x: i32,
    pub drag_off_y: i32,
    pub last_cal_year: u16,
    pub last_cal_month: u8,
    pub last_cal_day: u8,
    pub time: Clock,
    pub clock: ClockApp,
    pub calc: Calc,
    pub calendar: CalendarApp,
}

/// The window-manager part of the state.
pub struct WmState {
    pub windows: Seq<AppWindow>,
    pub z: Seq<u8>,
    pub focused: i8,
    pub dragged: i8,
    pub off_x: i32,
    pub off_y: i32,
}

pub open spec fn wm_of(a: &Apps) -> WmState {
    WmState {
        windows: a.windows@,
        z: a.z_order@,
        focused: a.focused,
        dragged: a.dragged,
        off_x: a.drag_off_x,
        off_y: a.drag_off_y,
    }
}

/// `z` orders the three applications: each appears once.
pub open spec fn is_z_order(z: Seq<u8>) -> bool {
    &&& z.len() == 3
    &&& forall|i: int| 0 <= i < 3 ==> #[trigger] z[i] < 3
    &&& z[0] != z[1] && z[0] != z[2] && z[1] != z[2]
}

/// A window's rectangle fits in the 32-bit coordinate range.
pub open spec fn window_fits(w: AppWindow) -> bool {
    w.x <= u32::MAX - WINDOW_WIDTH && w.y <= u32::MAX - WINDOW_HEIGHT
}

pub open spec fn wm_wf(st: WmState) -> bool {
    &&& st.windows.len() == 3
    &&& forall|i: int| 0 <= i < 3 ==> #[trigger] window_fits(st.windows[i])
    &&& is_z_order(st.z)
    &&& -1 <= st.focused < 3
    &&& -1 <= st.dragged < 3
}

pub open spec fn apps_wf(a: &Apps) -> bool {
    &&& wm_wf(wm_of(a))
    &&& valid_datetime(a.time.current)
    &&& clock_wf(&a.clock)
    &&& calc_wf(&a.calc)
    &&& calendar_wf(&a.calendar)
}

/// Position of `app` in the stacking order, -1 when absent.
pub open spec fn spec_z_pos(z: Seq<u8>, app: int) -> int {
    if z[0] == app {
        0
    } else if z[1] == app {
        1
    } else if z[2] == app {
        2
    } else {
        -1
    }
}

/// The order with `app` moved to the top (unchanged when absent or already there).
pub open spec fn spec_bring_front(z: Seq<u8>, app: int) -> Seq<u8> {
    let i = spec_z_pos(z, app);
    if i < 0 || i == 2 {
        z
    } else {
        z.remove(i).push(app as u8)
    }
}

/// The point lies in the `w` by `h` rectangle at (`left`, `top`), compared as 32-bit
/// signed screen coordinates.
pub open spec fn spec_inside(px: i32, py: i32, left: u32, top: u32, w: u32, h: u32) -> bool {
    px >= left as i32 && py >= top as i32 && px < (left + w) as i32 && py < (top + h) as i32
}

pub open spec fn window_contains(w: AppWindow, px: i32, py: i32) -> bool {
    w.visible && spec_inside(px, py, w.x, w.y, WINDOW_WIDTH, WINDOW_HEIGHT)
}

/// The topmost shown window holding the point, -1 when none.
pub open spec fn spec_top_at(ws: Seq<AppWindow>, z: Seq<u8>, px: i32, py: i32) -> int {
    if window_contains(ws[z[2] as int], px, py) {
        z[2] as int
    } else if window_contains(ws[z[1] as int], px, py) {
        z[1] as int
    } else if window_contains(ws[z[0] as int], px, py) {
        z[0] as int
    } else {
        -1
    }
}

/// The topmost shown window, -1 when none.
pub open spec fn spec_top_visible(ws: Seq<AppWindow>, z: Seq<u8>) -> int {
    if ws[z[2] as int].visible {
        z[2] as int
    } else if ws[z[1] as int].visible {
        z[1] as int
    } else if ws[z[0] as int].visible {
        z[0] as int
    } else {
        -1
    }
}

/// `v` raised to at least `lo`, then lowered to at most `hi`.
pub open spec fn clamp(v: i32, lo: i32, hi: i32) -> i32 {
    let a = if v < lo { lo } else { v };
    if a > hi { hi } else { a }
}

/// Where a dragged window goes: the pointer less the grab offset, kept right of 0 and
/// below the 28-pixel top bar, and left of and above the point where the window
/// would leave the screen.
pub open spec fn drag_target(px: i32, py: i32, off_x: i32, off_y: i32, sw: u32, sh: u32) -> (i32, i32) {
    let max_x: i32 = if sw > WINDOW_WIDTH { (sw - WINDOW_WIDTH) as i32 } else { 0 };
    let fit_y: i32 = if sh > WINDOW_HEIGHT { (sh - WINDOW_HEIGHT) as i32 } else { 28 };
    let max_y: i32 = if fit_y < 28 { 28 } else { fit_y };
    (clamp(wrapping_sub(px, off_x), 0, max_x), clamp(wrapping_sub(py, off_y), 28, max_y))
}

/// The drag part of a mouse event: while the left button is held the dragged window
/// moves to the drag target (redrawing when that moves it); a release ends the drag.
pub open spec fn drag_phase(st: WmState, px: i32, py: i32, buttons: u8, released: bool, sw: u32, sh: u32, captured: bool, redraw: bool) -> (WmState, bool, bool) {
    if st.dragged >= 0 && buttons % 2 == 1 {
        let app = st.dragged as int;
        let w = st.windows[app];
        let (nx, ny) = drag_target(px, py, st.off_x, st.off_y, sw, sh);
        if nx as u32 != w.x || ny as u32 != w.y {
            (WmState { windows: st.windows.update(app, AppWindow { x: nx as u32, y: ny as u32, ..w }), ..st }, true, true)
        } else {
            (st, true, redraw)
        }
    } else if released && st.dragged >= 0 {
        (WmState { dragged: -1i8, ..st }, true, redraw)
    } else {
        (st, captured, redraw)
    }
}

/// Raising a window keeps the stacking order a permutation of the three windows and puts
/// that window on top.
pub proof fn lemma_bring_front_order(z: Seq<u8>, app: int)
    requires
        is_z_order(z),
        0 <= app < 3,
    ensures
        is_z_order(spec_bring_front(z, app)),
        spec_bring_front(z, app)[2] == app,
        spec_z_pos(spec_bring_front(z, app), app) == 2,
{
    let r = spec_bring_front(z, app);
    assert(z[0] < 3 && z[1] < 3 && z[2] < 3);
    assert(spec_z_pos(z, app) >= 0);
    if spec_z_pos(z, app) == 0 {
        assert(r =~= seq![z[1], z[2], app as u8]);
    } else if spec_z_pos(z, app) == 1 {
        assert(r =~= seq![z[0], z[2], app as u8]);
    }
}

/// A window that a drag moves lands inside the screen and below the top bar (on a
/// screen that fits the signed coordinate range).
pub proof fn lemma_drag_lands_on_screen(
    st: WmState,
    px: i32,
    py: i32,
    buttons: u8,
    released: bool,
    sw: u32,
    sh: u32,
    captured: bool,
    redraw: bool,
)
    requires
        wm_wf(st),
        st.dragged >= 0,
        sw <= i32::MAX,
        sh <= i32::MAX,
    ensures
        ({
            let w = drag_phase(st, px, py, buttons, released, sw, sh, captured, redraw).0.windows[st.dragged as int];
            w != st.windows[st.dragged as int] ==> {
                &&& w.x <= if sw > WINDOW_WIDTH { sw - WINDOW_WIDTH } else { 0 }
                &&& 28 <= w.y
                &&& (sh >= WINDOW_HEIGHT + 28 ==> w.y + WINDOW_HEIGHT <= sh)
            }
        }),
{
}

/// A mouse event: the new window-manager state, whether the event was taken, and
/// whether the screen needs redrawing. A press on a window focuses it and raises it;
/// a press on its close box hides it and focuses the topmost shown window; a press on
/// its title bar starts a drag. Then the drag part follows.
pub open spec fn spec_handle_mouse(st: WmState, px: i32, py: i32, buttons: u8, pressed: bool, released: bool, sw: u32, sh: u32) -> (WmState, bool, bool) {
    let t = spec_top_at(st.windows, st.z, px, py);
    let captured = st.dragged >= 0 || t >= 0;
    if pressed && t >= 0 {
        let z1 = spec_bring_front(st.z, t);
        let raised = spec_z_pos(st.z, t) >= 0 && spec_z_pos(st.z, t) != 2;
        let w = st.windows[t];
        if spec_inside(px, py, (w.x + WINDOW_WIDTH - 27) as u32, (w.y + 6) as u32, 18, 18) {
            let ws1 = st.windows.update(t, AppWindow { visible: false, ..w });
            (WmState { windows: ws1, z: z1, focused: spec_top_visible(ws1, z1) as i8, dragged: -1i8, ..st }, true, true)
        } else {
            let st1 = if spec_inside(px, py, w.x, w.y, WINDOW_WIDTH, TITLE_BAR_HEIGHT) {
                WmState { z: z1, focused: t as i8, dragged: t as i8, off_x: wrapping_sub(px, w.x as i32), off_y: wrapping_sub(py, w.y as i32), ..st }
            } else {
                WmState { z: z1, focused: t as i8, ..st }
            };
            drag_phase(st1, px, py, buttons, released, sw, sh, captured, raised)
        }
    } else {
        drag_phase(st, px, py, buttons, released, sw, sh, captured, false)
    }
}

pub open spec fn title_bytes(app: int) -> Seq<u8> {
    if app == 0 {
        str_bytes("Clock")
    } else if app == 1 {
        str_bytes("Calculator")
    } else if app == 2 {
        str_bytes("Calendar")
    } else {
        str_bytes("Application")
    }
}

/// The frame of window `app` at `w`: shadow, border, body, title bar (highlighted when
/// focused), title, and close box.
pub open spec fn frame_ops(w: AppWindow, app: int, focused: i8) -> Seq<Op> {
    let title_color: u32 = if focused as int == app { 0x89B4FA } else { 0x585B70 };
    let x = w.x;
    let y = w.y;
    seq![
        Op::Rect { x: (x + 5) as u32, y: (y + 5) as u32, w: WINDOW_WIDTH, h: WINDOW_HEIGHT, color: 0x11111B },
        Op::Rect { x, y, w: WINDOW_WIDTH, h: WINDOW_HEIGHT, color: 0x45475A },
        Op::Rect { x: (x + 1) as u32, y: (y + 1) as u32, w: (WINDOW_WIDTH - 2) as u32, h: (WINDOW_HEIGHT - 2) as u32, color: 0x1E1E2E },
        Op::Rect { x: (x + 1) as u32, y: (y + 1) as u32, w: (WINDOW_WIDTH - 2) as u32, h: TITLE_BAR_HEIGHT, color: title_color },
        Op::Text { x: (x + 12) as u32, y: (y + 10) as u32, text: title_bytes(app), fg: 0x1E1E2E, bg: title_color, size: None },
        Op::Rect { x: (x + WINDOW_WIDTH - 27) as u32, y: (y + 6) as u32, w: 18, h: 18, color: 0xF38BA8 },
        Op::Text { x: (x + WINDOW_WIDTH - 23) as u32, y: (y + 10) as u32, text: str_bytes("x"), fg: 0x1E1E2E, bg: 0xF38BA8, size: None },
    ]
}

/// The contents of window `app`.
pub open spec fn content_ops(a: &Apps, app: int) -> Seq<Op> {
    let w = a.windows@[app];
    if app == 0 {
        clock_draw_ops(&a.clock, spec_format(a.time.current), w.x, w.y)
    } else if app == 1 {
        calc_draw_ops(&a.calc, w.x, w.y)
    } else {
        calendar_draw_ops(&a.calendar, a.time.current, w.x, w.y)
    }
}

pub open spec fn window_ops(a: &Apps, app: int) -> Seq<Op> {
    frame_ops(a.windows@[app], app, a.focused) + content_ops(a, app)
}

/// The shown windows from stacking position `i` up.
pub open spec fn windows_from(a: &Apps, i: int) -> Seq<Op>
    decreases 3 - i,
{
    if i >= 3 || i < 0 {
        Seq::empty()
    } else {
        let app = a.z_order@[i] as int;
        (if a.windows@[app].visible { window_ops(a, app) } else { Seq::empty() }) + windows_from(a, i + 1)
    }
}

/// A batch redrawing the shown windows from stacking position `first` up; nothing for
/// a negative `first`.
pub open spec fn redraw_ops(a: &Apps, first: int) -> Seq<Op> {
    if first < 0 {
        Seq::empty()
    } else {
        seq![Op::BeginUpdate] + windows_from(a, first) + seq![Op::EndUpdate]
    }
}

/// The application with the keyboard: the focused one if it is a shown window, else
/// the topmost shown window.
pub open spec fn key_target(a: &Apps) -> int {
    if 0 <= a.focused < 3 && a.windows@[a.focused as int].visible {
        a.focused as int
    } else {
        spec_top_visible(a.windows@, a.z_order@)
    }
}

impl Apps {
    /// The applications as they start: all windows hidden at their first places.
    pub fn new() -> (a: Apps)
        ensures
            apps_wf(&a),
            a.windows@ == seq![
                AppWindow { x: 160, y: 70, visible: false },
                AppWindow { x: 200, y: 100, visible: false },
                AppWindow { x: 240, y: 130, visible: false },
            ],
            a.z_order@ == seq![0u8, 1u8, 2u8],
            a.focused == -1,
            a.dragged == -1,
            a.time.current == (Datetime { year: 2026, month: 8, day: 28, hour: 12, minute: 0, second: 0 }),
    {
        let mut windows: Vec<AppWindow> = Vec::new();
        windows.push(AppWindow { x: 160, y: 70, visible: false });
        windows.push(AppWindow { x: 200, y: 100, visible: false });
        windows.push(AppWindow { x: 240, y: 130, visible: false });
        let mut z: Vec<u8> = Vec::new();
        z.push(0);
        z.push(1);
        z.push(2);
        let a = Apps {
            windows,
            z_order: z,
            focused: -1,
            dragged: -1,
            drag_off_x: 0,
            drag_off_y: 0,
            last_cal_year: 0,
            last_cal_month: 0,
            last_cal_day: 0,
            time: Clock::new(),
            clock: ClockApp::new(),
            calc: Calc::new(),
            calendar: CalendarApp::new(),
        };
        proof {
            assert(a.windows@ =~= seq![
                AppWindow { x: 160, y: 70, visible: false },
                AppWindow { x: 200, y: 100, visible: false },
                AppWindow { x: 240, y: 130, visible: false },
            ]);
            assert(a.z_order@ =~= seq![0u8, 1u8, 2u8]);
        }
        a
    }
}

pub fn valid_app(app: i32) -> (r: bool)
    ensures
        r == (0 <= app < 3),
{
    app >= 0 && (app as usize) < APP_COUNT
}

pub fn point_inside(px: i32, py: i32, left: u32, top: u32, w: u32, h: u32) -> (r: bool)
    requires
        left + w <= u32::MAX,
        top + h <= u32::MAX,
    ensures
        r == spec_inside(px, py, left, top, w, h),
{
    px >= left as i32 && py >= top as i32 && px < (left + w) as i32 && py < (top + h) as i32
}

pub fn app_title(app: usize) -> (r: Vec<u8>)
    ensures
        r@ == title_bytes(app as int),
{
    if app == APP_CLOCK {
        bytes_of("Clock")
    } else if app == APP_CALCULATOR {
        bytes_of("Calculator")
    } else if app == APP_CALENDAR {
        bytes_of("Calendar")
    } else {
        bytes_of("Application")
    }
}

/// Stacking position of `app`, -1 when absent.
pub fn z_index_of(a: &Apps, app: usize) -> (r: i8)
    requires
        a.z_order@.len() == 3,
    ensures
        r == spec_z_pos(a.z_order@, app as int),
{
    let mut i: usize = 0;
    while i < APP_COUNT
        invariant
            i <= 3,
            a.z_order@.len() == 3,
            forall|j: int| 0 <= j < i ==> a.z_order@[j] != app,
        decreases 3 - i,
    {
        if a.z_order[i] as usize == app {
            return i as i8;
        }
        i = i + 1;
    }
    -1
}

/// Raises `app` to the top; false when it is already there or absent.
pub fn bring_to_front(a: &mut Apps, app: usize) -> (r: bool)
    requires
        is_z_order(old(a).z_order@),
    ensures
        is_z_order(final(a).z_order@),
        final(a).z_order@ == spec_bring_front(old(a).z_order@, app as int),
        r == (spec_z_pos(old(a).z_order@, app as int) >= 0 && spec_z_pos(old(a).z_order@, app as int) != 2),
        final(a).windows == old(a).windows,
        final(a).focused == old(a).focused,
        final(a).dragged == old(a).dragged,
        final(a).drag_off_x == old(a).drag_off_x,
        final(a).drag_off_y == old(a).drag_off_y,
        final(a).last_cal_year == old(a).last_cal_year,
        final(a).last_cal_month == old(a).last_cal_month,
        final(a).last_cal_day == old(a).last_cal_day,
        final(a).time == old(a).time,
        final(a).clock == old(a).clock,
        final(a).calc == old(a).calc,
        final(a).calendar == old(a).calendar,
{
    let current = z_index_of(a, app);
    if current < 0 || current as usize == APP_COUNT - 1 {
        return false;
    }
    let ghost z0 = a.z_order@;
    let mut i = current as usize;
    while i < APP_COUNT - 1
        invariant
            current as int <= i <= 2,
            0 <= current < 2,
            z0 == old(a).z_order@,
            a.z_order@.len() == 3,
            forall|j: int| 0 <= j < current ==> a.z_order@[j] == z0[j],
            forall|j: int| current <= j < i ==> a.z_order@[j] == z0[j + 1],
            forall|j: int| i <= j < 3 ==> a.z_order@[j] == z0[j],
            a.windows == old(a).windows,
            a.focused == old(a).focused,
            a.dragged == old(a).dragged,
            a.drag_off_x == old(a).drag_off_x,
            a.drag_off_y == old(a).drag_off_y,
            a.last_cal_year == old(a).last_cal_year,
            a.last_cal_month == old(a).last_cal_month,
            a.last_cal_day == old(a).last_cal_day,
            a.time == old(a).time,
            a.clock == old(a).clock,
            a.calc == old(a).calc,
            a.calendar == old(a).calendar,
        decreases 2 - i,
    {
        let next = a.z_order[i + 1];
        a.z_order.set(i, next);
        i = i + 1;
    }
    a.z_order.set(APP_COUNT - 1, app as u8);
    proof {
        assert(a.z_order@ =~= spec_bring_front(z0, app as int));
    }
    true
}

/// The topmost shown window holding the point, -1 when none.
pub fn top_window_at(a: &Apps, px: i32, py: i32) -> (r: i8)
    requires
        wm_wf(wm_of(a)),
    ensures
        r == spec_top_at(a.windows@, a.z_order@, px, py),
{
    let mut i: i8 = APP_COUNT as i8 - 1;
    while i >= 0
        invariant
            -1 <= i <= 2,
            wm_wf(wm_of(a)),
            spec_top_at(a.windows@, a.z_order@, px, py) == if i == 2 {
                spec_top_at(a.windows@, a.z_order@, px, py)
            } else if i == 1 {
                if window_contains(a.windows@[a.z_order@[1] as int], px, py) {
                    a.z_order@[1] as int
                } else if window_contains(a.windows@[a.z_order@[0] as int], px, py) {
                    a.z_order@[0] as int
                } else {
                    -1
                }
            } else if i == 0 {
                if window_contains(a.windows@[a.z_order@[0] as int], px, py) {
                    a.z_order@[0] as int
                } else {
                    -1
                }
            } else {
                -1
            },
        decreases i + 1,
    {
        let app = a.z_order[i as usize] as usize;
        assert(window_fits(a.windows@[app as int]));
        if a.windows[app].visible && point_inside(
            px,
            py,
            a.windows[app].x,
            a.windows[app].y,
            WINDOW_WIDTH,
            WINDOW_HEIGHT,
        ) {
            return app as i8;
        }
        i = i - 1;
    }
    -1
}

/// The topmost shown window, -1 when none.
pub fn top_visible_window(a: &Apps) -> (r: i8)
    requires
        wm_wf(wm_of(a)),
    ensures
        r == spec_top_visible(a.windows@, a.z_order@),
{
    let mut i: i8 = APP_COUNT as i8 - 1;
    while i >= 0
        invariant
            -1 <= i <= 2,
            wm_wf(wm_of(a)),
            spec_top_visible(a.windows@, a.z_order@) == if i == 2 {
                spec_top_visible(a.windows@, a.z_order@)
            } else if i == 1 {
                if a.windows@[a.z_order@[1] as int].visible {
                    a.z_order@[1] as int
                } else if a.windows@[a.z_order@[0] as int].visible {
                    a.z_order@[0] as int
                } else {
                    -1
                }
            } else if i == 0 {
                if a.windows@[a.z_order@[0] as int].visible {
                    a.z_order@[0] as int
                } else {
                    -1
                }
            } else {
                -1
            },
        decreases i + 1,
    {
        let app = a.z_order[i as usize] as usize;
        if a.windows[app].visible {
            return app as i8;
        }
        i = i - 1;
    }
    -1
}

/// Some window is shown.
pub fn is_visible(a: &Apps) -> (r: bool)
    requires
        wm_wf(wm_of(a)),
    ensures
        r == (spec_top_visible(a.windows@, a.z_order@) >= 0),
{
    top_visible_window(a) >= 0
}

/// Some shown window holds the point.
pub fn contains_point(a: &Apps, x: i32, y: i32) -> (r: bool)
    requires
        wm_wf(wm_of(a)),
    ensures
        r == (spec_top_at(a.windows@, a.z_order@, x, y) >= 0),
{
    top_window_at(a, x, y) >= 0
}


/// The calendar remembers the date now on the clock.
pub open spec fn remembers_date(a: &Apps) -> bool {
    a.last_cal_year == a.time.current.year && a.last_cal_month == a.time.current.month
        && a.last_cal_day == a.time.current.day
}

/// The calendar's date differs from `dt`'s.
pub open spec fn date_differs(d1: Datetime, d2: Datetime) -> bool {
    d1.year != d2.year || d1.month != d2.month || d1.day != d2.day
}

/// The lower of two stacking positions.
pub open spec fn min_pos(p: int, q: int) -> int {
    if q < p {
        q
    } else {
        p
    }
}

/// The windows drawn: all fit and the clock's year has four digits.
pub open spec fn drawable(a: &Apps) -> bool {
    apps_wf(a) && a.time.current.year <= 9999
}

/// Draws the frame of window `app`.
pub fn draw_window_frame(a: &Apps, app: usize, ops: &mut Vec<DrawOp>)
    requires
        apps_wf(a),
        app < 3,
    ensures
        ops_view(final(ops)@) == ops_view(old(ops)@) + frame_ops(a.windows@[app as int], app as int, a.focused),
{
    let x = a.windows[app].x;
    let y = a.windows[app].y;
    assert(window_fits(a.windows@[app as int]));
    let title_color: u32 = if a.focused >= 0 && a.focused as usize == app {
        0x89B4FA
    } else {
        0x585B70
    };
    draw_rect(ops, x + 5, y + 5, WINDOW_WIDTH, WINDOW_HEIGHT, 0x11111B);
    draw_rect(ops, x, y, WINDOW_WIDTH, WINDOW_HEIGHT, 0x45475A);
    draw_rect(ops, x + 1, y + 1, WINDOW_WIDTH - 2, WINDOW_HEIGHT - 2, 0x1E1E2E);
    draw_rect(ops, x + 1, y + 1, WINDOW_WIDTH - 2, TITLE_BAR_HEIGHT, title_color);
    let title = app_title(app);
    draw_text(ops, x + 12, y + 10, title.as_slice(), 0x1E1E2E, title_color);
    draw_rect(ops, x + WINDOW_WIDTH - 27, y + 6, 18, 18, 0xF38BA8);
    let close = bytes_of("x");
    draw_text(ops, x + WINDOW_WIDTH - 23, y + 10, close.as_slice(), 0x1E1E2E, 0xF38BA8);
    proof {
        assert(ops_view(final(ops)@) =~= ops_view(old(ops)@) + frame_ops(a.windows@[app as int], app as int, a.focused));
    }
}

/// Draws the contents of window `app`.
pub fn draw_app_content(a: &Apps, app: usize, ops: &mut Vec<DrawOp>)
    requires
        drawable(a),
        app < 3,
    ensures
        ops_view(final(ops)@) == ops_view(old(ops)@) + content_ops(a, app as int),
{
    let x = a.windows[app].x;
    let y = a.windows[app].y;
    assert(window_fits(a.windows@[app as int]));
    if app == APP_CLOCK {
        crate::clock::draw(&a.clock, &a.time, x, y, ops);
    } else if app == APP_CALCULATOR {
        crate::calc::draw(&a.calc, x, y, ops);
    } else {
        crate::calendar::draw(&a.calendar, &a.time, x, y, ops);
    }
}

/// Draws window `app`: its frame, then its contents.
pub fn draw_window(a: &Apps, app: usize, ops: &mut Vec<DrawOp>)
    requires
        drawable(a),
        app < 3,
    ensures
        ops_view(final(ops)@) == ops_view(old(ops)@) + window_ops(a, app as int),
{
    draw_window_frame(a, app, ops);
    draw_app_content(a, app, ops);
    proof {
        assert(ops_view(final(ops)@) =~= ops_view(old(ops)@) + window_ops(a, app as int));
    }
}

/// Redraws, as one batch, the shown windows from stacking position `first` up.
pub fn redraw_from_z_index(a: &Apps, first: i8, ops: &mut Vec<DrawOp>)
    requires
        drawable(a),
    ensures
        ops_view(final(ops)@) == ops_view(old(ops)@) + redraw_ops(a, first as int),
{
    if first < 0 {
        proof {
            assert(ops_view(old(ops)@) + redraw_ops(a, first as int) =~= ops_view(old(ops)@));
        }
        return ;
    }
    begin_update(ops);
    let ghost start = ops_view(ops@);
    let mut i: i8 = first;
    while (i as usize) < APP_COUNT
        invariant
            first <= i,
            0 <= first,
            drawable(a),
            start + windows_from(a, first as int) == ops_view(ops@) + windows_from(a, i as int),
        decreases 3 - i,
    {
        let app = a.z_order[i as usize] as usize;
        let ghost before = ops_view(ops@);
        if a.windows[app].visible {
            draw_window(a, app, ops);
        }
        proof {
            assert(is_z_order(a.z_order@));
            assert(windows_from(a, i as int) == (if a.windows@[app as int].visible { window_ops(a, app as int) } else { Seq::empty() }) + windows_from(a, i + 1));
            assert(ops_view(ops@) + windows_from(a, i + 1) =~= before + windows_from(a, i as int));
        }
        i = i + 1;
    }
    proof {
        assert(windows_from(a, i as int) =~= Seq::<Op>::empty());
    }
    end_update(ops);
    proof {
        assert(ops_view(final(ops)@) =~= ops_view(old(ops)@) + redraw_ops(a, first as int));
    }
}

/// Draws every shown window, bottom first, as one batch.
pub fn draw(a: &Apps, ops: &mut Vec<DrawOp>)
    requires
        drawable(a),
    ensures
        ops_view(final(ops)@) == ops_view(old(ops)@) + redraw_ops(a, 0),
{
    redraw_from_z_index(a, 0, ops);
}

/// Resets the state of application `app` as its window opens.
pub fn open_app_state(a: &mut Apps, app: usize)
    requires
        apps_wf(old(a)),
    ensures
        apps_wf(final(a)),
        wm_of(final(a)) == wm_of(old(a)),
        final(a).time == old(a).time,
        final(a).last_cal_year == old(a).last_cal_year,
        final(a).last_cal_month == old(a).last_cal_month,
        final(a).last_cal_day == old(a).last_cal_day,
        app == 0 ==> !final(a).clock.editing && final(a).clock.input@.len() == 0
            && final(a).clock.message == crate::clock::ClockMessage::Empty,
        app != 0 ==> final(a).clock == old(a).clock,
        app == 1 ==> final(a).calc.input@.len() == 0 && !final(a).calc.has_left
            && final(a).calc.message == crate::calc::CalcMessage::Empty && final(a).calc.left == old(a).calc.left
            && final(a).calc.op == old(a).calc.op,
        app != 1 ==> final(a).calc == old(a).calc,
        app == 2 ==> !final(a).calendar.editing && final(a).calendar.input@.len() == 0
            && final(a).calendar.message == crate::calendar::CalendarMessage::Empty,
        app != 2 ==> final(a).calendar == old(a).calendar,
{
    if app == APP_CLOCK {
        crate::clock::open(&mut a.clock);
    } else if app == APP_CALCULATOR {
        crate::calc::open(&mut a.calc);
    } else if app == APP_CALENDAR {
        crate::calendar::open(&mut a.calendar);
    }
}

/// Notes the clock's date as the one the calendar shows.
pub fn remember_calendar_date(a: &mut Apps)
    ensures
        remembers_date(final(a)),
        wm_of(final(a)) == wm_of(old(a)),
        final(a).time == old(a).time,
        final(a).clock == old(a).clock,
        final(a).calc == old(a).calc,
        final(a).calendar == old(a).calendar,
{
    let dt = crate::datetime::get(&a.time);
    a.last_cal_year = dt.year;
    a.last_cal_month = dt.month;
    a.last_cal_day = dt.day;
}

/// Starts the clock from the stored text (see `datetime::init`) and notes its date.
pub fn init(a: &mut Apps, stored: &[u8], now_ms: u64)
    requires
        apps_wf(old(a)),
    ensures
        apps_wf(final(a)),
        final(a).time.current == (if stored@.len() == 19 && spec_parse(stored@, false) is Some {
            spec_parse(stored@, false).unwrap()
        } else {
            old(a).time.current
        }),
        final(a).time.last_uptime_second == now_ms / 1000,
        remembers_date(final(a)),
        wm_of(final(a)) == wm_of(old(a)),
        final(a).clock == old(a).clock,
        final(a).calc == old(a).calc,
        final(a).calendar == old(a).calendar,
{
    crate::datetime::init(&mut a.time, stored, now_ms);
    proof {
        if stored@.len() == 19 && spec_parse(stored@, false) is Some {
            assert(valid_datetime(spec_parse(stored@, false).unwrap()));
        }
    }
    remember_calendar_date(a);
}

/// The text to store for the current date and time (see `datetime::save`).
pub fn save_time(a: &mut Apps) -> (text: Vec<u8>)
    requires
        apps_wf(old(a)),
        old(a).time.current.year <= 9999,
    ensures
        apps_wf(final(a)),
        text@ == spec_format(old(a).time.current).take(19),
        final(a).time.current == old(a).time.current,
        !final(a).time.save_pending,
        wm_of(final(a)) == wm_of(old(a)),
{
    crate::datetime::save(&mut a.time)
}


/// Opens window `app` on a `screen_width` by `screen_height` screen: shows it, moves it
/// to its start place when it would not fit, focuses and raises it, resets its
/// application when it was hidden, and redraws it.
pub fn open(a: &mut Apps, app: usize, screen_width: u32, screen_height: u32, ops: &mut Vec<DrawOp>)
    requires
        drawable(old(a)),
    ensures
        drawable(final(a)),
        app >= 3 ==> wm_of(final(a)) == wm_of(old(a)) && final(ops)@ == old(ops)@ && final(a).clock == old(a).clock
            && final(a).calc == old(a).calc && final(a).calendar == old(a).calendar,
        app < 3 ==> {
            let w = old(a).windows@[app as int];
            let nw = AppWindow {
                x: if w.x + WINDOW_WIDTH > screen_width { (10 + app * 24) as u32 } else { w.x },
                y: if w.y + WINDOW_HEIGHT > screen_height { (34 + app * 24) as u32 } else { w.y },
                visible: true,
            };
            &&& final(a).windows@ == old(a).windows@.update(app as int, nw)
            &&& final(a).z_order@ == spec_bring_front(old(a).z_order@, app as int)
            &&& final(a).focused == app as i8
            &&& final(a).dragged == old(a).dragged
            &&& final(a).drag_off_x == old(a).drag_off_x
            &&& final(a).drag_off_y == old(a).drag_off_y
            &&& (w.visible ==> final(a).clock == old(a).clock && final(a).calc == old(a).calc
                && final(a).calendar == old(a).calendar)
            &&& (!w.visible ==> app_state_opened(old(a), final(a), app as int))
            &&& ops_view(final(ops)@) == ops_view(old(ops)@) + redraw_ops(final(a), 2)
        },
        final(a).time == old(a).time,
        final(a).last_cal_year == old(a).last_cal_year,
        final(a).last_cal_month == old(a).last_cal_month,
        final(a).last_cal_day == old(a).last_cal_day,
{
    if app >= APP_COUNT {
        return ;
    }
    let was_visible = a.windows[app].visible;
    let mut w = a.windows[app];
    assert(window_fits(a.windows@[app as int]));
    w.visible = true;
    if w.x + WINDOW_WIDTH > screen_width {
        w.x = 10 + app as u32 * 24;
    }
    if w.y + WINDOW_HEIGHT > screen_height {
        w.y = 34 + app as u32 * 24;
    }
    a.windows.set(app, w);
    a.focused = app as i8;
    bring_to_front(a, app);
    if !was_visible {
        open_app_state(a, app);
    }
    let idx = z_index_of(a, app);
    proof {
        assert(idx == 2);
    }
    redraw_from_z_index(a, idx, ops);
}

/// What opening application `app` does to its state.
pub open spec fn app_state_opened(o: &Apps, n: &Apps, app: int) -> bool {
    &&& (app == 0 ==> !n.clock.editing && n.clock.input@.len() == 0 && n.clock.message
        == crate::clock::ClockMessage::Empty)
    &&& (app != 0 ==> n.clock == o.clock)
    &&& (app == 1 ==> n.calc.input@.len() == 0 && !n.calc.has_left && n.calc.message
        == crate::calc::CalcMessage::Empty && n.calc.left == o.calc.left && n.calc.op == o.calc.op)
    &&& (app != 1 ==> n.calc == o.calc)
    &&& (app == 2 ==> !n.calendar.editing && n.calendar.input@.len() == 0 && n.calendar.message
        == crate::calendar::CalendarMessage::Empty)
    &&& (app != 2 ==> n.calendar == o.calendar)
}

/// Handles a mouse event at (`point_x`, `point_y`) on a `screen_width` by
/// `screen_height` screen; returns whether the event was taken, and sets
/// `redraw_required` when the windows need redrawing (see `spec_handle_mouse`).
pub fn handle_mouse(
    a: &mut Apps,
    point_x: i32,
    point_y: i32,
    buttons: u8,
    pressed: bool,
    released: bool,
    screen_width: u32,
    screen_height: u32,
    redraw_required: &mut bool,
) -> (taken: bool)
    requires
        apps_wf(old(a)),
    ensures
        apps_wf(final(a)),
        ({
            let (st, t, r) = spec_handle_mouse(
                wm_of(old(a)),
                point_x,
                point_y,
                buttons,
                pressed,
                released,
                screen_width,
                screen_height,
            );
            &&& wm_of(final(a)) == st
            &&& taken == t
            &&& *final(redraw_required) == r
        }),
        final(a).time == old(a).time,
        final(a).clock == old(a).clock,
        final(a).calc == old(a).calc,
        final(a).calendar == old(a).calendar,
        final(a).last_cal_year == old(a).last_cal_year,
        final(a).last_cal_month == old(a).last_cal_month,
        final(a).last_cal_day == old(a).last_cal_day,
{
    let ghost st0 = wm_of(a);
    let target = top_window_at(a, point_x, point_y);
    let dragged0 = a.dragged;
    let captured = dragged0 >= 0 || target >= 0;
    *redraw_required = false;
    let ghost mut st1 = st0;
    if pressed && target >= 0 {
        let app = target as usize;
        a.focused = target;
        if bring_to_front(a, app) {
            *redraw_required = true;
        }
        let w = a.windows[app];
        assert(window_fits(a.windows@[app as int]));
        if point_inside(point_x, point_y, w.x + WINDOW_WIDTH - 27, w.y + 6, 18, 18) {
            let mut nw = w;
            nw.visible = false;
            a.windows.set(app, nw);
            a.focused = top_visible_window(a);
            a.dragged = -1;
            *redraw_required = true;
            proof {
                assert(a.windows@ =~= st0.windows.update(target as int, AppWindow { visible: false, ..w }));
            }
            return true;
        }
        if point_inside(point_x, point_y, w.x, w.y, WINDOW_WIDTH, TITLE_BAR_HEIGHT) {
            a.dragged = target;
            a.drag_off_x = point_x.wrapping_sub(w.x as i32);
            a.drag_off_y = point_y.wrapping_sub(w.y as i32);
        }
        proof {
            st1 = wm_of(a);
        }
    }
    let ghost raised = pressed && target >= 0 && *redraw_required;
    let dragged = a.dragged;
    proof {
        assert((buttons & 1 != 0) == (buttons % 2 == 1)) by (bit_vector);
    }
    if dragged >= 0 && (buttons & 1) != 0 {
        let app = dragged as usize;
        let next_x = point_x.wrapping_sub(a.drag_off_x);
        let next_y = point_y.wrapping_sub(a.drag_off_y);
        let maximum_x: i32 = if screen_width > WINDOW_WIDTH {
            (screen_width - WINDOW_WIDTH) as i32
        } else {
            0
        };
        let mut maximum_y: i32 = if screen_height > WINDOW_HEIGHT {
            (screen_height - WINDOW_HEIGHT) as i32
        } else {
            28
        };
        if maximum_y < 28 {
            maximum_y = 28;
        }
        let mut nx = next_x;
        let mut ny = next_y;
        if nx < 0 {
            nx = 0;
        }
        if ny < 28 {
            ny = 28;
        }
        if nx > maximum_x {
            nx = maximum_x;
        }
        if ny > maximum_y {
            ny = maximum_y;
        }
        let w = a.windows[app];
        if nx as u32 != w.x || ny as u32 != w.y {
            let mut nw = w;
            nw.x = nx as u32;
            nw.y = ny as u32;
            proof {
                let v = (screen_width - WINDOW_WIDTH) as u32;
                assert(((v as i32) as u32) == v) by (bit_vector);
                assert(nw.x <= u32::MAX - WINDOW_WIDTH);
                assert(nw.y <= u32::MAX - WINDOW_HEIGHT);
            }
            a.windows.set(app, nw);
            *redraw_required = true;
        }
        return true;
    }
    if released && dragged >= 0 {
        a.dragged = -1;
        return true;
    }
    captured
}


/// The stacking position from which a handled key redraws: the key's window, or the
/// calendar's when the date changed, it is shown and it lies lower.
pub open spec fn key_redraw_from(n: &Apps, app: int, date_changed: bool) -> int {
    let p = spec_z_pos(n.z_order@, app);
    if date_changed && n.windows@[2].visible {
        min_pos(p, spec_z_pos(n.z_order@, 2))
    } else {
        p
    }
}

/// Handles a key for the application with the keyboard (see `key_target`, which also
/// becomes the focused one): the clock, the calculator or the calendar takes it as
/// its own `handle_key` says; a taken key redraws that window (and the calendar when
/// the date changed) and notes the date. False when no window is shown or the key is
/// not taken.
pub fn handle_key(a: &mut Apps, key: u8, now_ms: u64, ops: &mut Vec<DrawOp>) -> (handled: bool)
    requires
        drawable(old(a)),
        key_target(old(a)) == 1 && evaluates(&old(a).calc, key) ==> !overflowing_division(
            old(a).calc.left,
            old(a).calc.op,
            parse_value(old(a).calc.input@),
        ),
    ensures
        drawable(final(a)),
        final(a).focused == key_target(old(a)) as i8,
        final(a).windows@ == old(a).windows@,
        final(a).z_order@ == old(a).z_order@,
        final(a).dragged == old(a).dragged,
        final(a).drag_off_x == old(a).drag_off_x,
        final(a).drag_off_y == old(a).drag_off_y,
        key_target(old(a)) < 0 ==> !handled && final(a).time == old(a).time && final(a).clock == old(a).clock
            && final(a).calc == old(a).calc && final(a).calendar == old(a).calendar,
        key_target(old(a)) == 0 ==> crate::clock::clock_key_post(&old(a).clock, &final(a).clock, &old(a).time, &final(a).time, key, now_ms, handled)
            && final(a).calc == old(a).calc && final(a).calendar == old(a).calendar,
        key_target(old(a)) == 1 ==> handled && crate::calc::calc_key_post(&old(a).calc, &final(a).calc, key)
            && final(a).time == old(a).time && final(a).clock == old(a).clock && final(a).calendar == old(a).calendar,
        key_target(old(a)) == 2 ==> crate::calendar::calendar_key_post(&old(a).calendar, &final(a).calendar, &old(a).time, &final(a).time, key, now_ms, handled)
            && final(a).calc == old(a).calc && final(a).clock == old(a).clock,
        handled ==> remembers_date(final(a)) && ops_view(final(ops)@) == ops_view(old(ops)@) + redraw_ops(
            final(a),
            key_redraw_from(final(a), key_target(old(a)), date_differs(old(a).time.current, final(a).time.current)),
        ),
        !handled ==> final(ops)@ == old(ops)@ && final(a).last_cal_year == old(a).last_cal_year
            && final(a).last_cal_month == old(a).last_cal_month && final(a).last_cal_day == old(a).last_cal_day,
{
    let mut focused = a.focused;
    if !valid_app(focused as i32) || !a.windows[focused as usize].visible {
        focused = top_visible_window(a);
        a.focused = focused;
    }
    if !valid_app(focused as i32) {
        return false;
    }
    let app = focused as usize;
    let before = crate::datetime::get(&a.time);
    let handled = if app == APP_CLOCK {
        crate::clock::handle_key(&mut a.clock, &mut a.time, key, now_ms)
    } else if app == APP_CALCULATOR {
        crate::calc::handle_key(&mut a.calc, key)
    } else {
        crate::calendar::handle_key(&mut a.calendar, &mut a.time, key, now_ms)
    };
    proof {
        if app == APP_CLOCK || app == APP_CALENDAR {
            assert(a.time.current.year <= 9999);
        }
    }
    if !handled {
        return false;
    }
    let after = crate::datetime::get(&a.time);
    let date_changed = after.year != before.year || after.month != before.month || after.day != before.day;
    let mut first_redraw = z_index_of(a, app);
    if date_changed && a.windows[APP_CALENDAR].visible {
        let calendar_index = z_index_of(a, APP_CALENDAR);
        if calendar_index < first_redraw {
            first_redraw = calendar_index;
        }
    }
    remember_calendar_date(a);
    redraw_from_z_index(a, first_redraw, ops);
    true
}

/// The stacking position from which a clock tick redraws: the clock's window when
/// shown, and the calendar's when the date changed and it is shown, whichever is
/// lower; 3 for no redraw.
pub open spec fn tick_redraw_from(n: &Apps, date_changed: bool) -> int {
    let c = if n.windows@[0].visible { spec_z_pos(n.z_order@, 0) } else { 3 };
    if date_changed && n.windows@[2].visible {
        min_pos(c, spec_z_pos(n.z_order@, 2))
    } else {
        c
    }
}

/// Seconds the clock will advance to reach uptime `now_ms`.
pub open spec fn pending_seconds(t: Clock, now_ms: u64) -> nat {
    if now_ms / 1000 > t.last_uptime_second {
        (now_ms / 1000 - t.last_uptime_second) as nat
    } else {
        0
    }
}

/// Whether key `key` would make the calculator, holding the keyboard, divide the
/// smallest number by -1, which it cannot do.
pub fn key_overflows(a: &Apps, key: u8) -> (r: bool)
    requires
        apps_wf(a),
    ensures
        r == (key_target(a) == 1 && evaluates(&a.calc, key) && overflowing_division(
            a.calc.left,
            a.calc.op,
            parse_value(a.calc.input@),
        )),
{
    let target: i8 = if a.focused >= 0 && a.focused < 3 && a.windows[a.focused as usize].visible {
        a.focused
    } else {
        top_visible_window(a)
    };
    if target != 1 {
        return false;
    }
    let c = &a.calc;
    let is_operator = key == 43 || key == 45 || key == 42 || key == 47;
    let evaluates = !(key == 99 || key == 67) && !(key >= 48 && key <= 57) && !(is_operator && c.input.len() > 0)
        && (key == 10 || key == 13 || key == 61) && c.has_left && c.input.len() > 0;
    if !evaluates || c.op != 47 || c.left != i64::MIN {
        return false;
    }
    crate::calc::parse_input(c) == -1
}

/// Whether advancing the clock to uptime `now_ms` redraws a window: time passes, and
/// the clock's window is shown or the date moves off the one the calendar noted while
/// its window is shown.
pub open spec fn tick_redraws(a: &Apps, now_ms: u64) -> bool {
    let n = pending_seconds(a.time, now_ms);
    let d = advance_n(a.time.current, n);
    let changed = a.last_cal_year != d.year || a.last_cal_month != d.month || a.last_cal_day != d.day;
    n > 0 && tick_redraw_from(a, changed) < 3
}

/// Whether the clock can be advanced to uptime `now_ms` with its year staying within
/// 16 bits, and within the four digits of the date format when a window showing it is
/// redrawn.
pub fn update_fits(a: &Apps, now_ms: u64) -> (r: bool)
    requires
        apps_wf(a),
    ensures
        r == (steps_ok(a.time.current, pending_seconds(a.time, now_ms)) && (tick_redraws(a, now_ms)
            ==> advance_n(a.time.current, pending_seconds(a.time, now_ms)).year <= 9999)),
{
    if !crate::datetime::can_update(&a.time, now_ms) {
        return false;
    }
    let mut probe = Clock {
        current: a.time.current,
        last_uptime_second: a.time.last_uptime_second,
        save_pending: false,
    };
    let moved = crate::datetime::update(&mut probe, now_ms);
    if probe.current.year <= 9999 || !moved {
        return true;
    }
    let d = probe.current;
    let changed = d.year != a.last_cal_year || d.month != a.last_cal_month || d.day != a.last_cal_day;
    let clock_shown = a.windows[APP_CLOCK].visible;
    let calendar_redrawn = changed && a.windows[APP_CALENDAR].visible;
    proof {
        assert(spec_z_pos(a.z_order@, 0) < 3 && spec_z_pos(a.z_order@, 2) < 3);
    }
    !(clock_shown || calendar_redrawn)
}

/// Advances the clock to uptime `now_ms`; when it moved, redraws the clock window and,
/// if the date changed since the calendar last noted it, the calendar window.
pub fn update(a: &mut Apps, now_ms: u64, ops: &mut Vec<DrawOp>)
    requires
        apps_wf(old(a)),
        steps_ok(old(a).time.current, pending_seconds(old(a).time, now_ms)),
        tick_redraws(old(a), now_ms) ==> advance_n(old(a).time.current, pending_seconds(old(a).time, now_ms)).year <= 9999,
    ensures
        apps_wf(final(a)),
        final(a).time.current == advance_n(old(a).time.current, pending_seconds(old(a).time, now_ms)),
        wm_of(final(a)) == wm_of(old(a)),
        final(a).clock == old(a).clock,
        final(a).calc == old(a).calc,
        final(a).calendar == old(a).calendar,
        pending_seconds(old(a).time, now_ms) == 0 ==> final(ops)@ == old(ops)@ && final(a).time == old(a).time
            && final(a).last_cal_year == old(a).last_cal_year && final(a).last_cal_month == old(a).last_cal_month
            && final(a).last_cal_day == old(a).last_cal_day,
        pending_seconds(old(a).time, now_ms) > 0 ==> {
            let changed = old(a).last_cal_year != final(a).time.current.year || old(a).last_cal_month
                != final(a).time.current.month || old(a).last_cal_day != final(a).time.current.day;
            let first = tick_redraw_from(final(a), changed);
            &&& remembers_date(final(a))
            &&& final(a).time.last_uptime_second == now_ms / 1000
            &&& ops_view(final(ops)@) == ops_view(old(ops)@) + if first < 3 {
                redraw_ops(final(a), first)
            } else {
                Seq::empty()
            }
        },
{
    proof {
        crate::datetime::lemma_advance_valid(a.time.current, pending_seconds(a.time, now_ms));
    }
    let time_changed = crate::datetime::update(&mut a.time, now_ms);
    if !time_changed {
        return ;
    }
    let datetime = crate::datetime::get(&a.time);
    let date_changed = datetime.year != a.last_cal_year || datetime.month != a.last_cal_month
        || datetime.day != a.last_cal_day;
    remember_calendar_date(a);
    let mut first_redraw: i8 = APP_COUNT as i8;
    let clock_index = z_index_of(a, APP_CLOCK);
    if a.windows[APP_CLOCK].visible && clock_index < first_redraw {
        first_redraw = clock_index;
    }
    let calendar_index = z_index_of(a, APP_CALENDAR);
    if date_changed && a.windows[APP_CALENDAR].visible && calendar_index < first_redraw {
        first_redraw = calendar_index;
    }
    if first_redraw < APP_COUNT as i8 {
        redraw_from_z_index(a, first_redraw, ops);
    } else {
        proof {
            assert(ops_view(ops@) =~= ops_view(old(ops)@) + Seq::<Op>::empty());
        }
    }
}

} // verus!
