use vstd::prelude::*;
use crate::apps::{point_inside, spec_inside};
use crate::display::{
    bytes_of, clear, draw_rect, draw_text, draw_text_sized, ops_view, str_bytes, DrawOp, Op,
};
use crate::personal::Colors;
use vstd::wrapping::i32_specs::wrapping_sub;

verus! {

pub const TOPBAR_HEIGHT: u32 = 28;
pub const ICON_Y: u32 = 48;
pub const ICON_W: u32 = 58;
pub const ICON_H: u32 = 72;
pub const DETACHED_CAP: usize = 8;
pub const ICON_SLOTS: usize = 12;
/// The icon of the installer, shown only while the system is not installed.
pub const INSTALLER_ICON: usize = 7;
/// Least time between two frames.
pub const DRAW_INTERVAL_MS: u64 = 33;
/// Least time between two launches.
pub const LAUNCH_INTERVAL_MS: u64 = 500;

/// The top-left corner of a desktop icon.
#[derive(Clone, Copy, Debug, PartialEq, Eq, Structural)]
pub struct Icon {
    pub x: u32,
    pub y: u32,
}

/// The state of the desktop shell.
pub struct Desktop {
    pub icons: Vec<Icon>,
    pub screen_w: u32,
    pub screen_h: u32,
    pub layout_ready: bool,
    pub installer_visible: bool,
    /// Process ids of the programs started from the desktop; 0 or less is a free slot.
    pub detached: Vec<i32>,
    pub prev_buttons: u8,
    pub power_menu: bool,
    /// The icon being dragged, -1 when none.
    pub dragged_icon: i8,
    pub drag_off_x: i32,
    pub drag_off_y: i32,
    pub last_draw_ms: u64,
    pub last_launch_ms: u64,
    pub icon_moved: bool,
}

/// What a launch asks for.
pub enum Launch {
    /// Too soon after the last launch: nothing.
    Wait,
    /// Start the program at this path.
    Program(Vec<u8>),
    /// Open the built-in application with this number.
    OpenApp(usize),
}

/// What a click on the open power menu chose.
#[derive(Clone, Copy, Debug, PartialEq, Eq, Structural)]
pub enum PowerChoice {
    Restart,
    PowerOff,
    /// The click fell outside both entries: the menu closes.
    Dismiss,
}

pub open spec fn initial_icons() -> Seq<Icon> {
    seq![
        Icon { x: 348, y: ICON_Y },
        Icon { x: 420, y: ICON_Y },
        Icon { x: 500, y: ICON_Y },
        Icon { x: 40, y: ICON_Y },
        Icon { x: 112, y: ICON_Y },
        Icon { x: 184, y: ICON_Y },
        Icon { x: 256, y: ICON_Y },
        Icon { x: 328, y: ICON_Y },
        Icon { x: 400, y: 130 },
        Icon { x: 472, y: 130 },
        Icon { x: 544, y: 130 },
        Icon { x: 40, y: 210 },
    ]
}

/// An icon whose box lies within the signed coordinate range.
pub open spec fn icon_fits(i: Icon) -> bool {
    i.x + ICON_W <= i32::MAX && i.y + ICON_H <= i32::MAX
}

pub open spec fn desktop_wf(d: &Desktop) -> bool {
    &&& d.icons@.len() == ICON_SLOTS
    &&& d.detached@.len() == DETACHED_CAP
    &&& -1 <= d.dragged_icon < ICON_SLOTS
    &&& forall|i: int| 0 <= i < ICON_SLOTS ==> icon_fits(#[trigger] d.icons@[i])
}

/// The icons placed for a screen `w` pixels wide: the program icons right of centre on
/// wide screens, and the application icons moved to a second row on narrow ones.
pub open spec fn laid_out(icons: Seq<Icon>, w: u32) -> Seq<Icon> {
    let x0: u32 = if w > 700 { 420 } else { (w - 212) as u32 };
    let row = icons.update(0, Icon { x: x0, y: icons[0].y }).update(1, Icon { x: (x0 + 72) as u32, y: icons[1].y }).update(
        2,
        Icon { x: (x0 + 144) as u32, y: icons[2].y },
    );
    let mid = if w <= 700 {
        row.update(6, Icon { x: row[6].x, y: 130 }).update(7, Icon { x: row[7].x, y: 130 })
    } else {
        row
    };
    if w <= 560 {
        mid.update(3, Icon { x: mid[3].x, y: 130 }).update(4, Icon { x: mid[4].x, y: 130 }).update(
            5,
            Icon { x: mid[5].x, y: 130 },
        )
    } else {
        mid
    }
}

/// Whether shown icon `i` holds the point.
pub open spec fn icon_hit(icons: Seq<Icon>, installer_visible: bool, px: i32, py: i32, i: int) -> bool {
    (i != INSTALLER_ICON || installer_visible) && spec_inside(px, py, icons[i].x, icons[i].y, ICON_W, ICON_H)
}

/// The first shown icon from `from` on that holds the point, -1 when none.
pub open spec fn first_icon_at(icons: Seq<Icon>, installer_visible: bool, px: i32, py: i32, from: int) -> int
    decreases ICON_SLOTS - from,
{
    if from < 0 || from >= ICON_SLOTS {
        -1
    } else if icon_hit(icons, installer_visible, px, py, from) {
        from
    } else {
        first_icon_at(icons, installer_visible, px, py, from + 1)
    }
}

/// The first free slot for a started program from `from` on, -1 when none.
pub open spec fn first_free_slot(slots: Seq<i32>, from: int) -> int
    decreases slots.len() - from,
{
    if from < 0 || from >= slots.len() {
        -1
    } else if slots[from] <= 0 {
        from
    } else {
        first_free_slot(slots, from + 1)
    }
}

/// Where a dragged icon goes: the pointer less the grab offset (in 32-bit wrapping
/// arithmetic), kept on the screen and below the top bar.
pub open spec fn drag_target(px: i32, py: i32, off_x: i32, off_y: i32, sw: u32, sh: u32) -> Icon {
    let nx0 = wrapping_sub(px, off_x);
    let nx1 = if nx0 < 0 { 0 } else { nx0 as int };
    let nx = if nx1 > sw - ICON_W { sw - ICON_W } else { nx1 };
    let ny0 = wrapping_sub(py, off_y);
    let ny1 = if ny0 < TOPBAR_HEIGHT { TOPBAR_HEIGHT as int } else { ny0 as int };
    let ny = if ny1 > sh - ICON_H { sh - ICON_H } else { ny1 };
    Icon { x: nx as u32, y: ny as u32 }
}

/// A dragged icon stays whole on the screen and below the top bar, on a screen at
/// least an icon wide and an icon and the top bar high.
pub proof fn lemma_drag_target_on_screen(px: i32, py: i32, off_x: i32, off_y: i32, sw: u32, sh: u32)
    requires
        ICON_W <= sw <= i32::MAX,
        TOPBAR_HEIGHT + ICON_H <= sh <= i32::MAX,
    ensures
        drag_target(px, py, off_x, off_y, sw, sh).x + ICON_W <= sw,
        TOPBAR_HEIGHT <= drag_target(px, py, off_x, off_y, sw, sh).y,
        drag_target(px, py, off_x, off_y, sw, sh).y + ICON_H <= sh,
{
}

/// The program started by icon `icon`; the application icons 3 to 5 start none.
pub open spec fn program_path(icon: int) -> Seq<u8> {
    if icon == 0 {
        str_bytes("/bin/program/files")
    } else if icon == 1 {
        str_bytes("/bin/program/monitor")
    } else if icon == 2 {
        str_bytes("/bin/program/terminal")
    } else if icon == 6 {
        str_bytes("/bin/program/settings")
    } else if icon == 7 {
        str_bytes("/bin/installer")
    } else if icon == 8 {
        str_bytes("/bin/program/disks")
    } else if icon == 9 {
        str_bytes("/bin/program/tetris")
    } else if icon == 10 {
        str_bytes("/bin/program/logview")
    } else {
        str_bytes("/bin/program/hexedit")
    }
}

pub open spec fn is_app_icon(icon: int) -> bool {
    3 <= icon <= 5
}

impl Desktop {
    /// The desktop before its first frame.
    pub fn new() -> (d: Desktop)
        ensures
            desktop_wf(&d),
            d.icons@ == initial_icons(),
            d.screen_w == 0,
            d.screen_h == 0,
            !d.layout_ready,
            d.installer_visible,
            forall|i: int| 0 <= i < DETACHED_CAP ==> d.detached@[i] == 0,
            d.prev_buttons == 0,
            !d.power_menu,
            d.dragged_icon == -1,
            d.drag_off_x == 0,
            d.drag_off_y == 0,
            d.last_draw_ms == 0,
            d.last_launch_ms == 0,
            !d.icon_moved,
    {
        let icons = vec![
            Icon { x: 348, y: ICON_Y },
            Icon { x: 420, y: ICON_Y },
            Icon { x: 500, y: ICON_Y },
            Icon { x: 40, y: ICON_Y },
            Icon { x: 112, y: ICON_Y },
            Icon { x: 184, y: ICON_Y },
            Icon { x: 256, y: ICON_Y },
            Icon { x: 328, y: ICON_Y },
            Icon { x: 400, y: 130 },
            Icon { x: 472, y: 130 },
            Icon { x: 544, y: 130 },
            Icon { x: 40, y: 210 },
        ];
        let detached = vec![0i32, 0, 0, 0, 0, 0, 0, 0];
        proof {
            assert(icons@ =~= initial_icons());
        }
        Desktop {
            icons,
            screen_w: 0,
            screen_h: 0,
            layout_ready: false,
            installer_visible: true,
            detached,
            prev_buttons: 0,
            power_menu: false,
            dragged_icon: -1,
            drag_off_x: 0,
            drag_off_y: 0,
            last_draw_ms: 0,
            last_launch_ms: 0,
            icon_moved: false,
        }
    }
}

/// Takes the screen size for a frame (1280 by 800 where the display reports 0) and
/// places the icons for it on the first frame.
pub fn layout(d: &mut Desktop, width: u32, height: u32)
    requires
        desktop_wf(old(d)),
        !old(d).layout_ready ==> width == 0 || width >= 212,
    ensures
        desktop_wf(final(d)),
        final(d).screen_w == if width == 0 { 1280 } else { width },
        final(d).screen_h == if height == 0 { 800 } else { height },
        final(d).layout_ready,
        final(d).icons@ == if old(d).layout_ready { old(d).icons@ } else { laid_out(old(d).icons@, final(d).screen_w) },
        final(d).installer_visible == old(d).installer_visible,
        final(d).detached@ == old(d).detached@,
        final(d).prev_buttons == old(d).prev_buttons,
        final(d).power_menu == old(d).power_menu,
        final(d).dragged_icon == old(d).dragged_icon,
        final(d).drag_off_x == old(d).drag_off_x,
        final(d).drag_off_y == old(d).drag_off_y,
        final(d).last_draw_ms == old(d).last_draw_ms,
        final(d).last_launch_ms == old(d).last_launch_ms,
        final(d).icon_moved == old(d).icon_moved,
{
    let w: u32 = if width == 0 {
        1280
    } else {
        width
    };
    let h: u32 = if height == 0 {
        800
    } else {
        height
    };
    d.screen_w = w;
    d.screen_h = h;
    if !d.layout_ready {
        let ghost before = d.icons@;
        let x0: u32 = if w > 700 {
            420
        } else {
            w - 212
        };
        let y0 = d.icons[0].y;
        d.icons.set(0, Icon { x: x0, y: y0 });
        let y1 = d.icons[1].y;
        d.icons.set(1, Icon { x: x0 + 72, y: y1 });
        let y2 = d.icons[2].y;
        d.icons.set(2, Icon { x: x0 + 144, y: y2 });
        if w <= 700 {
            let x6 = d.icons[6].x;
            d.icons.set(6, Icon { x: x6, y: 130 });
            let x7 = d.icons[7].x;
            d.icons.set(7, Icon { x: x7, y: 130 });
        }
        if w <= 560 {
            let x3 = d.icons[3].x;
            d.icons.set(3, Icon { x: x3, y: 130 });
            let x4 = d.icons[4].x;
            d.icons.set(4, Icon { x: x4, y: 130 });
            let x5 = d.icons[5].x;
            d.icons.set(5, Icon { x: x5, y: 130 });
        }
        d.layout_ready = true;
        proof {
            assert(d.icons@ =~= laid_out(before, w));
        }
    }
}

/// Whether a frame is due at `now_ms` (33 ms after the last one); when it is,
/// `now_ms` becomes the time of the last frame.
pub fn draw_due(d: &mut Desktop, now_ms: u64) -> (due: bool)
    requires
        now_ms >= old(d).last_draw_ms,
    ensures
        due == (now_ms - old(d).last_draw_ms >= DRAW_INTERVAL_MS),
        *final(d) == (if due { Desktop { last_draw_ms: now_ms, ..*old(d) } } else { *old(d) }),
{
    if now_ms - d.last_draw_ms < DRAW_INTERVAL_MS {
        return false;
    }
    d.last_draw_ms = now_ms;
    true
}

/// The first step of a mouse report: the edges of the left button, and a press on the
/// power button, which opens or closes the power menu. Returns (pressed, released,
/// consumed); a consumed report asks for a new frame.
pub fn mouse_begin(d: &mut Desktop, x: i32, y: i32, buttons: u8) -> (r: (bool, bool, bool))
    requires
        old(d).screen_w >= 38,
    ensures
        r.0 == ((buttons & 1) != 0 && (old(d).prev_buttons & 1) == 0),
        r.1 == ((buttons & 1) == 0 && (old(d).prev_buttons & 1) != 0),
        r.2 == (r.0 && spec_inside(x, y, (old(d).screen_w - 38) as u32, 3, 30, 22)),
        *final(d) == (Desktop { power_menu: old(d).power_menu != r.2, ..*old(d) }),
{
    let pressed = (buttons & 1) != 0 && (d.prev_buttons & 1) == 0;
    let released = (buttons & 1) == 0 && (d.prev_buttons & 1) != 0;
    let mut consumed = false;
    if pressed && point_inside(x, y, d.screen_w - 38, 3, 30, 22) {
        d.power_menu = !d.power_menu;
        consumed = true;
    }
    (pressed, released, consumed)
}

/// A press that nothing before took, while the power menu is open: restart, power off,
/// or close the menu. None when the menu does not see the press.
pub fn power_menu_click(d: &mut Desktop, x: i32, y: i32, pressed: bool, consumed: bool) -> (c: Option<PowerChoice>)
    requires
        pressed && !consumed && old(d).power_menu ==> old(d).screen_w >= 158,
    ensures
        !(pressed && !consumed && old(d).power_menu) ==> c is None && *final(d) == *old(d),
        pressed && !consumed && old(d).power_menu ==> {
            let mx = (old(d).screen_w - 158) as u32;
            if spec_inside(x, y, mx, 28, 150, 30) {
                c == Some(PowerChoice::Restart) && *final(d) == *old(d)
            } else if spec_inside(x, y, mx, 58, 150, 32) {
                c == Some(PowerChoice::PowerOff) && *final(d) == *old(d)
            } else {
                c == Some(PowerChoice::Dismiss) && *final(d) == (Desktop { power_menu: false, ..*old(d) })
            }
        },
{
    if !(pressed && !consumed && d.power_menu) {
        return None;
    }
    let menu_x = d.screen_w - 158;
    if point_inside(x, y, menu_x, 28, 150, 30) {
        Some(PowerChoice::Restart)
    } else if point_inside(x, y, menu_x, 58, 150, 32) {
        Some(PowerChoice::PowerOff)
    } else {
        d.power_menu = false;
        Some(PowerChoice::Dismiss)
    }
}

/// The first shown icon that holds the point, -1 when none.
pub fn icon_at(d: &Desktop, x: i32, y: i32) -> (r: i8)
    requires
        desktop_wf(d),
    ensures
        r == first_icon_at(d.icons@, d.installer_visible, x, y, 0),
{
    let mut index: usize = 0;
    while index < ICON_SLOTS
        invariant
            desktop_wf(d),
            index <= ICON_SLOTS,
            first_icon_at(d.icons@, d.installer_visible, x, y, 0) == first_icon_at(
                d.icons@,
                d.installer_visible,
                x,
                y,
                index as int,
            ),
        decreases ICON_SLOTS - index,
    {
        let icon = d.icons[index];
        assert(icon_fits(d.icons@[index as int]));
        if (index != INSTALLER_ICON || d.installer_visible) && point_inside(x, y, icon.x, icon.y, ICON_W, ICON_H) {
            return index as i8;
        }
        index = index + 1;
    }
    -1
}

/// A press that nothing before took starts dragging the first shown icon under the
/// pointer.
pub fn icon_press(d: &mut Desktop, x: i32, y: i32, pressed: bool, consumed: bool)
    requires
        desktop_wf(old(d)),
    ensures
        desktop_wf(final(d)),
        ({
            let hit = first_icon_at(old(d).icons@, old(d).installer_visible, x, y, 0);
            if pressed && !consumed && hit >= 0 {
                *final(d) == (Desktop {
                    dragged_icon: hit as i8,
                    drag_off_x: (x - old(d).icons@[hit].x) as i32,
                    drag_off_y: (y - old(d).icons@[hit].y) as i32,
                    icon_moved: false,
                    ..*old(d)
                })
            } else {
                *final(d) == *old(d)
            }
        }),
{
    if !(pressed && !consumed) {
        return;
    }
    let hit = icon_at(d, x, y);
    proof {
        lemma_first_icon_at_range(d.icons@, d.installer_visible, x, y, 0);
    }
    if hit < 0 {
        return;
    }
    let icon = d.icons[hit as usize];
    proof {
        lemma_first_icon_at_hits(d.icons@, d.installer_visible, x, y, 0);
        assert(icon_fits(d.icons@[hit as int]));
    }
    d.dragged_icon = hit;
    d.drag_off_x = x - icon.x as i32;
    d.drag_off_y = y - icon.y as i32;
    d.icon_moved = false;
}

pub proof fn lemma_first_icon_at_range(icons: Seq<Icon>, installer_visible: bool, px: i32, py: i32, from: int)
    requires
        0 <= from,
    ensures
        -1 <= first_icon_at(icons, installer_visible, px, py, from) < ICON_SLOTS,
        first_icon_at(icons, installer_visible, px, py, from) == -1 || first_icon_at(
            icons,
            installer_visible,
            px,
            py,
            from,
        ) >= from,
    decreases ICON_SLOTS - from,
{
    if from < ICON_SLOTS && !icon_hit(icons, installer_visible, px, py, from) {
        lemma_first_icon_at_range(icons, installer_visible, px, py, from + 1);
    }
}

pub proof fn lemma_first_icon_at_hits(icons: Seq<Icon>, installer_visible: bool, px: i32, py: i32, from: int)
    requires
        0 <= from,
    ensures
        first_icon_at(icons, installer_visible, px, py, from) >= 0 ==> icon_hit(
            icons,
            installer_visible,
            px,
            py,
            first_icon_at(icons, installer_visible, px, py, from),
        ),
    decreases ICON_SLOTS - from,
{
    if from < ICON_SLOTS && !icon_hit(icons, installer_visible, px, py, from) {
        lemma_first_icon_at_hits(icons, installer_visible, px, py, from + 1);
    }
}

/// While the left button is held, the dragged icon follows the pointer. Returns whether
/// it moved, which asks for a frame at once.
pub fn icon_drag(d: &mut Desktop, x: i32, y: i32, buttons: u8) -> (moved: bool)
    requires
        desktop_wf(old(d)),
        old(d).dragged_icon >= 0 && (buttons & 1) != 0 ==> {
            &&& ICON_W <= old(d).screen_w <= i32::MAX
            &&& ICON_H <= old(d).screen_h <= i32::MAX
        },
    ensures
        desktop_wf(final(d)),
        ({
            let i = old(d).dragged_icon as int;
            let t = drag_target(x, y, old(d).drag_off_x, old(d).drag_off_y, old(d).screen_w, old(d).screen_h);
            if i >= 0 && (buttons & 1) != 0 && t != old(d).icons@[i] {
                moved && final(d).icons@ == old(d).icons@.update(i, t) && final(d).icon_moved && *final(d) == (
                Desktop { icons: final(d).icons, icon_moved: true, ..*old(d) })
            } else {
                !moved && *final(d) == *old(d)
            }
        }),
{
    if !(d.dragged_icon >= 0 && (buttons & 1) != 0) {
        return false;
    }
    let i = d.dragged_icon as usize;
    let mut next_x: i32 = x.wrapping_sub(d.drag_off_x);
    let mut next_y: i32 = y.wrapping_sub(d.drag_off_y);
    if next_x < 0 {
        next_x = 0;
    }
    if next_x > d.screen_w as i32 - ICON_W as i32 {
        next_x = d.screen_w as i32 - ICON_W as i32;
    }
    if next_y < TOPBAR_HEIGHT as i32 {
        next_y = TOPBAR_HEIGHT as i32;
    }
    if next_y > d.screen_h as i32 - ICON_H as i32 {
        next_y = d.screen_h as i32 - ICON_H as i32;
    }
    let slot = d.icons[i];
    if next_x as u32 != slot.x || next_y as u32 != slot.y {
        let ghost before = d.icons@;
        d.icons.set(i, Icon { x: next_x as u32, y: next_y as u32 });
        d.icon_moved = true;
        proof {
            assert forall|j: int| 0 <= j < ICON_SLOTS implies icon_fits(#[trigger] d.icons@[j]) by {
                if j != i {
                    assert(d.icons@[j] == before[j]);
                }
            }
        }
        return true;
    }
    false
}

/// The last step of a mouse report: a release ends a drag, and an icon released
/// without moving is launched. Returns whether a frame is due and the icon to launch.
pub fn mouse_end(d: &mut Desktop, released: bool, buttons: u8) -> (r: (bool, Option<usize>))
    requires
        desktop_wf(old(d)),
    ensures
        desktop_wf(final(d)),
        released && old(d).dragged_icon >= 0 ==> {
            &&& r.0
            &&& r.1 == (if old(d).icon_moved { None } else { Some(old(d).dragged_icon as usize) })
            &&& *final(d) == (Desktop { dragged_icon: -1i8, prev_buttons: buttons, ..*old(d) })
        },
        !(released && old(d).dragged_icon >= 0) ==> {
            &&& !r.0
            &&& r.1 is None
            &&& *final(d) == (Desktop { prev_buttons: buttons, ..*old(d) })
        },
{
    let mut redraw = false;
    let mut launch_icon: Option<usize> = None;
    if released && d.dragged_icon >= 0 {
        let icon = d.dragged_icon as usize;
        let moved = d.icon_moved;
        d.dragged_icon = -1;
        if !moved {
            launch_icon = Some(icon);
        }
        redraw = true;
    }
    d.prev_buttons = buttons;
    (redraw, launch_icon)
}

/// What launching icon `icon` at `now_ms` does: nothing within 500 ms of the last
/// launch, else the icon's program or application.
pub fn launch(d: &mut Desktop, icon: usize, now_ms: u64) -> (l: Launch)
    requires
        icon < ICON_SLOTS,
        now_ms >= old(d).last_launch_ms,
    ensures
        now_ms - old(d).last_launch_ms < LAUNCH_INTERVAL_MS ==> l is Wait && *final(d) == *old(d),
        now_ms - old(d).last_launch_ms >= LAUNCH_INTERVAL_MS ==> {
            &&& *final(d) == (Desktop { last_launch_ms: now_ms, ..*old(d) })
            &&& is_app_icon(icon as int) ==> l == Launch::OpenApp((icon - 3) as usize)
            &&& !is_app_icon(icon as int) ==> (l matches Launch::Program(p) && p@ == program_path(icon as int))
        },
{
    if now_ms - d.last_launch_ms < LAUNCH_INTERVAL_MS {
        return Launch::Wait;
    }
    d.last_launch_ms = now_ms;
    if icon == 0 {
        Launch::Program(bytes_of("/bin/program/files"))
    } else if icon == 1 {
        Launch::Program(bytes_of("/bin/program/monitor"))
    } else if icon == 2 {
        Launch::Program(bytes_of("/bin/program/terminal"))
    } else if icon == 6 {
        Launch::Program(bytes_of("/bin/program/settings"))
    } else if icon == 7 {
        Launch::Program(bytes_of("/bin/installer"))
    } else if icon == 8 {
        Launch::Program(bytes_of("/bin/program/disks"))
    } else if icon == 9 {
        Launch::Program(bytes_of("/bin/program/tetris"))
    } else if icon == 10 {
        Launch::Program(bytes_of("/bin/program/logview"))
    } else if icon == 11 {
        Launch::Program(bytes_of("/bin/program/hexedit"))
    } else {
        Launch::OpenApp(icon - 3)
    }
}

/// The slot a started program would take: the first free one, None when all are taken
/// (then nothing is started).
pub fn free_detached_slot(d: &Desktop) -> (r: Option<usize>)
    requires
        desktop_wf(d),
    ensures
        r == (if first_free_slot(d.detached@, 0) >= 0 {
            Some(first_free_slot(d.detached@, 0) as usize)
        } else {
            None::<usize>
        }),
{
    let mut i: usize = 0;
    while i < DETACHED_CAP
        invariant
            desktop_wf(d),
            i <= DETACHED_CAP,
            first_free_slot(d.detached@, 0) == first_free_slot(d.detached@, i as int),
        decreases DETACHED_CAP - i,
    {
        if d.detached[i] <= 0 {
            return Some(i);
        }
        i = i + 1;
    }
    None
}

/// Notes the process started in `slot`; a failed start (negative id) leaves it free.
pub fn record_detached(d: &mut Desktop, slot: usize, pid: i32)
    requires
        desktop_wf(old(d)),
        slot < DETACHED_CAP,
    ensures
        desktop_wf(final(d)),
        final(d).detached@ == if pid >= 0 { old(d).detached@.update(slot as int, pid) } else { old(d).detached@ },
        *final(d) == (Desktop { detached: final(d).detached, ..*old(d) }),
{
    if pid >= 0 {
        d.detached.set(slot, pid);
    }
}

/// The program in `slot` has ended: the slot is free again, and the installer icon is
/// shown while the system is not installed.
pub fn detached_exited(d: &mut Desktop, slot: usize, install_present: bool)
    requires
        desktop_wf(old(d)),
        slot < DETACHED_CAP,
    ensures
        desktop_wf(final(d)),
        final(d).detached@ == old(d).detached@.update(slot as int, 0),
        *final(d) == (Desktop { detached: final(d).detached, installer_visible: !install_present, ..*old(d) }),
{
    d.detached.set(slot, 0);
    d.installer_visible = !install_present;
}

/// An application icon: a tile, a coloured square with a symbol, and a label below.
pub open spec fn app_icon_ops(ix: u32, iy: u32, symbol: Seq<u8>, label_text: Seq<u8>, color: u32, th: Colors, label: u32) -> Seq<Op> {
    seq![
        Op::Rect { x: ix, y: iy, w: ICON_W, h: 50, color: th.titlebar },
        Op::Rect { x: (ix + 8) as u32, y: (iy + 7) as u32, w: 42, h: 34, color },
        Op::Text { x: (ix + 17) as u32, y: (iy + 17) as u32, text: symbol, fg: 0x1E1E2E, bg: color, size: Some(12) },
        Op::Text { x: (ix + 4) as u32, y: (iy + 55) as u32, text: label_text, fg: th.text, bg: th.desktop, size: Some(label) },
    ]
}

/// The file manager icon: a folder.
pub open spec fn explorer_icon_ops(i: Icon, th: Colors, label: u32) -> Seq<Op> {
    seq![
        Op::Rect { x: i.x, y: i.y, w: ICON_W, h: 50, color: th.titlebar },
        Op::Rect { x: (i.x + 7) as u32, y: (i.y + 13) as u32, w: 44, h: 27, color: 0xF9E2AF },
        Op::Rect { x: (i.x + 10) as u32, y: (i.y + 9) as u32, w: 20, h: 8, color: 0xF9E2AF },
        Op::Rect { x: (i.x + 10) as u32, y: (i.y + 18) as u32, w: 38, h: 4, color: 0xFAB387 },
        Op::Text { x: (i.x + 7) as u32, y: (i.y + 55) as u32, text: str_bytes("Files"), fg: th.text, bg: th.desktop, size: Some(label) },
    ]
}

/// The system monitor icon: a screen.
pub open spec fn htop_icon_ops(i: Icon, th: Colors, label: u32) -> Seq<Op> {
    seq![
        Op::Rect { x: i.x, y: i.y, w: ICON_W, h: 50, color: th.titlebar },
        Op::Rect { x: (i.x + 7) as u32, y: (i.y + 8) as u32, w: 44, h: 30, color: th.window },
        Op::Text { x: (i.x + 9) as u32, y: (i.y + 55) as u32, text: str_bytes("HTOP"), fg: th.text, bg: th.desktop, size: Some(label) },
    ]
}

/// The terminal icon: a screen with a prompt.
pub open spec fn terminal_icon_ops(i: Icon, th: Colors, label: u32) -> Seq<Op> {
    seq![
        Op::Rect { x: i.x, y: i.y, w: ICON_W, h: 50, color: th.titlebar },
        Op::Rect { x: (i.x + 7) as u32, y: (i.y + 8) as u32, w: 44, h: 30, color: th.window },
        Op::Text { x: (i.x + 13) as u32, y: (i.y + 18) as u32, text: str_bytes(">_"), fg: 0xA6E3A1, bg: th.window, size: None },
        Op::Text { x: i.x, y: (i.y + 55) as u32, text: str_bytes("Terminal"), fg: th.text, bg: th.desktop, size: Some(label) },
    ]
}

/// All desktop icons in drawing order; the installer icon only while it is shown.
pub open spec fn icons_ops(icons: Seq<Icon>, installer_visible: bool, th: Colors, label: u32) -> Seq<Op> {
    let front = explorer_icon_ops(icons[0], th, label) + htop_icon_ops(icons[1], th, label) + terminal_icon_ops(
        icons[2],
        th,
        label,
    ) + app_icon_ops(icons[3].x, icons[3].y, str_bytes("12"), str_bytes("Clock"), 0x89DCEB, th, label)
        + app_icon_ops(icons[4].x, icons[4].y, str_bytes("+"), str_bytes("Calc"), 0xA6E3A1, th, label)
        + app_icon_ops(icons[5].x, icons[5].y, str_bytes("28"), str_bytes("Calendar"), 0xF9E2AF, th, label)
        + app_icon_ops(icons[6].x, icons[6].y, str_bytes("{}"), str_bytes("Settings"), 0x94E2D5, th, label);
    let installer = if installer_visible {
        app_icon_ops(icons[7].x, icons[7].y, str_bytes("OS"), str_bytes("Install"), 0xCBA6F7, th, label)
    } else {
        Seq::empty()
    };
    front + installer + app_icon_ops(icons[8].x, icons[8].y, str_bytes("HD"), str_bytes("Disks"), 0xF9E2AF, th, label)
        + app_icon_ops(icons[9].x, icons[9].y, str_bytes("[]"), str_bytes("Tetris"), 0xF38BA8, th, label)
        + app_icon_ops(icons[10].x, icons[10].y, str_bytes("LOG"), str_bytes("Logs"), 0x89B4FA, th, label)
        + app_icon_ops(icons[11].x, icons[11].y, str_bytes("HX"), str_bytes("HexEdit"), 0xF5C2E7, th, label)
}

/// The top of a frame: the background, the top bar and the system name.
pub open spec fn topbar_ops(w: u32, th: Colors) -> Seq<Op> {
    seq![
        Op::Clear { color: th.desktop },
        Op::Rect { x: 0, y: 0, w, h: TOPBAR_HEIGHT, color: th.titlebar },
        Op::Text { x: 12, y: 8, text: str_bytes("PureC OS"), fg: th.accent, bg: th.titlebar, size: None },
    ]
}

/// The power button at the right end of the top bar.
pub open spec fn power_button_ops(sw: u32, th: Colors) -> Seq<Op> {
    let x = (sw - 38) as u32;
    seq![
        Op::Rect { x, y: 3, w: 30, h: 22, color: th.border },
        Op::Text { x: (x + 7) as u32, y: 9, text: str_bytes("PWR"), fg: th.text, bg: th.border, size: None },
    ]
}

/// The power menu below the power button, when it is open.
pub open spec fn power_menu_ops(open: bool, sw: u32, th: Colors) -> Seq<Op> {
    if !open {
        Seq::empty()
    } else {
        let x = (sw - 158) as u32;
        seq![
            Op::Rect { x, y: 28, w: 150, h: 62, color: th.border },
            Op::Rect { x: (x + 2) as u32, y: 30, w: 146, h: 28, color: th.window },
            Op::Rect { x: (x + 2) as u32, y: 60, w: 146, h: 28, color: th.window },
            Op::Text { x: (x + 12) as u32, y: 39, text: str_bytes("Restart"), fg: th.text, bg: th.window, size: None },
            Op::Text { x: (x + 12) as u32, y: 69, text: str_bytes("Power off"), fg: th.danger, bg: th.window, size: None },
        ]
    }
}

/// Draws an application icon.
pub fn draw_app_icon(
    ops: &mut Vec<DrawOp>,
    ix: u32,
    iy: u32,
    symbol: &[u8],
    label_text: &[u8],
    color: u32,
    th: Colors,
    label: u32,
)
    requires
        icon_fits(Icon { x: ix, y: iy }),
    ensures
        ops_view(final(ops)@) == ops_view(old(ops)@) + app_icon_ops(ix, iy, symbol@, label_text@, color, th, label),
{
    draw_rect(ops, ix, iy, ICON_W, 50, th.titlebar);
    draw_rect(ops, ix + 8, iy + 7, 42, 34, color);
    draw_text_sized(ops, ix + 17, iy + 17, symbol, 0x1E1E2E, color, 12);
    draw_text_sized(ops, ix + 4, iy + 55, label_text, th.text, th.desktop, label);
    proof {
        assert(ops_view(final(ops)@) =~= ops_view(old(ops)@) + app_icon_ops(ix, iy, symbol@, label_text@, color, th, label));
    }
}

/// Draws the file manager icon.
pub fn draw_explorer_icon(d: &Desktop, th: Colors, label: u32, ops: &mut Vec<DrawOp>)
    requires
        desktop_wf(d),
    ensures
        ops_view(final(ops)@) == ops_view(old(ops)@) + explorer_icon_ops(d.icons@[0], th, label),
{
    let i = d.icons[0];
    assert(icon_fits(d.icons@[0]));
    draw_rect(ops, i.x, i.y, ICON_W, 50, th.titlebar);
    draw_rect(ops, i.x + 7, i.y + 13, 44, 27, 0xF9E2AF);
    draw_rect(ops, i.x + 10, i.y + 9, 20, 8, 0xF9E2AF);
    draw_rect(ops, i.x + 10, i.y + 18, 38, 4, 0xFAB387);
    let text = bytes_of("Files");
    draw_text_sized(ops, i.x + 7, i.y + 55, text.as_slice(), th.text, th.desktop, label);
    proof {
        assert(ops_view(final(ops)@) =~= ops_view(old(ops)@) + explorer_icon_ops(d.icons@[0], th, label));
    }
}

/// Draws the system monitor icon.
pub fn draw_htop_icon(d: &Desktop, th: Colors, label: u32, ops: &mut Vec<DrawOp>)
    requires
        desktop_wf(d),
    ensures
        ops_view(final(ops)@) == ops_view(old(ops)@) + htop_icon_ops(d.icons@[1], th, label),
{
    let i = d.icons[1];
    assert(icon_fits(d.icons@[1]));
    draw_rect(ops, i.x, i.y, ICON_W, 50, th.titlebar);
    draw_rect(ops, i.x + 7, i.y + 8, 44, 30, th.window);
    let text = bytes_of("HTOP");
    draw_text_sized(ops, i.x + 9, i.y + 55, text.as_slice(), th.text, th.desktop, label);
    proof {
        assert(ops_view(final(ops)@) =~= ops_view(old(ops)@) + htop_icon_ops(d.icons@[1], th, label));
    }
}

/// Draws the terminal icon.
pub fn draw_terminal_icon(d: &Desktop, th: Colors, label: u32, ops: &mut Vec<DrawOp>)
    requires
        desktop_wf(d),
    ensures
        ops_view(final(ops)@) == ops_view(old(ops)@) + terminal_icon_ops(d.icons@[2], th, label),
{
    let i = d.icons[2];
    assert(icon_fits(d.icons@[2]));
    draw_rect(ops, i.x, i.y, ICON_W, 50, th.titlebar);
    draw_rect(ops, i.x + 7, i.y + 8, 44, 30, th.window);
    let prompt = bytes_of(">_");
    draw_text(ops, i.x + 13, i.y + 18, prompt.as_slice(), 0xA6E3A1, th.window);
    let text = bytes_of("Terminal");
    draw_text_sized(ops, i.x, i.y + 55, text.as_slice(), th.text, th.desktop, label);
    proof {
        assert(ops_view(final(ops)@) =~= ops_view(old(ops)@) + terminal_icon_ops(d.icons@[2], th, label));
    }
}

fn draw_app_icon_at(
    d: &Desktop,
    index: usize,
    symbol: &str,
    label_text: &str,
    color: u32,
    th: Colors,
    label: u32,
    ops: &mut Vec<DrawOp>,
)
    requires
        desktop_wf(d),
        index < ICON_SLOTS,
    ensures
        ops_view(final(ops)@) == ops_view(old(ops)@) + app_icon_ops(
            d.icons@[index as int].x,
            d.icons@[index as int].y,
            str_bytes(symbol),
            str_bytes(label_text),
            color,
            th,
            label,
        ),
{
    let i = d.icons[index];
    assert(icon_fits(d.icons@[index as int]));
    let s = bytes_of(symbol);
    let t = bytes_of(label_text);
    draw_app_icon(ops, i.x, i.y, s.as_slice(), t.as_slice(), color, th, label);
}

/// Draws all desktop icons.
pub fn draw_icons(d: &Desktop, th: Colors, label: u32, ops: &mut Vec<DrawOp>)
    requires
        desktop_wf(d),
    ensures
        ops_view(final(ops)@) == ops_view(old(ops)@) + icons_ops(d.icons@, d.installer_visible, th, label),
{
    let ghost start = ops_view(old(ops)@);
    draw_explorer_icon(d, th, label, ops);
    draw_htop_icon(d, th, label, ops);
    draw_terminal_icon(d, th, label, ops);
    draw_app_icon_at(d, 3, "12", "Clock", 0x89DCEB, th, label, ops);
    draw_app_icon_at(d, 4, "+", "Calc", 0xA6E3A1, th, label, ops);
    draw_app_icon_at(d, 5, "28", "Calendar", 0xF9E2AF, th, label, ops);
    draw_app_icon_at(d, 6, "{}", "Settings", 0x94E2D5, th, label, ops);
    let ghost mid = ops_view(ops@);
    if d.installer_visible {
        draw_app_icon_at(d, 7, "OS", "Install", 0xCBA6F7, th, label, ops);
    }
    let ghost after = ops_view(ops@);
    draw_app_icon_at(d, 8, "HD", "Disks", 0xF9E2AF, th, label, ops);
    draw_app_icon_at(d, 9, "[]", "Tetris", 0xF38BA8, th, label, ops);
    draw_app_icon_at(d, 10, "LOG", "Logs", 0x89B4FA, th, label, ops);
    draw_app_icon_at(d, 11, "HX", "HexEdit", 0xF5C2E7, th, label, ops);
    proof {
        let icons = d.icons@;
        if !d.installer_visible {
            assert(after =~= mid + Seq::<Op>::empty());
        }
        assert(ops_view(final(ops)@) =~= start + icons_ops(icons, d.installer_visible, th, label));
    }
}

/// Draws the background, the top bar and the system name.
pub fn draw_topbar(d: &Desktop, th: Colors, ops: &mut Vec<DrawOp>)
    ensures
        ops_view(final(ops)@) == ops_view(old(ops)@) + topbar_ops(d.screen_w, th),
{
    clear(ops, th.desktop);
    draw_rect(ops, 0, 0, d.screen_w, TOPBAR_HEIGHT, th.titlebar);
    let name = bytes_of("PureC OS");
    draw_text(ops, 12, 8, name.as_slice(), th.accent, th.titlebar);
    proof {
        assert(ops_view(final(ops)@) =~= ops_view(old(ops)@) + topbar_ops(d.screen_w, th));
    }
}

/// Draws the power button.
pub fn draw_power_button(d: &Desktop, th: Colors, ops: &mut Vec<DrawOp>)
    requires
        d.screen_w >= 38,
    ensures
        ops_view(final(ops)@) == ops_view(old(ops)@) + power_button_ops(d.screen_w, th),
{
    let x = d.screen_w - 38;
    draw_rect(ops, x, 3, 30, 22, th.border);
    let text = bytes_of("PWR");
    draw_text(ops, x + 7, 9, text.as_slice(), th.text, th.border);
    proof {
        assert(ops_view(final(ops)@) =~= ops_view(old(ops)@) + power_button_ops(d.screen_w, th));
    }
}

/// Draws the power menu when it is open.
pub fn draw_power_menu(d: &Desktop, th: Colors, ops: &mut Vec<DrawOp>)
    requires
        d.power_menu ==> d.screen_w >= 158,
    ensures
        ops_view(final(ops)@) == ops_view(old(ops)@) + power_menu_ops(d.power_menu, d.screen_w, th),
{
    if !d.power_menu {
        proof {
            assert(ops_view(final(ops)@) =~= ops_view(old(ops)@) + Seq::<Op>::empty());
        }
        return;
    }
    let x = d.screen_w - 158;
    draw_rect(ops, x, 28, 150, 62, th.border);
    draw_rect(ops, x + 2, 30, 146, 28, th.window);
    draw_rect(ops, x + 2, 60, 146, 28, th.window);
    let restart = bytes_of("Restart");
    draw_text(ops, x + 12, 39, restart.as_slice(), th.text, th.window);
    let off = bytes_of("Power off");
    draw_text(ops, x + 12, 69, off.as_slice(), th.danger, th.window);
    proof {
        assert(ops_view(final(ops)@) =~= ops_view(old(ops)@) + power_menu_ops(d.power_menu, d.screen_w, th));
    }
}


/// What launching each icon slot does, over every slot: 0 starts the file manager,
/// 1 the system monitor, 2 the terminal, 6 the settings, 7 the installer, 8 the disk
/// tool, 9 tetris, 10 the log viewer and 11 the hex editor; 3, 4 and 5 start no
/// program and open the clock, calculator and calendar windows (application 0, 1, 2).
pub proof fn lemma_launch_table(icon: int)
    requires
        0 <= icon < ICON_SLOTS,
    ensures
        is_app_icon(icon) <==> (icon == 3 || icon == 4 || icon == 5),
        icon == 0 ==> program_path(icon) == str_bytes("/bin/program/files"),
        icon == 1 ==> program_path(icon) == str_bytes("/bin/program/monitor"),
        icon == 2 ==> program_path(icon) == str_bytes("/bin/program/terminal"),
        icon == 6 ==> program_path(icon) == str_bytes("/bin/program/settings"),
        icon == 7 ==> program_path(icon) == str_bytes("/bin/installer"),
        icon == 8 ==> program_path(icon) == str_bytes("/bin/program/disks"),
        icon == 9 ==> program_path(icon) == str_bytes("/bin/program/tetris"),
        icon == 10 ==> program_path(icon) == str_bytes("/bin/program/logview"),
        icon == 11 ==> program_path(icon) == str_bytes("/bin/program/hexedit"),
{
}

} // verus!
