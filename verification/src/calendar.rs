use vstd::prelude::*;
use crate::datetime::{days_in_month, parse, spec_days_in_month, spec_is_leap_year, spec_format, spec_parse, valid_datetime, Clock, Datetime};
use crate::display::{bytes_of, draw_rect, draw_text_sized, ops_view, str_bytes, DrawOp, Op};

verus! {

/// Room for the typed date, including one spare byte.
pub const INPUT_CAP: usize = 11;

/// The line under the calendar.
#[derive(Clone, Copy, Debug, PartialEq, Eq, Structural)]
pub enum CalendarMessage {
    Empty,
    EnterDate,
    Saved,
    Invalid,
}

/// The calendar window: whether a new date is being typed, the text typed so far,
/// and the message line.
pub struct CalendarApp {
    pub editing: bool,
    pub input: Vec<u8>,
    pub message: CalendarMessage,
}

/// The typed text holds at most 10 printable ASCII bytes.
pub open spec fn calendar_wf(s: &CalendarApp) -> bool {
    &&& s.input@.len() < INPUT_CAP
    &&& forall|i: int| 0 <= i < s.input@.len() ==> 32 <= #[trigger] s.input@[i] <= 126
}

/// Zeller's congruence, shifted so that the week starts on Sunday: the day of the
/// week (0 = Sunday, 1 = Monday, ..., 6 = Saturday), with January and February
/// counted as months 13 and 14 of the year before (year 0 before becomes 65535).
pub open spec fn spec_weekday(year: u16, month: u8, day: u8) -> int {
    let (m, y) = if month < 3 {
        (month + 12, if year == 0 { 65535int } else { year - 1 })
    } else {
        (month as int, year as int)
    };
    let yic = y % 100;
    let century = y / 100;
    (day + (13 * (m + 1)) / 5 + yic + yic / 4 + century / 4 + 5 * century + 6) % 7
}

/// The column (0 = Monday) of the first day of the month.
pub open spec fn first_column(year: u16, month: u8) -> int {
    let w = spec_weekday(year, month, 1);
    if w == 0 {
        6
    } else {
        w - 1
    }
}

/// The two characters of the grid cell in row `r`, column `c`: blank before the
/// first day and after the last, else the day number right-aligned.
pub open spec fn grid_cell(first: int, max_day: int, r: int, c: int) -> Seq<u8> {
    let n = r * 7 + c - first + 1;
    if (r == 0 && c < first) || n > max_day {
        seq![32u8, 32u8]
    } else {
        seq![if n >= 10 { (48 + n / 10) as u8 } else { 32u8 }, (48 + n % 10) as u8]
    }
}

/// The first `c` cells of grid row `r`, each followed by a space except the seventh.
pub open spec fn grid_line_upto(first: int, max_day: int, r: int, c: nat) -> Seq<u8>
    decreases c,
{
    if c == 0 {
        Seq::empty()
    } else {
        grid_line_upto(first, max_day, r, (c - 1) as nat) + grid_cell(first, max_day, r, c - 1) + if c - 1
            < 6 {
            seq![32u8]
        } else {
            Seq::empty()
        }
    }
}

/// The day number that opens row `r` (1 for the first row).
pub open spec fn row_start_day(first: int, r: int) -> int {
    if r == 0 {
        1
    } else {
        r * 7 - first + 1
    }
}

/// The text commands of the grid rows from row `r`: rows are drawn while fewer than
/// six are drawn and the row opens with a day of the month.
pub open spec fn grid_rows_ops(x: u32, y: u32, first: int, max_day: int, r: nat) -> Seq<Op>
    decreases 6 - r,
{
    if r >= 6 || row_start_day(first, r as int) > max_day {
        Seq::empty()
    } else {
        seq![
            Op::Text {
                x: (x + 42) as u32,
                y: (y + 124 + r * 15) as u32,
                text: grid_line_upto(first, max_day, r as int, 7),
                fg: 0xCDD6F4,
                bg: 0x1E1E2E,
                size: Some(8),
            },
        ] + grid_rows_ops(x, y, first, max_day, r + 1)
    }
}

pub open spec fn month_name_bytes(m: int) -> Seq<u8> {
    if m == 1 {
        str_bytes("January")
    } else if m == 2 {
        str_bytes("February")
    } else if m == 3 {
        str_bytes("March")
    } else if m == 4 {
        str_bytes("April")
    } else if m == 5 {
        str_bytes("May")
    } else if m == 6 {
        str_bytes("June")
    } else if m == 7 {
        str_bytes("July")
    } else if m == 8 {
        str_bytes("August")
    } else if m == 9 {
        str_bytes("September")
    } else if m == 10 {
        str_bytes("October")
    } else if m == 11 {
        str_bytes("November")
    } else {
        str_bytes("December")
    }
}

pub open spec fn calendar_message_bytes(m: CalendarMessage) -> Seq<u8> {
    match m {
        CalendarMessage::Empty => str_bytes(""),
        CalendarMessage::EnterDate => str_bytes("Enter date"),
        CalendarMessage::Saved => str_bytes("Saved to /purec/datetime.cfg"),
        CalendarMessage::Invalid => str_bytes("Invalid date"),
    }
}

/// The drawing of the month grid of `dt` in the window at (`x`, `y`).
pub open spec fn grid_ops(dt: Datetime, x: u32, y: u32) -> Seq<Op> {
    seq![
        Op::Text { x: (x + 42) as u32, y: (y + 108) as u32, text: str_bytes("Mo Tu We Th Fr Sa Su"), fg: 0x9399B2, bg: 0x1E1E2E, size: Some(8) },
    ] + grid_rows_ops(
        x,
        y,
        first_column(dt.year, dt.month),
        spec_days_in_month(dt.year as int, dt.month as int),
        0,
    )
}

/// The drawing of the calendar window at (`x`, `y`) for the date of `dt`.
pub open spec fn calendar_draw_ops(s: &CalendarApp, dt: Datetime, x: u32, y: u32) -> Seq<Op> {
    let head = seq![
        Op::Text { x: (x + 92) as u32, y: (y + 42) as u32, text: spec_format(dt).take(10), fg: 0xCDD6F4, bg: 0x1E1E2E, size: Some(14) },
        Op::Text { x: (x + 120) as u32, y: (y + 76) as u32, text: month_name_bytes(dt.month as int), fg: 0xF9E2AF, bg: 0x1E1E2E, size: Some(12) },
    ];
    let help = seq![
        Op::Text { x: (x + 22) as u32, y: (y + 222) as u32, text: str_bytes("Press E to set YYYY-MM-DD"), fg: 0x9399B2, bg: 0x1E1E2E, size: Some(8) },
    ];
    let edit = if s.editing {
        seq![
            Op::Rect { x: (x + 15) as u32, y: (y + 204) as u32, w: 330, h: 28, color: 0x313244 },
            Op::Text { x: (x + 22) as u32, y: (y + 213) as u32, text: s.input@, fg: 0xCDD6F4, bg: 0x1E1E2E, size: Some(8) },
        ]
    } else {
        Seq::empty()
    };
    head + grid_ops(dt, x, y) + help + edit + seq![
        Op::Text { x: (x + 18) as u32, y: (y + 244) as u32, text: calendar_message_bytes(s.message), fg: 0xA6E3A1, bg: 0x1E1E2E, size: Some(8) },
    ]
}

impl CalendarApp {
    pub fn new() -> (s: CalendarApp)
        ensures
            calendar_wf(&s),
            !s.editing,
            s.input@.len() == 0,
            s.message == CalendarMessage::Empty,
    {
        CalendarApp { editing: false, input: Vec::new(), message: CalendarMessage::Empty }
    }
}

/// Text in the window at offset (`ox`, `oy`) on the window background.
fn draw_text(ops: &mut Vec<DrawOp>, wx: u32, wy: u32, ox: u32, oy: u32, text: &[u8], color: u32, size: u32)
    requires
        wx + ox <= u32::MAX,
        wy + oy <= u32::MAX,
    ensures
        ops_view(final(ops)@) == ops_view(old(ops)@).push(
            Op::Text { x: (wx + ox) as u32, y: (wy + oy) as u32, text: text@, fg: color, bg: 0x1E1E2E, size: Some(size) },
        ),
{
    draw_text_sized(ops, wx + ox, wy + oy, text, color, 0x1E1E2E, size);
}

/// Day of the week by Zeller's congruence (0 = Sunday, 1 = Monday, ..., 6 = Saturday).
pub fn weekday(year: u16, month: u8, day: u8) -> (r: u8)
    requires
        month <= 12,
    ensures
        r == spec_weekday(year, month, day),
{
    let mut year = year;
    let mut month = month;
    if month < 3 {
        month = month + 12;
        year = year.wrapping_sub(1);
    }
    let yic = (year % 100) as u32;
    let century = (year / 100) as u32;
    ((day as u32 + (13 * (month as u32 + 1)) / 5 + yic + yic / 4 + century / 4 + 5 * century + 6)
        % 7) as u8
}

fn grid_row(first: u8, max_day: u8, row: u8, day: u8) -> (r: (Vec<u8>, u8))
    requires
        first <= 6,
        28 <= max_day <= 31,
        row < 6,
        day == row_start_day(first as int, row as int),
        day <= max_day,
    ensures
        r.0@ == grid_line_upto(first as int, max_day as int, row as int, 7),
        r.1 as int == if row_start_day(first as int, row as int + 1) <= max_day {
            row_start_day(first as int, row as int + 1)
        } else {
            max_day + 1
        },
{
    let mut line: Vec<u8> = Vec::new();
    let mut day = day;
    let mut column: u8 = 0;
    while column < 7
        invariant
            column <= 7,
            first <= 6,
            28 <= max_day <= 31,
            row < 6,
            line@ == grid_line_upto(first as int, max_day as int, row as int, column as nat),
            day as int == if (row == 0 && column <= first) {
                1
            } else if row * 7 + column - first + 1 <= max_day + 1 {
                row * 7 + column - first + 1
            } else {
                max_day + 1
            },
        decreases 7 - column,
    {
        if (row == 0 && column < first) || day > max_day {
            line.push(32);
            line.push(32);
        } else {
            line.push(if day >= 10 {
                48 + day / 10
            } else {
                32
            });
            line.push(48 + day % 10);
            day = day + 1;
        }
        if column < 6 {
            line.push(32);
        }
        proof {
            assert(line@ =~= grid_line_upto(first as int, max_day as int, row as int, (column + 1) as nat));
        }
        column = column + 1;
    }
    (line, day)
}

/// Draws the month grid of `dt` in the window at (`window_x`, `window_y`).
fn draw_grid(dt: Datetime, window_x: u32, window_y: u32, ops: &mut Vec<DrawOp>)
    requires
        valid_datetime(dt),
        window_x <= u32::MAX - 360,
        window_y <= u32::MAX - 270,
    ensures
        ops_view(final(ops)@) == ops_view(old(ops)@) + grid_ops(dt, window_x, window_y),
{
    let first_weekday = weekday(dt.year, dt.month, 1);
    let first_col: u8 = if first_weekday == 0 {
        6
    } else {
        first_weekday - 1
    };
    let maximum_day = days_in_month(dt.year, dt.month);
    let header = bytes_of("Mo Tu We Th Fr Sa Su");
    draw_text(ops, window_x, window_y, 42, 108, header.as_slice(), 0x9399B2, 8);
    let ghost start_ops = ops_view(ops@);
    let mut day: u8 = 1;
    let mut row: u8 = 0;
    while row < 6 && day <= maximum_day
        invariant
            row <= 6,
            first_col <= 6,
            first_col == first_column(dt.year, dt.month),
            maximum_day == spec_days_in_month(dt.year as int, dt.month as int),
            28 <= maximum_day <= 31,
            window_x <= u32::MAX - 360,
            window_y <= u32::MAX - 270,
            day as int == if row_start_day(first_col as int, row as int) <= maximum_day {
                row_start_day(first_col as int, row as int)
            } else {
                maximum_day + 1
            },
            start_ops + grid_rows_ops(window_x, window_y, first_col as int, maximum_day as int, 0)
                == ops_view(ops@) + grid_rows_ops(window_x, window_y, first_col as int, maximum_day as int, row as nat),
        decreases 6 - row,
    {
        let (line, next) = grid_row(first_col, maximum_day, row, day);
        let ghost before = ops_view(ops@);
        draw_text(ops, window_x, window_y, 42, 124 + row as u32 * 15, line.as_slice(), 0xCDD6F4, 8);
        proof {
            assert(grid_rows_ops(window_x, window_y, first_col as int, maximum_day as int, row as nat) =~= seq![
                Op::Text {
                    x: (window_x + 42) as u32,
                    y: (window_y + 124 + row * 15) as u32,
                    text: line@,
                    fg: 0xCDD6F4,
                    bg: 0x1E1E2E,
                    size: Some(8),
                },
            ] + grid_rows_ops(window_x, window_y, first_col as int, maximum_day as int, (row + 1) as nat));
            assert(ops_view(ops@) =~= before.push(Op::Text {
                    x: (window_x + 42) as u32,
                    y: (window_y + 124 + row * 15) as u32,
                    text: line@,
                    fg: 0xCDD6F4,
                    bg: 0x1E1E2E,
                    size: Some(8),
                }));
            assert(ops_view(ops@) + grid_rows_ops(window_x, window_y, first_col as int, maximum_day as int, (row + 1) as nat)
                =~= before + grid_rows_ops(window_x, window_y, first_col as int, maximum_day as int, row as nat));
        }
        day = next;
        row = row + 1;
    }
    proof {
        assert(grid_rows_ops(window_x, window_y, first_col as int, maximum_day as int, row as nat) =~= Seq::<Op>::empty());
        assert(ops_view(ops@) =~= start_ops + grid_rows_ops(window_x, window_y, first_col as int, maximum_day as int, 0));
    }
}

fn month_name(m: u8) -> (r: Vec<u8>)
    ensures
        r@ == month_name_bytes(m as int),
{
    if m == 1 {
        bytes_of("January")
    } else if m == 2 {
        bytes_of("February")
    } else if m == 3 {
        bytes_of("March")
    } else if m == 4 {
        bytes_of("April")
    } else if m == 5 {
        bytes_of("May")
    } else if m == 6 {
        bytes_of("June")
    } else if m == 7 {
        bytes_of("July")
    } else if m == 8 {
        bytes_of("August")
    } else if m == 9 {
        bytes_of("September")
    } else if m == 10 {
        bytes_of("October")
    } else if m == 11 {
        bytes_of("November")
    } else {
        bytes_of("December")
    }
}

/// Leaves editing and clears the typed text and the message.
pub fn open(s: &mut CalendarApp)
    ensures
        calendar_wf(final(s)),
        !final(s).editing,
        final(s).input@.len() == 0,
        final(s).message == CalendarMessage::Empty,
{
    s.editing = false;
    s.message = CalendarMessage::Empty;
    s.input.clear();
}

/// Draws the calendar window at (`window_x`, `window_y`) for the date of `time`.
pub fn draw(s: &CalendarApp, time: &Clock, window_x: u32, window_y: u32, ops: &mut Vec<DrawOp>)
    requires
        calendar_wf(s),
        valid_datetime(time.current),
        time.current.year <= 9999,
        window_x <= u32::MAX - 360,
        window_y <= u32::MAX - 270,
    ensures
        ops_view(final(ops)@) == ops_view(old(ops)@) + calendar_draw_ops(s, time.current, window_x, window_y),
{
    let dt = time.current;
    let text = crate::datetime::format(&dt);
    let mut date: Vec<u8> = Vec::new();
    let mut i: usize = 0;
    while i < 10
        invariant
            i <= 10,
            text@.len() == 20,
            date@ == text@.take(i as int),
        decreases 10 - i,
    {
        date.push(text[i]);
        i = i + 1;
        proof {
            assert(date@ =~= text@.take(i as int));
        }
    }
    let ghost o0 = ops_view(ops@);
    draw_text(ops, window_x, window_y, 92, 42, date.as_slice(), 0xCDD6F4, 14);
    let name = month_name(dt.month);
    draw_text(ops, window_x, window_y, 120, 76, name.as_slice(), 0xF9E2AF, 12);
    let ghost o1 = ops_view(ops@);
    draw_grid(dt, window_x, window_y, ops);
    let ghost o2 = ops_view(ops@);
    let help = bytes_of("Press E to set YYYY-MM-DD");
    draw_text(ops, window_x, window_y, 22, 222, help.as_slice(), 0x9399B2, 8);
    if s.editing {
        draw_rect(ops, window_x + 15, window_y + 204, 330, 28, 0x313244);
        draw_text(ops, window_x, window_y, 22, 213, s.input.as_slice(), 0xCDD6F4, 8);
    }
    let msg = match s.message {
        CalendarMessage::Empty => bytes_of(""),
        CalendarMessage::EnterDate => bytes_of("Enter date"),
        CalendarMessage::Saved => bytes_of("Saved to /purec/datetime.cfg"),
        CalendarMessage::Invalid => bytes_of("Invalid date"),
    };
    draw_text(ops, window_x, window_y, 18, 244, msg.as_slice(), 0xA6E3A1, 8);
    proof {
        assert(ops_view(ops@) =~= ops_view(old(ops)@) + calendar_draw_ops(s, time.current, window_x, window_y));
    }
}

/// What a key does to the window and the clock (see `handle_key`).
pub open spec fn calendar_key_post(o: &CalendarApp, n: &CalendarApp, ot: &Clock, nt: &Clock, key: u8, now_ms: u64, handled: bool) -> bool {
    &&& (calendar_wf(n))
    &&& (handled == (o.editing || key == 101 || key == 69))
    &&& (!o.editing ==> (handled ==> n.editing && n.message == CalendarMessage::EnterDate
            && n.input@.len() == 0) && (!handled ==> n.editing == o.editing
            && n.input@ == o.input@ && n.message == o.message))
    &&& (o.editing && key == 27 ==> !n.editing && n.input@ == o.input@
            && n.message == o.message)
    &&& (o.editing && key != 27 && (key == 8 || key == 127) && o.input@.len() > 0 ==>
            n.editing && n.input@ == o.input@.drop_last() && n.message == o.message)
    &&& (o.editing && key != 27 && !((key == 8 || key == 127) && o.input@.len() > 0)
            && (key == 10 || key == 13) ==> match spec_parse(o.input@, true) {
            Some(d) => !n.editing && n.message == CalendarMessage::Saved
                && nt.current == (Datetime {
                    hour: ot.current.hour,
                    minute: ot.current.minute,
                    second: ot.current.second,
                    ..d
                }) && nt.last_uptime_second == now_ms / 1000 && nt.save_pending
                && n.input@ == o.input@,
            None => n.editing && n.message == CalendarMessage::Invalid && n.input@ == o.input@,
        })
    &&& (o.editing && key != 27 && !((key == 8 || key == 127) && o.input@.len() > 0)
            && !(key == 10 || key == 13) ==> n.editing && n.message == o.message
            && n.input@ == if 32 <= key <= 126 && o.input@.len() + 1 < INPUT_CAP {
                o.input@.push(key)
            } else {
                o.input@
            })
    &&& (!(o.editing && key != 27 && !((key == 8 || key == 127) && o.input@.len() > 0)
            && (key == 10 || key == 13) && spec_parse(o.input@, true) is Some) ==> *nt == *ot)
}

/// Handles a key. Outside editing only E (starting an edit) is taken. While editing:
/// Escape stops, Backspace or Delete removes a byte, Enter sets the date to the typed
/// `YYYY-MM-DD` (keeping the time of day) when it is valid, and a printable byte is
/// typed while there is room.
pub fn handle_key(s: &mut CalendarApp, time: &mut Clock, key: u8, now_ms: u64) -> (handled: bool)
    requires
        calendar_wf(old(s)),
    ensures
        calendar_key_post(old(s), final(s), old(time), final(time), key, now_ms, handled),
{
    if !s.editing {
        if key != 101 && key != 69 {
            return false;
        }
        s.editing = true;
        s.message = CalendarMessage::EnterDate;
        s.input.clear();
        return true;
    }
    if key == 27 {
        s.editing = false;
        return true;
    }
    if (key == 8 || key == 127) && s.input.len() > 0 {
        s.input.pop();
        return true;
    }
    if key == 10 || key == 13 {
        match parse(s.input.as_slice(), true) {
            None => {
                s.message = CalendarMessage::Invalid;
                return true;
            },
            Some(parsed) => {
                let current = crate::datetime::get(time);
                let mut parsed = parsed;
                parsed.hour = current.hour;
                parsed.minute = current.minute;
                parsed.second = current.second;
                crate::datetime::set(time, &parsed, now_ms);
                s.message = CalendarMessage::Saved;
                s.editing = false;
                return true;
            },
        }
    }
    if key >= 32 && key <= 126 && s.input.len() + 1 < INPUT_CAP {
        s.input.push(key);
    }
    true
}

/// The calendar day after `day` of `month` of `year`, as (year, month, day).
pub open spec fn next_day(year: int, month: int, day: int) -> (int, int, int) {
    if day < spec_days_in_month(year, month) {
        (year, month, day + 1)
    } else if month < 12 {
        (year, month + 1, 1)
    } else {
        (year + 1, 1, 1)
    }
}

/// The Zeller terms of a year: its last two digits and its century.
spec fn year_terms(y: int) -> int {
    y % 100 + (y % 100) / 4 + (y / 100) / 4 + 5 * (y / 100)
}

/// From one year to the next the year terms advance by one, and by one more when
/// the later year is a leap year.
proof fn lemma_year_terms_step(y: int)
    requires
        1 <= y,
    ensures
        (year_terms(y) - year_terms(y - 1)) % 7 == if spec_is_leap_year(y) { 2int } else { 1int },
{
    let a = (y - 1) % 100;
    let c = (y - 1) / 100;
    assert(y - 1 == 100 * c + a);
    if a < 99 {
        assert(y % 100 == a + 1 && y / 100 == c);
        assert(y % 4 == (a + 1) % 4);
        assert(spec_is_leap_year(y) == ((a + 1) % 4 == 0));
    } else {
        assert(y % 100 == 0 && y / 100 == c + 1);
        assert(y % 400 == 0 <==> (c + 1) % 4 == 0);
        assert(spec_is_leap_year(y) == ((c + 1) % 4 == 0));
    }
}

/// The month term of Zeller's congruence, January and February counted as months
/// 13 and 14.
spec fn zeller_month(m: int) -> int {
    if m < 3 {
        (13 * (m + 13)) / 5
    } else {
        (13 * (m + 1)) / 5
    }
}

/// The year Zeller's congruence counts a month in: the year before for January and February.
spec fn zeller_year(y: int, m: int) -> int {
    if m < 3 {
        y - 1
    } else {
        y
    }
}

proof fn lemma_weekday_terms(year: u16, month: u8, day: u8)
    requires
        1 <= year,
        1 <= month <= 12,
    ensures
        spec_weekday(year, month, day) == (day + zeller_month(month as int) + year_terms(
            zeller_year(year as int, month as int),
        ) + 6) % 7,
{
}

/// Adding `a` rather than `b` to `x` moves the remainder by 7 one step on when `a`
/// exceeds `b` by one more than a multiple of 7.
proof fn lemma_mod_next(x: int, a: int, b: int)
    requires
        (a - b - 1) % 7 == 0,
    ensures
        (x + a) % 7 == ((x + b) % 7 + 1) % 7,
{
    vstd::arithmetic::div_mod::lemma_fundamental_div_mod(a - b - 1, 7);
    vstd::arithmetic::div_mod::lemma_fundamental_div_mod(x + b, 7);
    let k = (a - b - 1) / 7;
    let q = (x + b) / 7;
    let r = (x + b) % 7;
    assert(x + a == 7 * (q + k) + r + 1);
    if r + 1 < 7 {
        vstd::arithmetic::div_mod::lemma_fundamental_div_mod_converse(x + a, 7, q + k, r + 1);
    } else {
        vstd::arithmetic::div_mod::lemma_fundamental_div_mod_converse(x + a, 7, q + k + 1, 0);
    }
}

/// Every valid date falls on a day of the week from 0 to 6, and the calendar day
/// after it, across the ends of months and years too, falls on the next day of the week.
pub proof fn lemma_weekday_next_day(year: u16, month: u8, day: u8)
    requires
        1 <= year,
        1 <= month <= 12,
        1 <= day <= spec_days_in_month(year as int, month as int),
        next_day(year as int, month as int, day as int).0 <= 65535,
    ensures
        0 <= spec_weekday(year, month, day) < 7,
        ({
            let (y2, m2, d2) = next_day(year as int, month as int, day as int);
            spec_weekday(y2 as u16, m2 as u8, d2 as u8) == (spec_weekday(year, month, day) + 1) % 7
        }),
{
    let (y2, m2, d2) = next_day(year as int, month as int, day as int);
    let dim = spec_days_in_month(year as int, month as int);
    assert(1 <= y2 <= 65535 && 1 <= m2 <= 12 && 1 <= d2 <= 31);
    lemma_weekday_terms(year, month, day);
    lemma_weekday_terms(y2 as u16, m2 as u8, d2 as u8);
    let x = year_terms(zeller_year(year as int, month as int)) + 6;
    let x2 = year_terms(zeller_year(y2, m2)) + 6;
    let a = d2 + zeller_month(m2);
    let b = day + zeller_month(month as int);
    if (day as int) < dim {
        assert(x2 == x);
        lemma_mod_next(x, a, b);
    } else if month == 2 {
        lemma_year_terms_step(year as int);
        assert(zeller_month(2) == 39 && zeller_month(3) == 10);
        assert(x2 - x == year_terms(year as int) - year_terms(year - 1));
        let t = x2 - x;
        assert(t % 7 == dim - 27);
        assert((a + t - b - 1) % 7 == 0) by {
            vstd::arithmetic::div_mod::lemma_fundamental_div_mod(t, 7);
        }
        lemma_mod_next(x, a + t, b);
        assert(x2 + a == x + (a + t));
    } else {
        assert(x2 == x);
        assert(zeller_month(1) == 36 && zeller_month(2) == 39 && zeller_month(3) == 10 && zeller_month(4) == 13
            && zeller_month(5) == 15 && zeller_month(6) == 18 && zeller_month(7) == 20 && zeller_month(8) == 23
            && zeller_month(9) == 26 && zeller_month(10) == 28 && zeller_month(11) == 31 && zeller_month(12) == 33);
        lemma_mod_next(x, a, b);
    }
    assert(x2 + a == a + x2);
}

} // verus!
