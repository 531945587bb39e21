use vstd::prelude::*;
use crate::datetime::{parse, spec_format, spec_parse, valid_datetime, Clock};
use crate::display::{bytes_of, draw_rect, draw_text_sized, ops_view, str_bytes, DrawOp, Op};

verus! {

/// Room for the typed date and time, including one spare byte.
pub const INPUT_CAP: usize = 20;

/// The line under the clock.
#[derive(Clone, Copy, Debug, PartialEq, Eq, Structural)]
pub enum ClockMessage {
    Empty,
    EnterDateTime,
    Saved,
    Invalid,
}

/// The clock window: whether a new date and time is being typed, the text typed so
/// far, and the message line.
pub struct ClockApp {
    pub editing: bool,
    pub input: Vec<u8>,
    pub message: ClockMessage,
}

/// The typed text holds at most 19 printable ASCII bytes.
pub open spec fn clock_wf(s: &ClockApp) -> bool {
    &&& s.input@.len() < INPUT_CAP
    &&& forall|i: int| 0 <= i < s.input@.len() ==> 32 <= #[trigger] s.input@[i] <= 126
}

pub open spec fn clock_message_bytes(m: ClockMessage) -> Seq<u8> {
    match m {
        ClockMessage::Empty => str_bytes(""),
        ClockMessage::EnterDateTime => str_bytes("Enter full date and time"),
        ClockMessage::Saved => str_bytes("Saved to /purec/datetime.cfg"),
        ClockMessage::Invalid => str_bytes("Invalid date/time"),
    }
}

/// The drawing of the clock window at (`x`, `y`) showing `now_text` (the formatted time).
pub open spec fn clock_draw_ops(s: &ClockApp, now_text: Seq<u8>, x: u32, y: u32) -> Seq<Op> {
    let head = seq![
        Op::Text { x: (x + 28) as u32, y: (y + 70) as u32, text: now_text.take(19), fg: 0xCDD6F4, bg: 0x1E1E2E, size: Some(18) },
        Op::Text { x: (x + 22) as u32, y: (y + 130) as u32, text: str_bytes("Press E to set YYYY-MM-DD HH:MM:SS"), fg: 0x9399B2, bg: 0x1E1E2E, size: Some(8) },
    ];
    let edit = if s.editing {
        seq![
            Op::Rect { x: (x + 15) as u32, y: (y + 204) as u32, w: 330, h: 28, color: 0x313244 },
            Op::Text { x: (x + 22) as u32, y: (y + 213) as u32, text: s.input@, fg: 0xCDD6F4, bg: 0x1E1E2E, size: Some(8) },
        ]
    } else {
        Seq::empty()
    };
    head + edit + seq![
        Op::Text { x: (x + 18) as u32, y: (y + 244) as u32, text: clock_message_bytes(s.message), fg: 0xA6E3A1, bg: 0x1E1E2E, size: Some(8) },
    ]
}

impl ClockApp {
    pub fn new() -> (s: ClockApp)
        ensures
            clock_wf(&s),
            !s.editing,
            s.input@.len() == 0,
            s.message == ClockMessage::Empty,
    {
        ClockApp { editing: false, input: Vec::new(), message: ClockMessage::Empty }
    }
}

/// Text in the window at offset (`ox`, `oy`) on the window background.
fn draw_text(ops: &mut Vec<DrawOp>, wx: u32, wy: u32, ox: u32, oy: u32, text: &[u8], color: u32, size: u32)
    requires
        wx + ox <= u32::MAX,
        wy + oy <= u32::MAX,
    ensures
        ops_view(final(ops)@) == ops_view(old(ops)@).push(
            Op::Text { x: (wx + ox) as u32, y: (wy + oy) as u32, text: text@, fg: color, bg: 0x1E1E2E, size: Some(size) },
        ),
{
    draw_text_sized(ops, wx + ox, wy + oy, text, color, 0x1E1E2E, size);
}

/// Leaves editing and clears the typed text and the message.
pub fn open(s: &mut ClockApp)
    ensures
        clock_wf(final(s)),
        !final(s).editing,
        final(s).input@.len() == 0,
        final(s).message == ClockMessage::Empty,
{
    s.editing = false;
    s.message = ClockMessage::Empty;
    s.input.clear();
}

/// Draws the clock window at (`window_x`, `window_y`) for the time of `time`.
pub fn draw(s: &ClockApp, time: &Clock, window_x: u32, window_y: u32, ops: &mut Vec<DrawOp>)
    requires
        clock_wf(s),
        valid_datetime(time.current),
        time.current.year <= 9999,
        window_x <= u32::MAX - 360,
        window_y <= u32::MAX - 270,
    ensures
        ops_view(final(ops)@) == ops_view(old(ops)@) + clock_draw_ops(s, spec_format(time.current), window_x, window_y),
{
    let text = crate::datetime::format(&time.current);
    let mut shown: Vec<u8> = Vec::new();
    let mut i: usize = 0;
    while i < 19
        invariant
            i <= 19,
            text@.len() == 20,
            shown@ == text@.take(i as int),
        decreases 19 - i,
    {
        shown.push(text[i]);
        i = i + 1;
        proof {
            assert(shown@ =~= text@.take(i as int));
        }
    }
    draw_text(ops, window_x, window_y, 28, 70, shown.as_slice(), 0xCDD6F4, 18);
    let help = bytes_of("Press E to set YYYY-MM-DD HH:MM:SS");
    draw_text(ops, window_x, window_y, 22, 130, help.as_slice(), 0x9399B2, 8);
    if s.editing {
        draw_rect(ops, window_x + 15, window_y + 204, 330, 28, 0x313244);
        draw_text(ops, window_x, window_y, 22, 213, s.input.as_slice(), 0xCDD6F4, 8);
    }
    let msg = match s.message {
        ClockMessage::Empty => bytes_of(""),
        ClockMessage::EnterDateTime => bytes_of("Enter full date and time"),
        ClockMessage::Saved => bytes_of("Saved to /purec/datetime.cfg"),
        ClockMessage::Invalid => bytes_of("Invalid date/time"),
    };
    draw_text(ops, window_x, window_y, 18, 244, msg.as_slice(), 0xA6E3A1, 8);
    proof {
        assert(ops_view(ops@) =~= ops_view(old(ops)@) + clock_draw_ops(s, spec_format(time.current), window_x, window_y));
    }
}

/// What a key does to the window and the clock (see `handle_key`).
pub open spec fn clock_key_post(o: &ClockApp, n: &ClockApp, ot: &Clock, nt: &Clock, key: u8, now_ms: u64, handled: bool) -> bool {
    &&& (clock_wf(n))
    &&& (handled == (o.editing || key == 101 || key == 69))
    &&& (!o.editing ==> (handled ==> n.editing && n.message == ClockMessage::EnterDateTime
            && n.input@.len() == 0) && (!handled ==> n.editing == o.editing
            && n.input@ == o.input@ && n.message == o.message))
    &&& (o.editing && key == 27 ==> !n.editing && n.input@ == o.input@
            && n.message == o.message)
    &&& (o.editing && key != 27 && (key == 8 || key == 127) && o.input@.len() > 0 ==>
            n.editing && n.input@ == o.input@.drop_last() && n.message == o.message)
    &&& (o.editing && key != 27 && !((key == 8 || key == 127) && o.input@.len() > 0)
            && (key == 10 || key == 13) ==> match spec_parse(o.input@, false) {
            Some(dt) => !n.editing && n.message == ClockMessage::Saved && nt.current == dt
                && nt.last_uptime_second == now_ms / 1000 && nt.save_pending
                && n.input@ == o.input@,
            None => n.editing && n.message == ClockMessage::Invalid && n.input@ == o.input@,
        })
    &&& (o.editing && key != 27 && !((key == 8 || key == 127) && o.input@.len() > 0)
            && !(key == 10 || key == 13) ==> n.editing && n.message == o.message
            && n.input@ == if 32 <= key <= 126 && o.input@.len() + 1 < INPUT_CAP {
                o.input@.push(key)
            } else {
                o.input@
            })
    &&& (!(o.editing && key != 27 && !((key == 8 || key == 127) && o.input@.len() > 0)
            && (key == 10 || key == 13) && spec_parse(o.input@, false) is Some) ==> *nt == *ot)
}

/// Handles a key. Outside editing only E (starting an edit) is taken. While editing:
/// Escape stops, Backspace or Delete removes a byte, Enter sets the clock to the typed
/// `YYYY-MM-DD HH:MM:SS` when it is valid, and a printable byte is typed while there is room.
pub fn handle_key(s: &mut ClockApp, time: &mut Clock, key: u8, now_ms: u64) -> (handled: bool)
    requires
        clock_wf(old(s)),
    ensures
        clock_key_post(old(s), final(s), old(time), final(time), key, now_ms, handled),
{
    if !s.editing {
        if key != 101 && key != 69 {
            return false;
        }
        s.editing = true;
        s.message = ClockMessage::EnterDateTime;
        s.input.clear();
        return true;
    }
    if key == 27 {
        s.editing = false;
        return true;
    }
    if (key == 8 || key == 127) && s.input.len() > 0 {
        s.input.pop();
        return true;
    }
    if key == 10 || key == 13 {
        match parse(s.input.as_slice(), false) {
            Some(parsed) => {
                crate::datetime::set(time, &parsed, now_ms);
                s.message = ClockMessage::Saved;
                s.editing = false;
            },
            None => {
                s.message = ClockMessage::Invalid;
            },
        }
        return true;
    }
    if key >= 32 && key <= 126 && s.input.len() + 1 < INPUT_CAP {
        s.input.push(key);
    }
    true
}

} // verus!
