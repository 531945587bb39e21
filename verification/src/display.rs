use vstd::prelude::*;
use vstd::string::StringSliceAdditionalSpecFns;

verus! {

/// What the framebuffer reports about itself.
#[derive(Clone, Copy, Debug, PartialEq, Eq, Structural)]
pub struct DisplayInfo {
    pub width: u32,
    pub height: u32,
    pub pitch: u32,
    pub size_bytes: u64,
    pub bpp: u8,
    pub available: bool,
}

/// What the mouse reports.
#[derive(Clone, Copy, Debug, PartialEq, Eq, Structural)]
pub struct MouseState {
    pub x: i32,
    pub y: i32,
    pub dx: i32,
    pub dy: i32,
    pub buttons: u8,
    pub has_data: bool,
}

impl Default for MouseState {
    fn default() -> (m: MouseState)
        ensures
            m == (MouseState { x: 0, y: 0, dx: 0, dy: 0, buttons: 0, has_data: false }),
    {
        MouseState { x: 0, y: 0, dx: 0, dy: 0, buttons: 0, has_data: false }
    }
}

/// One drawing command for the screen.
#[derive(Clone, Debug, PartialEq, Eq)]
pub enum DrawOp {
    /// A filled rectangle.
    Rect { x: u32, y: u32, w: u32, h: u32, color: u32 },
    /// A line of text in the default font (`size` None) or at a point size.
    Text { x: u32, y: u32, text: Vec<u8>, fg: u32, bg: u32, size: Option<u32> },
    /// The whole screen in one colour.
    Clear { color: u32 },
    /// Start of a batch of drawing shown at once.
    BeginUpdate,
    /// End of a batch.
    EndUpdate,
}

/// The view of a drawing command, with its text as a byte sequence.
pub enum Op {
    Rect { x: u32, y: u32, w: u32, h: u32, color: u32 },
    Text { x: u32, y: u32, text: Seq<u8>, fg: u32, bg: u32, size: Option<u32> },
    Clear { color: u32 },
    BeginUpdate,
    EndUpdate,
}

impl View for DrawOp {
    type V = Op;

    open spec fn view(&self) -> Op {
        match self {
            DrawOp::Rect { x, y, w, h, color } => Op::Rect { x: *x, y: *y, w: *w, h: *h, color: *color },
            DrawOp::Text { x, y, text, fg, bg, size } => Op::Text {
                x: *x,
                y: *y,
                text: text@,
                fg: *fg,
                bg: *bg,
                size: *size,
            },
            DrawOp::Clear { color } => Op::Clear { color: *color },
            DrawOp::BeginUpdate => Op::BeginUpdate,
            DrawOp::EndUpdate => Op::EndUpdate,
        }
    }
}

/// The views of a list of drawing commands.
pub open spec fn ops_view(ops: Seq<DrawOp>) -> Seq<Op> {
    ops.map_values(|o: DrawOp| o@)
}

/// The UTF-8 bytes of `s`.
pub open spec fn str_bytes(s: &str) -> Seq<u8> {
    s.spec_bytes()
}

/// The bytes of `s` in a new vector.
pub fn bytes_of(s: &str) -> (r: Vec<u8>)
    ensures
        r@ == str_bytes(s),
{
    let b = s.as_bytes();
    let mut r: Vec<u8> = Vec::new();
    let mut i: usize = 0;
    while i < b.len()
        invariant
            i <= b@.len(),
            b@ == s.spec_bytes(),
            r@ == b@.take(i as int),
        decreases b@.len() - i,
    {
        r.push(b[i]);
        i = i + 1;
        proof {
            assert(r@ =~= b@.take(i as int));
        }
    }
    proof {
        assert(b@.take(b@.len() as int) =~= b@);
    }
    r
}

/// A copy of `s`.
pub fn copy_bytes(s: &[u8]) -> (r: Vec<u8>)
    ensures
        r@ == s@,
{
    let mut r: Vec<u8> = Vec::new();
    let mut i: usize = 0;
    while i < s.len()
        invariant
            i <= s@.len(),
            r@ == s@.take(i as int),
        decreases s@.len() - i,
    {
        r.push(s[i]);
        i = i + 1;
        proof {
            assert(r@ =~= s@.take(i as int));
        }
    }
    proof {
        assert(s@.take(s@.len() as int) =~= s@);
    }
    r
}

/// The framebuffer can be drawn on.
pub fn is_available(info: &Option<DisplayInfo>) -> (r: bool)
    ensures
        r == (info matches Some(i) && i.available),
{
    match info {
        Some(i) => i.available,
        None => false,
    }
}

/// Screen width, 0 without a framebuffer.
pub fn width(info: &Option<DisplayInfo>) -> (r: u32)
    ensures
        r == (match info {
            Some(i) => i.width,
            None => 0,
        }),
{
    match info {
        Some(i) => i.width,
        None => 0,
    }
}

/// Screen height, 0 without a framebuffer.
pub fn height(info: &Option<DisplayInfo>) -> (r: u32)
    ensures
        r == (match info {
            Some(i) => i.height,
            None => 0,
        }),
{
    match info {
        Some(i) => i.height,
        None => 0,
    }
}

pub fn draw_text(ops: &mut Vec<DrawOp>, x: u32, y: u32, text: &[u8], fg: u32, bg: u32)
    ensures
        ops_view(final(ops)@) == ops_view(old(ops)@).push(Op::Text { x, y, text: text@, fg, bg, size: None }),
{
    let t = copy_bytes(text);
    ops.push(DrawOp::Text { x, y, text: t, fg, bg, size: None });
    proof {
        assert(ops_view(ops@) =~= ops_view(old(ops)@).push(Op::Text { x, y, text: text@, fg, bg, size: None }));
    }
}

pub fn draw_text_sized(ops: &mut Vec<DrawOp>, x: u32, y: u32, text: &[u8], fg: u32, bg: u32, size: u32)
    ensures
        ops_view(final(ops)@) == ops_view(old(ops)@).push(
            Op::Text { x, y, text: text@, fg, bg, size: Some(size) },
        ),
{
    let t = copy_bytes(text);
    ops.push(DrawOp::Text { x, y, text: t, fg, bg, size: Some(size) });
    proof {
        assert(ops_view(ops@) =~= ops_view(old(ops)@).push(Op::Text { x, y, text: text@, fg, bg, size: Some(size) }));
    }
}

pub fn draw_rect(ops: &mut Vec<DrawOp>, x: u32, y: u32, w: u32, h: u32, color: u32)
    ensures
        ops_view(final(ops)@) == ops_view(old(ops)@).push(Op::Rect { x, y, w, h, color }),
{
    ops.push(DrawOp::Rect { x, y, w, h, color });
    proof {
        assert(ops_view(ops@) =~= ops_view(old(ops)@).push(Op::Rect { x, y, w, h, color }));
    }
}

pub fn clear(ops: &mut Vec<DrawOp>, color: u32)
    ensures
        ops_view(final(ops)@) == ops_view(old(ops)@).push(Op::Clear { color }),
{
    ops.push(DrawOp::Clear { color });
    proof {
        assert(ops_view(ops@) =~= ops_view(old(ops)@).push(Op::Clear { color }));
    }
}

pub fn begin_update(ops: &mut Vec<DrawOp>)
    ensures
        ops_view(final(ops)@) == ops_view(old(ops)@).push(Op::BeginUpdate),
{
    ops.push(DrawOp::BeginUpdate);
    proof {
        assert(ops_view(ops@) =~= ops_view(old(ops)@).push(Op::BeginUpdate));
    }
}

pub fn end_update(ops: &mut Vec<DrawOp>)
    ensures
        ops_view(final(ops)@) == ops_view(old(ops)@).push(Op::EndUpdate),
{
    ops.push(DrawOp::EndUpdate);
    proof {
        assert(ops_view(ops@) =~= ops_view(old(ops)@).push(Op::EndUpdate));
    }
}

/// The NUL-terminated form of `text` handed to the text renderer: at most 255 bytes
/// of it, then a 0.
pub fn c_string(text: &[u8]) -> (r: Vec<u8>)
    ensures
        r@ == text@.take(if text@.len() < 255 { text@.len() as int } else { 255 }).push(0u8),
{
    let n = if text.len() < 255 {
        text.len()
    } else {
        255
    };
    let mut r: Vec<u8> = Vec::new();
    let mut i: usize = 0;
    while i < n
        invariant
            i <= n <= text@.len(),
            r@ == text@.take(i as int),
        decreases n - i,
    {
        r.push(text[i]);
        i = i + 1;
        proof {
            assert(r@ =~= text@.take(i as int));
        }
    }
    r.push(0);
    r
}

} // verus!
