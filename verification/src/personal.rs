use vstd::prelude::*;
use crate::decimal::{dec_value, is_digit};
use crate::display::{bytes_of, str_bytes};
use vstd::slice::slice_subrange;

verus! {

pub const THEME_CAP: usize = 32;
pub const WALLPAPER_CAP: usize = 128;
pub const FONT_CAP: usize = 48;

/// How many bytes of the configuration file are read.
pub const CONFIG_READ_CAP: usize = 511;

/// Milliseconds between two readings of the appearance settings.
pub const POLL_MS: u64 = 500;

/// The colours of a theme.
#[derive(Clone, Copy, Debug, PartialEq, Eq, Structural)]
pub struct Colors {
    pub desktop: u32,
    pub window: u32,
    pub titlebar: u32,
    pub border: u32,
    pub text: u32,
    pub muted_text: u32,
    pub accent: u32,
    pub danger: u32,
    pub shadow: u32,
}

/// The appearance settings: theme name, wallpaper path, font name and font size.
pub struct Personal {
    pub theme: Vec<u8>,
    pub wallpaper: Vec<u8>,
    pub font: Vec<u8>,
    pub font_size: u32,
}

/// The settings as plain values.
pub struct PersonalView {
    pub theme: Seq<u8>,
    pub wallpaper: Seq<u8>,
    pub font: Seq<u8>,
    pub font_size: u32,
}

impl View for Personal {
    type V = PersonalView;

    open spec fn view(&self) -> PersonalView {
        PersonalView { theme: self.theme@, wallpaper: self.wallpaper@, font: self.font@, font_size: self.font_size }
    }
}

/// The settings in use, whether there are any yet, and when they were last read.
pub struct PersonalState {
    pub current: Personal,
    pub has_current: bool,
    pub last_poll_ms: u64,
}

/// Each text fits its buffer with a byte to spare.
pub open spec fn personal_wf(p: PersonalView) -> bool {
    p.theme.len() < THEME_CAP && p.wallpaper.len() < WALLPAPER_CAP && p.font.len() < FONT_CAP
}

/// The first `cap - 1` bytes of `src` at most.
pub open spec fn capped(src: Seq<u8>, cap: int) -> Seq<u8> {
    if src.len() < cap - 1 {
        src
    } else {
        src.take(cap - 1)
    }
}

pub open spec fn catppuccin() -> Colors {
    Colors {
        desktop: 0x181825,
        window: 0x1E1E2E,
        titlebar: 0x313244,
        border: 0x45475A,
        text: 0xCDD6F4,
        muted_text: 0x9399B2,
        accent: 0x89B4FA,
        danger: 0xF38BA8,
        shadow: 0x11111B,
    }
}

/// The colours of the theme named `name`; the default (catppuccin-dark) for an unknown name.
pub open spec fn spec_theme_colors(name: Seq<u8>) -> Colors {
    if name == str_bytes("nord") {
        Colors {
            desktop: 0x2E3440,
            window: 0x3B4252,
            titlebar: 0x434C5E,
            border: 0x4C566A,
            text: 0xECEFF4,
            muted_text: 0x9AA0B0,
            accent: 0x88C0D0,
            danger: 0xBF616A,
            shadow: 0x1A1C24,
        }
    } else if name == str_bytes("dracula") {
        Colors {
            desktop: 0x282A36,
            window: 0x2E3247,
            titlebar: 0x44475A,
            border: 0x6272A4,
            text: 0xF8F8F2,
            muted_text: 0x9AA0B2,
            accent: 0xBD93F9,
            danger: 0xFF5555,
            shadow: 0x1A1B26,
        }
    } else if name == str_bytes("light") {
        Colors {
            desktop: 0xE6E9EF,
            window: 0xEFF1F5,
            titlebar: 0xDCE0E8,
            border: 0xBCC0CC,
            text: 0x4C4F69,
            muted_text: 0x8C8FA1,
            accent: 0x1E66F5,
            danger: 0xD20F39,
            shadow: 0x9CA0B0,
        }
    } else if name == str_bytes("tokyo-night") {
        Colors {
            desktop: 0x1A1B26,
            window: 0x24283B,
            titlebar: 0x292E42,
            border: 0x565F89,
            text: 0xC0CAF5,
            muted_text: 0x9AA5CE,
            accent: 0x7AA2F7,
            danger: 0xF7768E,
            shadow: 0x101014,
        }
    } else {
        catppuccin()
    }
}

/// The font face number of a font name: classic 0, bold 2, any other 1.
pub open spec fn spec_font_face(font: Seq<u8>) -> u32 {
    if font == str_bytes("classic") {
        0
    } else if font == str_bytes("bold") {
        2
    } else {
        1
    }
}

pub open spec fn spec_clamp_size(size: u32) -> u32 {
    if size < 8 {
        8
    } else if size > 24 {
        24
    } else {
        size
    }
}

/// The length of the run of digits that starts `text`.
pub open spec fn digit_run(text: Seq<u8>) -> int
    decreases text.len(),
{
    if text.len() > 0 && is_digit(text[0]) {
        1 + digit_run(text.drop_first())
    } else {
        0
    }
}

/// The number that starts `text`, held at `u32::MAX` when it is larger.
pub open spec fn spec_parse_u32(text: Seq<u8>) -> u32 {
    let v = dec_value(text.take(digit_run(text)));
    if v > u32::MAX {
        u32::MAX
    } else {
        v as u32
    }
}

pub open spec fn is_eol(c: u8) -> bool {
    c == 10 || c == 13
}

/// The first index from `i` holding a line break, or the length.
pub open spec fn eol_from(buf: Seq<u8>, i: int) -> int
    decreases buf.len() - i,
{
    if 0 <= i < buf.len() && !is_eol(buf[i]) {
        eol_from(buf, i + 1)
    } else {
        i
    }
}

/// The first index from `i` not holding a line break.
pub open spec fn skip_eols(buf: Seq<u8>, i: int) -> int
    decreases buf.len() - i,
{
    if 0 <= i < buf.len() && is_eol(buf[i]) {
        skip_eols(buf, i + 1)
    } else {
        i
    }
}

pub open spec fn has_prefix(line: Seq<u8>, prefix: Seq<u8>) -> bool {
    prefix.len() <= line.len() && line.take(prefix.len() as int) == prefix
}

/// A setting line: `theme=`, `wallpaper=`, `font=` or `font_size=` followed by its
/// value; other lines change nothing.
pub open spec fn apply_line(p: PersonalView, line: Seq<u8>) -> PersonalView {
    let t = str_bytes("theme=");
    let w = str_bytes("wallpaper=");
    let f = str_bytes("font=");
    let s = str_bytes("font_size=");
    if has_prefix(line, t) {
        PersonalView { theme: capped(line.skip(t.len() as int), THEME_CAP as int), ..p }
    } else if has_prefix(line, w) {
        PersonalView { wallpaper: capped(line.skip(w.len() as int), WALLPAPER_CAP as int), ..p }
    } else if has_prefix(line, f) {
        PersonalView { font: capped(line.skip(f.len() as int), FONT_CAP as int), ..p }
    } else if has_prefix(line, s) {
        PersonalView { font_size: spec_clamp_size(spec_parse_u32(line.skip(s.len() as int))), ..p }
    } else {
        p
    }
}

/// The lines of `buf` from `start` applied in order; lines end at a carriage return or
/// line feed and empty lines are skipped.
pub open spec fn apply_lines(buf: Seq<u8>, start: int, p: PersonalView) -> PersonalView
    decreases buf.len() - start,
{
    if start < 0 || start >= buf.len() {
        p
    } else {
        let e = eol_from(buf, start);
        let p1 = apply_line(p, buf.subrange(start, e));
        if e >= buf.len() {
            p1
        } else {
            proof {
                lemma_eol_from_bounds(buf, start);
                lemma_skip_eols_bounds(buf, e + 1);
            }
            apply_lines(buf, skip_eols(buf, e + 1), p1)
        }
    }
}

pub proof fn lemma_eol_from_bounds(buf: Seq<u8>, i: int)
    requires
        0 <= i <= buf.len(),
    ensures
        i <= eol_from(buf, i) <= buf.len(),
        eol_from(buf, i) < buf.len() ==> is_eol(buf[eol_from(buf, i)]),
        forall|j: int| i <= j < eol_from(buf, i) ==> !is_eol(#[trigger] buf[j]),
    decreases buf.len() - i,
{
    if i < buf.len() && !is_eol(buf[i]) {
        lemma_eol_from_bounds(buf, i + 1);
    }
}

pub proof fn lemma_skip_eols_bounds(buf: Seq<u8>, i: int)
    requires
        0 <= i <= buf.len(),
    ensures
        i <= skip_eols(buf, i) <= buf.len(),
        skip_eols(buf, i) < buf.len() ==> !is_eol(buf[skip_eols(buf, i)]),
        forall|j: int| i <= j < skip_eols(buf, i) ==> is_eol(#[trigger] buf[j]),
    decreases buf.len() - i,
{
    if i < buf.len() && is_eol(buf[i]) {
        lemma_skip_eols_bounds(buf, i + 1);
    }
}

/// The defaults: catppuccin-dark, no wallpaper, the clean font at size 8.
pub open spec fn default_view() -> PersonalView {
    PersonalView { theme: str_bytes("catppuccin-dark"), wallpaper: Seq::empty(), font: str_bytes("clean"), font_size: 8 }
}

/// The part of the configuration file that is read.
pub open spec fn config_prefix(contents: Seq<u8>) -> Seq<u8> {
    if contents.len() <= CONFIG_READ_CAP {
        contents
    } else {
        contents.take(CONFIG_READ_CAP as int)
    }
}

/// The settings read from the contents of the configuration file: the defaults, then
/// each line of its first 511 bytes in order.
pub open spec fn spec_load(contents: Seq<u8>) -> PersonalView {
    let p = apply_lines(config_prefix(contents), 0, default_view());
    if p.font_size == 0 {
        PersonalView { font_size: 8, ..p }
    } else {
        p
    }
}

pub fn eq_bytes(a: &[u8], b: &[u8]) -> (r: bool)
    ensures
        r == (a@ == b@),
{
    if a.len() != b.len() {
        return false;
    }
    let mut i: usize = 0;
    while i < a.len()
        invariant
            i <= a@.len(),
            a@.len() == b@.len(),
            forall|j: int| 0 <= j < i ==> a@[j] == b@[j],
        decreases a@.len() - i,
    {
        if a[i] != b[i] {
            return false;
        }
        i = i + 1;
    }
    proof {
        assert(a@ =~= b@);
    }
    true
}

/// Copies at most `cap - 1` bytes of `src` into a new buffer.
pub fn set_str(src: &[u8], cap: usize) -> (r: Vec<u8>)
    requires
        cap >= 1,
    ensures
        r@ == capped(src@, cap as int),
{
    let n = if src.len() < cap - 1 {
        src.len()
    } else {
        cap - 1
    };
    let mut r: Vec<u8> = Vec::new();
    let mut i: usize = 0;
    while i < n
        invariant
            i <= n <= src@.len(),
            n == if src@.len() < cap - 1 { src@.len() as int } else { cap - 1 },
            r@ == src@.take(i as int),
        decreases n - i,
    {
        r.push(src[i]);
        i = i + 1;
        proof {
            assert(r@ =~= src@.take(i as int));
        }
    }
    proof {
        assert(src@.take(src@.len() as int) =~= src@);
    }
    r
}

impl Personal {
    /// The defaults.
    pub fn new() -> (p: Personal)
        ensures
            p@ == default_view(),
            personal_wf(p@),
    {
        proof {
            reveal_strlit("catppuccin-dark");
            reveal_strlit("clean");
            vstd::string::is_ascii_spec_bytes("catppuccin-dark");
            vstd::string::is_ascii_spec_bytes("clean");
        }
        Personal { theme: bytes_of("catppuccin-dark"), wallpaper: Vec::new(), font: bytes_of("clean"), font_size: 8 }
    }
}

/// The colours of the theme in use.
pub fn theme_colors(p: &Personal) -> (c: Colors)
    ensures
        c == spec_theme_colors(p.theme@),
{
    let name = p.theme.as_slice();
    if eq_bytes(name, bytes_of("nord").as_slice()) {
        Colors {
            desktop: 0x2E3440,
            window: 0x3B4252,
            titlebar: 0x434C5E,
            border: 0x4C566A,
            text: 0xECEFF4,
            muted_text: 0x9AA0B0,
            accent: 0x88C0D0,
            danger: 0xBF616A,
            shadow: 0x1A1C24,
        }
    } else if eq_bytes(name, bytes_of("dracula").as_slice()) {
        Colors {
            desktop: 0x282A36,
            window: 0x2E3247,
            titlebar: 0x44475A,
            border: 0x6272A4,
            text: 0xF8F8F2,
            muted_text: 0x9AA0B2,
            accent: 0xBD93F9,
            danger: 0xFF5555,
            shadow: 0x1A1B26,
        }
    } else if eq_bytes(name, bytes_of("light").as_slice()) {
        Colors {
            desktop: 0xE6E9EF,
            window: 0xEFF1F5,
            titlebar: 0xDCE0E8,
            border: 0xBCC0CC,
            text: 0x4C4F69,
            muted_text: 0x8C8FA1,
            accent: 0x1E66F5,
            danger: 0xD20F39,
            shadow: 0x9CA0B0,
        }
    } else if eq_bytes(name, bytes_of("tokyo-night").as_slice()) {
        Colors {
            desktop: 0x1A1B26,
            window: 0x24283B,
            titlebar: 0x292E42,
            border: 0x565F89,
            text: 0xC0CAF5,
            muted_text: 0x9AA5CE,
            accent: 0x7AA2F7,
            danger: 0xF7768E,
            shadow: 0x101014,
        }
    } else {
        Colors {
            desktop: 0x181825,
            window: 0x1E1E2E,
            titlebar: 0x313244,
            border: 0x45475A,
            text: 0xCDD6F4,
            muted_text: 0x9399B2,
            accent: 0x89B4FA,
            danger: 0xF38BA8,
            shadow: 0x11111B,
        }
    }
}

/// The font face number of the font in use.
pub fn font_face(p: &Personal) -> (r: u32)
    ensures
        r == spec_font_face(p.font@),
{
    if eq_bytes(p.font.as_slice(), bytes_of("classic").as_slice()) {
        0
    } else if eq_bytes(p.font.as_slice(), bytes_of("bold").as_slice()) {
        2
    } else {
        1
    }
}

/// A font size held between 8 and 24.
pub fn font_size_clamped(size: u32) -> (r: u32)
    ensures
        r == spec_clamp_size(size),
{
    if size < 8 {
        8
    } else if size > 24 {
        24
    } else {
        size
    }
}

/// The size of icon labels: the font size held between 8 and 12.
pub fn label_size(p: &Personal) -> (r: u32)
    ensures
        r == if spec_clamp_size(p.font_size) < 12 { spec_clamp_size(p.font_size) } else { 12 },
{
    let clamped = font_size_clamped(p.font_size);
    if clamped < 12 {
        clamped
    } else {
        12
    }
}

pub fn font_size(p: &Personal) -> (r: u32)
    ensures
        r == p.font_size,
{
    p.font_size
}

/// Copies as much of the wallpaper path as fits in `buf`; returns the bytes copied.
pub fn wallpaper_path_copy(p: &Personal, buf: &mut Vec<u8>) -> (n: usize)
    ensures
        n == if p.wallpaper@.len() < old(buf)@.len() { p.wallpaper@.len() } else { old(buf)@.len() },
        final(buf)@.len() == old(buf)@.len(),
        final(buf)@.take(n as int) == p.wallpaper@.take(n as int),
        final(buf)@.skip(n as int) == old(buf)@.skip(n as int),
{
    let n = if p.wallpaper.len() < buf.len() {
        p.wallpaper.len()
    } else {
        buf.len()
    };
    let mut i: usize = 0;
    while i < n
        invariant
            i <= n <= buf@.len(),
            n <= p.wallpaper@.len(),
            buf@.len() == old(buf)@.len(),
            forall|j: int| 0 <= j < i ==> buf@[j] == p.wallpaper@[j],
            forall|j: int| i <= j < buf@.len() ==> buf@[j] == old(buf)@[j],
        decreases n - i,
    {
        buf.set(i, p.wallpaper[i]);
        i = i + 1;
    }
    proof {
        assert(buf@.take(n as int) =~= p.wallpaper@.take(n as int));
        assert(buf@.skip(n as int) =~= old(buf)@.skip(n as int));
    }
    n
}

proof fn lemma_apply_lines_size(buf: Seq<u8>, start: int, p: PersonalView)
    requires
        8 <= p.font_size <= 24,
    ensures
        8 <= apply_lines(buf, start, p).font_size <= 24,
    decreases buf.len() - start,
{
    if 0 <= start < buf.len() {
        let e = eol_from(buf, start);
        lemma_eol_from_bounds(buf, start);
        if e < buf.len() {
            lemma_skip_eols_bounds(buf, e + 1);
            lemma_apply_lines_size(buf, skip_eols(buf, e + 1), apply_line(p, buf.subrange(start, e)));
        }
    }
}

proof fn lemma_theme_tail(buf: Seq<u8>, split: int, value: Seq<u8>, i: int, p: PersonalView)
    requires
        0 <= split,
        split + 1 < buf.len(),
        buf[split] == 10,
        buf.subrange(split + 1, buf.len() as int) == str_bytes("theme=") + value,
        forall|j: int| split + 1 <= j < buf.len() ==> !is_eol(#[trigger] buf[j]),
        0 <= i <= split + 1,
    ensures
        apply_lines(buf, i, p).theme == capped(value, THEME_CAP as int),
    decreases split + 1 - i,
{
    let e = eol_from(buf, i);
    lemma_eol_from_bounds(buf, i);
    if i == split + 1 {
        if e < buf.len() {
            assert(!is_eol(buf[e]));
        }
        let line = buf.subrange(i, e);
        assert(line == str_bytes("theme=") + value);
        let t = str_bytes("theme=");
        assert(line.take(t.len() as int) =~= t);
        assert(line.skip(t.len() as int) =~= value);
    } else {
        if e > split {
            assert(is_eol(buf[split]));
        }
        lemma_skip_eols_bounds(buf, e + 1);
        let next = skip_eols(buf, e + 1);
        if next > split + 1 {
            assert(is_eol(buf[split + 1]));
        }
        lemma_theme_tail(buf, split, value, next, apply_line(p, buf.subrange(i, e)));
    }
}

/// A configuration whose last line sets the theme gives that theme (cut to the room
/// for it), whatever the lines before it say, when it all fits in the part that is read.
pub proof fn lemma_last_theme_line_wins(a: Seq<u8>, value: Seq<u8>)
    requires
        forall|j: int| 0 <= j < value.len() ==> !is_eol(#[trigger] value[j]),
        a.len() + 7 + value.len() <= CONFIG_READ_CAP,
    ensures
        spec_load(a + seq![10u8] + str_bytes("theme=") + value).theme == capped(value, THEME_CAP as int),
{
    reveal_strlit("theme=");
    vstd::string::is_ascii_spec_bytes("theme=");
    let t = str_bytes("theme=");
    assert(t =~= seq![116u8, 104u8, 101u8, 109u8, 101u8, 61u8]);
    let buf = a + seq![10u8] + t + value;
    let split = a.len() as int;
    assert(buf.subrange(split + 1, buf.len() as int) =~= t + value);
    assert forall|j: int| split + 1 <= j < buf.len() implies !is_eol(#[trigger] buf[j]) by {
        if j < split + 7 {
            assert(buf[j] == t[j - split - 1]);
        } else {
            assert(buf[j] == value[j - split - 7]);
        }
    }
    assert(config_prefix(buf) == buf);
    lemma_theme_tail(buf, split, value, 0, default_view());
}

/// Whatever the configuration file holds, the font size read lies between 8 and 24.
pub proof fn lemma_load_font_size(contents: Seq<u8>)
    ensures
        8 <= spec_load(contents).font_size <= 24,
{
    lemma_apply_lines_size(config_prefix(contents), 0, default_view());
}

/// Whether `line` starts with `prefix`.
pub fn starts_with(line: &[u8], prefix: &[u8]) -> (r: bool)
    ensures
        r == has_prefix(line@, prefix@),
{
    if prefix.len() > line.len() {
        return false;
    }
    let head = slice_subrange(line, 0, prefix.len());
    proof {
        assert(head@ =~= line@.take(prefix@.len() as int));
    }
    eq_bytes(head, prefix)
}

/// Applies one line of the configuration file to `p`.
pub fn apply_config_line(p: &mut Personal, line: &[u8])
    requires
        personal_wf(old(p)@),
    ensures
        final(p)@ == apply_line(old(p)@, line@),
        personal_wf(final(p)@),
{
    let t = bytes_of("theme=");
    let w = bytes_of("wallpaper=");
    let f = bytes_of("font=");
    let z = bytes_of("font_size=");
    if starts_with(line, t.as_slice()) {
        let rest = slice_subrange(line, t.len(), line.len());
        proof {
            assert(rest@ =~= line@.skip(t@.len() as int));
        }
        p.theme = set_str(rest, THEME_CAP);
    } else if starts_with(line, w.as_slice()) {
        let rest = slice_subrange(line, w.len(), line.len());
        proof {
            assert(rest@ =~= line@.skip(w@.len() as int));
        }
        p.wallpaper = set_str(rest, WALLPAPER_CAP);
    } else if starts_with(line, f.as_slice()) {
        let rest = slice_subrange(line, f.len(), line.len());
        proof {
            assert(rest@ =~= line@.skip(f@.len() as int));
        }
        p.font = set_str(rest, FONT_CAP);
    } else if starts_with(line, z.as_slice()) {
        let rest = slice_subrange(line, z.len(), line.len());
        proof {
            assert(rest@ =~= line@.skip(z@.len() as int));
        }
        p.font_size = font_size_clamped(parse_u32(rest));
    }
}

/// The settings read from the contents of the configuration file.
pub fn load_config(contents: &[u8]) -> (p: Personal)
    ensures
        p@ == spec_load(contents@),
        personal_wf(p@),
{
    let mut p = Personal::new();
    let total: usize = if contents.len() < CONFIG_READ_CAP {
        contents.len()
    } else {
        CONFIG_READ_CAP
    };
    let buf = slice_subrange(contents, 0, total);
    proof {
        assert(buf@ =~= config_prefix(contents@));
    }
    let mut start: usize = 0;
    while start < buf.len()
        invariant_except_break
            apply_lines(buf@, start as int, p@) == apply_lines(buf@, 0, default_view()),
        invariant
            start <= buf@.len(),
            personal_wf(p@),
        ensures
            p@ == apply_lines(buf@, 0, default_view()),
        decreases buf@.len() - start,
    {
        let mut end = start;
        while end < buf.len() && buf[end] != 10 && buf[end] != 13
            invariant
                start <= end <= buf@.len(),
                eol_from(buf@, end as int) == eol_from(buf@, start as int),
            decreases buf@.len() - end,
        {
            end = end + 1;
        }
        let line = slice_subrange(buf, start, end);
        apply_config_line(&mut p, line);
        if end >= buf.len() {
            break;
        }
        start = end + 1;
        while start < buf.len() && (buf[start] == 10 || buf[start] == 13)
            invariant
                end + 1 <= start <= buf@.len(),
                skip_eols(buf@, start as int) == skip_eols(buf@, end + 1),
            decreases buf@.len() - start,
        {
            start = start + 1;
        }
    }
    if p.font_size == 0 {
        p.font_size = 8;
    }
    p
}

/// Whether two sets of settings are the same.
pub fn same(a: &Personal, b: &Personal) -> (r: bool)
    ensures
        r == (a@ == b@),
{
    let r = eq_bytes(a.theme.as_slice(), b.theme.as_slice()) && eq_bytes(a.wallpaper.as_slice(), b.wallpaper.as_slice())
        && eq_bytes(a.font.as_slice(), b.font.as_slice()) && a.font_size == b.font_size;
    proof {
        if !r {
            if a@ == b@ {
                assert(a.theme@ == b.theme@);
                assert(a.wallpaper@ == b.wallpaper@);
                assert(a.font@ == b.font@);
            }
        }
    }
    r
}

impl PersonalState {
    /// No settings read yet.
    pub fn new() -> (st: PersonalState)
        ensures
            !st.has_current,
            st.last_poll_ms == 0,
            st.current@ == default_view(),
            personal_wf(st.current@),
    {
        PersonalState { current: Personal::new(), has_current: false, last_poll_ms: 0 }
    }
}

/// Whether the settings are due to be read again at `now_ms`: when none are held yet,
/// or 500 ms after the last reading. When they are, `now_ms` becomes the last reading.
pub fn poll_due(st: &mut PersonalState, now_ms: u64) -> (due: bool)
    requires
        old(st).has_current ==> now_ms >= old(st).last_poll_ms,
    ensures
        due == !(old(st).has_current && now_ms - old(st).last_poll_ms < POLL_MS),
        final(st).last_poll_ms == if due { now_ms } else { old(st).last_poll_ms },
        final(st).has_current == old(st).has_current,
        final(st).current@ == old(st).current@,
{
    if st.has_current && now_ms - st.last_poll_ms < POLL_MS {
        return false;
    }
    st.last_poll_ms = now_ms;
    true
}

/// What taking the settings `next` reports when `cur` is held (if `has`): whether a poll
/// reports a change (settings were held and differ), and whether the font face must be
/// handed to the system (the settings are new).
pub open spec fn adopt_result(has: bool, cur: PersonalView, next: PersonalView) -> (bool, bool) {
    if has && next == cur {
        (false, false)
    } else {
        (has, true)
    }
}

/// The first settings taken are applied but not reported as a change, and taking the
/// same settings again neither reports nor applies anything.
pub proof fn lemma_adopt_once(cur: PersonalView, next: PersonalView)
    ensures
        adopt_result(false, cur, next) == (false, true),
        adopt_result(true, next, next) == (false, false),
{
}

/// Takes freshly read settings. Returns what a poll reports (settings held before
/// changed) and whether the font face must be handed to the system.
pub fn adopt(st: &mut PersonalState, next: Personal) -> (r: (bool, bool))
    ensures
        final(st).last_poll_ms == old(st).last_poll_ms,
        final(st).has_current,
        r == adopt_result(old(st).has_current, old(st).current@, next@),
        final(st).current@ == if old(st).has_current && next@ == old(st).current@ {
            old(st).current@
        } else {
            next@
        },
{
    if st.has_current && same(&next, &st.current) {
        return (false, false);
    }
    let first = !st.has_current;
    st.current = next;
    st.has_current = true;
    (!first, true)
}

/// The colours of the settings held.
pub fn current_colors(st: &PersonalState) -> (c: Colors)
    ensures
        c == spec_theme_colors(st.current.theme@),
{
    theme_colors(&st.current)
}

proof fn lemma_dec_value_grows(s: Seq<u8>, d: u8)
    requires
        is_digit(d),
    ensures
        dec_value(s.push(d)) == dec_value(s) * 10 + (d - 48),
        dec_value(s.push(d)) >= dec_value(s),
{
    assert(s.push(d).drop_last() =~= s);
}

/// The number that starts `text`; a run of digits above `u32::MAX` gives `u32::MAX`.
pub fn parse_u32(text: &[u8]) -> (r: u32)
    ensures
        r == spec_parse_u32(text@),
{
    let mut value: u32 = 0;
    let mut i: usize = 0;
    let ghost run = digit_run(text@);
    proof {
        lemma_digit_run(text@, 0);
    }
    while i < text.len()
        invariant
            i <= text@.len(),
            run == digit_run(text@),
            i <= run,
            forall|j: int| 0 <= j < i ==> is_digit(#[trigger] text@[j]),
            run <= text@.len(),
            forall|j: int| 0 <= j < run ==> is_digit(#[trigger] text@[j]),
            run < text@.len() ==> !is_digit(text@[run]),
            value == dec_value(text@.take(i as int)),
        ensures
            i == run,
            value == dec_value(text@.take(i as int)),
        decreases text@.len() - i,
    {
        let ch = text[i];
        if !(ch >= 48 && ch <= 57) {
            proof {
                if i < run {
                    assert(is_digit(text@[i as int]));
                }
            }
            break;
        }
        let digit = (ch - 48) as u32;
        proof {
            assert(i < run);
            assert(text@.take(i + 1) =~= text@.take(i as int).push(ch));
            lemma_dec_value_grows(text@.take(i as int), ch);
        }
        if value > (u32::MAX - digit) / 10 {
            proof {
                lemma_dec_value_monotone(text@.take(run), i + 1);
                assert(text@.take(run).take(i + 1) =~= text@.take(i + 1));
            }
            return u32::MAX;
        }
        value = value * 10 + digit;
        i = i + 1;
    }
    value
}

proof fn lemma_digit_run(text: Seq<u8>, k: int)
    requires
        0 <= k <= text.len(),
        forall|j: int| 0 <= j < k ==> is_digit(#[trigger] text[j]),
    ensures
        0 <= digit_run(text) <= text.len(),
        forall|j: int| 0 <= j < digit_run(text) ==> is_digit(#[trigger] text[j]),
        digit_run(text) < text.len() ==> !is_digit(text[digit_run(text)]),
    decreases text.len(),
{
    if text.len() > 0 && is_digit(text[0]) {
        let t = text.drop_first();
        lemma_digit_run(t, 0);
        assert forall|j: int| 0 <= j < digit_run(text) implies is_digit(#[trigger] text[j]) by {
            if j > 0 {
                assert(text[j] == t[j - 1]);
            }
        }
        if digit_run(text) < text.len() {
            assert(text[digit_run(text)] == t[digit_run(t)]);
        }
    }
}

/// A digit string is worth at least any of its prefixes.
proof fn lemma_dec_value_monotone(s: Seq<u8>, k: int)
    requires
        0 <= k <= s.len(),
        forall|j: int| 0 <= j < s.len() ==> is_digit(#[trigger] s[j]),
    ensures
        dec_value(s) >= dec_value(s.take(k)),
    decreases s.len(),
{
    if k < s.len() {
        let p = s.drop_last();
        assert(p.take(k) =~= s.take(k));
        lemma_dec_value_monotone(p, k);
    } else {
        assert(s.take(k) =~= s);
    }
}


proof fn lemma_theme_names()
    ensures
        str_bytes("nord") =~= seq![110u8, 111u8, 114u8, 100u8],
        str_bytes("dracula") =~= seq![100u8, 114u8, 97u8, 99u8, 117u8, 108u8, 97u8],
        str_bytes("light") =~= seq![108u8, 105u8, 103u8, 104u8, 116u8],
        str_bytes("tokyo-night") =~= seq![116u8, 111u8, 107u8, 121u8, 111u8, 45u8, 110u8, 105u8, 103u8, 104u8, 116u8],
{
    reveal_strlit("nord");
    reveal_strlit("dracula");
    reveal_strlit("light");
    reveal_strlit("tokyo-night");
    vstd::string::is_ascii_spec_bytes("nord");
    vstd::string::is_ascii_spec_bytes("dracula");
    vstd::string::is_ascii_spec_bytes("light");
    vstd::string::is_ascii_spec_bytes("tokyo-night");
}

/// The theme table, over every configuration: when the last line of the settings
/// file is `theme=` and a name, the colours in use are those of that theme: nord,
/// dracula, light and tokyo-night each have their own palette, and any other name
/// (catppuccin-dark among them) gives the catppuccin-dark palette.
pub proof fn lemma_theme_palettes(a: Seq<u8>, name: Seq<u8>)
    requires
        forall|j: int| 0 <= j < name.len() ==> !is_eol(#[trigger] name[j]),
        a.len() + 7 + name.len() <= CONFIG_READ_CAP,
    ensures
        ({
            let c = spec_theme_colors(spec_load(a + seq![10u8] + str_bytes("theme=") + name).theme);
            &&& name == str_bytes("nord") ==> c == (Colors {
                desktop: 0x2E3440,
                window: 0x3B4252,
                titlebar: 0x434C5E,
                border: 0x4C566A,
                text: 0xECEFF4,
                muted_text: 0x9AA0B0,
                accent: 0x88C0D0,
                danger: 0xBF616A,
                shadow: 0x1A1C24,
            })
            &&& name == str_bytes("dracula") ==> c == (Colors {
                desktop: 0x282A36,
                window: 0x2E3247,
                titlebar: 0x44475A,
                border: 0x6272A4,
                text: 0xF8F8F2,
                muted_text: 0x9AA0B2,
                accent: 0xBD93F9,
                danger: 0xFF5555,
                shadow: 0x1A1B26,
            })
            &&& name == str_bytes("light") ==> c == (Colors {
                desktop: 0xE6E9EF,
                window: 0xEFF1F5,
                titlebar: 0xDCE0E8,
                border: 0xBCC0CC,
                text: 0x4C4F69,
                muted_text: 0x8C8FA1,
                accent: 0x1E66F5,
                danger: 0xD20F39,
                shadow: 0x9CA0B0,
            })
            &&& name == str_bytes("tokyo-night") ==> c == (Colors {
                desktop: 0x1A1B26,
                window: 0x24283B,
                titlebar: 0x292E42,
                border: 0x565F89,
                text: 0xC0CAF5,
                muted_text: 0x9AA5CE,
                accent: 0x7AA2F7,
                danger: 0xF7768E,
                shadow: 0x101014,
            })
            &&& (name != str_bytes("nord") && name != str_bytes("dracula") && name != str_bytes("light") && name
                != str_bytes("tokyo-night")) ==> c == (Colors {
                desktop: 0x181825,
                window: 0x1E1E2E,
                titlebar: 0x313244,
                border: 0x45475A,
                text: 0xCDD6F4,
                muted_text: 0x9399B2,
                accent: 0x89B4FA,
                danger: 0xF38BA8,
                shadow: 0x11111B,
            })
        }),
{
    lemma_last_theme_line_wins(a, name);
    lemma_theme_names();
    let th = capped(name, THEME_CAP as int);
    if name.len() < THEME_CAP - 1 {
        assert(th == name);
    } else {
        assert(th.len() == THEME_CAP - 1);
    }
}


/// The font table, over every font name: "classic" is face 0, "bold" face 2, and any
/// other name (the default "clean" among them) face 1.
pub proof fn lemma_font_faces(font: Seq<u8>)
    ensures
        font == str_bytes("classic") ==> spec_font_face(font) == 0,
        font == str_bytes("bold") ==> spec_font_face(font) == 2,
        font != str_bytes("classic") && font != str_bytes("bold") ==> spec_font_face(font) == 1,
        spec_font_face(str_bytes("clean")) == 1,
{
    reveal_strlit("classic");
    reveal_strlit("bold");
    reveal_strlit("clean");
    vstd::string::is_ascii_spec_bytes("classic");
    vstd::string::is_ascii_spec_bytes("bold");
    vstd::string::is_ascii_spec_bytes("clean");
    assert(str_bytes("clean") =~= seq![99u8, 108u8, 101u8, 97u8, 110u8]);
    assert(str_bytes("classic") =~= seq![99u8, 108u8, 97u8, 115u8, 115u8, 105u8, 99u8]);
    assert(str_bytes("bold") =~= seq![98u8, 111u8, 108u8, 100u8]);
}

} // verus!
