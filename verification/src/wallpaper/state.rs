use vstd::prelude::*;
use crate::wallpaper::bmp::{bmp_color_grid, bmp_header_ok, bmp_height, bmp_ok_grid, bmp_width, decode_bmp};
use crate::wallpaper::png::{decode_png, png_grid, png_info, png_ok};
use crate::wallpaper::ppm::{decode_ppm, ppm_color_grid, ppm_header_ok, ppm_height, ppm_ok_grid, ppm_width};
use crate::wallpaper::scale::{all_samples_ok, scaled_image};

verus! {

/// Longest wallpaper path kept, in bytes.
pub const PATH_CAP: usize = 128;

/// Milliseconds to wait after a failed load before trying again.
pub const RETRY_MS: u64 = 5000;

/// The wallpaper: its path, the last decoded picture and the size it was decoded
/// for (0 by 0 when there is none), and when a load was last tried and whether it failed.
pub struct Wallpaper {
    pub path: Vec<u8>,
    pub cache: Vec<u32>,
    pub cache_w: u32,
    pub cache_h: u32,
    pub failed: bool,
    pub last_attempt_ms: u64,
}

/// What drawing the wallpaper takes next.
#[derive(Clone, Copy, Debug, PartialEq, Eq, Structural)]
pub enum DrawStep {
    /// Nothing to draw.
    Nothing,
    /// Copy the decoded picture to the screen.
    BlitCache,
    /// Read the file at the path and decode it for the screen.
    Load,
}

impl Wallpaper {
    pub open spec fn wf(&self) -> bool {
        self.cache_w != 0 ==> self.cache@.len() == self.cache_w * self.cache_h
    }

    /// No path, no picture.
    pub fn new() -> (w: Wallpaper)
        ensures
            w.wf(),
            w.path@.len() == 0,
            w.cache@.len() == 0,
            w.cache_w == 0 && w.cache_h == 0,
            !w.failed,
            w.last_attempt_ms == 0,
    {
        Wallpaper {
            path: Vec::new(),
            cache: Vec::new(),
            cache_w: 0,
            cache_h: 0,
            failed: false,
            last_attempt_ms: 0,
        }
    }
}

/// Sets the path (at most 127 bytes are kept) and forgets the decoded picture and any failure.
pub fn set_path(wp: &mut Wallpaper, path: &[u8])
    ensures
        final(wp).wf(),
        final(wp).path@ == path@.take(if path@.len() < PATH_CAP - 1 { path@.len() as int } else { PATH_CAP - 1 }),
        final(wp).cache_w == 0 && final(wp).cache_h == 0,
        !final(wp).failed,
        final(wp).last_attempt_ms == 0,
{
    let n = if path.len() < PATH_CAP - 1 {
        path.len()
    } else {
        PATH_CAP - 1
    };
    let mut p: Vec<u8> = Vec::new();
    let mut i: usize = 0;
    while i < n
        invariant
            i <= n <= path@.len(),
            p@ == path@.take(i as int),
        decreases n - i,
    {
        p.push(path[i]);
        i = i + 1;
        proof {
            assert(p@ =~= path@.take(i as int));
        }
    }
    wp.path = p;
    wp.cache_w = 0;
    wp.cache_h = 0;
    wp.failed = false;
    wp.last_attempt_ms = 0;
}

pub fn has_path(wp: &Wallpaper) -> (r: bool)
    ensures
        r == (wp.path@.len() > 0),
{
    wp.path.len() > 0
}

/// What drawing takes, from the wallpaper's path length, decoded size, failure and
/// last attempt: nothing without a screen or a path; the decoded picture when it has
/// the screen's size; nothing within 5 seconds of a failed load; else a new load.
pub open spec fn draw_step(
    path_len: nat,
    cache_w: u32,
    cache_h: u32,
    failed: bool,
    last_attempt_ms: u64,
    fb_present: bool,
    scr_w: u32,
    scr_h: u32,
    now_ms: u64,
) -> DrawStep {
    if !fb_present || scr_w == 0 || scr_h == 0 || path_len == 0 {
        DrawStep::Nothing
    } else if cache_w == scr_w && cache_h == scr_h {
        DrawStep::BlitCache
    } else if failed && now_ms - last_attempt_ms < RETRY_MS {
        DrawStep::Nothing
    } else {
        DrawStep::Load
    }
}

/// After a load for a screen succeeded (the picture kept with its size, no failure),
/// drawing on that screen again copies the kept picture, whenever it happens.
pub proof fn lemma_loaded_then_blit(path_len: nat, w: u32, h: u32, last_attempt_ms: u64, now_ms: u64)
    requires
        path_len > 0,
        w > 0,
        h > 0,
    ensures
        draw_step(path_len, w, h, false, last_attempt_ms, true, w, h, now_ms) == DrawStep::BlitCache,
{
}

/// After a load failed (no picture kept), drawing waits 5 seconds from the attempt
/// before it loads again.
pub proof fn lemma_failed_load_retries(path_len: nat, w: u32, h: u32, last_attempt_ms: u64, now_ms: u64)
    requires
        path_len > 0,
        w > 0,
        h > 0,
        now_ms >= last_attempt_ms,
    ensures
        draw_step(path_len, 0, 0, true, last_attempt_ms, true, w, h, now_ms) == if now_ms - last_attempt_ms
            < RETRY_MS {
            DrawStep::Nothing
        } else {
            DrawStep::Load
        },
{
}

/// Decides what drawing on a `scr_w` by `scr_h` screen at uptime `now_ms` takes: the
/// decoded picture when it fits the screen, else a new load unless the last one failed
/// less than 5 seconds ago. A load is stamped with `now_ms`.
pub fn draw(wp: &mut Wallpaper, fb_present: bool, scr_w: u32, scr_h: u32, now_ms: u64) -> (step: DrawStep)
    requires
        old(wp).wf(),
        old(wp).failed ==> now_ms >= old(wp).last_attempt_ms,
    ensures
        final(wp).wf(),
        step == draw_step(
            old(wp).path@.len(),
            old(wp).cache_w,
            old(wp).cache_h,
            old(wp).failed,
            old(wp).last_attempt_ms,
            fb_present,
            scr_w,
            scr_h,
            now_ms,
        ),
        final(wp).last_attempt_ms == (if step == DrawStep::Load {
            now_ms
        } else {
            old(wp).last_attempt_ms
        }),
        final(wp).path == old(wp).path,
        final(wp).cache == old(wp).cache,
        final(wp).cache_w == old(wp).cache_w,
        final(wp).cache_h == old(wp).cache_h,
        final(wp).failed == old(wp).failed,
{
    if !fb_present || scr_w == 0 || scr_h == 0 {
        return DrawStep::Nothing;
    }
    if wp.path.len() == 0 {
        return DrawStep::Nothing;
    }
    if wp.cache_w == scr_w && wp.cache_h == scr_h {
        return DrawStep::BlitCache;
    }
    if wp.failed {
        if now_ms - wp.last_attempt_ms < RETRY_MS {
            return DrawStep::Nothing;
        }
    }
    wp.last_attempt_ms = now_ms;
    DrawStep::Load
}

/// The file `data` is a BMP picture that decodes for a `w` by `h` screen.
pub open spec fn bmp_decodes(data: Seq<u8>, w: int, h: int) -> bool {
    w > 0 && h > 0 && bmp_header_ok(data) && all_samples_ok(bmp_ok_grid(data), bmp_width(data), bmp_height(data), w, h)
}

/// The file `data` starts with "P6" and is a PPM picture that decodes for a `w` by `h`
/// screen.
pub open spec fn ppm_decodes(data: Seq<u8>, w: int, h: int) -> bool {
    &&& data.len() >= 8
    &&& data[0] == 80
    &&& data[1] == 54
    &&& ppm_header_ok(data)
    &&& all_samples_ok(ppm_ok_grid(data), ppm_width(data), ppm_height(data), w, h)
}

/// The file `data` decodes for a `w` by `h` screen as BMP, PPM or PNG.
pub open spec fn decodes(data: Seq<u8>, w: int, h: int) -> bool {
    bmp_decodes(data, w, h) || ppm_decodes(data, w, h) || png_ok(data, w, h)
}

/// The picture `img` is the file `data` decoded for a `w` by `h` screen by the first of
/// the three readers, tried in order, that reads it.
pub open spec fn decoded_as(data: Seq<u8>, w: int, h: int, img: Seq<u32>) -> bool {
    if bmp_decodes(data, w, h) {
        scaled_image(img, bmp_color_grid(data), bmp_width(data), bmp_height(data), w, h)
    } else if ppm_decodes(data, w, h) {
        scaled_image(img, ppm_color_grid(data), ppm_width(data), ppm_height(data), w, h)
    } else {
        png_ok(data, w, h) && scaled_image(img, png_grid(data), png_info(data).width as int, png_info(data).height as int, w, h)
    }
}

/// Decodes the file `data` for a `scr_w` by `scr_h` screen: as BMP, else as PPM when it
/// starts with "P6", else as PNG. None for a screen of no pixels or over 32 MiB, or when
/// no reader reads the file.
pub fn decode_image(data: &[u8], scr_w: u32, scr_h: u32) -> (r: Option<Vec<u32>>)
    ensures
        r is Some <==> (0 < scr_w * scr_h * 4 <= 32 * 1024 * 1024 && decodes(data@, scr_w as int, scr_h as int)),
        r matches Some(img) ==> img@.len() == scr_w * scr_h && decoded_as(data@, scr_w as int, scr_h as int, img@),
{
    assert(scr_w as u64 * scr_h as u64 <= 0xffff_ffff_u64 * 0xffff_ffff_u64) by (nonlinear_arith)
        requires
            scr_w <= 0xffff_ffff,
            scr_h <= 0xffff_ffff,
    ;
    let pixels: u64 = scr_w as u64 * scr_h as u64;
    if pixels == 0 || pixels > 8 * 1024 * 1024 {
        return None;
    }
    let n = pixels as usize;
    let mut dst: Vec<u32> = Vec::new();
    let mut i: usize = 0;
    while i < n
        invariant
            i <= n,
            dst@.len() == i,
        decreases n - i,
    {
        dst.push(0);
        i = i + 1;
    }
    let mut decoded = decode_bmp(data, &mut dst, scr_w, scr_h);
    if !decoded && data.len() >= 8 && data[0] == 80 && data[1] == 54 {
        decoded = decode_ppm(data, &mut dst, scr_w, scr_h);
    }
    if !decoded {
        decoded = decode_png(data, &mut dst, scr_w, scr_h);
    }
    if decoded {
        Some(dst)
    } else {
        None
    }
}

/// Takes the outcome of a load for a `scr_w` by `scr_h` screen: keeps the picture and
/// its size on success, else marks the failure and forgets the size.
pub fn finish_load(wp: &mut Wallpaper, scr_w: u32, scr_h: u32, picture: Option<Vec<u32>>) -> (ok: bool)
    requires
        picture matches Some(p) ==> p@.len() == scr_w * scr_h,
        scr_w != 0,
    ensures
        final(wp).wf(),
        ok == picture is Some,
        picture matches Some(p) ==> final(wp).cache == p && final(wp).cache_w == scr_w && final(wp).cache_h
            == scr_h && !final(wp).failed,
        picture is None ==> final(wp).failed && final(wp).cache_w == 0 && final(wp).cache_h == 0,
        final(wp).path == old(wp).path,
        final(wp).last_attempt_ms == old(wp).last_attempt_ms,
{
    match picture {
        Some(p) => {
            wp.cache = p;
            wp.cache_w = scr_w;
            wp.cache_h = scr_h;
            wp.failed = false;
            true
        },
        None => {
            wp.failed = true;
            wp.cache_w = 0;
            wp.cache_h = 0;
            false
        },
    }
}

} // verus!
