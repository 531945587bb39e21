use vstd::prelude::*;
use crate::decimal::{dec_value, is_digit};
use crate::wallpaper::bmp::{color_of, rgb};
use crate::wallpaper::scale::{all_samples_ok, grid_view, scale_into, scaled_image, scaled_prefix};

verus! {

/// Space, newline, carriage return or tab.
pub open spec fn is_ws(c: u8) -> bool {
    c == 32 || c == 10 || c == 13 || c == 9
}

/// The first index from `i` that does not hold white space.
pub open spec fn skip_ws(d: Seq<u8>, i: int) -> int
    decreases d.len() - i,
{
    if 0 <= i < d.len() && is_ws(d[i]) {
        skip_ws(d, i + 1)
    } else {
        i
    }
}

/// The first index from `i` that does not hold a digit.
pub open spec fn skip_digits(d: Seq<u8>, i: int) -> int
    decreases d.len() - i,
{
    if 0 <= i < d.len() && is_digit(d[i]) {
        skip_digits(d, i + 1)
    } else {
        i
    }
}

/// The first index from `i` that holds a newline, or the length.
pub open spec fn line_end(d: Seq<u8>, i: int) -> int
    decreases d.len() - i,
{
    if 0 <= i < d.len() && d[i] != 10 {
        line_end(d, i + 1)
    } else {
        i
    }
}

/// Where the width starts: after the magic, white space and one comment line.
pub open spec fn ppm_width_start(d: Seq<u8>) -> int {
    let p = skip_ws(d, 2);
    if p < d.len() && d[p] == 35 {
        let e = line_end(d, p);
        if e < d.len() {
            e + 1
        } else {
            d.len() as int
        }
    } else {
        p
    }
}

pub open spec fn ppm_width(d: Seq<u8>) -> int {
    let s = ppm_width_start(d);
    dec_value(d.subrange(s, skip_digits(d, s))) as int
}

pub open spec fn ppm_height_start(d: Seq<u8>) -> int {
    skip_ws(d, skip_digits(d, ppm_width_start(d)))
}

pub open spec fn ppm_height(d: Seq<u8>) -> int {
    let s = ppm_height_start(d);
    dec_value(d.subrange(s, skip_digits(d, s))) as int
}

/// Where the pixel data starts: after the maximum value and one white-space byte.
pub open spec fn ppm_data_start(d: Seq<u8>) -> int {
    let e = skip_digits(d, skip_ws(d, skip_digits(d, ppm_height_start(d))));
    if e < d.len() && is_ws(d[e]) {
        e + 1
    } else {
        e
    }
}

/// A binary PPM ("P6") of at least 15 bytes with sides from 1 to 1920.
pub open spec fn ppm_header_ok(d: Seq<u8>) -> bool {
    &&& d.len() >= 15
    &&& d[0] == 80
    &&& d[1] == 54
    &&& 1 <= ppm_width(d) <= 1920
    &&& 1 <= ppm_height(d) <= 1920
}

pub open spec fn ppm_cell_off(d: Seq<u8>, x: int, y: int) -> int {
    ppm_data_start(d) + (y * ppm_width(d) + x) * 3
}

pub open spec fn ppm_cell_ok(d: Seq<u8>, x: int, y: int) -> bool {
    ppm_cell_off(d, x, y) + 3 <= d.len()
}

/// The colour of pixel (`x`, `y`): red, green, blue bytes (0 past the end of the data).
pub open spec fn ppm_cell_color(d: Seq<u8>, x: int, y: int) -> u32 {
    let o = ppm_cell_off(d, x, y);
    if ppm_cell_ok(d, x, y) {
        rgb(d[o], d[o + 1], d[o + 2])
    } else {
        0
    }
}

pub open spec fn ppm_ok_grid(d: Seq<u8>) -> Seq<Seq<bool>> {
    Seq::new(
        ppm_height(d) as nat,
        |y: int| Seq::new(ppm_width(d) as nat, |x: int| ppm_cell_ok(d, x, y)),
    )
}

pub open spec fn ppm_color_grid(d: Seq<u8>) -> Seq<Seq<u32>> {
    Seq::new(
        ppm_height(d) as nat,
        |y: int| Seq::new(ppm_width(d) as nat, |x: int| ppm_cell_color(d, x, y)),
    )
}

fn skip_ws_at(d: &[u8], i: usize) -> (r: usize)
    requires
        i <= d@.len(),
    ensures
        r == skip_ws(d@, i as int),
        i <= r <= d@.len(),
{
    let mut k = i;
    while k < d.len() && (d[k] == 32 || d[k] == 10 || d[k] == 13 || d[k] == 9)
        invariant
            i <= k <= d@.len(),
            skip_ws(d@, i as int) == skip_ws(d@, k as int),
        decreases d@.len() - k,
    {
        k = k + 1;
    }
    k
}

fn line_end_at(d: &[u8], i: usize) -> (r: usize)
    requires
        i <= d@.len(),
    ensures
        r == line_end(d@, i as int),
        i <= r <= d@.len(),
{
    let mut k = i;
    while k < d.len() && d[k] != 10
        invariant
            i <= k <= d@.len(),
            line_end(d@, i as int) == line_end(d@, k as int),
        decreases d@.len() - k,
    {
        k = k + 1;
    }
    k
}

/// Reads the digits from `i`: where they end and their value, which is held at any
/// number above 1920 once it passes 1920.
fn read_dim(d: &[u8], i: usize) -> (r: (usize, u32))
    requires
        i <= d@.len(),
    ensures
        r.0 == skip_digits(d@, i as int),
        i <= r.0 <= d@.len(),
        dec_value(d@.subrange(i as int, r.0 as int)) <= 1920 ==> r.1 == dec_value(
            d@.subrange(i as int, r.0 as int),
        ),
        dec_value(d@.subrange(i as int, r.0 as int)) > 1920 ==> r.1 > 1920,
{
    let mut k = i;
    let mut v: u32 = 0;
    while k < d.len() && d[k] >= 48 && d[k] <= 57
        invariant
            i <= k <= d@.len(),
            skip_digits(d@, i as int) == skip_digits(d@, k as int),
            dec_value(d@.subrange(i as int, k as int)) <= 1920 ==> v == dec_value(
                d@.subrange(i as int, k as int),
            ),
            dec_value(d@.subrange(i as int, k as int)) > 1920 ==> 1920 < v <= 19209,
        decreases d@.len() - k,
    {
        let ghost prev = dec_value(d@.subrange(i as int, k as int));
        proof {
            assert(d@.subrange(i as int, k + 1).drop_last() =~= d@.subrange(i as int, k as int));
        }
        if v <= 1920 {
            v = v * 10 + (d[k] - 48) as u32;
        }
        k = k + 1;
    }
    (k, v)
}

/// Reads a binary PPM ("P6") file of `data` into the `dst_w` by `dst_h` row-major
/// `dst`, scaling it to fit by nearest-neighbour sampling.
pub fn decode_ppm(data: &[u8], dst: &mut Vec<u32>, dst_w: u32, dst_h: u32) -> (r: bool)
    requires
        dst_w * dst_h <= old(dst)@.len(),
    ensures
        final(dst)@.len() == old(dst)@.len(),
        r == (ppm_header_ok(data@) && all_samples_ok(
            ppm_ok_grid(data@),
            ppm_width(data@),
            ppm_height(data@),
            dst_w as int,
            dst_h as int,
        )),
        r ==> scaled_image(
            final(dst)@,
            ppm_color_grid(data@),
            ppm_width(data@),
            ppm_height(data@),
            dst_w as int,
            dst_h as int,
        ),
        ppm_header_ok(data@) ==> scaled_prefix(
            final(dst)@,
            old(dst)@,
            ppm_color_grid(data@),
            ppm_ok_grid(data@),
            ppm_width(data@),
            ppm_height(data@),
            dst_w as int,
            dst_h as int,
        ),
        !ppm_header_ok(data@) ==> final(dst)@ == old(dst)@,
        final(dst)@.skip(dst_w * dst_h) == old(dst)@.skip(dst_w * dst_h),
{
    let ghost d = data@;
    if data.len() < 15 || data[0] != 80 || data[1] != 54 {
        return false;
    }
    let mut idx = skip_ws_at(data, 2);
    if idx < data.len() && data[idx] == 35 {
        let e = line_end_at(data, idx);
        idx = if e < data.len() {
            e + 1
        } else {
            data.len()
        };
    }
    let (wend, w) = read_dim(data, idx);
    let hstart = skip_ws_at(data, wend);
    let (hend, h) = read_dim(data, hstart);
    let mstart = skip_ws_at(data, hend);
    let (mend, _maxval) = read_dim(data, mstart);
    let mut start = mend;
    if start < data.len() && (data[start] == 32 || data[start] == 10 || data[start] == 13
        || data[start] == 9) {
        start = start + 1;
    }
    if w == 0 || w > 1920 || h == 0 || h > 1920 {
        return false;
    }
    proof {
        assert(ppm_header_ok(d));
        assert(w == ppm_width(d) && h == ppm_height(d));
        assert(start == ppm_data_start(d));
    }
    let mut colors: Vec<Vec<u32>> = Vec::new();
    let mut oks: Vec<Vec<bool>> = Vec::new();
    let mut y: u32 = 0;
    while y < h
        invariant
            y <= h,
            w == ppm_width(d),
            h == ppm_height(d),
            1 <= w <= 1920,
            1 <= h <= 1920,
            start == ppm_data_start(d),
            start <= d.len(),
            d == data@,
            d.len() == data.len(),
            colors@.len() == y,
            oks@.len() == y,
            forall|j: int| 0 <= j < y ==> #[trigger] colors@[j]@ == ppm_color_grid(d)[j],
            forall|j: int| 0 <= j < y ==> #[trigger] oks@[j]@ == ppm_ok_grid(d)[j],
        decreases h - y,
    {
        let mut crow: Vec<u32> = Vec::new();
        let mut orow: Vec<bool> = Vec::new();
        let mut x: u32 = 0;
        while x < w
            invariant
                x <= w,
                y < h,
                w == ppm_width(d),
                h == ppm_height(d),
                1 <= w <= 1920,
                1 <= h <= 1920,
                start == ppm_data_start(d),
                start <= d.len(),
                d == data@,
                d.len() == data.len(),
                crow@.len() == x,
                orow@.len() == x,
                forall|i: int| 0 <= i < x ==> #[trigger] crow@[i] == ppm_cell_color(d, i, y as int),
                forall|i: int| 0 <= i < x ==> #[trigger] orow@[i] == ppm_cell_ok(d, i, y as int),
            decreases w - x,
        {
            proof {
                assert((y * w + x) * 3 + 3 <= 1920 * 1920 * 3) by (nonlinear_arith)
                    requires
                        x < w <= 1920,
                        y < h <= 1920,
                ;
            }
            let rel = (y as usize * w as usize + x as usize) * 3;
            if rel + 3 <= data.len() - start {
                let off = start + rel;
                crow.push(color_of(data[off], data[off + 1], data[off + 2]));
                orow.push(true);
            } else {
                crow.push(0);
                orow.push(false);
            }
            x = x + 1;
        }
        proof {
            assert(crow@ =~= ppm_color_grid(d)[y as int]);
            assert(orow@ =~= ppm_ok_grid(d)[y as int]);
        }
        colors.push(crow);
        oks.push(orow);
        y = y + 1;
    }
    proof {
        assert(grid_view(colors@) =~= ppm_color_grid(d));
        assert(grid_view(oks@) =~= ppm_ok_grid(d));
    }
    scale_into(&colors, &oks, w, h, dst, dst_w, dst_h)
}

} // verus!
