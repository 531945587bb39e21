use vstd::prelude::*;
use crate::wallpaper::bmp::{be32, color_of, rgb, u32be};
use crate::wallpaper::inflate::{inflate, spec_inflate};
use crate::wallpaper::scale::{grid_view, scale_into, scaled_image, sample_ok};

verus! {

/// What the chunk walk of a PNG file learns: the IHDR fields, whether an IHDR was
/// seen, and the concatenated IDAT payloads.
pub struct PngInfo {
    pub width: u32,
    pub height: u32,
    pub bit_depth: u8,
    pub color_type: u8,
    pub interlace: u8,
    pub have_ihdr: bool,
    pub idat: Vec<u8>,
}

/// The walk's state as plain values.
pub struct ScanState {
    pub width: u32,
    pub height: u32,
    pub bit_depth: u8,
    pub color_type: u8,
    pub interlace: u8,
    pub have_ihdr: bool,
    pub idat: Seq<u8>,
}

pub open spec fn is_tag(d: Seq<u8>, i: int, a: u8, b: u8, c: u8, e: u8) -> bool {
    d[i] == a && d[i + 1] == b && d[i + 2] == c && d[i + 3] == e
}

/// Walks the chunks from `pos`: each chunk is a 4-byte big-endian length, a 4-byte
/// type, the payload and a 4-byte CRC. The walk stops at IEND or when fewer than 8
/// bytes are left, and fails on a chunk that runs past the end, a second IHDR or one
/// of a size other than 13 or with a nonzero compression or filter method, or an IDAT
/// before the IHDR.
pub open spec fn png_scan(d: Seq<u8>, pos: int, st: ScanState) -> Option<ScanState>
    decreases d.len() - pos,
{
    if pos < 0 || pos + 8 > d.len() {
        Some(st)
    } else {
        let len = be32(d, pos);
        let end = pos + 12 + len;
        if end > d.len() {
            None
        } else if is_tag(d, pos + 4, 73, 72, 68, 82) {
            if len != 13 || st.have_ihdr || d[pos + 18] != 0 || d[pos + 19] != 0 {
                None
            } else {
                png_scan(
                    d,
                    end,
                    ScanState {
                        width: be32(d, pos + 8) as u32,
                        height: be32(d, pos + 12) as u32,
                        bit_depth: d[pos + 16],
                        color_type: d[pos + 17],
                        interlace: d[pos + 20],
                        have_ihdr: true,
                        idat: st.idat,
                    },
                )
            }
        } else if is_tag(d, pos + 4, 73, 68, 65, 84) {
            if !st.have_ihdr {
                None
            } else {
                png_scan(d, end, ScanState { idat: st.idat + d.subrange(pos + 8, pos + 8 + len), ..st })
            }
        } else if is_tag(d, pos + 4, 73, 69, 78, 68) {
            Some(st)
        } else {
            png_scan(d, end, st)
        }
    }
}

pub open spec fn scan_start() -> ScanState {
    ScanState {
        width: 0,
        height: 0,
        bit_depth: 0,
        color_type: 0,
        interlace: 0,
        have_ihdr: false,
        idat: Seq::empty(),
    }
}

/// Channels per pixel of a colour type: grey 1, RGB 3, RGBA 4 (0 for others).
pub open spec fn png_channels(color_type: u8) -> int {
    if color_type == 0 {
        1
    } else if color_type == 2 {
        3
    } else if color_type == 6 {
        4
    } else {
        0
    }
}

/// The 8-byte PNG signature.
pub open spec fn png_signature_ok(d: Seq<u8>) -> bool {
    d[0] == 137 && d[1] == 80 && d[2] == 78 && d[3] == 71 && d[4] == 13 && d[5] == 10 && d[6]
        == 26 && d[7] == 10
}

/// The file is a PNG this decoder reads, up to the compressed data: signature, a
/// chunk walk that succeeds with an IHDR and some IDAT data, sides from 1 to 1920,
/// 8-bit samples, no interlacing and a grey, RGB or RGBA colour type.
pub open spec fn png_structure_ok(d: Seq<u8>) -> bool {
    &&& d.len() >= 57
    &&& png_signature_ok(d)
    &&& png_scan(d, 8, scan_start()) matches Some(st) && {
        &&& st.have_ihdr
        &&& st.idat.len() > 0
        &&& 1 <= st.width <= 1920
        &&& 1 <= st.height <= 1920
        &&& st.bit_depth == 8
        &&& st.interlace == 0
        &&& png_channels(st.color_type) > 0
    }
}

/// The Paeth predictor: whichever of `a` (left), `b` (above), `c` (upper left) is
/// closest to `a + b - c`, preferring `a`, then `b`.
pub open spec fn spec_paeth(a: u8, b: u8, c: u8) -> u8 {
    let p = a + b - c;
    let pa = if p >= a { p - a } else { a - p };
    let pb = if p >= b { p - b } else { b - p };
    let pc = if p >= c { p - c } else { c - p };
    if pa <= pb && pa <= pc {
        a
    } else if pb <= pc {
        b
    } else {
        c
    }
}

/// Undoes filter `f` on byte `v` with left neighbour `a`, upper `b`, upper-left `c`.
pub open spec fn spec_filter_byte(f: u8, v: u8, a: u8, b: u8, c: u8) -> u8 {
    if f == 0 {
        v
    } else if f == 1 {
        ((v + a) % 256) as u8
    } else if f == 2 {
        ((v + b) % 256) as u8
    } else if f == 3 {
        ((v + (a + b) / 2) % 256) as u8
    } else {
        ((v + spec_paeth(a, b, c)) % 256) as u8
    }
}

/// The reconstructed byte `i` (1 ≤ `i` < row length) of row `y` of filtered rows `rows`
/// with `ch` bytes per pixel; byte 0 of each row names its filter.
#[verifier::opaque]
pub open spec fn recon(rows: Seq<Seq<u8>>, ch: nat, y: nat, i: nat) -> u8
    decreases y, i,
{
    let f = rows[y as int][0];
    let v = rows[y as int][i as int];
    let a: u8 = if ch >= 1 && i > ch {
        recon(rows, ch, y, (i - ch) as nat)
    } else {
        0
    };
    let b: u8 = if y > 0 {
        recon(rows, ch, (y - 1) as nat, i)
    } else {
        0
    };
    let c: u8 = if y > 0 && ch >= 1 && i > ch {
        recon(rows, ch, (y - 1) as nat, (i - ch) as nat)
    } else {
        0
    };
    spec_filter_byte(f, v, a, b, c)
}

/// The rows of `raw`, each `stride` bytes.
pub open spec fn split_rows(raw: Seq<u8>, stride: int, h: int) -> Seq<Seq<u8>> {
    Seq::new(h as nat, |y: int| raw.subrange(y * stride, y * stride + stride))
}

/// Every row names a known filter (0 to 4).
pub open spec fn filters_ok(rows: Seq<Seq<u8>>) -> bool {
    forall|y: int| 0 <= y < rows.len() ==> #[trigger] rows[y][0] <= 4
}

/// The colour of pixel (`x`, `y`) of the reconstructed image.
pub open spec fn png_pixel(rows: Seq<Seq<u8>>, ch: nat, x: int, y: int) -> u32 {
    let o = 1 + x * ch;
    if ch == 1 {
        let g = recon(rows, ch, y as nat, o as nat);
        rgb(g, g, g)
    } else {
        rgb(
            recon(rows, ch, y as nat, o as nat),
            recon(rows, ch, y as nat, (o + 1) as nat),
            recon(rows, ch, y as nat, (o + 2) as nat),
        )
    }
}

pub open spec fn png_color_grid(rows: Seq<Seq<u8>>, ch: nat, w: int, h: int) -> Seq<Seq<u32>> {
    Seq::new(h as nat, |y: int| Seq::new(w as nat, |x: int| png_pixel(rows, ch, x, y)))
}

pub open spec fn true_grid(w: int, h: int) -> Seq<Seq<bool>> {
    Seq::new(h as nat, |y: int| Seq::new(w as nat, |x: int| true))
}

/// What the chunk walk of PNG file `data` learns.
pub open spec fn png_info(data: Seq<u8>) -> ScanState {
    png_scan(data, 8, scan_start()).unwrap()
}

/// Bytes per scan line: a filter byte, then the pixels.
pub open spec fn png_stride(st: ScanState) -> int {
    st.width * png_channels(st.color_type) + 1
}

/// The scan lines of PNG file `data`: its IDAT data inflated, when that gives exactly
/// one stride per row of the image.
pub open spec fn png_raw(data: Seq<u8>) -> Option<Seq<u8>> {
    let st = png_info(data);
    let size = png_stride(st) * st.height;
    match spec_inflate(st.idat, size) {
        Some(raw) => if raw.len() == size {
            Some(raw)
        } else {
            None
        },
        None => None,
    }
}

/// The filtered scan lines of PNG file `data`, one per row.
pub open spec fn png_rows(data: Seq<u8>) -> Seq<Seq<u8>> {
    let st = png_info(data);
    split_rows(png_raw(data).unwrap(), png_stride(st), st.height as int)
}

/// The colours of the image of PNG file `data`, row by row.
pub open spec fn png_grid(data: Seq<u8>) -> Seq<Seq<u32>> {
    let st = png_info(data);
    png_color_grid(png_rows(data), png_channels(st.color_type) as nat, st.width as int, st.height as int)
}

/// PNG file `data` decodes onto a `dw` by `dh` screen: the screen has pixels, the file
/// has the structure this decoder reads, its IDAT data inflates to the scan lines, and
/// every line names a known filter.
pub open spec fn png_ok(data: Seq<u8>, dw: int, dh: int) -> bool {
    &&& dw > 0
    &&& dh > 0
    &&& png_structure_ok(data)
    &&& png_raw(data) is Some
    &&& filters_ok(png_rows(data))
}

/// What filter `f` predicts a byte from its left (`a`), upper (`b`) and upper-left (`c`)
/// neighbours.
pub open spec fn predictor(f: u8, a: u8, b: u8, c: u8) -> int {
    if f == 0 {
        0
    } else if f == 1 {
        a as int
    } else if f == 2 {
        b as int
    } else if f == 3 {
        (a + b) / 2
    } else {
        spec_paeth(a, b, c) as int
    }
}

/// The byte `i` of row `y` of `img`, 0 outside the image.
pub open spec fn img_byte(img: Seq<Seq<u8>>, y: int, i: int) -> u8 {
    if 0 <= y < img.len() && 0 <= i < img[y].len() {
        img[y][i]
    } else {
        0
    }
}

/// The scan lines of the image `img` (rows of bytes, `ch` per pixel) filtered with
/// filter `fs[y]` on row `y`: the filter byte, then each byte less what the filter
/// predicts from its neighbours in `img`, modulo 256.
pub open spec fn filtered(img: Seq<Seq<u8>>, fs: Seq<u8>, ch: nat) -> Seq<Seq<u8>> {
    Seq::new(
        img.len(),
        |y: int|
            seq![fs[y]] + Seq::new(
                img[y].len(),
                |i: int|
                    {
                        let a = if i >= ch { img_byte(img, y, i - ch) } else { 0 };
                        let b = if y > 0 { img_byte(img, y - 1, i) } else { 0 };
                        let c = if y > 0 && i >= ch { img_byte(img, y - 1, i - ch) } else { 0 };
                        ((img[y][i] - predictor(fs[y], a, b, c)) % 256) as u8
                    },
            ),
    )
}

/// Undoing filter `f` on a byte filtered with the same neighbours gives the byte back.
proof fn lemma_filter_undo(f: u8, v: u8, a: u8, b: u8, c: u8)
    requires
        f <= 4,
    ensures
        spec_filter_byte(f, ((v - predictor(f, a, b, c)) % 256) as u8, a, b, c) == v,
{
    let p = predictor(f, a, b, c);
    assert(0 <= p < 256);
    let e = (v - p) % 256;
    vstd::arithmetic::div_mod::lemma_add_mod_noop(v - p, p, 256);
    assert((e + p) % 256 == v);
    if f == 0 {
        assert(e == v);
    }
}

/// Reconstruction undoes filtering: whichever known filter each row uses, the bytes
/// reconstructed from the filtered scan lines are the image's bytes.
pub proof fn lemma_recon_inverts_filter(img: Seq<Seq<u8>>, fs: Seq<u8>, ch: nat, w: int, y: nat, i: nat)
    requires
        ch >= 1,
        fs.len() == img.len(),
        forall|r: int| 0 <= r < img.len() ==> #[trigger] img[r].len() == w,
        forall|r: int| 0 <= r < fs.len() ==> #[trigger] fs[r] <= 4,
        y < img.len(),
        1 <= i <= w,
    ensures
        recon(filtered(img, fs, ch), ch, y, i) == img[y as int][i - 1],
    decreases y, i,
{
    let rows = filtered(img, fs, ch);
    let k = i - 1;
    let f = fs[y as int];
    let yi = y as int;
    let a: u8 = if k >= ch { img_byte(img, yi, k - ch) } else { 0 };
    let b: u8 = if y > 0 { img_byte(img, yi - 1, k) } else { 0 };
    let c: u8 = if y > 0 && k >= ch { img_byte(img, yi - 1, k - ch) } else { 0 };
    let v = img[yi][k];
    assert(img[yi].len() == w);
    assert(rows[yi] == seq![f] + Seq::new(
        img[yi].len(),
        |j: int|
            {
                let a = if j >= ch { img_byte(img, yi, j - ch) } else { 0 };
                let b = if yi > 0 { img_byte(img, yi - 1, j) } else { 0 };
                let c = if yi > 0 && j >= ch { img_byte(img, yi - 1, j - ch) } else { 0 };
                ((img[yi][j] - predictor(fs[yi], a, b, c)) % 256) as u8
            },
    ));
    let e = rows[yi][i as int];
    assert(e == ((v - predictor(f, a, b, c)) % 256) as u8);
    if i > ch {
        lemma_recon_inverts_filter(img, fs, ch, w, y, (i - ch) as nat);
        assert(recon(rows, ch, y, (i - ch) as nat) == a);
    }
    if y > 0 {
        assert(img[yi - 1].len() == w);
        lemma_recon_inverts_filter(img, fs, ch, w, (y - 1) as nat, i);
        assert(recon(rows, ch, (y - 1) as nat, i) == b);
        if i > ch {
            lemma_recon_inverts_filter(img, fs, ch, w, (y - 1) as nat, (i - ch) as nat);
            assert(recon(rows, ch, (y - 1) as nat, (i - ch) as nat) == c);
        }
    }
    lemma_filter_undo(f, v, a, b, c);
    lemma_recon_step(rows, ch, y, i, f, e, a, b, c, v);
}

/// One reconstruction step: with the left, upper and upper-left neighbours known, the
/// filter's rule gives `recon`.
proof fn lemma_recon_step(g: Seq<Seq<u8>>, ch: nat, y: nat, i: nat, f: u8, v: u8, a: u8, b: u8, c: u8, nv: u8)
    requires
        ch >= 1,
        i >= 1,
        f == g[y as int][0],
        v == g[y as int][i as int],
        a == (if i > ch { recon(g, ch, y, (i - ch) as nat) } else { 0 }),
        b == (if y > 0 { recon(g, ch, (y - 1) as nat, i) } else { 0 }),
        c == (if y > 0 && i > ch { recon(g, ch, (y - 1) as nat, (i - ch) as nat) } else { 0 }),
        nv == spec_filter_byte(f, v, a, b, c),
    ensures
        nv == recon(g, ch, y, i),
{
    reveal(recon);
}

pub fn filter_byte(f: u8, v: u8, a: u8, b: u8, c: u8) -> (r: u8)
    ensures
        r == spec_filter_byte(f, v, a, b, c),
{
    if f == 0 {
        v
    } else if f == 1 {
        v.wrapping_add(a)
    } else if f == 2 {
        v.wrapping_add(b)
    } else if f == 3 {
        v.wrapping_add(((a as u16 + b as u16) / 2) as u8)
    } else {
        v.wrapping_add(paeth(a, b, c))
    }
}

pub fn paeth(a: u8, b: u8, c: u8) -> (r: u8)
    ensures
        r == spec_paeth(a, b, c),
{
    let p = a as i32 + b as i32 - c as i32;
    let pa = if p >= a as i32 {
        p - a as i32
    } else {
        a as i32 - p
    };
    let pb = if p >= b as i32 {
        p - b as i32
    } else {
        b as i32 - p
    };
    let pc = if p >= c as i32 {
        p - c as i32
    } else {
        c as i32 - p
    };
    if pa <= pb && pa <= pc {
        a
    } else if pb <= pc {
        b
    } else {
        c
    }
}

/// Walks the chunks of a PNG file from byte 8, gathering the IHDR fields and the
/// IDAT payloads.
pub fn png_scan_chunks(data: &[u8]) -> (r: Option<PngInfo>)
    requires
        data@.len() >= 8,
    ensures
        match png_scan(data@, 8, scan_start()) {
            Some(st) => r matches Some(info) && info.width == st.width && info.height == st.height
                && info.bit_depth == st.bit_depth && info.color_type == st.color_type
                && info.interlace == st.interlace && info.have_ihdr == st.have_ihdr && info.idat@
                == st.idat,
            None => r is None,
        },
{
    let mut pos: usize = 8;
    let mut info = PngInfo {
        width: 0,
        height: 0,
        bit_depth: 0,
        color_type: 0,
        interlace: 0,
        have_ihdr: false,
        idat: Vec::new(),
    };
    let ghost d = data@;
    while pos <= data.len() && data.len() - pos >= 8
        invariant
            8 <= pos,
            d == data@,
            png_scan(d, 8, scan_start()) == png_scan(
                d,
                pos as int,
                ScanState {
                    width: info.width,
                    height: info.height,
                    bit_depth: info.bit_depth,
                    color_type: info.color_type,
                    interlace: info.interlace,
                    have_ihdr: info.have_ihdr,
                    idat: info.idat@,
                },
            ),
        decreases data@.len() - pos,
    {
        let ghost st = ScanState {
            width: info.width,
            height: info.height,
            bit_depth: info.bit_depth,
            color_type: info.color_type,
            interlace: info.interlace,
            have_ihdr: info.have_ihdr,
            idat: info.idat@,
        };
        let len = u32be(data, pos) as usize;
        if len > data.len() - pos - 8 || data.len() - pos - 8 - len < 4 {
            return None;
        }
        let end = pos + 8 + len + 4;
        if data[pos + 4] == 73 && data[pos + 5] == 72 && data[pos + 6] == 68 && data[pos + 7] == 82 {
            if len != 13 || info.have_ihdr {
                return None;
            }
            if data[pos + 18] != 0 || data[pos + 19] != 0 {
                return None;
            }
            info.width = u32be(data, pos + 8);
            info.height = u32be(data, pos + 12);
            info.bit_depth = data[pos + 16];
            info.color_type = data[pos + 17];
            info.interlace = data[pos + 20];
            info.have_ihdr = true;
        } else if data[pos + 4] == 73 && data[pos + 5] == 68 && data[pos + 6] == 65 && data[pos
            + 7] == 84 {
            if !info.have_ihdr {
                return None;
            }
            let mut k: usize = 0;
            let ghost before = info.idat@;
            while k < len
                invariant
                    k <= len,
                    pos + 8 + len <= data.len(),
                    info.idat@ == before + data@.subrange(pos + 8, pos + 8 + k),
                    before == st.idat,
                    info.width == st.width,
                    info.height == st.height,
                    info.bit_depth == st.bit_depth,
                    info.color_type == st.color_type,
                    info.interlace == st.interlace,
                    info.have_ihdr == st.have_ihdr,
                decreases len - k,
            {
                info.idat.push(data[pos + 8 + k]);
                k = k + 1;
                proof {
                    assert(info.idat@ =~= before + data@.subrange(pos + 8, pos + 8 + k));
                }
            }
        } else if data[pos + 4] == 73 && data[pos + 5] == 69 && data[pos + 6] == 78 && data[pos
            + 7] == 68 {
            return Some(info);
        }
        proof {
            let nst = ScanState {
                width: info.width,
                height: info.height,
                bit_depth: info.bit_depth,
                color_type: info.color_type,
                interlace: info.interlace,
                have_ihdr: info.have_ihdr,
                idat: info.idat@,
            };
            assert(end == pos + 12 + be32(d, pos as int));
            assert(png_scan(d, pos as int, st) == png_scan(d, end as int, nst));
        }
        pos = end;
    }
    Some(info)
}

/// Splits `raw` into `h` rows of `stride` bytes.
pub fn split_into_rows(raw: &Vec<u8>, stride: usize, h: usize) -> (rows: Vec<Vec<u8>>)
    requires
        stride * h <= raw@.len(),
    ensures
        rows@.len() == h,
        forall|y: int| 0 <= y < h ==> #[trigger] rows@[y]@ == split_rows(raw@, stride as int, h as int)[y],
{
    let mut rows: Vec<Vec<u8>> = Vec::new();
    let mut y: usize = 0;
    let mut off: usize = 0;
    while y < h
        invariant
            y <= h,
            stride * h <= raw.len(),
            off == y * stride,
            rows@.len() == y,
            forall|j: int| 0 <= j < y ==> #[trigger] rows@[j]@ == split_rows(raw@, stride as int, h as int)[j],
        decreases h - y,
    {
        proof {
            assert(off + stride <= stride * h) by (nonlinear_arith)
                requires
                    off == y * stride,
                    y < h,
            ;
        }
        let mut row: Vec<u8> = Vec::new();
        let mut i: usize = 0;
        while i < stride
            invariant
                i <= stride,
                off + stride <= raw.len(),
                row@ == raw@.subrange(off as int, off + i),
            decreases stride - i,
        {
            row.push(raw[off + i]);
            i = i + 1;
            proof {
                assert(row@ =~= raw@.subrange(off as int, off + i));
            }
        }
        rows.push(row);
        proof {
            assert(off + stride == (y + 1) * stride) by (nonlinear_arith)
                requires
                    off == y * stride,
            ;
        }
        off = off + stride;
        y = y + 1;
    }
    rows
}

/// Reconstructs row `y` given the reconstructed row above it (`prev`, unused for row 0).
fn unfilter_row(rows: &Vec<Vec<u8>>, prev: &Vec<u8>, y: usize, stride: usize, ch: usize, Ghost(g): Ghost<Seq<Seq<u8>>>) -> (row: Vec<u8>)
    requires
        y < rows@.len(),
        g == grid_view(rows@),
        1 <= ch <= 4,
        1 <= stride,
        rows@[y as int]@.len() == stride,
        y > 0 ==> prev@.len() == stride,
        y > 0 ==> forall|k: int| 1 <= k < stride ==> #[trigger] prev@[k] == recon(g, ch as nat, (y - 1) as nat, k as nat),
        rows@[y as int]@[0] <= 4,
    ensures
        row@.len() == stride,
        row@[0] == rows@[y as int]@[0],
        forall|k: int| 1 <= k < stride ==> #[trigger] row@[k] == recon(g, ch as nat, y as nat, k as nat),
{
    let filter = rows[y][0];
    proof {
        assert(g[y as int] == rows@[y as int]@);
    }
    let mut row: Vec<u8> = Vec::new();
    row.push(filter);
    let mut i: usize = 1;
    while i < stride
        invariant
            1 <= i <= stride,
            y < rows@.len(),
            g[y as int] == rows@[y as int]@,
            rows@[y as int]@.len() == stride,
            1 <= ch <= 4,
            y > 0 ==> prev@.len() == stride,
            y > 0 ==> forall|k: int| 1 <= k < stride ==> #[trigger] prev@[k] == recon(g, ch as nat, (y - 1) as nat, k as nat),
            filter == g[y as int][0],
            filter <= 4,
            row@.len() == i,
            row@[0] == filter,
            forall|k: int| 1 <= k < i ==> #[trigger] row@[k] == recon(g, ch as nat, y as nat, k as nat),
        decreases stride - i,
    {
        let a: u8 = if i > ch {
            row[i - ch]
        } else {
            0
        };
        let b: u8 = if y > 0 {
            prev[i]
        } else {
            0
        };
        let c: u8 = if y > 0 && i > ch {
            prev[i - ch]
        } else {
            0
        };
        let v = rows[y][i];
        let nv = filter_byte(filter, v, a, b, c);
        proof {
            assert(a == (if i > ch { recon(g, ch as nat, y as nat, (i - ch) as nat) } else { 0 }));
            assert(b == (if y > 0 { recon(g, ch as nat, (y - 1) as nat, i as nat) } else { 0 }));
            assert(c == (if y > 0 && i > ch { recon(g, ch as nat, (y - 1) as nat, (i - ch) as nat) } else { 0 }));
            assert(v == g[y as int][i as int]);
            lemma_recon_step(g, ch as nat, y as nat, i as nat, filter, v, a, b, c, nv);
        }
        let ghost old_row = row@;
        row.push(nv);
        proof {
            assert forall|k: int| 1 <= k < i + 1 implies #[trigger] row@[k] == recon(g, ch as nat, y as nat, k as nat) by {
                if k < i {
                    assert(row@[k] == old_row[k]);
                }
            }
        }
        i = i + 1;
    }
    row
}

/// Reverses the row filters: returns the reconstructed rows (byte 0 of each kept),
/// or None at the first row whose filter is unknown.
pub fn unfilter(rows: &Vec<Vec<u8>>, stride: usize, ch: usize) -> (r: Option<Vec<Vec<u8>>>)
    requires
        1 <= ch <= 4,
        1 <= stride,
        forall|y: int| 0 <= y < rows@.len() ==> #[trigger] rows@[y]@.len() == stride,
    ensures
        r is Some <==> filters_ok(grid_view(rows@)),
        r matches Some(out) ==> {
            &&& out@.len() == rows@.len()
            &&& forall|y: int| 0 <= y < rows@.len() ==> #[trigger] out@[y]@.len() == stride
            &&& forall|y: int, i: int|
                0 <= y < rows@.len() && 1 <= i < stride ==> #[trigger] out@[y]@[i] == recon(
                    grid_view(rows@),
                    ch as nat,
                    y as nat,
                    i as nat,
                )
        },
{
    let ghost g = grid_view(rows@);
    let mut out: Vec<Vec<u8>> = Vec::new();
    let mut y: usize = 0;
    while y < rows.len()
        invariant
            y <= rows@.len(),
            g == grid_view(rows@),
            1 <= ch <= 4,
            1 <= stride,
            forall|j: int| 0 <= j < rows@.len() ==> #[trigger] rows@[j]@.len() == stride,
            out@.len() == y,
            forall|j: int| 0 <= j < y ==> #[trigger] out@[j]@.len() == stride,
            forall|j: int| 0 <= j < y ==> #[trigger] g[j][0] <= 4,
            forall|j: int, i: int|
                0 <= j < y && 1 <= i < stride ==> #[trigger] out@[j]@[i] == recon(
                    g,
                    ch as nat,
                    j as nat,
                    i as nat,
                ),
        decreases rows@.len() - y,
    {
        let filter = rows[y][0];
        proof {
            assert(g[y as int] == rows@[y as int]@);
        }
        if filter > 4 {
            return None;
        }
        let row = if y > 0 {
            unfilter_row(rows, &out[y - 1], y, stride, ch, Ghost(g))
        } else {
            let empty: Vec<u8> = Vec::new();
            unfilter_row(rows, &empty, y, stride, ch, Ghost(g))
        };
        out.push(row);
        y = y + 1;
    }
    Some(out)
}

/// Finishes decoding from the inflated scan lines `raw`: checks that there are exactly
/// `stride * height` of them, reverses the filters and scales the image onto `dst`.
pub fn png_finish(
    raw: &Vec<u8>,
    width: u32,
    height: u32,
    ch: u32,
    dst: &mut Vec<u32>,
    dst_w: u32,
    dst_h: u32,
) -> (r: bool)
    requires
        1 <= width <= 1920,
        1 <= height <= 1920,
        ch == 1 || ch == 3 || ch == 4,
        dst_w * dst_h <= old(dst)@.len(),
    ensures
        final(dst)@.len() == old(dst)@.len(),
        r == (raw@.len() == (width * ch + 1) * height && filters_ok(
            split_rows(raw@, (width * ch + 1) as int, height as int),
        )),
        r ==> scaled_image(
            final(dst)@,
            png_color_grid(
                split_rows(raw@, (width * ch + 1) as int, height as int),
                ch as nat,
                width as int,
                height as int,
            ),
            width as int,
            height as int,
            dst_w as int,
            dst_h as int,
        ),
        !r ==> final(dst)@ == old(dst)@,
        final(dst)@.skip(dst_w * dst_h) == old(dst)@.skip(dst_w * dst_h),
{
    assert(width as usize * ch as usize <= 7680) by (nonlinear_arith)
        requires
            width <= 1920,
            ch <= 4,
    ;
    let stride = width as usize * ch as usize + 1;
    proof {
        assert(stride * height <= 7681 * 1920) by (nonlinear_arith)
            requires
                stride == width * ch + 1,
                width <= 1920,
                ch <= 4,
                height <= 1920,
        ;
    }
    if raw.len() != stride * height as usize {
        return false;
    }
    let rows = split_into_rows(raw, stride, height as usize);
    let ghost sr = split_rows(raw@, stride as int, height as int);
    proof {
        assert(grid_view(rows@) =~= sr);
        assert forall|y: int| 0 <= y < rows@.len() implies #[trigger] rows@[y]@.len() == stride by {
            assert((y + 1) * stride <= stride * height) by (nonlinear_arith)
                requires
                    0 <= y < height,
            ;
            assert(y * stride + stride == (y + 1) * stride) by (nonlinear_arith);
            assert(0 <= y * stride) by (nonlinear_arith)
                requires
                    0 <= y,
            ;
        }
    }
    let recon_rows = match unfilter(&rows, stride, ch as usize) {
        Some(v) => v,
        None => return false,
    };
    let mut colors: Vec<Vec<u32>> = Vec::new();
    let mut oks: Vec<Vec<bool>> = Vec::new();
    let mut y: u32 = 0;
    while y < height
        invariant
            y <= height,
            1 <= width <= 1920,
            1 <= height <= 1920,
            ch == 1 || ch == 3 || ch == 4,
            stride == width * ch + 1,
            sr == grid_view(rows@),
            recon_rows@.len() == height,
            forall|j: int| 0 <= j < height ==> #[trigger] recon_rows@[j]@.len() == stride,
            forall|j: int, i: int|
                0 <= j < height && 1 <= i < stride ==> #[trigger] recon_rows@[j]@[i] == recon(
                    sr,
                    ch as nat,
                    j as nat,
                    i as nat,
                ),
            colors@.len() == y,
            oks@.len() == y,
            forall|j: int| 0 <= j < y ==> #[trigger] colors@[j]@ == png_color_grid(sr, ch as nat, width as int, height as int)[j],
            forall|j: int| 0 <= j < y ==> #[trigger] oks@[j]@ == true_grid(width as int, height as int)[j],
        decreases height - y,
    {
        let mut crow: Vec<u32> = Vec::new();
        let mut orow: Vec<bool> = Vec::new();
        let mut x: u32 = 0;
        while x < width
            invariant
                x <= width,
                y < height,
                1 <= width <= 1920,
                ch == 1 || ch == 3 || ch == 4,
                stride == width * ch + 1,
                recon_rows@.len() == height,
                forall|j: int| 0 <= j < height ==> #[trigger] recon_rows@[j]@.len() == stride,
                forall|j: int, i: int|
                    0 <= j < height && 1 <= i < stride ==> #[trigger] recon_rows@[j]@[i] == recon(
                        sr,
                        ch as nat,
                        j as nat,
                        i as nat,
                    ),
                crow@.len() == x,
                orow@.len() == x,
                forall|i: int| 0 <= i < x ==> #[trigger] crow@[i] == png_pixel(sr, ch as nat, i, y as int),
                forall|i: int| 0 <= i < x ==> #[trigger] orow@[i] == true,
            decreases width - x,
        {
            proof {
                assert(1 + x * ch + ch <= stride) by (nonlinear_arith)
                    requires
                        x < width,
                        stride == width * ch + 1,
                ;
            }
            let o = 1 + x as usize * ch as usize;
            let row = &recon_rows[y as usize];
            let color = if ch == 1 {
                color_of(row[o], row[o], row[o])
            } else {
                color_of(row[o], row[o + 1], row[o + 2])
            };
            crow.push(color);
            orow.push(true);
            x = x + 1;
        }
        proof {
            assert(crow@ =~= png_color_grid(sr, ch as nat, width as int, height as int)[y as int]);
            assert(orow@ =~= true_grid(width as int, height as int)[y as int]);
        }
        colors.push(crow);
        oks.push(orow);
        y = y + 1;
    }
    proof {
        assert(grid_view(colors@) =~= png_color_grid(sr, ch as nat, width as int, height as int));
        assert(grid_view(oks@) =~= true_grid(width as int, height as int));
    }
    let ok = scale_into(&colors, &oks, width, height, dst, dst_w, dst_h);
    proof {
        assert forall|dx: int, dy: int| 0 <= dx < dst_w && 0 <= dy < dst_h implies #[trigger] sample_ok(
            true_grid(width as int, height as int),
            width as int,
            height as int,
            dst_w as int,
            dst_h as int,
            dx,
            dy,
        ) by {
            crate::wallpaper::scale::lemma_src_coord_bound(dy, height as int, dst_h as int);
            crate::wallpaper::scale::lemma_src_coord_bound(dx, width as int, dst_w as int);
        }
    }
    ok
}

/// Reads a PNG file of `data` into the `dst_w` by `dst_h` row-major `dst`, scaling it
/// to fit by nearest-neighbour sampling.
pub fn decode_png(data: &[u8], dst: &mut Vec<u32>, dst_w: u32, dst_h: u32) -> (r: bool)
    requires
        dst_w * dst_h <= old(dst)@.len(),
    ensures
        final(dst)@.len() == old(dst)@.len(),
        r == png_ok(data@, dst_w as int, dst_h as int),
        r ==> scaled_image(
            final(dst)@,
            png_grid(data@),
            png_info(data@).width as int,
            png_info(data@).height as int,
            dst_w as int,
            dst_h as int,
        ),
        !r ==> final(dst)@ == old(dst)@,
        final(dst)@.skip(dst_w * dst_h) == old(dst)@.skip(dst_w * dst_h),
{
    if data.len() < 57 || dst_w == 0 || dst_h == 0 {
        return false;
    }
    if !(data[0] == 137 && data[1] == 80 && data[2] == 78 && data[3] == 71 && data[4] == 13
        && data[5] == 10 && data[6] == 26 && data[7] == 10) {
        return false;
    }
    let info = match png_scan_chunks(data) {
        Some(i) => i,
        None => return false,
    };
    if !info.have_ihdr || info.idat.len() == 0 {
        return false;
    }
    if info.width == 0 || info.width > 1920 || info.height == 0 || info.height > 1920 {
        return false;
    }
    if info.bit_depth != 8 || info.interlace != 0 {
        return false;
    }
    let ch: u32 = if info.color_type == 0 {
        1
    } else if info.color_type == 2 {
        3
    } else if info.color_type == 6 {
        4
    } else {
        return false;
    };
    assert(info.width as usize * ch as usize <= 1920 * 4) by (nonlinear_arith)
        requires
            info.width <= 1920,
            ch <= 4,
    ;
    assert((info.width as usize * ch as usize + 1) * info.height as usize <= 7681 * 1920) by (nonlinear_arith)
        requires
            info.width as usize * ch as usize <= 1920 * 4,
            info.height <= 1920,
    ;
    let stride = info.width as usize * ch as usize + 1;
    let raw_size = stride * info.height as usize;
    assert(raw_size >= 1) by (nonlinear_arith)
        requires
            raw_size == stride * info.height,
            stride >= 1,
            info.height >= 1,
    ;
    if raw_size == 0 || raw_size > 16 * 1024 * 1024 {
        return false;
    }
    let mut raw: Vec<u8> = Vec::new();
    let mut z: usize = 0;
    while z < raw_size
        invariant
            z <= raw_size,
            raw@.len() == z,
        decreases raw_size - z,
    {
        raw.push(0);
        z = z + 1;
    }
    let inflated = match inflate(info.idat.as_slice(), &mut raw) {
        Some(n) => n,
        None => return false,
    };
    if inflated != raw_size {
        return false;
    }
    proof {
        assert(raw@.take(inflated as int) =~= raw@);
    }
    png_finish(&raw, info.width, info.height, ch, dst, dst_w, dst_h)
}


/// How far apart `x` and `y` are.
pub open spec fn gap(x: int, y: int) -> int {
    if x >= y {
        x - y
    } else {
        y - x
    }
}

/// The Paeth predictor, over all neighbours: it is one of `a`, `b` and `c`, none of
/// them lies closer to `a + b - c`, and ties go to `a` first, then to `b`.
pub proof fn lemma_paeth_nearest(a: u8, b: u8, c: u8)
    ensures
        ({
            let p = a + b - c;
            let r = spec_paeth(a, b, c);
            &&& r == a || r == b || r == c
            &&& gap(p, r as int) <= gap(p, a as int)
            &&& gap(p, r as int) <= gap(p, b as int)
            &&& gap(p, r as int) <= gap(p, c as int)
            &&& (gap(p, a as int) <= gap(p, b as int) && gap(p, a as int) <= gap(p, c as int)) ==> r == a
            &&& (gap(p, b as int) < gap(p, a as int) && gap(p, b as int) <= gap(p, c as int)) ==> r == b
        }),
{
}

} // verus!
