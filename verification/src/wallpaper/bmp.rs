use vstd::prelude::*;
use crate::wallpaper::scale::{all_samples_ok, grid_view, scale_into, scaled_image, scaled_prefix};

verus! {

/// Largest accepted image side.
pub const MAX_DIM: u32 = 1920;

/// Little-endian 16-bit number at `i`.
pub open spec fn le16(d: Seq<u8>, i: int) -> int {
    d[i] + 256 * d[i + 1]
}

/// Little-endian 32-bit number at `i`.
pub open spec fn le32(d: Seq<u8>, i: int) -> int {
    d[i] + 256 * d[i + 1] + 65536 * d[i + 2] + 16777216 * d[i + 3]
}

/// Big-endian 32-bit number at `i`.
pub open spec fn be32(d: Seq<u8>, i: int) -> int {
    16777216 * d[i] + 65536 * d[i + 1] + 256 * d[i + 2] + d[i + 3]
}

/// A 32-bit pattern read as a two's-complement number.
pub open spec fn signed32(v: int) -> int {
    if v >= 0x8000_0000 {
        v - 0x1_0000_0000
    } else {
        v
    }
}

/// An RGB colour from its red, green and blue bytes.
pub open spec fn rgb(r: u8, g: u8, b: u8) -> u32 {
    (r as int * 65536 + g as int * 256 + b as int) as u32
}

pub fn u16le(p: &[u8], at: usize) -> (r: u16)
    requires
        at + 2 <= p@.len(),
    ensures
        r == le16(p@, at as int),
{
    let (a, b) = (p[at], p[at + 1]);
    assert(a as u16 | ((b as u16) << 8u16) == a as u16 + 256 * b as u16) by (bit_vector);
    a as u16 | ((b as u16) << 8u16)
}

pub fn u32le(p: &[u8], at: usize) -> (r: u32)
    requires
        at + 4 <= p@.len(),
    ensures
        r == le32(p@, at as int),
{
    let (a, b, c, d) = (p[at], p[at + 1], p[at + 2], p[at + 3]);
    assert(a as u32 | ((b as u32) << 8u32) | ((c as u32) << 16u32) | ((d as u32) << 24u32) == a
        as u32 + 256 * b as u32 + 65536 * c as u32 + 16777216 * d as u32) by (bit_vector);
    a as u32 | ((b as u32) << 8u32) | ((c as u32) << 16u32) | ((d as u32) << 24u32)
}

pub fn i32le(p: &[u8], at: usize) -> (r: i32)
    requires
        at + 4 <= p@.len(),
    ensures
        r == signed32(le32(p@, at as int)),
{
    let v = u32le(p, at);
    if v >= 0x8000_0000 {
        (v as i64 - 0x1_0000_0000i64) as i32
    } else {
        v as i32
    }
}

pub fn u32be(p: &[u8], at: usize) -> (r: u32)
    requires
        at + 4 <= p@.len(),
    ensures
        r == be32(p@, at as int),
{
    let (a, b, c, d) = (p[at], p[at + 1], p[at + 2], p[at + 3]);
    assert(((a as u32) << 24u32) | ((b as u32) << 16u32) | ((c as u32) << 8u32) | d as u32 == 16777216
        * a as u32 + 65536 * b as u32 + 256 * c as u32 + d as u32) by (bit_vector);
    ((a as u32) << 24u32) | ((b as u32) << 16u32) | ((c as u32) << 8u32) | d as u32
}

pub fn color_of(r: u8, g: u8, b: u8) -> (c: u32)
    ensures
        c == rgb(r, g, b),
{
    assert(((r as u32) << 16u32) | ((g as u32) << 8u32) | b as u32 == r as u32 * 65536 + g as u32
        * 256 + b as u32) by (bit_vector);
    ((r as u32) << 16u32) | ((g as u32) << 8u32) | b as u32
}

pub open spec fn bmp_offset(d: Seq<u8>) -> int {
    le32(d, 10)
}

pub open spec fn bmp_width(d: Seq<u8>) -> int {
    signed32(le32(d, 18))
}

/// The height field, negative for an image stored top row first.
pub open spec fn bmp_height_field(d: Seq<u8>) -> int {
    signed32(le32(d, 22))
}

pub open spec fn bmp_height(d: Seq<u8>) -> int {
    if bmp_height_field(d) < 0 {
        -bmp_height_field(d)
    } else {
        bmp_height_field(d)
    }
}

pub open spec fn bmp_bpp(d: Seq<u8>) -> int {
    le16(d, 28)
}

/// Bytes per stored row, padded to a multiple of four except at 32 bits per pixel.
pub open spec fn bmp_stride(d: Seq<u8>) -> int {
    let w = bmp_width(d);
    if bmp_bpp(d) == 24 {
        (w * 3 + 3) / 4 * 4
    } else if bmp_bpp(d) == 32 {
        w * 4
    } else {
        (w + 3) / 4 * 4
    }
}

/// Bytes of pixel data in a row.
pub open spec fn bmp_pixel_bytes(d: Seq<u8>) -> int {
    let w = bmp_width(d);
    if bmp_bpp(d) == 24 {
        w * 3
    } else if bmp_bpp(d) == 32 {
        w * 4
    } else {
        w
    }
}

/// The header describes an image this decoder reads: a "BM" file of at least 54 bytes,
/// sides from 1 to 1920, 8, 24 or 32 bits per pixel, no compression (or bit fields),
/// pixel data starting inside the file and, at 8 bits, room for a palette.
pub open spec fn bmp_header_ok(d: Seq<u8>) -> bool {
    &&& d.len() >= 54
    &&& le16(d, 0) == 0x4D42
    &&& 0 < bmp_width(d) <= 1920
    &&& 0 < bmp_height(d) <= 1920
    &&& (bmp_bpp(d) == 24 || bmp_bpp(d) == 32 || bmp_bpp(d) == 8)
    &&& (le32(d, 30) == 0 || le32(d, 30) == 3)
    &&& bmp_offset(d) < d.len()
    &&& (bmp_bpp(d) == 8 ==> bmp_offset(d) >= 58)
}

/// Offset of the stored row holding image row `y` (row 0 at the top).
pub open spec fn bmp_row_off(d: Seq<u8>, y: int) -> int {
    let file_row = if bmp_height_field(d) < 0 {
        y
    } else {
        bmp_height(d) - 1 - y
    };
    bmp_offset(d) + file_row * bmp_stride(d)
}

/// Offset of the palette entry that pixel (`x`, `y`) of an 8-bit image refers to.
pub open spec fn bmp_palette_off(d: Seq<u8>, x: int, y: int) -> int {
    54 + d[bmp_row_off(d, y) + x] * 4
}

/// Pixel (`x`, `y`) can be read: its row lies inside the file and, at 8 bits, its
/// palette entry lies before the pixel data.
pub open spec fn bmp_cell_ok(d: Seq<u8>, x: int, y: int) -> bool {
    &&& bmp_row_off(d, y) + bmp_pixel_bytes(d) <= d.len()
    &&& (bmp_bpp(d) == 8 ==> bmp_palette_off(d, x, y) + 2 < bmp_offset(d) && bmp_palette_off(
        d,
        x,
        y,
    ) + 2 < d.len())
}

/// The colour of pixel (`x`, `y`): blue, green, red bytes in the file (0 for a
/// pixel that cannot be read).
pub open spec fn bmp_cell_color(d: Seq<u8>, x: int, y: int) -> u32 {
    if !bmp_cell_ok(d, x, y) {
        0
    } else {
        bmp_stored_color(d, x, y)
    }
}

pub open spec fn bmp_stored_color(d: Seq<u8>, x: int, y: int) -> u32 {
    let base = if bmp_bpp(d) == 24 {
        bmp_row_off(d, y) + x * 3
    } else if bmp_bpp(d) == 32 {
        bmp_row_off(d, y) + x * 4
    } else {
        bmp_palette_off(d, x, y)
    };
    rgb(d[base + 2], d[base + 1], d[base])
}

pub open spec fn bmp_ok_grid(d: Seq<u8>) -> Seq<Seq<bool>> {
    Seq::new(
        bmp_height(d) as nat,
        |y: int| Seq::new(bmp_width(d) as nat, |x: int| bmp_cell_ok(d, x, y)),
    )
}

pub open spec fn bmp_color_grid(d: Seq<u8>) -> Seq<Seq<u32>> {
    Seq::new(
        bmp_height(d) as nat,
        |y: int| Seq::new(bmp_width(d) as nat, |x: int| bmp_cell_color(d, x, y)),
    )
}

/// Reads a BMP file of `data` into the `dst_w` by `dst_h` row-major `dst`, scaling
/// it to fit by nearest-neighbour sampling.
pub fn decode_bmp(data: &[u8], dst: &mut Vec<u32>, dst_w: u32, dst_h: u32) -> (r: bool)
    requires
        dst_w * dst_h <= old(dst)@.len(),
    ensures
        final(dst)@.len() == old(dst)@.len(),
        r == (dst_w > 0 && dst_h > 0 && bmp_header_ok(data@) && all_samples_ok(
            bmp_ok_grid(data@),
            bmp_width(data@),
            bmp_height(data@),
            dst_w as int,
            dst_h as int,
        )),
        r ==> scaled_image(
            final(dst)@,
            bmp_color_grid(data@),
            bmp_width(data@),
            bmp_height(data@),
            dst_w as int,
            dst_h as int,
        ),
        dst_w > 0 && dst_h > 0 && bmp_header_ok(data@) ==> scaled_prefix(
            final(dst)@,
            old(dst)@,
            bmp_color_grid(data@),
            bmp_ok_grid(data@),
            bmp_width(data@),
            bmp_height(data@),
            dst_w as int,
            dst_h as int,
        ),
        !(dst_w > 0 && dst_h > 0 && bmp_header_ok(data@)) ==> final(dst)@ == old(dst)@,
        final(dst)@.skip(dst_w * dst_h) == old(dst)@.skip(dst_w * dst_h),
{
    if data.len() < 54 || dst_w == 0 || dst_h == 0 {
        return false;
    }
    if u16le(data, 0) != 0x4D42 {
        return false;
    }
    let data_offset = u32le(data, 10) as usize;
    let width = i32le(data, 18);
    let height_field = i32le(data, 22);
    let bpp = u16le(data, 28);
    let compression = u32le(data, 30);
    if width <= 0 || width as u32 > MAX_DIM {
        return false;
    }
    let top_down = height_field < 0;
    let height: i64 = if top_down {
        -(height_field as i64)
    } else {
        height_field as i64
    };
    if height <= 0 || height > MAX_DIM as i64 {
        return false;
    }
    let src_w = width as u32;
    let src_h = height as u32;
    if bpp != 24 && bpp != 32 && bpp != 8 {
        return false;
    }
    if compression != 0 && compression != 3 {
        return false;
    }
    if data_offset >= data.len() {
        return false;
    }
    let row_stride: usize = if bpp == 24 {
        ((src_w * 3 + 3) / 4 * 4) as usize
    } else if bpp == 32 {
        (src_w * 4) as usize
    } else {
        ((src_w + 3) / 4 * 4) as usize
    };
    if bpp == 8 {
        if data_offset < 54 || data_offset > data.len() || data_offset - 54 < 4 {
            return false;
        }
    }
    let px_bytes: usize = if bpp == 24 {
        src_w as usize * 3
    } else if bpp == 32 {
        src_w as usize * 4
    } else {
        src_w as usize
    };
    let ghost d = data@;
    proof {
        assert(bmp_header_ok(d));
        assert(row_stride == bmp_stride(d));
        assert(px_bytes == bmp_pixel_bytes(d));
    }
    let mut colors: Vec<Vec<u32>> = Vec::new();
    let mut oks: Vec<Vec<bool>> = Vec::new();
    let mut y: u32 = 0;
    while y < src_h
        invariant
            y <= src_h,
            src_w == bmp_width(d),
            src_h == bmp_height(d),
            top_down == (bmp_height_field(d) < 0),
            data_offset == bmp_offset(d),
            row_stride == bmp_stride(d),
            px_bytes == bmp_pixel_bytes(d),
            bpp == bmp_bpp(d),
            bmp_header_ok(d),
            d == data@,
            colors@.len() == y,
            oks@.len() == y,
            forall|j: int| 0 <= j < y ==> #[trigger] colors@[j]@ == bmp_color_grid(d)[j],
            forall|j: int| 0 <= j < y ==> #[trigger] oks@[j]@ == bmp_ok_grid(d)[j],
        decreases src_h - y,
    {
        let file_row: usize = if top_down {
            y as usize
        } else {
            (src_h - 1 - y) as usize
        };
        proof {
            assert(file_row * row_stride <= 1919 * 7680) by (nonlinear_arith)
                requires
                    file_row <= 1919,
                    row_stride <= 7680,
            ;
        }
        let row_fits = file_row * row_stride + px_bytes <= data.len() - data_offset;
        let mut crow: Vec<u32> = Vec::new();
        let mut orow: Vec<bool> = Vec::new();
        let mut x: u32 = 0;
        while x < src_w
            invariant
                x <= src_w,
                y < src_h,
                src_w == bmp_width(d),
                src_h == bmp_height(d),
                top_down == (bmp_height_field(d) < 0),
                data_offset == bmp_offset(d),
                row_stride == bmp_stride(d),
                px_bytes == bmp_pixel_bytes(d),
                bpp == bmp_bpp(d),
                bmp_header_ok(d),
                d == data@,
                d.len() == data.len(),
                file_row * row_stride <= 1919 * 7680,
                bmp_row_off(d, y as int) == data_offset + file_row * row_stride,
                row_fits == (bmp_row_off(d, y as int) + px_bytes <= d.len()),
                crow@.len() == x,
                orow@.len() == x,
                forall|i: int| 0 <= i < x ==> #[trigger] crow@[i] == bmp_cell_color(d, i, y as int),
                forall|i: int| 0 <= i < x ==> #[trigger] orow@[i] == bmp_cell_ok(d, i, y as int),
            decreases src_w - x,
        {
            if !row_fits {
                crow.push(0);
                orow.push(false);
            } else {
                let row_off = data_offset + file_row * row_stride;
                if bpp == 24 || bpp == 32 {
                    let bytes: usize = if bpp == 24 {
                        3
                    } else {
                        4
                    };
                    proof {
                        assert(x * bytes + bytes <= px_bytes) by (nonlinear_arith)
                            requires
                                x < src_w,
                                px_bytes == src_w * bytes,
                        ;
                    }
                    let base = row_off + x as usize * bytes;
                    crow.push(color_of(data[base + 2], data[base + 1], data[base]));
                    orow.push(true);
                } else {
                    let idx = data[row_off + x as usize] as usize;
                    let pal_off = 54 + idx * 4;
                    if pal_off + 2 >= data_offset || pal_off + 2 >= data.len() {
                        crow.push(0);
                        orow.push(false);
                    } else {
                        crow.push(color_of(data[pal_off + 2], data[pal_off + 1], data[pal_off]));
                        orow.push(true);
                    }
                }
            }
            x = x + 1;
        }
        proof {
            assert(crow@ =~= bmp_color_grid(d)[y as int]);
            assert(orow@ =~= bmp_ok_grid(d)[y as int]);
        }
        colors.push(crow);
        oks.push(orow);
        y = y + 1;
    }
    proof {
        assert(grid_view(colors@) =~= bmp_color_grid(d));
        assert(grid_view(oks@) =~= bmp_ok_grid(d));
    }
    scale_into(&colors, &oks, src_w, src_h, dst, dst_w, dst_h)
}


/// Which stored bytes each decoded pixel comes from, over every BMP the decoder reads
/// and every destination size. Destination pixel (`dx`, `dy`) samples source pixel
/// (`dx * width / dst_w`, `dy * height / dst_h`). Its row is found in the file as
/// follows: when the height field (at byte 22) is negative the image is stored top
/// row first, so source row `sy` is stored row `sy`; otherwise the bottom row comes
/// first and source row `sy` is stored row `height - 1 - sy`. Stored rows start at
/// the offset in bytes 10 to 13 and follow each other by the row's bytes rounded up to
/// a multiple of 4 (at 32 bits, the row's bytes). Within the
/// row, a 24-bit pixel is 3 bytes and a 32-bit pixel 4 bytes, blue, green, red; an
/// 8-bit pixel is an index into the 4-byte blue, green, red entries of the palette at
/// byte 54.
pub proof fn lemma_bmp_pixel_source(d: Seq<u8>, img: Seq<u32>, dw: int, dh: int, dx: int, dy: int)
    requires
        bmp_header_ok(d),
        all_samples_ok(bmp_ok_grid(d), bmp_width(d), bmp_height(d), dw, dh),
        scaled_image(img, bmp_color_grid(d), bmp_width(d), bmp_height(d), dw, dh),
        0 <= dx < dw,
        0 <= dy < dh,
    ensures
        ({
            let w = signed32(le32(d, 18));
            let hf = signed32(le32(d, 22));
            let h = if hf < 0 { -hf } else { hf };
            let bpp = le16(d, 28);
            let sx = dx * w / dw;
            let sy = dy * h / dh;
            let stored_row = if hf < 0 { sy } else { h - 1 - sy };
            let stride = if bpp == 24 {
                (3 * w + 3) / 4 * 4
            } else if bpp == 32 {
                4 * w
            } else {
                (w + 3) / 4 * 4
            };
            let row = le32(d, 10) + stored_row * stride;
            let base = if bpp == 24 {
                row + 3 * sx
            } else if bpp == 32 {
                row + 4 * sx
            } else {
                54 + 4 * d[row + sx]
            };
            img[dy * dw + dx] == rgb(d[base + 2], d[base + 1], d[base])
        }),
{
    let sx = dx * bmp_width(d) / dw;
    let sy = dy * bmp_height(d) / dh;
    crate::wallpaper::scale::lemma_src_coord_bound(dx, bmp_width(d), dw);
    crate::wallpaper::scale::lemma_src_coord_bound(dy, bmp_height(d), dh);
    assert(crate::wallpaper::scale::sample_ok(bmp_ok_grid(d), bmp_width(d), bmp_height(d), dw, dh, dx, dy));
    assert(bmp_cell_ok(d, sx, sy));
    assert(img[dy * dw + dx] == bmp_color_grid(d)[sy][sx]);
}

} // verus!
