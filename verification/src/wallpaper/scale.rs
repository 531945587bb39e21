use vstd::prelude::*;

verus! {

/// The source coordinate that destination coordinate `d` samples when `n` source
/// cells are spread over `dn` destination cells.
pub open spec fn src_coord(d: int, n: int, dn: int) -> int {
    d * n / dn
}

/// The source cell that destination pixel (`dx`, `dy`) samples is usable.
pub open spec fn sample_ok(ok: Seq<Seq<bool>>, sw: int, sh: int, dw: int, dh: int, dx: int, dy: int) -> bool {
    ok[src_coord(dy, sh, dh)][src_coord(dx, sw, dw)]
}

/// The colour of the source cell that destination pixel (`dx`, `dy`) samples.
pub open spec fn sample_color(src: Seq<Seq<u32>>, sw: int, sh: int, dw: int, dh: int, dx: int, dy: int) -> u32 {
    src[src_coord(dy, sh, dh)][src_coord(dx, sw, dw)]
}

/// Every destination pixel samples a usable source cell.
pub open spec fn all_samples_ok(ok: Seq<Seq<bool>>, sw: int, sh: int, dw: int, dh: int) -> bool {
    forall|dx: int, dy: int|
        0 <= dx < dw && 0 <= dy < dh ==> #[trigger] sample_ok(ok, sw, sh, dw, dh, dx, dy)
}

/// `img` is a row-major `dw` by `dh` image whose pixel (`dx`, `dy`) is the sampled colour.
pub open spec fn scaled_image(img: Seq<u32>, src: Seq<Seq<u32>>, sw: int, sh: int, dw: int, dh: int) -> bool {
    forall|dx: int, dy: int|
        0 <= dx < dw && 0 <= dy < dh ==> #[trigger] img[dy * dw + dx] == sample_color(
            src,
            sw,
            sh,
            dw,
            dh,
            dx,
            dy,
        )
}

/// Destination pixels 0 to `k`, counted in row-major order, all sample usable source cells.
pub open spec fn ok_through(ok: Seq<Seq<bool>>, sw: int, sh: int, dw: int, dh: int, k: int) -> bool {
    forall|j: int| 0 <= j <= k ==> #[trigger] sample_ok(ok, sw, sh, dw, dh, j % dw, j / dw)
}

/// `new` is `old` with the destination pixels written in row-major order, each with
/// its sampled colour, up to (not including) the first whose source cell is not
/// usable; every other entry, those past `dw * dh` among them, keeps its old value.
pub open spec fn scaled_prefix(
    new: Seq<u32>,
    old: Seq<u32>,
    src: Seq<Seq<u32>>,
    ok: Seq<Seq<bool>>,
    sw: int,
    sh: int,
    dw: int,
    dh: int,
) -> bool {
    &&& new.len() == old.len()
    &&& forall|k: int|
        0 <= k < new.len() ==> #[trigger] new[k] == if k < dw * dh && ok_through(ok, sw, sh, dw, dh, k) {
            sample_color(src, sw, sh, dw, dh, k % dw, k / dw)
        } else {
            old[k]
        }
}

/// A table of `h` rows of `w` cells.
pub open spec fn is_grid<T>(g: Seq<Vec<T>>, w: int, h: int) -> bool {
    g.len() == h && forall|y: int| 0 <= y < h ==> #[trigger] g[y]@.len() == w
}

pub open spec fn grid_view<T>(g: Seq<Vec<T>>) -> Seq<Seq<T>> {
    g.map_values(|r: Vec<T>| r@)
}

pub proof fn lemma_src_coord_bound(d: int, n: int, dn: int)
    requires
        0 <= d < dn,
        0 < n,
    ensures
        0 <= src_coord(d, n, dn) < n,
{
    assert(0 <= d * n / dn < n) by (nonlinear_arith)
        requires
            0 <= d < dn,
            0 < n,
    ;
}

proof fn lemma_flat_index(i: int, dw: int, dx: int, dy: int)
    requires
        i == dy * dw + dx,
        0 <= dx < dw,
        0 <= dy,
    ensures
        i % dw == dx,
        i / dw == dy,
{
    vstd::arithmetic::div_mod::lemma_fundamental_div_mod_converse(i, dw, dy, dx);
}

/// Nearest-neighbour scaling of the `sw` by `sh` source `src` onto the `dw` by `dh`
/// row-major destination `dst`; fails, at the first such pixel, when a sampled
/// source cell is not usable.
pub fn scale_into(
    src: &Vec<Vec<u32>>,
    ok: &Vec<Vec<bool>>,
    sw: u32,
    sh: u32,
    dst: &mut Vec<u32>,
    dw: u32,
    dh: u32,
) -> (r: bool)
    requires
        1 <= sw,
        1 <= sh,
        is_grid(src@, sw as int, sh as int),
        is_grid(ok@, sw as int, sh as int),
        dw * dh <= old(dst)@.len(),
    ensures
        final(dst)@.len() == old(dst)@.len(),
        r == all_samples_ok(grid_view(ok@), sw as int, sh as int, dw as int, dh as int),
        r ==> scaled_image(final(dst)@, grid_view(src@), sw as int, sh as int, dw as int, dh as int),
        scaled_prefix(
            final(dst)@,
            old(dst)@,
            grid_view(src@),
            grid_view(ok@),
            sw as int,
            sh as int,
            dw as int,
            dh as int,
        ),
        final(dst)@.skip(dw * dh) == old(dst)@.skip(dw * dh),
{
    let ghost sv = grid_view(src@);
    let ghost ov = grid_view(ok@);
    let mut dy: u32 = 0;
    let mut i: usize = 0;
    while dy < dh
        invariant
            dy <= dh,
            is_grid(src@, sw as int, sh as int),
            is_grid(ok@, sw as int, sh as int),
            sv == grid_view(src@),
            ov == grid_view(ok@),
            1 <= sw,
            1 <= sh,
            dw * dh <= dst.len(),
            dst@.len() == old(dst)@.len(),
            i == dy * dw,
            forall|k: int| 0 <= k < i ==> #[trigger] ok_through(ov, sw as int, sh as int, dw as int, dh as int, k),
            forall|k: int| i <= k < dst@.len() ==> #[trigger] dst@[k] == old(dst)@[k],
            forall|x: int, y: int|
                0 <= x < dw && 0 <= y < dy ==> #[trigger] sample_ok(ov, sw as int, sh as int, dw as int, dh as int, x, y),
            forall|k: int|
                0 <= k < i ==> #[trigger] dst@[k] == sample_color(
                    sv,
                    sw as int,
                    sh as int,
                    dw as int,
                    dh as int,
                    k % (dw as int),
                    k / (dw as int),
                ),
        decreases dh - dy,
    {
        assert(dy as u64 * sh as u64 <= 0xffff_ffff_u64 * 0xffff_ffff_u64) by (nonlinear_arith)
            requires
                dy <= 0xffff_ffff,
                sh <= 0xffff_ffff,
        ;
        let src_y = (dy as u64 * sh as u64 / dh as u64) as usize;
        proof {
            lemma_src_coord_bound(dy as int, sh as int, dh as int);
        }
        let mut dx: u32 = 0;
        while dx < dw
            invariant
                dx <= dw,
                dy < dh,
                is_grid(src@, sw as int, sh as int),
                is_grid(ok@, sw as int, sh as int),
                sv == grid_view(src@),
                ov == grid_view(ok@),
                1 <= sw,
                1 <= sh,
                src_y == src_coord(dy as int, sh as int, dh as int),
                src_y < sh,
                dw * dh <= dst.len(),
                dst@.len() == old(dst)@.len(),
                i == dy * dw + dx,
                forall|k: int| 0 <= k < i ==> #[trigger] ok_through(ov, sw as int, sh as int, dw as int, dh as int, k),
                forall|k: int| i <= k < dst@.len() ==> #[trigger] dst@[k] == old(dst)@[k],
                forall|x: int, y: int|
                    0 <= x < dw && 0 <= y < dy ==> #[trigger] sample_ok(ov, sw as int, sh as int, dw as int, dh as int, x, y),
                forall|x: int| 0 <= x < dx ==> #[trigger] sample_ok(ov, sw as int, sh as int, dw as int, dh as int, x, dy as int),
                forall|k: int|
                    0 <= k < i ==> #[trigger] dst@[k] == sample_color(
                        sv,
                        sw as int,
                        sh as int,
                        dw as int,
                        dh as int,
                        k % (dw as int),
                        k / (dw as int),
                    ),
            decreases dw - dx,
        {
            assert(dx as u64 * sw as u64 <= 0xffff_ffff_u64 * 0xffff_ffff_u64) by (nonlinear_arith)
                requires
                    dx <= 0xffff_ffff,
                    sw <= 0xffff_ffff,
            ;
            let src_x = (dx as u64 * sw as u64 / dw as u64) as usize;
            proof {
                lemma_src_coord_bound(dx as int, sw as int, dw as int);
                assert(i < dw * dh) by (nonlinear_arith)
                    requires
                        i == dy * dw + dx,
                        dx < dw,
                        dy < dh,
                ;
                assert(src@[src_y as int]@.len() == sw);
                assert(ok@[src_y as int]@.len() == sw);
                assert(ov[src_y as int] == ok@[src_y as int]@);
                assert(sv[src_y as int] == src@[src_y as int]@);
            }
            if !ok[src_y][src_x] {
                proof {
                    assert(!sample_ok(ov, sw as int, sh as int, dw as int, dh as int, dx as int, dy as int));
                    lemma_flat_index(i as int, dw as int, dx as int, dy as int);
                    assert forall|k: int| i <= k implies !#[trigger] ok_through(ov, sw as int, sh as int, dw as int, dh as int, k) by {
                        assert(!sample_ok(ov, sw as int, sh as int, dw as int, dh as int, i as int % (dw as int), i as int / (dw as int)));
                    }
                    assert forall|k: int| 0 <= k < dst@.len() implies #[trigger] dst@[k] == if k < dw * dh && ok_through(ov, sw as int, sh as int, dw as int, dh as int, k) {
                        sample_color(sv, sw as int, sh as int, dw as int, dh as int, k % (dw as int), k / (dw as int))
                    } else {
                        old(dst)@[k]
                    } by {
                        if k < i {
                            assert(ok_through(ov, sw as int, sh as int, dw as int, dh as int, k));
                        }
                    }
                    assert(dst@.skip(dw * dh) =~= old(dst)@.skip(dw * dh));
                }
                return false;
            }
            let color = src[src_y][src_x];
            let ghost prev = dst@;
            dst.set(i, color);
            proof {
                lemma_flat_index(i as int, dw as int, dx as int, dy as int);
                assert(sample_ok(ov, sw as int, sh as int, dw as int, dh as int, i as int % (dw as int), i as int / (dw as int)));
                assert forall|j: int| 0 <= j <= i implies #[trigger] sample_ok(ov, sw as int, sh as int, dw as int, dh as int, j % (dw as int), j / (dw as int)) by {
                    if j < i {
                        assert(ok_through(ov, sw as int, sh as int, dw as int, dh as int, j));
                    }
                }
                assert(ok_through(ov, sw as int, sh as int, dw as int, dh as int, i as int));
                assert forall|k: int| i < k < dst@.len() implies #[trigger] dst@[k] == old(dst)@[k] by {
                    assert(prev[k] == old(dst)@[k]);
                }
            }
            i = i + 1;
            dx = dx + 1;
        }
        proof {
            assert(i == (dy + 1) * dw) by (nonlinear_arith)
                requires
                    i == dy * dw + dw,
            ;
        }
        dy = dy + 1;
    }
    proof {
        assert forall|x: int, y: int| 0 <= x < dw && 0 <= y < dh implies #[trigger] dst@[y * dw + x]
            == sample_color(sv, sw as int, sh as int, dw as int, dh as int, x, y) by {
            lemma_flat_index(y * dw + x, dw as int, x, y);
            assert(y * dw + x < dh * dw) by (nonlinear_arith)
                requires
                    0 <= x < dw,
                    0 <= y < dh,
            ;
        }
        assert(i == dw * dh) by (nonlinear_arith)
            requires
                i == dy * dw,
                dy == dh,
        ;
        assert forall|k: int| 0 <= k < dst@.len() implies #[trigger] dst@[k] == if k < dw * dh && ok_through(ov, sw as int, sh as int, dw as int, dh as int, k) {
            sample_color(sv, sw as int, sh as int, dw as int, dh as int, k % (dw as int), k / (dw as int))
        } else {
            old(dst)@[k]
        } by {
            if k < i {
                assert(ok_through(ov, sw as int, sh as int, dw as int, dh as int, k));
            }
        }
        assert(dst@.skip(dw * dh) =~= old(dst)@.skip(dw * dh));
    }
    true
}

} // verus!
