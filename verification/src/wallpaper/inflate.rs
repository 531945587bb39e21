use vstd::prelude::*;
use crate::wallpaper::bits::{bits_value, br_bits, BitReader};
use vstd::slice::slice_subrange;
use crate::wallpaper::huffman::{built_tree, huff_build, huff_decode, walk, Huff, Tree};

verus! {

/// The two-byte zlib header announces deflate data without a preset dictionary
/// and passes its check, and there is room for the 4-byte trailer.
pub open spec fn zlib_header_ok(input: Seq<u8>) -> bool {
    &&& input.len() >= 6
    &&& input[0] % 16 == 8
    &&& (input[0] as int * 256 + input[1] as int) % 31 == 0
    &&& (input[1] / 32) % 2 == 0
}

/// The big-endian 32-bit number in the four bytes of `s` from index `i`.
pub open spec fn be32(s: Seq<u8>, i: int) -> nat {
    s[i] as nat * 16777216 + s[i + 1] as nat * 65536 + s[i + 2] as nat * 256 + s[i + 3] as nat
}

pub open spec fn adler_a(s: Seq<u8>) -> nat
    decreases s.len(),
{
    if s.len() == 0 {
        1
    } else {
        (adler_a(s.drop_last()) + s.last() as nat) % 65521
    }
}

pub open spec fn adler_b(s: Seq<u8>) -> nat
    decreases s.len(),
{
    if s.len() == 0 {
        0
    } else {
        (adler_b(s.drop_last()) + adler_a(s)) % 65521
    }
}

/// The Adler-32 checksum of `s`.
pub open spec fn adler32(s: Seq<u8>) -> nat {
    adler_b(s) * 65536 + adler_a(s)
}

/// The code length of literal/length symbol `i` in the fixed code.
pub open spec fn fixed_lit_len(i: int) -> u8 {
    if i <= 143 {
        8
    } else if i <= 255 {
        9
    } else if i <= 279 {
        7
    } else {
        8
    }
}

/// Base lengths of the length symbols 257 to 285.
pub open spec fn len_base_tab() -> Seq<int> {
    seq![
        3, 4, 5, 6, 7, 8, 9, 10, 11, 13, 15, 17, 19, 23, 27, 31, 35, 43, 51, 59, 67, 83, 99, 115,
        131, 163, 195, 227, 258,
    ]
}

/// Extra bits of the length symbols 257 to 285.
pub open spec fn len_extra_tab() -> Seq<int> {
    seq![0, 0, 0, 0, 0, 0, 0, 0, 1, 1, 1, 1, 2, 2, 2, 2, 3, 3, 3, 3, 4, 4, 4, 4, 5, 5, 5, 5, 0]
}

/// Base distances of the distance symbols 0 to 29.
pub open spec fn dist_base_tab() -> Seq<int> {
    seq![
        1, 2, 3, 4, 5, 7, 9, 13, 17, 25, 33, 49, 65, 97, 129, 193, 257, 385, 513, 769, 1025, 1537,
        2049, 3073, 4097, 6145, 8193, 12289, 16385, 24577,
    ]
}

/// Extra bits of the distance symbols 0 to 29.
pub open spec fn dist_extra_tab() -> Seq<int> {
    seq![0, 0, 0, 0, 1, 1, 2, 2, 3, 3, 4, 4, 5, 5, 6, 6, 7, 7, 8, 8, 9, 9, 10, 10, 11, 11, 12, 12, 13, 13]
}

/// The order in which the code lengths of the code-length code are stored.
pub open spec fn cl_order_tab() -> Seq<int> {
    seq![16, 17, 18, 0, 8, 7, 9, 6, 10, 5, 11, 4, 12, 3, 13, 2, 14, 1, 15]
}

/// The code lengths of the fixed literal/length code.
pub open spec fn fixed_lit_lengths() -> Seq<u8> {
    Seq::new(288, |i: int| fixed_lit_len(i))
}

/// The code lengths of the fixed distance code.
pub open spec fn fixed_dist_lengths() -> Seq<u8> {
    Seq::new(32, |i: int| 5u8)
}

/// `n` copies of `v`.
pub open spec fn repeat(v: u8, n: int) -> Seq<u8> {
    Seq::new(n as nat, |i: int| v)
}

/// `out` followed by `len` bytes each copied from `d` bytes before it (the copy may
/// overlap what it writes).
pub open spec fn copy_back(out: Seq<u8>, d: int, len: int) -> Seq<u8>
    decreases len,
{
    if len <= 0 {
        out
    } else {
        copy_back(out.push(out[out.len() - d]), d, len - 1)
    }
}

/// A stored block whose header starts at the byte boundary at or after bit `q`: LEN,
/// its complement, then LEN bytes appended to `out` when they fit in `cap`. The bit
/// after the block and the output.
#[verifier::opaque]
pub open spec fn spec_stored(data: Seq<u8>, q: int, out: Seq<u8>, cap: int) -> Option<(int, Seq<u8>)> {
    let k = (q + 7) / 8;
    if k + 4 > data.len() {
        None
    } else {
        let len = data[k] + 256 * data[k + 1];
        let nlen = data[k + 2] + 256 * data[k + 3];
        if len + nlen != 65535 || k + 4 + len > data.len() || out.len() + len > cap {
            None
        } else {
            Some(((k + 4 + len) * 8, out + data.subrange(k + 4, k + 4 + len)))
        }
    }
}

/// The literal, length and distance codes of a block from bit `p` up to its end code,
/// decoded with the trees `lit` and `dist` and appended to `out`, within `cap` bytes.
/// The bit after the end code and the output.
#[verifier::opaque]
pub open spec fn spec_codes(lit: Tree, dist: Tree, data: Seq<u8>, p: int, out: Seq<u8>, cap: int) -> Option<(int, Seq<u8>)>
    decreases data.len() * 8 - p,
{
    let end = data.len() * 8;
    match walk(lit, data, p, 0) {
        None => None,
        Some((sym, p1)) => if p1 <= p || p1 > end {
            None
        } else if sym < 256 {
            if out.len() >= cap {
                None
            } else {
                spec_codes(lit, dist, data, p1, out.push(sym as u8), cap)
            }
        } else if sym == 256 {
            Some((p1, out))
        } else if sym <= 285 {
            let li = sym - 257;
            let le = len_extra_tab()[li];
            if p1 + le > end {
                None
            } else {
                let len = len_base_tab()[li] + bits_value(data, p1, le as nat);
                match walk(dist, data, p1 + le, 0) {
                    None => None,
                    Some((dsym, p3)) => if dsym > 29 {
                        None
                    } else {
                        let de = dist_extra_tab()[dsym as int];
                        if p3 + de > end {
                            None
                        } else {
                            let d = dist_base_tab()[dsym as int] + bits_value(data, p3, de as nat);
                            let p4 = p3 + de;
                            if d > out.len() || out.len() + len > cap || p4 <= p || p4 > end {
                                None
                            } else {
                                spec_codes(lit, dist, data, p4, copy_back(out, d, len), cap)
                            }
                        }
                    },
                }
            }
        } else {
            None
        },
    }
}

/// The code-length code lengths after the first `k` three-bit entries from bit `q`,
/// each stored at its place in the fixed order; the others are 0.
pub open spec fn cl_lengths(data: Seq<u8>, q: int, k: int) -> Seq<u8>
    decreases k,
{
    if k <= 0 {
        Seq::new(19, |i: int| 0u8)
    } else {
        cl_lengths(data, q, k - 1).update(cl_order_tab()[k - 1], bits_value(data, q + 3 * (k - 1), 3) as u8)
    }
}

/// One entry of the code lengths at bit `p`, decoded with the code-length tree `clt`
/// after the lengths `lens` when `total` are wanted: lengths 0 to 15 stand for
/// themselves, 16 repeats the last length 3 to 6 times, 17 and 18 give 3 to 10 and 11
/// to 138 zeros. The bit after the entry and the lengths with it.
pub open spec fn code_length_step(clt: Tree, data: Seq<u8>, p: int, total: int, lens: Seq<u8>) -> Option<(int, Seq<u8>)> {
    let end = data.len() * 8;
    match walk(clt, data, p, 0) {
        None => None,
        Some((sym, p1)) => if p1 <= p || p1 > end {
            None
        } else if sym <= 15 {
            Some((p1, lens.push(sym as u8)))
        } else if sym == 16 {
            if lens.len() == 0 || p1 + 2 > end {
                None
            } else {
                let rep: int = bits_value(data, p1, 2) as int + 3;
                if lens.len() + rep > total {
                    None
                } else {
                    Some((p1 + 2, lens + repeat(lens.last(), rep)))
                }
            }
        } else if sym == 17 {
            if p1 + 3 > end {
                None
            } else {
                let rep: int = bits_value(data, p1, 3) as int + 3;
                if lens.len() + rep > total {
                    None
                } else {
                    Some((p1 + 3, lens + repeat(0, rep)))
                }
            }
        } else if sym == 18 {
            if p1 + 7 > end {
                None
            } else {
                let rep: int = bits_value(data, p1, 7) as int + 11;
                if lens.len() + rep > total {
                    None
                } else {
                    Some((p1 + 7, lens + repeat(0, rep)))
                }
            }
        } else {
            None
        },
    }
}

/// The code lengths decoded entry by entry from bit `p` until `total` are known, after
/// those in `lens`. The bit after them and the lengths.
#[verifier::opaque]
pub open spec fn spec_code_lengths(clt: Tree, data: Seq<u8>, p: int, total: int, lens: Seq<u8>) -> Option<(int, Seq<u8>)>
    decreases data.len() * 8 - p,
{
    if lens.len() >= total {
        Some((p, lens))
    } else {
        match code_length_step(clt, data, p, total, lens) {
            None => None,
            Some((q, lens2)) => if q <= p || q > data.len() * 8 {
                None
            } else {
                spec_code_lengths(clt, data, q, total, lens2)
            },
        }
    }
}

/// The header of a dynamic block at bit `p`: the numbers of literal/length, distance
/// and code-length codes, the code-length code, and the code lengths it encodes. The
/// bit after the header and the literal/length and distance trees.
#[verifier::opaque]
pub open spec fn spec_tables(data: Seq<u8>, p: int) -> Option<(int, Tree, Tree)> {
    let end = data.len() * 8;
    if p + 14 > end {
        None
    } else {
        let hlit: int = bits_value(data, p, 5) as int + 257;
        let hdist: int = bits_value(data, p + 5, 5) as int + 1;
        let hclen: int = bits_value(data, p + 10, 4) as int + 4;
        let q = p + 14;
        if hlit > 288 || hdist > 32 || q + 3 * hclen > end {
            None
        } else {
            match built_tree(cl_lengths(data, q, hclen)) {
                None => None,
                Some(clt) => match spec_code_lengths(clt, data, q + 3 * hclen, hlit + hdist, Seq::empty()) {
                    None => None,
                    Some((r, lens)) => match built_tree(lens.take(hlit)) {
                        None => None,
                        Some(lt) => match built_tree(lens.subrange(hlit, hlit + hdist)) {
                            None => None,
                            Some(dt) => Some((r, lt, dt)),
                        },
                    },
                },
            }
        }
    }
}

/// The contents of a block whose type is `btype`, from bit `q` (after the block
/// header), appended to `out` within `cap` bytes: stored, fixed codes or dynamic codes.
#[verifier::opaque]
pub open spec fn spec_block_body(data: Seq<u8>, q: int, btype: nat, out: Seq<u8>, cap: int) -> Option<(int, Seq<u8>)> {
    if btype == 0 {
        spec_stored(data, q, out, cap)
    } else if btype == 1 {
        match built_tree(fixed_lit_lengths()) {
            None => None,
            Some(lt) => match built_tree(fixed_dist_lengths()) {
                None => None,
                Some(dt) => spec_codes(lt, dt, data, q, out, cap),
            },
        }
    } else if btype == 2 {
        match spec_tables(data, q) {
            None => None,
            Some((r, lt, dt)) => spec_codes(lt, dt, data, r, out, cap),
        }
    } else {
        None
    }
}

/// The blocks of deflate data `data` from bit `p` on, each with its final flag and
/// type, appended to `out` within `cap` bytes, up to the block flagged final.
#[verifier::opaque]
pub open spec fn spec_blocks(data: Seq<u8>, p: int, out: Seq<u8>, cap: int) -> Option<Seq<u8>>
    decreases data.len() * 8 - p,
{
    let end = data.len() * 8;
    if p < 0 || p + 3 > end {
        None
    } else {
        match spec_block_body(data, p + 3, bits_value(data, p + 1, 2), out, cap) {
            None => None,
            Some((q, out2)) => if bits_value(data, p, 1) == 1 {
                Some(out2)
            } else if q <= p || q > end {
                None
            } else {
                spec_blocks(data, q, out2, cap)
            },
        }
    }
}

/// The bytes a zlib stream decompresses to, when they fit in `cap` bytes: a valid
/// header, deflate blocks, and an Adler-32 trailer that matches them.
pub open spec fn spec_inflate(input: Seq<u8>, cap: int) -> Option<Seq<u8>> {
    if !zlib_header_ok(input) {
        None
    } else {
        match spec_blocks(input.subrange(2, input.len() - 4), 0, Seq::empty(), cap) {
            None => None,
            Some(out) => if adler32(out) == be32(input, input.len() - 4) {
                Some(out)
            } else {
                None
            },
        }
    }
}

/// Decoding a symbol consumes at least one bit.
pub proof fn lemma_walk_advances(h: Tree, data: Seq<u8>, p: int, node: int)
    ensures
        walk(h, data, p, node) matches Some((_, q)) ==> p < q <= data.len() * 8,
    decreases data.len() * 8 - p,
{
    if 0 <= p < data.len() * 8 {
        let c = crate::wallpaper::huffman::child_of(
            h,
            node,
            crate::wallpaper::bits::bit_at(data, p),
        );
        if 0 <= c < h.count && h.symbol[c] < 0 {
            lemma_walk_advances(h, data, p + 1, c);
        }
    }
}

/// The code lengths of the fixed literal/length code and of the fixed distance code.
pub fn fixed_lengths() -> (r: (Vec<u8>, Vec<u8>))
    ensures
        r.0@.len() == 288,
        r.1@.len() == 32,
        forall|i: int| 0 <= i < 288 ==> #[trigger] r.0@[i] == fixed_lit_len(i),
        forall|i: int| 0 <= i < 32 ==> #[trigger] r.1@[i] == 5,
{
    let mut lit: Vec<u8> = Vec::new();
    let mut i: usize = 0;
    while i < 288
        invariant
            i <= 288,
            lit@.len() == i,
            forall|j: int| 0 <= j < i ==> #[trigger] lit@[j] == fixed_lit_len(j),
        decreases 288 - i,
    {
        let v: u8 = if i <= 143 {
            8
        } else if i <= 255 {
            9
        } else if i <= 279 {
            7
        } else {
            8
        };
        lit.push(v);
        i = i + 1;
    }
    let mut dist: Vec<u8> = Vec::new();
    let mut j: usize = 0;
    while j < 32
        invariant
            j <= 32,
            dist@.len() == j,
            forall|k: int| 0 <= k < j ==> #[trigger] dist@[k] == 5,
        decreases 32 - j,
    {
        dist.push(5);
        j = j + 1;
    }
    (lit, dist)
}

/// Copies a stored (uncompressed) block to `out` from `out_pos`: realigns to a byte,
/// reads LEN and its complement NLEN, then LEN raw bytes. Returns the new output position.
pub fn stored_block(br: &mut BitReader, out: &mut Vec<u8>, out_pos: usize) -> (r: Option<usize>)
    requires
        old(br).wf(),
        old(br).bit_count < 8,
        out_pos <= old(out)@.len(),
    ensures
        final(br).wf(),
        final(br).data@ == old(br).data@,
        final(out)@.len() == old(out)@.len(),
        r is Some ==> final(br).bit_count == 0,
        r is Some ==> final(br).pos() > old(br).pos(),
        r matches Some(n) ==> out_pos <= n <= final(out)@.len(),
        r matches Some(n) ==> final(out)@.skip(n as int) == old(out)@.skip(n as int),
        match spec_stored(old(br).data@, old(br).pos(), old(out)@.take(out_pos as int), old(out)@.len() as int) {
            None => r is None,
            Some((q, s)) => r is Some && r.unwrap() == s.len() && final(br).pos() == q && final(out)@.take(s.len() as int) == s,
        },
{
    proof {
        reveal(spec_stored);
    }
    let ghost p = br.pos();
    let ghost d = br.data@;
    proof {
        assert((p + 7) / 8 == br.byte_pos) by (nonlinear_arith)
            requires
                p == br.byte_pos * 8 - br.bit_count,
                0 <= br.bit_count < 8,
        ;
    }
    br.bit_buf = 0;
    br.bit_count = 0;
    proof {
        assert(vstd::arithmetic::power2::pow2(0) == 1) by {
            vstd::arithmetic::power2::lemma2_to64();
        }
    }
    let consumed = br.byte_pos;
    let raw_left = br.data.len() - consumed;
    if raw_left < 4 {
        return None;
    }
    let b0 = br.data[consumed];
    let b1 = br.data[consumed + 1];
    let b2 = br.data[consumed + 2];
    let b3 = br.data[consumed + 3];
    let len: usize = (b0 as u32 | ((b1 as u32) << 8u32)) as usize;
    let nlen: u32 = b2 as u32 | ((b3 as u32) << 8u32);
    proof {
        assert((b0 as u32 | ((b1 as u32) << 8u32)) == b0 as u32 + 256 * b1 as u32) by (bit_vector);
        assert((b2 as u32 | ((b3 as u32) << 8u32)) == b2 as u32 + 256 * b3 as u32) by (bit_vector);
        let lv = (b0 as u32 | ((b1 as u32) << 8u32));
        assert((lv ^ nlen) == 0xFFFF <==> lv + nlen == 0xFFFF) by (bit_vector)
            requires
                lv < 65536,
                nlen < 65536,
        ;
    }
    if (len as u32 ^ nlen) != 0xFFFF {
        return None;
    }
    if raw_left - 4 < len {
        return None;
    }
    if len > out.len() - out_pos {
        return None;
    }
    let mut i: usize = 0;
    while i < len
        invariant
            i <= len,
            consumed + 4 + len <= br.data.len(),
            out_pos + len <= out.len(),
            out@.len() == old(out)@.len(),
            forall|j: int|
                0 <= j < out@.len() ==> #[trigger] out@[j] == if out_pos <= j < out_pos + i {
                    br.data@[consumed + 4 + j - out_pos]
                } else {
                    old(out)@[j]
                },
        decreases len - i,
    {
        out.set(out_pos + i, br.data[consumed + 4 + i]);
        i = i + 1;
    }
    br.byte_pos = br.byte_pos + 4 + len;
    proof {
        assert(out@.take((out_pos + len) as int) =~= old(out)@.take(out_pos as int) + d.subrange(
            consumed + 4,
            consumed + 4 + len,
        ));
        assert(out@.skip((out_pos + len) as int) =~= old(out)@.skip((out_pos + len) as int));
    }
    Some(out_pos + len)
}

/// Decodes one entry of the code lengths with the code-length tree `cl` into `lens`
/// from `k`; returns how many lengths are known after it.
fn read_code_length(br: &mut BitReader, cl: &Huff, lens: &mut Vec<u8>, k: usize, total: usize) -> (r: Option<usize>)
    requires
        old(br).wf(),
        old(br).bit_count < 8,
        cl.wf(),
        k < total <= 320,
        old(lens)@.len() == 320,
    ensures
        final(br).wf(),
        final(br).data@ == old(br).data@,
        final(lens)@.len() == 320,
        r is Some ==> final(br).bit_count < 8,
        match code_length_step(cl.tree(), old(br).data@, old(br).pos(), total as int, old(lens)@.take(k as int)) {
            None => r is None,
            Some((q, s)) => r is Some && r.unwrap() == s.len() && k < s.len() <= total && final(br).pos() == q
                && final(lens)@.take(s.len() as int) == s,
        },
{
    let ghost d = br.data@;
    let ghost p0 = br.pos();
    let ghost acc = lens@.take(k as int);
    let mut k = k;
    let sym = match huff_decode(br, cl) {
        Some(s) => s,
        None => return None,
    };
    let ghost p1 = br.pos();
    proof {
        lemma_walk_advances(cl.tree(), d, p0, 0);
    }
    if sym <= 15 {
        lens.set(k, sym as u8);
        k = k + 1;
        proof {
            assert(lens@.take(k as int) =~= acc.push(sym as u8));
        }
        Some(k)
    } else if sym == 16 || sym == 17 || sym == 18 {
        if sym == 16 && k == 0 {
            return None;
        }
        let nbits: u32 = if sym == 16 {
            2
        } else if sym == 17 {
            3
        } else {
            7
        };
        let mut rep: u32 = 0;
        if !br_bits(br, nbits, &mut rep) {
            return None;
        }
        proof {
            crate::wallpaper::bits::lemma_bits_value_bound(d, p1, nbits as nat);
            assert(vstd::arithmetic::power2::pow2(7) == 128) by {
                vstd::arithmetic::power2::lemma2_to64();
            }
            if nbits < 7 {
                vstd::arithmetic::power2::lemma_pow2_strictly_increases(nbits as nat, 7);
            }
        }
        rep = rep + if sym == 18 {
            11
        } else {
            3
        };
        if k + rep as usize > total {
            return None;
        }
        let v: u8 = if sym == 16 {
            lens[k - 1]
        } else {
            0
        };
        proof {
            if sym == 16 {
                assert(v == acc.last());
            }
        }
        let mut j: u32 = 0;
        let ghost k0 = k;
        while j < rep
            invariant
                j <= rep,
                k == k0 + j,
                k + (rep - j) <= total <= 320,
                lens@.len() == 320,
                lens@.take(k as int) == acc + repeat(v, j as int),
            decreases rep - j,
        {
            let ghost before = lens@.take(k as int);
            lens.set(k, v);
            k = k + 1;
            j = j + 1;
            proof {
                assert(lens@.take(k as int) =~= before.push(v));
                assert(before.push(v) =~= acc + repeat(v, j as int));
            }
        }
        Some(k)
    } else {
        None
    }
}

/// Reads the code-length code and the literal/length and distance code lengths of a
/// dynamic block, and builds the two code trees.
pub fn read_dynamic_tables(br: &mut BitReader, lit: &mut Huff, dist: &mut Huff) -> (ok: bool)
    requires
        old(br).wf(),
        old(br).bit_count < 8,
    ensures
        final(br).wf(),
        final(br).data@ == old(br).data@,
        final(lit).wf(),
        final(dist).wf(),
        ok ==> final(br).bit_count < 8,
        ok ==> final(br).pos() > old(br).pos(),
        ok == (spec_tables(old(br).data@, old(br).pos()) is Some),
        ok ==> spec_tables(old(br).data@, old(br).pos()) == Some((final(br).pos(), final(lit).tree(), final(dist).tree())),
{
    proof {
        reveal(spec_tables);
        reveal(spec_code_lengths);
    }
    let ghost d = br.data@;
    let ghost p = br.pos();
    let ghost end = d.len() * 8;
    let mut hlit: u32 = 0;
    let mut hdist: u32 = 0;
    let mut hclen: u32 = 0;
    *lit = Huff::new();
    *dist = Huff::new();
    if !br_bits(br, 5, &mut hlit) {
        return false;
    }
    if !br_bits(br, 5, &mut hdist) {
        return false;
    }
    if !br_bits(br, 4, &mut hclen) {
        return false;
    }
    proof {
        crate::wallpaper::bits::lemma_bits_value_bound(d, p, 5);
        crate::wallpaper::bits::lemma_bits_value_bound(d, p + 5, 5);
        crate::wallpaper::bits::lemma_bits_value_bound(d, p + 10, 4);
        assert(vstd::arithmetic::power2::pow2(5) == 32 && vstd::arithmetic::power2::pow2(4)
            == 16) by {
            vstd::arithmetic::power2::lemma2_to64();
        }
    }
    hlit = hlit + 257;
    hdist = hdist + 1;
    hclen = hclen + 4;
    if hlit > 288 || hdist > 32 {
        return false;
    }
    let ghost q = p + 14;
    let mut cl_len: Vec<u8> = Vec::new();
    let mut z: usize = 0;
    while z < 19
        invariant
            z <= 19,
            cl_len@.len() == z,
            forall|j: int| 0 <= j < z ==> #[trigger] cl_len@[j] == 0,
        decreases 19 - z,
    {
        cl_len.push(0);
        z = z + 1;
    }
    proof {
        assert(cl_len@ =~= cl_lengths(d, q, 0));
        assert(q == p + 14);
    }
    let mut i: u32 = 0;
    while i < hclen
        invariant
            br.wf(),
            br.bit_count < 8,
            br.data@ == d,
            d == old(br).data@,
            p == old(br).pos(),
            end == d.len() * 8,
            q == p + 14,
            p + 14 <= end,
            hlit == bits_value(d, p, 5) + 257,
            hdist == bits_value(d, p + 5, 5) + 1,
            hclen == bits_value(d, p + 10, 4) + 4,
            hlit <= 288,
            hdist <= 32,
            cl_len@.len() == 19,
            i <= hclen <= 19,
            br.pos() == q + 3 * i,
            cl_len@ == cl_lengths(d, q, i as int),
            lit.wf(),
            dist.wf(),
        decreases hclen - i,
    {
        proof {
            reveal(spec_tables);
        }
        let mut v: u32 = 0;
        let ghost pi = br.pos();
        if !br_bits(br, 3, &mut v) {
            return false;
        }
        proof {
            crate::wallpaper::bits::lemma_bits_value_bound(d, pi, 3);
            assert(vstd::arithmetic::power2::pow2(3) == 8) by {
                vstd::arithmetic::power2::lemma2_to64();
            }
        }
        let slot = cl_order(i as usize);
        cl_len.set(slot, v as u8);
        i = i + 1;
    }
    let mut cl = Huff::new();
    if !huff_build(&mut cl, cl_len.as_slice()) {
        return false;
    }
    let ghost clt = cl.tree();
    let total: usize = (hlit + hdist) as usize;
    let mut dyn_lens: Vec<u8> = Vec::new();
    let mut z: usize = 0;
    while z < 320
        invariant
            z <= 320,
            dyn_lens@.len() == z,
        decreases 320 - z,
    {
        dyn_lens.push(0);
        z = z + 1;
    }
    let ghost goal = spec_code_lengths(clt, d, q + 3 * hclen, total as int, Seq::empty());
    proof {
        assert(dyn_lens@.take(0) =~= Seq::<u8>::empty());
    }
    let mut k: usize = 0;
    while k < total
        invariant
            br.wf(),
            br.bit_count < 8,
            br.data@ == d,
            cl.wf(),
            cl.tree() == clt,
            lit.wf(),
            dist.wf(),
            k <= total <= 320,
            dyn_lens@.len() == 320,
            d == old(br).data@,
            p == old(br).pos(),
            end == d.len() * 8,
            q == p + 14,
            p + 14 <= end,
            hlit == bits_value(d, p, 5) + 257,
            hdist == bits_value(d, p + 5, 5) + 1,
            hclen == bits_value(d, p + 10, 4) + 4,
            hlit <= 288,
            hdist <= 32,
            total == hlit + hdist,
            q + 3 * hclen <= end,
            built_tree(cl_lengths(d, q, hclen as int)) == Some(clt),
            goal == spec_code_lengths(clt, d, q + 3 * hclen, total as int, Seq::empty()),
            goal == spec_code_lengths(clt, d, br.pos(), total as int, dyn_lens@.take(k as int)),
            br.pos() >= q,
        decreases total - k,
    {
        proof {
            reveal(spec_code_lengths);
            reveal(spec_tables);
        }
        let ghost p0 = br.pos();
        match read_code_length(br, &cl, &mut dyn_lens, k, total) {
            Some(nk) => {
                k = nk;
            },
            None => {
                return false;
            },
        }
    }
    let ghost lens = dyn_lens@.take(total as int);
    let all = dyn_lens.as_slice();
    let lit_lens = slice_subrange(all, 0, hlit as usize);
    let dist_lens = slice_subrange(all, hlit as usize, total);
    proof {
        assert(lit_lens@ =~= lens.take(hlit as int));
        assert(dist_lens@ =~= lens.subrange(hlit as int, total as int));
    }
    if !huff_build(lit, lit_lens) {
        return false;
    }
    if !huff_build(dist, dist_lens) {
        return false;
    }
    true
}

/// The slot of the `i`-th code-length code length in the order they are stored.
fn cl_order(i: usize) -> (r: usize)
    requires
        i < 19,
    ensures
        r < 19,
        r == cl_order_tab()[i as int],
{
    let t: [usize; 19] = [16, 17, 18, 0, 8, 7, 9, 6, 10, 5, 11, 4, 12, 3, 13, 2, 14, 1, 15];
    let v = t[i];
    assert(v < 19);
    v
}

/// Base length of length symbol 257 + `i`.
fn len_base(i: usize) -> (r: u32)
    requires
        i < 29,
    ensures
        3 <= r <= 258,
        r == len_base_tab()[i as int],
{
    let t: [u16; 29] = [
        3, 4, 5, 6, 7, 8, 9, 10, 11, 13, 15, 17, 19, 23, 27, 31, 35, 43, 51, 59, 67, 83, 99, 115,
        131, 163, 195, 227, 258,
    ];
    let v = t[i];
    assert(3 <= v <= 258);
    v as u32
}

/// Extra bits of length symbol 257 + `i`.
fn len_extra(i: usize) -> (r: u32)
    requires
        i < 29,
    ensures
        r <= 5,
        r == len_extra_tab()[i as int],
{
    let t: [u8; 29] = [
        0, 0, 0, 0, 0, 0, 0, 0, 1, 1, 1, 1, 2, 2, 2, 2, 3, 3, 3, 3, 4, 4, 4, 4, 5, 5, 5, 5, 0,
    ];
    let v = t[i];
    assert(v <= 5);
    v as u32
}

/// Base distance of distance symbol `i`.
fn dist_base(i: usize) -> (r: u32)
    requires
        i < 30,
    ensures
        1 <= r <= 24577,
        r == dist_base_tab()[i as int],
{
    let t: [u16; 30] = [
        1, 2, 3, 4, 5, 7, 9, 13, 17, 25, 33, 49, 65, 97, 129, 193, 257, 385, 513, 769, 1025, 1537,
        2049, 3073, 4097, 6145, 8193, 12289, 16385, 24577,
    ];
    let v = t[i];
    assert(1 <= v <= 24577);
    v as u32
}

/// Extra bits of distance symbol `i`.
fn dist_extra(i: usize) -> (r: u32)
    requires
        i < 30,
    ensures
        r <= 13,
        r == dist_extra_tab()[i as int],
{
    let t: [u8; 30] = [
        0, 0, 0, 0, 1, 1, 2, 2, 3, 3, 4, 4, 5, 5, 6, 6, 7, 7, 8, 8, 9, 9, 10, 10, 11, 11, 12, 12,
        13, 13,
    ];
    let v = t[i];
    assert(v <= 13);
    v as u32
}

/// Decodes the literal, length and distance codes of one block into `out` from
/// `out_pos`, up to the end-of-block symbol. Returns the new output position.
pub fn decode_codes(br: &mut BitReader, lit: &Huff, dist: &Huff, out: &mut Vec<u8>, out_pos: usize) -> (r: Option<usize>)
    requires
        old(br).wf(),
        old(br).bit_count < 8,
        lit.wf(),
        dist.wf(),
        out_pos <= old(out)@.len(),
    ensures
        final(br).wf(),
        final(br).data@ == old(br).data@,
        final(out)@.len() == old(out)@.len(),
        r is Some ==> final(br).bit_count < 8,
        r is Some ==> final(br).pos() > old(br).pos(),
        r matches Some(n) ==> out_pos <= n <= final(out)@.len(),
        r matches Some(n) ==> final(out)@.skip(n as int) == old(out)@.skip(n as int),
        match spec_codes(lit.tree(), dist.tree(), old(br).data@, old(br).pos(), old(out)@.take(out_pos as int), old(out)@.len() as int) {
            None => r is None,
            Some((q, s)) => r is Some && r.unwrap() == s.len() && final(br).pos() == q && final(out)@.take(s.len() as int) == s,
        },
{
    proof {
        reveal(spec_codes);
    }
    let mut pos = out_pos;
    let ghost d = br.data@;
    let ghost cap = out@.len() as int;
    let ghost goal = spec_codes(lit.tree(), dist.tree(), d, br.pos(), out@.take(out_pos as int), cap);
    loop
        invariant
            br.wf(),
            br.bit_count < 8,
            br.data@ == d,
            d == old(br).data@,
            lit.wf(),
            dist.wf(),
            out_pos <= pos <= out@.len(),
            out@.len() == cap,
            cap == old(out)@.len(),
            goal == spec_codes(lit.tree(), dist.tree(), d, old(br).pos(), old(out)@.take(out_pos as int), cap),
            goal == spec_codes(lit.tree(), dist.tree(), d, br.pos(), out@.take(pos as int), cap),
            br.pos() >= old(br).pos(),
            forall|k: int| pos <= k < cap ==> #[trigger] out@[k] == old(out)@[k],
        decreases br.remaining(),
    {
        proof {
            reveal(spec_codes);
        }
        let ghost p0 = br.pos();
        let ghost acc = out@.take(pos as int);
        let sym = match huff_decode(br, lit) {
            Some(s) => s,
            None => return None,
        };
        let ghost p1 = br.pos();
        proof {
            lemma_walk_advances(lit.tree(), d, p0, lit.root as int);
        }
        if sym < 256 {
            if pos >= out.len() {
                return None;
            }
            out.set(pos, sym as u8);
            pos = pos + 1;
            proof {
                assert(out@.take(pos as int) =~= acc.push(sym as u8));
            }
        } else if sym == 256 {
            proof {
                assert(out@.skip(pos as int) =~= old(out)@.skip(pos as int));
            }
            return Some(pos);
        } else if sym <= 285 {
            let li = (sym - 257) as usize;
            let mut len = len_base(li);
            let mut eb: u32 = 0;
            let le = len_extra(li);
            if !br_bits(br, le, &mut eb) {
                return None;
            }
            proof {
                crate::wallpaper::bits::lemma_bits_value_bound(d, p1, le as nat);
                assert(vstd::arithmetic::power2::pow2(le as nat) <= 32) by {
                    vstd::arithmetic::power2::lemma2_to64();
                    if le < 5 {
                        vstd::arithmetic::power2::lemma_pow2_strictly_increases(le as nat, 5);
                    }
                }
            }
            len = len + eb;
            let ghost p2 = br.pos();
            let dsym = match huff_decode(br, dist) {
                Some(s) => s,
                None => return None,
            };
            let ghost p3 = br.pos();
            proof {
                lemma_walk_advances(dist.tree(), d, p2, dist.root as int);
            }
            if dsym > 29 {
                return None;
            }
            let mut dist_val = dist_base(dsym as usize);
            let de = dist_extra(dsym as usize);
            if !br_bits(br, de, &mut eb) {
                return None;
            }
            proof {
                crate::wallpaper::bits::lemma_bits_value_bound(d, p3, de as nat);
                assert(vstd::arithmetic::power2::pow2(de as nat) <= 8192) by {
                    vstd::arithmetic::power2::lemma2_to64();
                    if de < 13 {
                        vstd::arithmetic::power2::lemma_pow2_strictly_increases(
                            de as nat,
                            13,
                        );
                    }
                }
            }
            dist_val = dist_val + eb;
            if dist_val == 0 || dist_val as usize > pos {
                return None;
            }
            if len as usize > out.len() - pos {
                return None;
            }
            let ghost start = pos;
            let mut k: u32 = 0;
            while k < len
                invariant
                    k <= len,
                    out_pos <= start,
                    pos == start + k,
                    1 <= dist_val <= start,
                    start + len <= out.len(),
                    out@.len() == cap,
                    copy_back(acc, dist_val as int, len as int) == copy_back(out@.take(pos as int), dist_val as int, (len - k) as int),
                    cap == old(out)@.len(),
                    forall|j: int| pos <= j < cap ==> #[trigger] out@[j] == old(out)@[j],
                decreases len - k,
            {
                let ghost before = out@.take(pos as int);
                let v = out[pos - dist_val as usize];
                out.set(pos, v);
                pos = pos + 1;
                k = k + 1;
                proof {
                    assert(out@.take(pos as int) =~= before.push(before[before.len() - dist_val]));
                }
            }
        } else {
            return None;
        }
    }
}

/// The Adler-32 checksum of the first `n` bytes of `data`.
pub fn adler32_of(data: &Vec<u8>, n: usize) -> (r: u32)
    requires
        n <= data@.len(),
    ensures
        r == adler32(data@.take(n as int)),
{
    let mut s1: u32 = 1;
    let mut s2: u32 = 0;
    let mut i: usize = 0;
    while i < n
        invariant
            i <= n <= data@.len(),
            s1 == adler_a(data@.take(i as int)),
            s2 == adler_b(data@.take(i as int)),
            s1 < 65521,
            s2 < 65521,
        decreases n - i,
    {
        proof {
            assert(data@.take(i + 1).drop_last() =~= data@.take(i as int));
        }
        s1 = (s1 + data[i] as u32) % 65521;
        s2 = (s2 + s1) % 65521;
        i = i + 1;
    }
    proof {
        assert(s1 < 65536);
        assert((s2 << 16u32) | s1 == s2 * 65536 + s1) by (bit_vector)
            requires
                s1 < 65536,
                s2 < 65536,
        ;
    }
    (s2 << 16u32) | s1
}

/// Inflates one block: its final flag and type, then its contents into `out` from
/// `out_pos`. Returns the new output position and whether the block was the last.
fn inflate_block(
    br: &mut BitReader,
    lit: &mut Huff,
    dist: &mut Huff,
    fixed_lit: &Vec<u8>,
    fixed_dist: &Vec<u8>,
    out: &mut Vec<u8>,
    out_pos: usize,
) -> (r: Option<(usize, bool)>)
    requires
        old(br).wf(),
        old(br).bit_count < 8,
        old(lit).wf(),
        old(dist).wf(),
        out_pos <= old(out)@.len(),
        fixed_lit@ == fixed_lit_lengths(),
        fixed_dist@ == fixed_dist_lengths(),
    ensures
        final(br).wf(),
        final(br).data@ == old(br).data@,
        final(lit).wf(),
        final(dist).wf(),
        final(out)@.len() == old(out)@.len(),
        r is Some ==> final(br).bit_count < 8 && final(br).pos() > old(br).pos(),
        r matches Some((n, _)) ==> out_pos <= n <= final(out)@.len(),
        r matches Some((n, _)) ==> final(out)@.skip(n as int) == old(out)@.skip(n as int),
        ({
            let d = old(br).data@;
            let p = old(br).pos();
            if p + 3 > d.len() * 8 {
                r is None
            } else {
                match spec_block_body(d, p + 3, bits_value(d, p + 1, 2), old(out)@.take(out_pos as int), old(out)@.len() as int) {
                    None => r is None,
                    Some((q, s)) => r is Some && r.unwrap().0 == s.len() && r.unwrap().1 == (bits_value(d, p, 1) == 1) && final(br).pos() == q
                        && final(out)@.take(s.len() as int) == s,
                }
            }
        }),
{
    proof {
        reveal(spec_block_body);
    }
    let ghost d = br.data@;
    let ghost p = br.pos();
    let mut bfinal: u32 = 0;
    let mut btype: u32 = 0;
    if !br_bits(br, 1, &mut bfinal) {
        return None;
    }
    if !br_bits(br, 2, &mut btype) {
        return None;
    }
    proof {
        crate::wallpaper::bits::lemma_bits_value_bound(d, p, 1);
        crate::wallpaper::bits::lemma_bits_value_bound(d, p + 1, 2);
        assert(vstd::arithmetic::power2::pow2(1) == 2 && vstd::arithmetic::power2::pow2(2) == 4) by {
            vstd::arithmetic::power2::lemma2_to64();
        }
    }
    let is_final = bfinal != 0;
    if btype == 0 {
        match stored_block(br, out, out_pos) {
            Some(q) => {
                Some((q, is_final))
            },
            None => None,
        }
    } else {
        if btype != 1 && btype != 2 {
            return None;
        }
        if btype == 1 {
            if !huff_build(lit, fixed_lit.as_slice()) {
                return None;
            }
            if !huff_build(dist, fixed_dist.as_slice()) {
                return None;
            }
        } else {
            if !read_dynamic_tables(br, lit, dist) {
                return None;
            }
        }
        match decode_codes(br, lit, dist, out, out_pos) {
            Some(q) => Some((q, is_final)),
            None => None,
        }
    }
}

/// The four big-endian bytes of `v`.
pub open spec fn be32_bytes(v: u32) -> Seq<u8> {
    seq![(v >> 24u32) as u8, ((v >> 16u32) & 0xff) as u8, ((v >> 8u32) & 0xff) as u8, (v & 0xff) as u8]
}

/// The zlib stream that carries `b` in one final stored block: the header 78 01, the
/// block header, LEN and its complement, the bytes, and their Adler-32.
pub open spec fn zlib_stored(b: Seq<u8>) -> Seq<u8> {
    let len = b.len() as int;
    seq![0x78u8, 0x01u8, 0x01u8, (len % 256) as u8, (len / 256) as u8, ((65535 - len) % 256) as u8, ((65535 - len) / 256) as u8]
        + b + be32_bytes(adler32(b) as u32)
}

proof fn lemma_adler_bounds(s: Seq<u8>)
    ensures
        adler_a(s) < 65521,
        adler_b(s) < 65521,
    decreases s.len(),
{
    if s.len() > 0 {
        lemma_adler_bounds(s.drop_last());
    }
}

/// A zlib stream of one final stored block inflates to the bytes it carries, when they
/// fit.
#[verifier::rlimit(50)]
#[verifier::spinoff_prover]
pub proof fn lemma_inflate_stored(b: Seq<u8>, cap: int)
    requires
        b.len() < 65536,
        b.len() <= cap,
    ensures
        spec_inflate(zlib_stored(b), cap) == Some(b),
{
    reveal(spec_blocks);
    reveal(spec_block_body);
    reveal(spec_stored);
    let z = zlib_stored(b);
    let len = b.len() as int;
    let d = z.subrange(2, z.len() - 4);
    assert(z.len() == b.len() + 11);
    assert(d =~= seq![0x01u8, (len % 256) as u8, (len / 256) as u8, ((65535 - len) % 256) as u8, ((65535 - len) / 256) as u8] + b);
    assert(zlib_header_ok(z)) by {
        assert((0x78 * 256 + 1) % 31 == 0);
    }
    assert(d[0] == 1);
    assert(crate::wallpaper::bits::bit_at(d, 0) == 1) by {
        vstd::arithmetic::power2::lemma2_to64();
        assert(0int / 8 == 0 && 0int % 8 == 0);
    }
    assert(crate::wallpaper::bits::bit_at(d, 1) == 0) by {
        vstd::arithmetic::power2::lemma2_to64();
        assert(1int / 8 == 0 && 1int % 8 == 1);
        assert(1nat / 2 == 0);
    }
    assert(crate::wallpaper::bits::bit_at(d, 2) == 0) by {
        vstd::arithmetic::power2::lemma2_to64();
        assert(2int / 8 == 0 && 2int % 8 == 2);
        assert(1nat / 4 == 0);
    }
    assert(bits_value(d, 0, 1) == 1) by {
        reveal_with_fuel(bits_value, 2);
    }
    assert(bits_value(d, 1, 2) == 0) by {
        reveal_with_fuel(bits_value, 3);
    }
    assert(d[1] + 256 * d[2] == len);
    assert(d[3] + 256 * d[4] == 65535 - len);
    assert(d.subrange(5, 5 + len) =~= b);
    assert(Seq::<u8>::empty() + d.subrange(5, 5 + len) =~= b);
    assert(spec_stored(d, 3, Seq::empty(), cap) == Some(((5 + len) * 8, b)));
    assert(spec_blocks(d, 0, Seq::empty(), cap) == Some(b));
    lemma_adler_bounds(b);
    let v = adler32(b);
    assert(v < 4294967296);
    let w = v as u32;
    let t = be32_bytes(w);
    assert(z.subrange(z.len() - 4, z.len() as int) =~= t);
    assert(be32(z, z.len() - 4) == be32(t, 0));
    let (t0, t1, t2, t3) = ((w >> 24u32) as u8, ((w >> 16u32) & 0xff) as u8, ((w >> 8u32) & 0xff) as u8, (w & 0xff) as u8);
    assert(t0 as int * 16777216 + t1 as int * 65536 + t2 as int * 256 + t3 as int == w) by (bit_vector)
        requires
            t0 == (w >> 24u32) as u8,
            t1 == ((w >> 16u32) & 0xff) as u8,
            t2 == ((w >> 8u32) & 0xff) as u8,
            t3 == (w & 0xff) as u8,
    ;
}

/// One step of `spec_blocks`: the block at bit `p`, then the rest.
proof fn lemma_blocks_step(d: Seq<u8>, p: int, acc: Seq<u8>, cap: int)
    requires
        0 <= p,
    ensures
        p + 3 > d.len() * 8 ==> spec_blocks(d, p, acc, cap) is None,
        p + 3 <= d.len() * 8 ==> match spec_block_body(d, p + 3, bits_value(d, p + 1, 2), acc, cap) {
            None => spec_blocks(d, p, acc, cap) is None,
            Some((q, s)) => {
                &&& bits_value(d, p, 1) == 1 ==> spec_blocks(d, p, acc, cap) == Some(s)
                &&& (bits_value(d, p, 1) != 1 && p < q <= d.len() * 8) ==> spec_blocks(d, p, acc, cap)
                    == spec_blocks(d, q, s, cap)
            },
        },
{
    reveal(spec_blocks);
}

/// Inflates a zlib stream (header, deflate blocks, Adler-32 trailer) into `out`.
/// Returns the number of bytes written: those `spec_inflate` gives for the room in
/// `out`, and None exactly when it gives none.
pub fn inflate(input: &[u8], out: &mut Vec<u8>) -> (r: Option<usize>)
    ensures
        final(out)@.len() == old(out)@.len(),
        !zlib_header_ok(input@) ==> r is None && final(out)@ == old(out)@,
        r matches Some(n) ==> final(out)@.skip(n as int) == old(out)@.skip(n as int),
        match spec_inflate(input@, old(out)@.len() as int) {
            None => r is None,
            Some(s) => r is Some && r.unwrap() == s.len() && final(out)@.take(s.len() as int) == s,
        },
{
    if input.len() < 6 {
        return None;
    }
    let b0 = input[0];
    let b1 = input[1];
    proof {
        assert((b0 & 0x0F) == b0 % 16) by (bit_vector);
        assert((((b0 as u32) << 8u32) | b1 as u32) == b0 as u32 * 256 + b1 as u32) by (bit_vector);
        assert(((b1 & 0x20) != 0) == ((b1 / 32) % 2 != 0)) by (bit_vector);
    }
    if (b0 & 0x0F) != 8 {
        return None;
    }
    if ((((b0 as u32) << 8u32) | b1 as u32) % 31) != 0 {
        return None;
    }
    if (b1 & 0x20) != 0 {
        return None;
    }
    let body = slice_subrange(input, 2, input.len() - 4);
    let ghost d = body@;
    let ghost cap = out@.len() as int;
    let ghost goal = spec_blocks(d, 0, Seq::empty(), cap);
    let mut br = BitReader { data: body, byte_pos: 0, bit_buf: 0, bit_count: 0 };
    proof {
        assert(vstd::arithmetic::power2::pow2(0) == 1) by {
            vstd::arithmetic::power2::lemma2_to64();
        }
        assert(out@.take(0) =~= Seq::<u8>::empty());
        assert(out@.skip(0) =~= old(out)@);
    }
    let mut out_pos: usize = 0;
    let mut is_final = false;
    let (fixed_lit, fixed_dist) = fixed_lengths();
    proof {
        assert(fixed_lit@ =~= fixed_lit_lengths());
        assert(fixed_dist@ =~= fixed_dist_lengths());
    }
    let mut lit = Huff::new();
    let mut dist = Huff::new();
    while !is_final
        invariant
            br.wf(),
            br.bit_count < 8,
            br.data@ == d,
            lit.wf(),
            dist.wf(),
            out_pos <= out@.len(),
            out@.len() == cap,
            cap == old(out)@.len(),
            fixed_lit@ == fixed_lit_lengths(),
            fixed_dist@ == fixed_dist_lengths(),
            goal == spec_blocks(d, 0, Seq::empty(), cap),
            d == input@.subrange(2, input@.len() - 4),
            zlib_header_ok(input@),
            !is_final ==> goal == spec_blocks(d, br.pos(), out@.take(out_pos as int), cap),
            is_final ==> goal == Some(out@.take(out_pos as int)),
            out@.skip(out_pos as int) == old(out)@.skip(out_pos as int),
        decreases br.remaining(),
    {
        let ghost p = br.pos();
        let ghost acc = out@.take(out_pos as int);
        let ghost prev = out@;
        proof {
            lemma_blocks_step(d, p, acc, cap);
        }
        match inflate_block(&mut br, &mut lit, &mut dist, &fixed_lit, &fixed_dist, out, out_pos) {
            Some((q, fin)) => {
                proof {
                    assert(br.pos() <= d.len() * 8);
                    assert forall|k: int| 0 <= k < cap - q implies out@.skip(q as int)[k] == old(out)@.skip(q as int)[k] by {
                        assert(out@.skip(q as int)[k] == prev.skip(q as int)[k]);
                        assert(prev.skip(out_pos as int)[k + q - out_pos] == old(out)@.skip(out_pos as int)[k + q - out_pos]);
                    }
                    assert(out@.skip(q as int) =~= old(out)@.skip(q as int));
                }
                out_pos = q;
                is_final = fin;
            },
            None => {
                return None;
            },
        }
    }
    let sum = adler32_of(out, out_pos);
    let n = input.len();
    let expect = ((input[n - 4] as u32) << 24u32) | ((input[n - 3] as u32) << 16u32) | ((input[n
        - 2] as u32) << 8u32) | input[n - 1] as u32;
    let (x0, x1, x2, x3) = (input[n - 4], input[n - 3], input[n - 2], input[n - 1]);
    proof {
        assert(((x0 as u32) << 24u32) | ((x1 as u32) << 16u32) | ((x2 as u32) << 8u32) | x3 as u32
            == x0 as u32 * 16777216 + x1 as u32 * 65536 + x2 as u32 * 256 + x3 as u32)
            by (bit_vector);
    }
    if sum != expect {
        return None;
    }
    Some(out_pos)
}


/// 2 to the power `e`.
pub open spec fn two_to(e: int) -> int
    decreases e,
{
    if e <= 0 {
        1
    } else {
        2 * two_to(e - 1)
    }
}

/// Extra bits after length symbol `s` (RFC 1951, 3.2.5): none for 257 to 264 and for
/// 285, else one more for every four symbols from 265.
pub open spec fn rfc_length_extra(s: int) -> int {
    if 265 <= s <= 284 {
        (s - 261) / 4
    } else {
        0
    }
}

/// Least length of length symbol `s` (RFC 1951, 3.2.5): 3 to 10 for 257 to 264, 258
/// for 285, else the four symbols sharing `e` extra bits start at 4, 5, 6 and 7
/// times 2^e, plus 3.
pub open spec fn rfc_length_base(s: int) -> int {
    if s <= 264 {
        s - 254
    } else if s == 285 {
        258
    } else {
        (4 + (s - 265) % 4) * two_to((s - 261) / 4) + 3
    }
}

/// Extra bits after distance symbol `ds` (RFC 1951, 3.2.5): none for 0 to 3, else one
/// more for every two symbols.
pub open spec fn rfc_distance_extra(ds: int) -> int {
    if ds < 4 {
        0
    } else {
        ds / 2 - 1
    }
}

/// Least distance of distance symbol `ds` (RFC 1951, 3.2.5): 1 to 4 for 0 to 3, else
/// the two symbols sharing `e` extra bits start at 2 and 3 times 2^e, plus 1.
pub open spec fn rfc_distance_base(ds: int) -> int {
    if ds < 4 {
        ds + 1
    } else {
        (2 + ds % 2) * two_to(ds / 2 - 1) + 1
    }
}

proof fn lemma_length_tables()
    ensures
        forall|li: int| 0 <= li < 29 ==> #[trigger] len_extra_tab()[li] == rfc_length_extra(li + 257),
        forall|li: int| 0 <= li < 29 ==> #[trigger] len_base_tab()[li] == rfc_length_base(li + 257),
        forall|ds: int| 0 <= ds < 30 ==> #[trigger] dist_extra_tab()[ds] == rfc_distance_extra(ds),
        forall|ds: int| 0 <= ds < 30 ==> #[trigger] dist_base_tab()[ds] == rfc_distance_base(ds),
{
    reveal_with_fuel(two_to, 14);
    assert forall|li: int| 0 <= li < 29 implies #[trigger] len_extra_tab()[li] == rfc_length_extra(li + 257)
        && len_base_tab()[li] == rfc_length_base(li + 257) by {
        if li == 0 {
            assert(len_extra_tab()[0] == 0 && rfc_length_extra(257) == 0);
            assert(two_to(0) == 1);
            assert(len_base_tab()[0] == 3 && rfc_length_base(257) == 3);
        } else if li == 1 {
            assert(len_extra_tab()[1] == 0 && rfc_length_extra(258) == 0);
            assert(two_to(0) == 1);
            assert(len_base_tab()[1] == 4 && rfc_length_base(258) == 4);
        } else if li == 2 {
            assert(len_extra_tab()[2] == 0 && rfc_length_extra(259) == 0);
            assert(two_to(0) == 1);
            assert(len_base_tab()[2] == 5 && rfc_length_base(259) == 5);
        } else if li == 3 {
            assert(len_extra_tab()[3] == 0 && rfc_length_extra(260) == 0);
            assert(two_to(0) == 1);
            assert(len_base_tab()[3] == 6 && rfc_length_base(260) == 6);
        } else if li == 4 {
            assert(len_extra_tab()[4] == 0 && rfc_length_extra(261) == 0);
            assert(two_to(0) == 1);
            assert(len_base_tab()[4] == 7 && rfc_length_base(261) == 7);
        } else if li == 5 {
            assert(len_extra_tab()[5] == 0 && rfc_length_extra(262) == 0);
            assert(two_to(0) == 1);
            assert(len_base_tab()[5] == 8 && rfc_length_base(262) == 8);
        } else if li == 6 {
            assert(len_extra_tab()[6] == 0 && rfc_length_extra(263) == 0);
            assert(two_to(0) == 1);
            assert(len_base_tab()[6] == 9 && rfc_length_base(263) == 9);
        } else if li == 7 {
            assert(len_extra_tab()[7] == 0 && rfc_length_extra(264) == 0);
            assert(two_to(0) == 1);
            assert(len_base_tab()[7] == 10 && rfc_length_base(264) == 10);
        } else if li == 8 {
            assert(len_extra_tab()[8] == 1 && rfc_length_extra(265) == 1);
            assert(two_to(1) == 2);
            assert(len_base_tab()[8] == 11 && rfc_length_base(265) == 11);
        } else if li == 9 {
            assert(len_extra_tab()[9] == 1 && rfc_length_extra(266) == 1);
            assert(two_to(1) == 2);
            assert(len_base_tab()[9] == 13 && rfc_length_base(266) == 13);
        } else if li == 10 {
            assert(len_extra_tab()[10] == 1 && rfc_length_extra(267) == 1);
            assert(two_to(1) == 2);
            assert(len_base_tab()[10] == 15 && rfc_length_base(267) == 15);
        } else if li == 11 {
            assert(len_extra_tab()[11] == 1 && rfc_length_extra(268) == 1);
            assert(two_to(1) == 2);
            assert(len_base_tab()[11] == 17 && rfc_length_base(268) == 17);
        } else if li == 12 {
            assert(len_extra_tab()[12] == 2 && rfc_length_extra(269) == 2);
            assert(two_to(2) == 4);
            assert(len_base_tab()[12] == 19 && rfc_length_base(269) == 19);
        } else if li == 13 {
            assert(len_extra_tab()[13] == 2 && rfc_length_extra(270) == 2);
            assert(two_to(2) == 4);
            assert(len_base_tab()[13] == 23 && rfc_length_base(270) == 23);
        } else if li == 14 {
            assert(len_extra_tab()[14] == 2 && rfc_length_extra(271) == 2);
            assert(two_to(2) == 4);
            assert(len_base_tab()[14] == 27 && rfc_length_base(271) == 27);
        } else if li == 15 {
            assert(len_extra_tab()[15] == 2 && rfc_length_extra(272) == 2);
            assert(two_to(2) == 4);
            assert(len_base_tab()[15] == 31 && rfc_length_base(272) == 31);
        } else if li == 16 {
            assert(len_extra_tab()[16] == 3 && rfc_length_extra(273) == 3);
            assert(two_to(3) == 8);
            assert(len_base_tab()[16] == 35 && rfc_length_base(273) == 35);
        } else if li == 17 {
            assert(len_extra_tab()[17] == 3 && rfc_length_extra(274) == 3);
            assert(two_to(3) == 8);
            assert(len_base_tab()[17] == 43 && rfc_length_base(274) == 43);
        } else if li == 18 {
            assert(len_extra_tab()[18] == 3 && rfc_length_extra(275) == 3);
            assert(two_to(3) == 8);
            assert(len_base_tab()[18] == 51 && rfc_length_base(275) == 51);
        } else if li == 19 {
            assert(len_extra_tab()[19] == 3 && rfc_length_extra(276) == 3);
            assert(two_to(3) == 8);
            assert(len_base_tab()[19] == 59 && rfc_length_base(276) == 59);
        } else if li == 20 {
            assert(len_extra_tab()[20] == 4 && rfc_length_extra(277) == 4);
            assert(two_to(4) == 16);
            assert(len_base_tab()[20] == 67 && rfc_length_base(277) == 67);
        } else if li == 21 {
            assert(len_extra_tab()[21] == 4 && rfc_length_extra(278) == 4);
            assert(two_to(4) == 16);
            assert(len_base_tab()[21] == 83 && rfc_length_base(278) == 83);
        } else if li == 22 {
            assert(len_extra_tab()[22] == 4 && rfc_length_extra(279) == 4);
            assert(two_to(4) == 16);
            assert(len_base_tab()[22] == 99 && rfc_length_base(279) == 99);
        } else if li == 23 {
            assert(len_extra_tab()[23] == 4 && rfc_length_extra(280) == 4);
            assert(two_to(4) == 16);
            assert(len_base_tab()[23] == 115 && rfc_length_base(280) == 115);
        } else if li == 24 {
            assert(len_extra_tab()[24] == 5 && rfc_length_extra(281) == 5);
            assert(two_to(5) == 32);
            assert(len_base_tab()[24] == 131 && rfc_length_base(281) == 131);
        } else if li == 25 {
            assert(len_extra_tab()[25] == 5 && rfc_length_extra(282) == 5);
            assert(two_to(5) == 32);
            assert(len_base_tab()[25] == 163 && rfc_length_base(282) == 163);
        } else if li == 26 {
            assert(len_extra_tab()[26] == 5 && rfc_length_extra(283) == 5);
            assert(two_to(5) == 32);
            assert(len_base_tab()[26] == 195 && rfc_length_base(283) == 195);
        } else if li == 27 {
            assert(len_extra_tab()[27] == 5 && rfc_length_extra(284) == 5);
            assert(two_to(5) == 32);
            assert(len_base_tab()[27] == 227 && rfc_length_base(284) == 227);
        } else if li == 28 {
            assert(len_extra_tab()[28] == 0 && rfc_length_extra(285) == 0);
            assert(two_to(0) == 1);
            assert(len_base_tab()[28] == 258 && rfc_length_base(285) == 258);
        }
    }
    assert forall|ds: int| 0 <= ds < 30 implies #[trigger] dist_extra_tab()[ds] == rfc_distance_extra(ds)
        && dist_base_tab()[ds] == rfc_distance_base(ds) by {
        if ds == 0 {
            assert(dist_extra_tab()[0] == 0 && rfc_distance_extra(0) == 0);
            assert(two_to(0) == 1);
            assert(dist_base_tab()[0] == 1 && rfc_distance_base(0) == 1);
        } else if ds == 1 {
            assert(dist_extra_tab()[1] == 0 && rfc_distance_extra(1) == 0);
            assert(two_to(0) == 1);
            assert(dist_base_tab()[1] == 2 && rfc_distance_base(1) == 2);
        } else if ds == 2 {
            assert(dist_extra_tab()[2] == 0 && rfc_distance_extra(2) == 0);
            assert(two_to(0) == 1);
            assert(dist_base_tab()[2] == 3 && rfc_distance_base(2) == 3);
        } else if ds == 3 {
            assert(dist_extra_tab()[3] == 0 && rfc_distance_extra(3) == 0);
            assert(two_to(0) == 1);
            assert(dist_base_tab()[3] == 4 && rfc_distance_base(3) == 4);
        } else if ds == 4 {
            assert(dist_extra_tab()[4] == 1 && rfc_distance_extra(4) == 1);
            assert(two_to(1) == 2);
            assert(dist_base_tab()[4] == 5 && rfc_distance_base(4) == 5);
        } else if ds == 5 {
            assert(dist_extra_tab()[5] == 1 && rfc_distance_extra(5) == 1);
            assert(two_to(1) == 2);
            assert(dist_base_tab()[5] == 7 && rfc_distance_base(5) == 7);
        } else if ds == 6 {
            assert(dist_extra_tab()[6] == 2 && rfc_distance_extra(6) == 2);
            assert(two_to(2) == 4);
            assert(dist_base_tab()[6] == 9 && rfc_distance_base(6) == 9);
        } else if ds == 7 {
            assert(dist_extra_tab()[7] == 2 && rfc_distance_extra(7) == 2);
            assert(two_to(2) == 4);
            assert(dist_base_tab()[7] == 13 && rfc_distance_base(7) == 13);
        } else if ds == 8 {
            assert(dist_extra_tab()[8] == 3 && rfc_distance_extra(8) == 3);
            assert(two_to(3) == 8);
            assert(dist_base_tab()[8] == 17 && rfc_distance_base(8) == 17);
        } else if ds == 9 {
            assert(dist_extra_tab()[9] == 3 && rfc_distance_extra(9) == 3);
            assert(two_to(3) == 8);
            assert(dist_base_tab()[9] == 25 && rfc_distance_base(9) == 25);
        } else if ds == 10 {
            assert(dist_extra_tab()[10] == 4 && rfc_distance_extra(10) == 4);
            assert(two_to(4) == 16);
            assert(dist_base_tab()[10] == 33 && rfc_distance_base(10) == 33);
        } else if ds == 11 {
            assert(dist_extra_tab()[11] == 4 && rfc_distance_extra(11) == 4);
            assert(two_to(4) == 16);
            assert(dist_base_tab()[11] == 49 && rfc_distance_base(11) == 49);
        } else if ds == 12 {
            assert(dist_extra_tab()[12] == 5 && rfc_distance_extra(12) == 5);
            assert(two_to(5) == 32);
            assert(dist_base_tab()[12] == 65 && rfc_distance_base(12) == 65);
        } else if ds == 13 {
            assert(dist_extra_tab()[13] == 5 && rfc_distance_extra(13) == 5);
            assert(two_to(5) == 32);
            assert(dist_base_tab()[13] == 97 && rfc_distance_base(13) == 97);
        } else if ds == 14 {
            assert(dist_extra_tab()[14] == 6 && rfc_distance_extra(14) == 6);
            assert(two_to(6) == 64);
            assert(dist_base_tab()[14] == 129 && rfc_distance_base(14) == 129);
        } else if ds == 15 {
            assert(dist_extra_tab()[15] == 6 && rfc_distance_extra(15) == 6);
            assert(two_to(6) == 64);
            assert(dist_base_tab()[15] == 193 && rfc_distance_base(15) == 193);
        } else if ds == 16 {
            assert(dist_extra_tab()[16] == 7 && rfc_distance_extra(16) == 7);
            assert(two_to(7) == 128);
            assert(dist_base_tab()[16] == 257 && rfc_distance_base(16) == 257);
        } else if ds == 17 {
            assert(dist_extra_tab()[17] == 7 && rfc_distance_extra(17) == 7);
            assert(two_to(7) == 128);
            assert(dist_base_tab()[17] == 385 && rfc_distance_base(17) == 385);
        } else if ds == 18 {
            assert(dist_extra_tab()[18] == 8 && rfc_distance_extra(18) == 8);
            assert(two_to(8) == 256);
            assert(dist_base_tab()[18] == 513 && rfc_distance_base(18) == 513);
        } else if ds == 19 {
            assert(dist_extra_tab()[19] == 8 && rfc_distance_extra(19) == 8);
            assert(two_to(8) == 256);
            assert(dist_base_tab()[19] == 769 && rfc_distance_base(19) == 769);
        } else if ds == 20 {
            assert(dist_extra_tab()[20] == 9 && rfc_distance_extra(20) == 9);
            assert(two_to(9) == 512);
            assert(dist_base_tab()[20] == 1025 && rfc_distance_base(20) == 1025);
        } else if ds == 21 {
            assert(dist_extra_tab()[21] == 9 && rfc_distance_extra(21) == 9);
            assert(two_to(9) == 512);
            assert(dist_base_tab()[21] == 1537 && rfc_distance_base(21) == 1537);
        } else if ds == 22 {
            assert(dist_extra_tab()[22] == 10 && rfc_distance_extra(22) == 10);
            assert(two_to(10) == 1024);
            assert(dist_base_tab()[22] == 2049 && rfc_distance_base(22) == 2049);
        } else if ds == 23 {
            assert(dist_extra_tab()[23] == 10 && rfc_distance_extra(23) == 10);
            assert(two_to(10) == 1024);
            assert(dist_base_tab()[23] == 3073 && rfc_distance_base(23) == 3073);
        } else if ds == 24 {
            assert(dist_extra_tab()[24] == 11 && rfc_distance_extra(24) == 11);
            assert(two_to(11) == 2048);
            assert(dist_base_tab()[24] == 4097 && rfc_distance_base(24) == 4097);
        } else if ds == 25 {
            assert(dist_extra_tab()[25] == 11 && rfc_distance_extra(25) == 11);
            assert(two_to(11) == 2048);
            assert(dist_base_tab()[25] == 6145 && rfc_distance_base(25) == 6145);
        } else if ds == 26 {
            assert(dist_extra_tab()[26] == 12 && rfc_distance_extra(26) == 12);
            assert(two_to(12) == 4096);
            assert(dist_base_tab()[26] == 8193 && rfc_distance_base(26) == 8193);
        } else if ds == 27 {
            assert(dist_extra_tab()[27] == 12 && rfc_distance_extra(27) == 12);
            assert(two_to(12) == 4096);
            assert(dist_base_tab()[27] == 12289 && rfc_distance_base(27) == 12289);
        } else if ds == 28 {
            assert(dist_extra_tab()[28] == 13 && rfc_distance_extra(28) == 13);
            assert(two_to(13) == 8192);
            assert(dist_base_tab()[28] == 16385 && rfc_distance_base(28) == 16385);
        } else if ds == 29 {
            assert(dist_extra_tab()[29] == 13 && rfc_distance_extra(29) == 13);
            assert(two_to(13) == 8192);
            assert(dist_base_tab()[29] == 24577 && rfc_distance_base(29) == 24577);
        }
    }
    assert forall|li: int| 0 <= li < 29 implies #[trigger] len_base_tab()[li] == rfc_length_base(li + 257) by {
        assert(len_extra_tab()[li] == rfc_length_extra(li + 257));
    }
    assert forall|ds: int| 0 <= ds < 30 implies #[trigger] dist_base_tab()[ds] == rfc_distance_base(ds) by {
        assert(dist_extra_tab()[ds] == rfc_distance_extra(ds));
    }
}

/// A length/distance pair in a compressed block (RFC 1951, 3.2.5), over every stream
/// and pair of code trees: after length symbol `s` come exactly `rfc_length_extra(s)`
/// extra bits, which added to `rfc_length_base(s)` give the length (symbol 285 always
/// 258, with none); then the distance symbol `ds`, its `rfc_distance_extra(ds)` extra
/// bits, added to `rfc_distance_base(ds)` for the distance. Decoding goes on after
/// them with the output extended by that many bytes copied from that far back.
pub proof fn lemma_length_distance_pair(
    lit: Tree,
    dist: Tree,
    data: Seq<u8>,
    p: int,
    out: Seq<u8>,
    cap: int,
    s: u32,
    p1: int,
    ds: u32,
    p3: int,
)
    requires
        walk(lit, data, p, 0) == Some((s, p1)),
        p < p1 <= data.len() * 8,
        257 <= s <= 285,
        p1 + rfc_length_extra(s as int) <= data.len() * 8,
        walk(dist, data, p1 + rfc_length_extra(s as int), 0) == Some((ds, p3)),
        ds <= 29,
        p < p3 + rfc_distance_extra(ds as int) <= data.len() * 8,
        rfc_distance_base(ds as int) + bits_value(data, p3, rfc_distance_extra(ds as int) as nat) <= out.len(),
        out.len() + rfc_length_base(s as int) + bits_value(data, p1, rfc_length_extra(s as int) as nat) <= cap,
    ensures
        spec_codes(lit, dist, data, p, out, cap) == spec_codes(
            lit,
            dist,
            data,
            p3 + rfc_distance_extra(ds as int),
            copy_back(
                out,
                rfc_distance_base(ds as int) + bits_value(data, p3, rfc_distance_extra(ds as int) as nat),
                rfc_length_base(s as int) + bits_value(data, p1, rfc_length_extra(s as int) as nat),
            ),
            cap,
        ),
{
    lemma_length_tables();
    reveal(spec_codes);
    assert(len_extra_tab()[s - 257] == rfc_length_extra(s as int));
    assert(len_base_tab()[s - 257] == rfc_length_base(s as int));
    assert(dist_extra_tab()[ds as int] == rfc_distance_extra(ds as int));
    assert(dist_base_tab()[ds as int] == rfc_distance_base(ds as int));
}

} // verus!
