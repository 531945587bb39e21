use vstd::prelude::*;
use vstd::arithmetic::power2::{pow2, lemma_pow2_adds, lemma_pow2_pos, lemma_pow2_unfold, lemma2_to64};
use vstd::arithmetic::div_mod::{lemma_div_denominator, lemma_fundamental_div_mod};
use vstd::bits::{lemma_u32_shr_is_div, lemma_u32_shl_is_mul, lemma_u32_low_bits_mask_is_mod, low_bits_mask, lemma_u32_pow2_no_overflow};

verus! {

/// Bit `p` of `data`, counting from the least significant bit of the first byte.
pub open spec fn bit_at(data: Seq<u8>, p: int) -> nat {
    (data[p / 8] as nat / pow2((p % 8) as nat)) % 2
}

/// The `n` bits of `data` starting at bit `p`, read least significant bit first.
pub open spec fn bits_value(data: Seq<u8>, p: int, n: nat) -> nat
    decreases n,
{
    if n == 0 {
        0
    } else {
        bit_at(data, p) + 2 * bits_value(data, p + 1, (n - 1) as nat)
    }
}

/// A reader of the bits of a byte slice, least significant bit first.
pub struct BitReader<'a> {
    pub data: &'a [u8],
    pub byte_pos: usize,
    pub bit_buf: u32,
    pub bit_count: u32,
}

impl<'a> BitReader<'a> {
    /// Index of the next bit to be read.
    pub open spec fn pos(&self) -> int {
        self.byte_pos * 8 - self.bit_count
    }

    /// The buffered bits are the next `bit_count` bits of the data.
    pub open spec fn wf(&self) -> bool {
        &&& self.byte_pos <= self.data@.len()
        &&& self.bit_count <= 32
        &&& self.bit_count <= self.byte_pos * 8
        &&& self.bit_buf < pow2(self.bit_count as nat)
        &&& self.bit_buf == bits_value(self.data@, self.pos(), self.bit_count as nat)
    }

    /// Number of bits left.
    pub open spec fn remaining(&self) -> int {
        self.data@.len() * 8 - self.pos()
    }
}

pub proof fn lemma_bits_value_bound(data: Seq<u8>, p: int, n: nat)
    ensures
        bits_value(data, p, n) < pow2(n),
    decreases n,
{
    if n == 0 {
        assert(pow2(0) == 1) by {
            lemma2_to64();
        }
    } else {
        lemma_bits_value_bound(data, p + 1, (n - 1) as nat);
        lemma_pow2_unfold(n);
    }
}

pub proof fn lemma_bits_value_concat(data: Seq<u8>, p: int, a: nat, b: nat)
    ensures
        bits_value(data, p, a + b) == bits_value(data, p, a) + pow2(a) * bits_value(
            data,
            p + a,
            b,
        ),
    decreases a,
{
    if a == 0 {
        assert(pow2(0) == 1) by {
            lemma2_to64();
        }
    } else {
        lemma_bits_value_concat(data, p + 1, (a - 1) as nat, b);
        lemma_pow2_unfold(a);
        assert((a + b - 1) as nat == (a - 1) as nat + b);
        let x = bits_value(data, p + 1, (a - 1) as nat);
        let y = bits_value(data, p + a, b);
        let q = pow2((a - 1) as nat);
        assert(2 * (x + q * y) == 2 * x + (2 * q) * y) by (nonlinear_arith);
    }
}

proof fn lemma_byte_suffix(data: Seq<u8>, k: int, j: nat)
    requires
        0 <= k < data.len(),
        j <= 8,
    ensures
        bits_value(data, 8 * k + j, (8 - j) as nat) == data[k] as nat / pow2(j),
    decreases 8 - j,
{
    let x = data[k] as nat;
    lemma_pow2_pos(j);
    if j == 8 {
        assert(pow2(8) == 256) by {
            lemma2_to64();
        }
        assert(x / 256 == 0);
    } else {
        lemma_byte_suffix(data, k, j + 1);
        let p = 8 * k + j;
        assert(p / 8 == k && p % 8 == j) by (nonlinear_arith)
            requires
                p == 8 * k + j,
                0 <= j < 8,
        ;
        assert(bit_at(data, p) == (x / pow2(j)) % 2);
        lemma_pow2_unfold(j + 1);
        assert(pow2(j + 1) == pow2(j) * 2);
        lemma_div_denominator(x as int, pow2(j) as int, 2);
        let y = x / pow2(j);
        lemma_fundamental_div_mod(y as int, 2);
        assert(x / pow2(j + 1) == y / 2);
        assert(((8 - j) as nat - 1) as nat == (8 - (j + 1)) as nat);
        assert(bits_value(data, p, (8 - j) as nat) == bit_at(data, p) + 2 * bits_value(
            data,
            p + 1,
            (8 - (j + 1)) as nat,
        ));
        assert(p + 1 == 8 * k + (j + 1));
    }
}

/// The eight bits of a byte, read from its first bit, are the byte.
pub proof fn lemma_bits_of_byte(data: Seq<u8>, k: int)
    requires
        0 <= k < data.len(),
    ensures
        bits_value(data, 8 * k, 8) == data[k],
{
    lemma_byte_suffix(data, k, 0);
    assert(pow2(0) == 1) by {
        lemma2_to64();
    }
}

/// Loads whole bytes until at least `need` bits are buffered; false when the data ends first.
pub fn br_fill(br: &mut BitReader, need: u32) -> (ok: bool)
    requires
        old(br).wf(),
        need <= 25,
    ensures
        final(br).wf(),
        final(br).data@ == old(br).data@,
        final(br).pos() == old(br).pos(),
        ok <==> need <= old(br).bit_count + 8 * (old(br).data@.len() - old(br).byte_pos),
        ok ==> final(br).bit_count >= need,
        !ok ==> final(br).byte_pos == final(br).data@.len(),
        final(br).bit_count >= old(br).bit_count,
        (final(br).bit_count - old(br).bit_count) % 8 == 0,
        final(br).bit_count < need + 8 || final(br).bit_count == old(br).bit_count,
{
    while br.bit_count < need
        invariant
            br.wf(),
            need <= 25,
            br.data@ == old(br).data@,
            br.pos() == old(br).pos(),
            br.bit_count >= old(br).bit_count,
            (br.bit_count - old(br).bit_count) % 8 == 0,
            br.bit_count < need + 8 || br.bit_count == old(br).bit_count,
        decreases br.data@.len() - br.byte_pos,
    {
        if br.byte_pos >= br.data.len() {
            return false;
        }
        let byte = br.data[br.byte_pos];
        let ghost old_buf = br.bit_buf;
        let ghost c = br.bit_count;
        proof {
            lemma_u32_pow2_no_overflow(c as nat);
            lemma_u32_shl_is_mul(1, c);
            assert(pow2(c as nat) <= pow2(24)) by {
                if c < 24 {
                    vstd::arithmetic::power2::lemma_pow2_strictly_increases(c as nat, 24);
                }
            }
            assert(pow2(24) == 0x1000000) by {
                lemma2_to64();
            }
            assert((byte as u32) * pow2(c as nat) <= 255 * 0x1000000) by (nonlinear_arith)
                requires
                    pow2(c as nat) <= 0x1000000,
                    byte < 256,
            ;
            lemma_u32_shl_is_mul(byte as u32, c);
            assert(old_buf < (1u32 << c));
            assert(old_buf | ((byte as u32) << c) == old_buf + ((byte as u32) << c)) by (bit_vector)
                requires
                    old_buf < (1u32 << c),
                    c < 25,
                    byte < 256,
            ;
        }
        br.bit_buf = br.bit_buf | ((byte as u32) << br.bit_count);
        br.byte_pos = br.byte_pos + 1;
        br.bit_count = br.bit_count + 8;
        proof {
            let p = old(br).pos();
            lemma_bits_value_concat(br.data@, p, c as nat, 8);
            assert(p + c == 8 * (br.byte_pos - 1));
            lemma_bits_of_byte(br.data@, br.byte_pos - 1);
            lemma_pow2_adds(c as nat, 8);
            assert(pow2(8) == 256) by {
                lemma2_to64();
            }
            assert(br.bit_buf == old_buf + byte * pow2(c as nat));
            assert(br.pos() == p);
            assert(bits_value(br.data@, p, (c + 8) as nat) == old_buf + pow2(c as nat) * byte);
            assert(pow2((c + 8) as nat) == pow2(c as nat) * 256);
            assert(old_buf + byte * pow2(c as nat) < pow2(c as nat) * 256) by (nonlinear_arith)
                requires
                    old_buf < pow2(c as nat),
                    byte < 256,
            ;
        }
    }
    true
}

/// Reads the next `count` bits as a number, least significant bit first.
pub fn br_bits(br: &mut BitReader, count: u32, out: &mut u32) -> (ok: bool)
    requires
        old(br).wf(),
        count <= 25,
    ensures
        !ok ==> *final(out) == *old(out),
        final(br).wf(),
        final(br).data@ == old(br).data@,
        ok <==> count <= old(br).remaining(),
        ok ==> *final(out) == bits_value(old(br).data@, old(br).pos(), count as nat),
        ok ==> final(br).pos() == old(br).pos() + count,
        !ok ==> final(br).pos() == old(br).pos(),
        ok && old(br).bit_count < 8 ==> final(br).bit_count < 8,
{
    if count == 0 {
        *out = 0;
        return true;
    }
    if !br_fill(br, count) {
        return false;
    }
    let ghost buf = br.bit_buf;
    let ghost c = br.bit_count;
    proof {
        lemma_u32_pow2_no_overflow(count as nat);
        lemma_u32_shl_is_mul(1, count);
        assert(pow2(count as nat) == 1u32 << count);
        lemma_u32_low_bits_mask_is_mod(buf, count as nat);
        lemma_u32_shr_is_div(buf, count);
        assert(low_bits_mask(count as nat) == (1u32 << count) - 1);
        lemma_bits_value_concat(br.data@, br.pos(), count as nat, (c - count) as nat);
        lemma_bits_value_bound(br.data@, br.pos(), count as nat);
        lemma_bits_value_bound(br.data@, br.pos() + count, (c - count) as nat);
        let lo = bits_value(br.data@, br.pos(), count as nat);
        let hi = bits_value(br.data@, br.pos() + count, (c - count) as nat);
        let q = pow2(count as nat);
        assert(buf == lo + q * hi);
        assert(buf == hi * q + lo) by (nonlinear_arith)
            requires
                buf == lo + q * hi,
        ;
        lemma_pow2_pos(count as nat);
        vstd::arithmetic::div_mod::lemma_fundamental_div_mod_converse(
            buf as int,
            q as int,
            hi as int,
            lo as int,
        );
        lemma_pow2_adds(count as nat, (c - count) as nat);
        assert(hi < pow2((c - count) as nat));
    }
    *out = if count >= 32 {
        br.bit_buf
    } else {
        br.bit_buf & ((1u32 << count) - 1)
    };
    br.bit_buf = br.bit_buf >> count;
    br.bit_count = br.bit_count - count;
    true
}

} // verus!
