use vstd::prelude::*;
use crate::wallpaper::bits::{bit_at, br_bits, BitReader};
use vstd::wrapping::u16_specs::{wrapping_add, wrapping_shl};

verus! {

/// Number of node slots of a code tree.
pub const HUFF_NODES: usize = 1152;

/// A binary code tree held in three parallel node arrays: the left (bit 0) and
/// right (bit 1) child of each node, -1 where absent, and the symbol a node stands
/// for, -1 for an inner node. Node 0 is the root; `count` slots are in use.
pub struct Huff {
    pub left: Vec<i16>,
    pub right: Vec<i16>,
    pub symbol: Vec<i16>,
    pub root: i16,
    pub count: usize,
}

/// A code tree as plain values: the three node arrays and the slots in use.
#[verifier::ext_equal]
pub struct Tree {
    pub left: Seq<i16>,
    pub right: Seq<i16>,
    pub symbol: Seq<i16>,
    pub count: int,
}

impl Huff {
    pub open spec fn tree(&self) -> Tree {
        Tree { left: self.left@, right: self.right@, symbol: self.symbol@, count: self.count as int }
    }
}

/// The child of `node` for bit `bit`.
pub open spec fn child_of(t: Tree, node: int, bit: nat) -> int {
    if bit == 1 {
        t.right[node] as int
    } else {
        t.left[node] as int
    }
}

/// `t` with the child of `node` for bit `bit` set to `v`.
pub open spec fn set_child(t: Tree, node: int, bit: nat, v: int) -> Tree {
    if bit == 1 {
        Tree { right: t.right.update(node, v as i16), ..t }
    } else {
        Tree { left: t.left.update(node, v as i16), ..t }
    }
}

/// A tree of a root alone.
pub open spec fn empty_tree() -> Tree {
    Tree {
        left: Seq::new(HUFF_NODES as nat, |i: int| -1i16),
        right: Seq::new(HUFF_NODES as nat, |i: int| -1i16),
        symbol: Seq::new(HUFF_NODES as nat, |i: int| -1i16),
        count: 1,
    }
}

/// Bit `b` of code `c`.
pub open spec fn code_bit(c: u16, b: u32) -> u16 {
    (c >> b) & 1
}

/// Adds the path of code `c`, from its bit `b` down to bit 0, below `node`, ending in a
/// new node for `sym`: existing nodes are followed, missing ones made. None when the
/// last edge is taken already or the node slots run out.
pub open spec fn insert_code(t: Tree, node: int, c: u16, b: int, sym: int) -> Option<Tree>
    decreases b + 1,
{
    if b < 0 {
        Some(t)
    } else {
        let bit = code_bit(c, b as u32) as nat;
        let edge = child_of(t, node, bit);
        if b == 0 {
            if edge != -1 || t.count >= HUFF_NODES {
                None
            } else {
                let t1 = set_child(t, node, bit, t.count);
                Some(Tree { symbol: t1.symbol.update(t.count, sym as i16), count: t.count + 1, ..t1 })
            }
        } else if edge == -1 {
            if t.count >= HUFF_NODES {
                None
            } else {
                let t1 = set_child(t, node, bit, t.count);
                insert_code(Tree { count: t.count + 1, ..t1 }, t.count, c, b - 1, sym)
            }
        } else {
            insert_code(t, edge, c, b - 1, sym)
        }
    }
}

/// How many of the first `upto` symbols have code length `len` (length 0 counts none).
pub open spec fn count_len(lengths: Seq<u8>, upto: int, len: int) -> nat
    decreases upto,
{
    if upto <= 0 {
        0
    } else {
        count_len(lengths, upto - 1, len) + if len != 0 && lengths[upto - 1] == len { 1nat } else { 0nat }
    }
}

/// The first code of length `len` in the canonical code (16-bit arithmetic).
pub open spec fn first_code(lengths: Seq<u8>, len: int) -> u16
    decreases len,
{
    if len <= 0 {
        0
    } else {
        wrapping_shl(
            wrapping_add(first_code(lengths, len - 1), count_len(lengths, lengths.len() as int, len - 1) as u16),
            1,
        )
    }
}

/// The canonical code of symbol `n`: the first code of its length plus the number of
/// earlier symbols of that length (16-bit arithmetic).
pub open spec fn sym_code(lengths: Seq<u8>, n: int) -> u16 {
    ((first_code(lengths, lengths[n] as int) + count_len(lengths, n, lengths[n] as int)) % 65536) as u16
}

/// The tree `t` with the codes of the symbols from `n` on added in order.
pub open spec fn build_from(lengths: Seq<u8>, t: Tree, n: int) -> Option<Tree>
    decreases lengths.len() - n,
{
    if n < 0 || n >= lengths.len() {
        Some(t)
    } else if lengths[n] == 0 {
        build_from(lengths, t, n + 1)
    } else {
        match insert_code(t, 0, sym_code(lengths, n), lengths[n] - 1, n) {
            None => None,
            Some(t1) => build_from(lengths, t1, n + 1),
        }
    }
}

/// Every code length is at most 15.
pub open spec fn lengths_ok(lengths: Seq<u8>) -> bool {
    forall|j: int| 0 <= j < lengths.len() ==> #[trigger] lengths[j] <= 15
}

/// The code tree of the canonical code with the code lengths `lengths`; None for a
/// length above 15, codes that collide, or too many nodes.
pub open spec fn built_tree(lengths: Seq<u8>) -> Option<Tree> {
    if !lengths_ok(lengths) {
        None
    } else {
        build_from(lengths, empty_tree(), 0)
    }
}

/// Decoding from `node`: follow the bits of `data` from bit `p` until a node that
/// stands for a symbol; the symbol and the index of the bit after the code, or
/// None when the data ends or an edge is missing.
pub open spec fn walk(t: Tree, data: Seq<u8>, p: int, node: int) -> Option<(u32, int)>
    decreases data.len() * 8 - p,
{
    if p < 0 || p >= data.len() * 8 {
        None
    } else {
        let c = child_of(t, node, bit_at(data, p));
        if c < 0 || c >= t.count {
            None
        } else if t.symbol[c] >= 0 {
            Some((t.symbol[c] as u32, p + 1))
        } else {
            walk(t, data, p + 1, c)
        }
    }
}

impl Huff {
    pub open spec fn wf(&self) -> bool {
        &&& self.left@.len() == HUFF_NODES
        &&& self.right@.len() == HUFF_NODES
        &&& self.symbol@.len() == HUFF_NODES
        &&& self.root == 0
        &&& 1 <= self.count <= HUFF_NODES
        &&& forall|i: int|
            0 <= i < HUFF_NODES ==> (#[trigger] self.left@[i] == -1 || 0 <= self.left@[i]
                < self.count)
        &&& forall|i: int|
            0 <= i < HUFF_NODES ==> (#[trigger] self.right@[i] == -1 || 0 <= self.right@[i]
                < self.count)
    }

    /// An empty tree: a root with no children.
    pub fn new() -> (h: Huff)
        ensures
            h.wf(),
            h.count == 1,
            forall|i: int| 0 <= i < HUFF_NODES ==> #[trigger] h.left@[i] == -1 && h.right@[i] == -1 && h.symbol@[i] == -1,
    {
        Huff {
            left: filled(HUFF_NODES, -1),
            right: filled(HUFF_NODES, -1),
            symbol: filled(HUFF_NODES, -1),
            root: 0,
            count: 1,
        }
    }
}

/// `n` copies of `v`.
pub fn filled(n: usize, v: i16) -> (r: Vec<i16>)
    ensures
        r@.len() == n,
        forall|i: int| 0 <= i < n ==> #[trigger] r@[i] == v,
{
    let mut r: Vec<i16> = Vec::new();
    let mut i: usize = 0;
    while i < n
        invariant
            i <= n,
            r@.len() == i,
            forall|j: int| 0 <= j < i ==> #[trigger] r@[j] == v,
        decreases n - i,
    {
        r.push(v);
        i = i + 1;
    }
    r
}

/// Resets `h` to an empty tree.
pub fn huff_init(h: &mut Huff)
    ensures
        final(h).wf(),
        final(h).count == 1,
        forall|i: int| 0 <= i < HUFF_NODES ==> #[trigger] final(h).left@[i] == -1 && final(h).right@[i] == -1 && final(h).symbol@[i] == -1,
{
    *h = Huff::new();
}

/// How many of the first `upto` symbols have a given length is at most `upto`.
pub proof fn lemma_count_len_bound(lengths: Seq<u8>, upto: int, len: int)
    requires
        0 <= upto,
    ensures
        count_len(lengths, upto, len) <= upto,
    decreases upto,
{
    if upto > 0 {
        lemma_count_len_bound(lengths, upto - 1, len);
    }
}

/// Builds the code tree of the canonical code for the code lengths `lengths` (0 = unused
/// symbol): the tree `built_tree` describes. Fails on a length above 15, on codes that
/// collide, or when the nodes run out.
pub fn huff_build(h: &mut Huff, lengths: &[u8]) -> (ok: bool)
    requires
        lengths@.len() < 32768,
    ensures
        final(h).wf(),
        ok == (built_tree(lengths@) is Some),
        ok ==> final(h).tree() == built_tree(lengths@).unwrap(),
{
    huff_init(h);
    proof {
        assert(h.left@ =~= empty_tree().left);
        assert(h.right@ =~= empty_tree().right);
        assert(h.symbol@ =~= empty_tree().symbol);
        assert(h.tree() =~= empty_tree());
    }
    let mut bl_count: Vec<u16> = Vec::new();
    let mut i: usize = 0;
    while i < 16
        invariant
            i <= 16,
            bl_count@.len() == i,
            forall|l: int| 0 <= l < i ==> #[trigger] bl_count@[l] == 0,
            h.wf(),
            h.tree() == empty_tree(),
        decreases 16 - i,
    {
        bl_count.push(0);
        i = i + 1;
    }
    let mut n: usize = 0;
    while n < lengths.len()
        invariant
            n <= lengths@.len() < 32768,
            bl_count@.len() == 16,
            h.wf(),
            h.tree() == empty_tree(),
            forall|j: int| 0 <= j < n ==> #[trigger] lengths@[j] <= 15,
            forall|l: int| 0 <= l < 16 ==> #[trigger] bl_count@[l] == count_len(lengths@, n as int, l),
        decreases lengths@.len() - n,
    {
        let len = lengths[n];
        if len > 15 {
            proof {
                assert(!lengths_ok(lengths@)) by {
                    assert(lengths@[n as int] > 15);
                }
            }
            return false;
        }
        let ghost before = bl_count@;
        if len != 0 {
            let c = bl_count[len as usize];
            proof {
                lemma_count_len_bound(lengths@, n as int, len as int);
            }
            bl_count.set(len as usize, c.wrapping_add(1));
        }
        proof {
            assert forall|l: int| 0 <= l < 16 implies #[trigger] bl_count@[l] == count_len(lengths@, n + 1, l) by {
                assert(count_len(lengths@, n + 1, l) == count_len(lengths@, n as int, l) + if l != 0
                    && lengths@[n as int] == l {
                    1nat
                } else {
                    0nat
                });
                if l != len as int {
                    assert(bl_count@[l] == before[l]);
                }
            }
        }
        n = n + 1;
    }
    proof {
        assert(lengths_ok(lengths@));
    }
    let mut next_code: Vec<u16> = Vec::new();
    next_code.push(0);
    let mut code: u16 = 0;
    let mut bits: usize = 1;
    while bits < 16
        invariant
            1 <= bits <= 16,
            next_code@.len() == bits,
            bl_count@.len() == 16,
            h.wf(),
            h.tree() == empty_tree(),
            lengths@.len() < 32768,
            lengths_ok(lengths@),
            code == first_code(lengths@, bits - 1),
            forall|k: int| 0 <= k < bits ==> #[trigger] next_code@[k] == first_code(lengths@, k),
            forall|l: int| 0 <= l < 16 ==> #[trigger] bl_count@[l] == count_len(lengths@, lengths@.len() as int, l),
        decreases 16 - bits,
    {
        proof {
            lemma_count_len_bound(lengths@, lengths@.len() as int, bits - 1);
        }
        code = code.wrapping_add(bl_count[bits - 1]).wrapping_shl(1);
        next_code.push(code);
        bits = bits + 1;
    }
    let mut n: usize = 0;
    while n < lengths.len()
        invariant
            n <= lengths@.len() < 32768,
            next_code@.len() == 16,
            h.wf(),
            lengths_ok(lengths@),
            forall|l: int|
                1 <= l < 16 ==> #[trigger] next_code@[l] == ((first_code(lengths@, l) + count_len(
                    lengths@,
                    n as int,
                    l,
                )) % 65536) as u16,
            build_from(lengths@, empty_tree(), 0) == build_from(lengths@, h.tree(), n as int),
        decreases lengths@.len() - n,
    {
        let len = lengths[n];
        let ghost t0 = h.tree();
        let ghost codes = next_code@;
        if len != 0 {
            let c = next_code[len as usize];
            assert(c == sym_code(lengths@, n as int));
            next_code.set(len as usize, next_code[len as usize].wrapping_add(1));
            let mut node: usize = h.root as usize;
            let mut b: i32 = len as i32 - 1;
            while b >= 0
                invariant
                    h.wf(),
                    node < h.count,
                    -1 <= b <= 14,
                    n < lengths@.len() < 32768,
                    len == lengths@[n as int],
                    len != 0,
                    c == sym_code(lengths@, n as int),
                    lengths_ok(lengths@),
                    build_from(lengths@, empty_tree(), 0) == build_from(lengths@, t0, n as int),
                    insert_code(t0, 0, c, len - 1, n as int) == insert_code(h.tree(), node as int, c, b as int, n as int),
                decreases b + 1,
            {
                let bit = (c >> (b as u32)) & 1;
                assert(((c >> (b as u32)) & 1) <= 1) by (bit_vector);
                if b == 0 {
                    let edge = if bit != 0 {
                        h.right[node]
                    } else {
                        h.left[node]
                    };
                    if edge != -1 || h.count >= HUFF_NODES {
                        proof {
                            assert(insert_code(h.tree(), node as int, c, b as int, n as int) is None);
                            assert(build_from(lengths@, t0, n as int) is None);
                        }
                        return false;
                    }
                    let slot = h.count;
                    if bit != 0 {
                        h.right.set(node, slot as i16);
                    } else {
                        h.left.set(node, slot as i16);
                    }
                    h.symbol.set(slot, n as i16);
                    h.count = h.count + 1;
                } else {
                    let edge = if bit != 0 {
                        h.right[node]
                    } else {
                        h.left[node]
                    };
                    if edge == -1 {
                        if h.count >= HUFF_NODES {
                            proof {
                                assert(insert_code(h.tree(), node as int, c, b as int, n as int) is None);
                                assert(build_from(lengths@, t0, n as int) is None);
                            }
                            return false;
                        }
                        let slot = h.count;
                        if bit != 0 {
                            h.right.set(node, slot as i16);
                        } else {
                            h.left.set(node, slot as i16);
                        }
                        h.count = h.count + 1;
                        node = h.count - 1;
                    } else {
                        node = edge as usize;
                    }
                }
                b = b - 1;
            }
            proof {
                assert(insert_code(t0, 0, c, len - 1, n as int) == Some(h.tree()));
                let x = first_code(lengths@, len as int) + count_len(lengths@, n as int, len as int);
                vstd::arithmetic::div_mod::lemma_add_mod_noop(x, 1, 65536);
            }
        }
        proof {
            assert forall|l: int|
                1 <= l < 16 implies #[trigger] next_code@[l] == ((first_code(lengths@, l) + count_len(
                lengths@,
                n + 1,
                l,
            )) % 65536) as u16 by {
                assert(count_len(lengths@, n + 1, l) == count_len(lengths@, n as int, l) + if l != 0
                    && lengths@[n as int] == l {
                    1nat
                } else {
                    0nat
                });
                if l != len as int {
                    assert(next_code@[l] == codes[l]);
                }
            }
        }
        n = n + 1;
    }
    true
}

/// Decodes one symbol: follows the tree from its root along the next bits.
pub fn huff_decode(br: &mut BitReader, h: &Huff) -> (r: Option<u32>)
    requires
        old(br).wf(),
        h.wf(),
    ensures
        final(br).wf(),
        final(br).data@ == old(br).data@,
        match walk(h.tree(), old(br).data@, old(br).pos(), h.root as int) {
            Some((sym, q)) => r == Some(sym) && final(br).pos() == q,
            None => r is None,
        },
        old(br).bit_count < 8 && r is Some ==> final(br).bit_count < 8,
{
    let mut node: usize = h.root as usize;
    let ghost start = br.pos();
    loop
        invariant
            br.wf(),
            h.wf(),
            br.data@ == old(br).data@,
            node < h.count,
            walk(h.tree(), old(br).data@, start, h.root as int) == walk(h.tree(), br.data@, br.pos(), node as int),
            start == old(br).pos(),
            old(br).bit_count < 8 ==> br.bit_count < 8,
        decreases br.remaining(),
    {
        let mut bit: u32 = 0;
        let ghost p = br.pos();
        if !br_bits(br, 1, &mut bit) {
            return None;
        }
        proof {
            assert(bit_at(br.data@, p) < 2) by {
                vstd::arithmetic::div_mod::lemma_mod_bound(
                    (br.data@[p / 8] as nat / vstd::arithmetic::power2::pow2((p % 8) as nat)) as int,
                    2,
                );
            }
            assert(crate::wallpaper::bits::bits_value(br.data@, p + 1, 0) == 0);
            assert(crate::wallpaper::bits::bits_value(br.data@, p, 1) == bit_at(br.data@, p) + 2
                * crate::wallpaper::bits::bits_value(br.data@, p + 1, 0));
            assert(bit == bit_at(br.data@, p));
        }
        let child = if bit != 0 {
            h.right[node]
        } else {
            h.left[node]
        };
        if child < 0 || child as usize >= h.count {
            return None;
        }
        node = child as usize;
        if h.symbol[node] >= 0 {
            return Some(h.symbol[node] as u32);
        }
    }
}

} // verus!
