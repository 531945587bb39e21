use vstd::prelude::*;
use vstd::arithmetic::power2::{pow2, lemma_pow2_adds, lemma_pow2_pos, lemma_pow2_strictly_increases, lemma_pow2_unfold};
use vstd::arithmetic::div_mod::{lemma_div_denominator, lemma_div_is_ordered, lemma_fundamental_div_mod};
use crate::wallpaper::bits::bit_at;
use crate::wallpaper::huffman::{
    build_from, built_tree, child_of, code_bit, count_len, empty_tree, first_code, insert_code, lengths_ok,
    lemma_count_len_bound, set_child, sym_code, walk, Tree, HUFF_NODES,
};
use vstd::wrapping::u16_specs::wrapping_add;
use crate::wallpaper::inflate::{fixed_dist_lengths, fixed_lit_lengths};

verus! {

/// The first `d` bits of the `len`-bit code `c`, most significant first, as a number.
pub open spec fn code_prefix(c: u16, len: int, d: nat) -> int
    decreases d,
{
    if d == 0 {
        0
    } else {
        2 * code_prefix(c, len, (d - 1) as nat) + code_bit(c, (len - d) as u32)
    }
}

/// The node reached from the root of `t` along the `d` bits of `v`, most significant
/// first; -1 once an edge is missing.
pub open spec fn node_at(t: Tree, v: int, d: nat) -> int
    decreases d,
{
    if d == 0 {
        0
    } else {
        let x = node_at(t, v / 2, (d - 1) as nat);
        if 0 <= x < t.count {
            child_of(t, x, (v % 2) as nat)
        } else {
            -1
        }
    }
}

/// The node arrays have their full size, the slots from `count` on are blank, every
/// edge leads to a used slot other than the root, and the root stands for no symbol.
pub open spec fn shape_ok(t: Tree) -> bool {
    &&& t.left.len() == HUFF_NODES
    &&& t.right.len() == HUFF_NODES
    &&& t.symbol.len() == HUFF_NODES
    &&& 1 <= t.count <= HUFF_NODES
    &&& t.symbol[0] == -1
    &&& forall|k: int| 0 <= k < HUFF_NODES ==> #[trigger] t.left[k] == -1 || 1 <= t.left[k] < t.count
    &&& forall|k: int| 0 <= k < HUFF_NODES ==> #[trigger] t.right[k] == -1 || 1 <= t.right[k] < t.count
    &&& forall|k: int| t.count <= k < HUFF_NODES ==> #[trigger] t.symbol[k] == -1
    &&& forall|k: int| t.count <= k < HUFF_NODES ==> #[trigger] t.left[k] == -1
    &&& forall|k: int| t.count <= k < HUFF_NODES ==> #[trigger] t.right[k] == -1
}

/// Distinct bit strings lead to distinct nodes.
pub open spec fn paths_unique(t: Tree) -> bool {
    forall|v1: int, d1: nat, v2: int, d2: nat|
        0 <= v1 < pow2(d1) && 0 <= v2 < pow2(d2) && #[trigger] node_at(t, v1, d1) == #[trigger] node_at(t, v2, d2)
            && node_at(t, v1, d1) >= 0 ==> d1 == d2 && v1 == v2
}

/// The node that the code of symbol `i` leads to.
pub open spec fn code_node(t: Tree, lengths: Seq<u8>, i: int) -> int {
    node_at(t, code_prefix(sym_code(lengths, i), lengths[i] as int, lengths[i] as nat), lengths[i] as nat)
}

/// Every node that stands for a symbol is reached by that symbol's code alone, and
/// the code of each of the first `n` symbols with a length leads to its node.
pub open spec fn labels_ok(t: Tree, lengths: Seq<u8>, n: int) -> bool {
    &&& forall|v: int, d: nat|
        0 <= v < pow2(d) && 0 <= #[trigger] node_at(t, v, d) && t.symbol[node_at(t, v, d)] >= 0 ==> {
            let s = t.symbol[node_at(t, v, d)] as int;
            &&& 0 <= s < n
            &&& lengths[s] == d
            &&& code_prefix(sym_code(lengths, s), d as int, d) == v
        }
    &&& forall|i: int| 0 <= i < n && lengths[i] > 0 ==> 0 <= #[trigger] code_node(t, lengths, i) && t.symbol[code_node(t, lengths, i)] == i
}

/// No code is the start of another: the first bits of a longer (or equally long) code
/// differ from every other code.
pub open spec fn prefix_free(lengths: Seq<u8>) -> bool {
    forall|i: int, j: int|
        0 <= i < lengths.len() && 0 <= j < lengths.len() && i != j && 0 < lengths[i] <= lengths[j] ==> #[trigger] code_prefix(
            sym_code(lengths, j),
            lengths[j] as int,
            lengths[i] as nat,
        ) != #[trigger] code_prefix(sym_code(lengths, i), lengths[i] as int, lengths[i] as nat)
}

/// `t` with a new slot as child `bit` of `y`, standing for `s`.
pub open spec fn grow(t: Tree, y: int, bit: nat, s: i16) -> Tree {
    let t1 = set_child(t, y, bit, t.count);
    Tree { symbol: t1.symbol.update(t.count, s), count: t.count + 1, ..t1 }
}

proof fn lemma_code_bit(c: u16, b: u32)
    ensures
        code_bit(c, b) <= 1,
{
    assert(((c >> b) & 1u16) <= 1u16) by (bit_vector);
}

proof fn lemma_code_prefix_bound(c: u16, len: int, d: nat)
    ensures
        0 <= code_prefix(c, len, d) < pow2(d),
    decreases d,
{
    if d == 0 {
        vstd::arithmetic::power2::lemma2_to64();
    } else {
        lemma_code_prefix_bound(c, len, (d - 1) as nat);
        lemma_code_bit(c, (len - d) as u32);
        lemma_pow2_unfold(d);
    }
}

proof fn lemma_node_at_range(t: Tree, v: int, d: nat)
    requires
        shape_ok(t),
    ensures
        node_at(t, v, d) == -1 || 0 <= node_at(t, v, d) < t.count,
        d > 0 ==> node_at(t, v, d) != 0,
        d > 0 && node_at(t, v, d) >= 0 ==> 0 <= node_at(t, v / 2, (d - 1) as nat) < t.count,
    decreases d,
{
    if d > 0 {
        lemma_node_at_range(t, v / 2, (d - 1) as nat);
        let x = node_at(t, v / 2, (d - 1) as nat);
        if 0 <= x < t.count {
            assert(t.left[x] == -1 || 1 <= t.left[x] < t.count);
            assert(t.right[x] == -1 || 1 <= t.right[x] < t.count);
        }
    }
}

#[verifier::spinoff_prover]
proof fn lemma_grow_shape(t: Tree, y: int, bit: nat, s: i16)
    requires
        shape_ok(t),
        t.count < HUFF_NODES,
        0 <= y < t.count,
        bit <= 1,
    ensures
        shape_ok(grow(t, y, bit, s)),
{
    let g = grow(t, y, bit, s);
    assert forall|k: int| 0 <= k < HUFF_NODES implies #[trigger] g.left[k] == -1 || 1 <= g.left[k] < g.count by {
        assert(t.left[k] == -1 || 1 <= t.left[k] < t.count);
    }
    assert forall|k: int| 0 <= k < HUFF_NODES implies #[trigger] g.right[k] == -1 || 1 <= g.right[k] < g.count by {
        assert(t.right[k] == -1 || 1 <= t.right[k] < t.count);
    }
    assert forall|k: int| g.count <= k < HUFF_NODES implies #[trigger] g.symbol[k] == -1 by {
        assert(t.symbol[k] == -1);
    }
    assert forall|k: int| g.count <= k < HUFF_NODES implies #[trigger] g.left[k] == -1 by {
        assert(t.left[k] == -1);
    }
    assert forall|k: int| g.count <= k < HUFF_NODES implies #[trigger] g.right[k] == -1 by {
        assert(t.right[k] == -1);
    }
}

proof fn lemma_grow_old(t: Tree, y: int, bit: nat, s: i16, v: int, d: nat)
    requires
        shape_ok(t),
        t.count < HUFF_NODES,
        0 <= y < t.count,
        bit <= 1,
        child_of(t, y, bit) == -1,
        node_at(t, v, d) >= 0,
    ensures
        node_at(grow(t, y, bit, s), v, d) == node_at(t, v, d),
    decreases d,
{
    if d > 0 {
        lemma_node_at_range(t, v, d);
        lemma_grow_old(t, y, bit, s, v / 2, (d - 1) as nat);
    }
}

proof fn lemma_grow_new(t: Tree, y: int, w: int, e: nat, bit: nat, s: i16, v: int, d: nat)
    requires
        shape_ok(t),
        paths_unique(t),
        t.count < HUFF_NODES,
        0 <= w < pow2(e),
        y == node_at(t, w, e),
        0 <= y,
        bit <= 1,
        child_of(t, y, bit) == -1,
        0 <= v < pow2(d),
        node_at(grow(t, y, bit, s), v, d) >= 0,
        node_at(t, v, d) < 0,
    ensures
        d == e + 1,
        v == 2 * w + bit,
        node_at(grow(t, y, bit, s), v, d) == t.count,
    decreases d,
{
    let g = grow(t, y, bit, s);
    lemma_node_at_range(t, w, e);
    lemma_grow_shape(t, y, bit, s);
    if d == 0 {
    } else {
        let u = v / 2;
        lemma_pow2_unfold(d);
        lemma_node_at_range(g, v, d);
        lemma_node_at_range(t, u, (d - 1) as nat);
        if node_at(t, u, (d - 1) as nat) >= 0 {
            lemma_grow_old(t, y, bit, s, u, (d - 1) as nat);
            let x = node_at(t, u, (d - 1) as nat);
            assert(x == y && (v % 2) as nat == bit);
            assert(node_at(t, u, (d - 1) as nat) == node_at(t, w, e));
        } else {
            lemma_grow_new(t, y, w, e, bit, s, u, (d - 1) as nat);
            assert(t.symbol[t.count as int] == -1);
            assert(g.left[t.count as int] == -1 && g.right[t.count as int] == -1);
        }
    }
}

proof fn lemma_grow(t: Tree, y: int, w: int, e: nat, bit: nat, s: i16)
    requires
        shape_ok(t),
        paths_unique(t),
        t.count < HUFF_NODES,
        0 <= w < pow2(e),
        y == node_at(t, w, e),
        0 <= y,
        bit <= 1,
        child_of(t, y, bit) == -1,
    ensures
        shape_ok(grow(t, y, bit, s)),
        paths_unique(grow(t, y, bit, s)),
        node_at(grow(t, y, bit, s), 2 * w + bit, e + 1) == t.count,
        forall|v: int, d: nat| #[trigger] node_at(t, v, d) >= 0 ==> node_at(grow(t, y, bit, s), v, d) == node_at(t, v, d),
        forall|v: int, d: nat|
            0 <= v < pow2(d) && #[trigger] node_at(grow(t, y, bit, s), v, d) >= 0 && node_at(t, v, d) < 0 ==> d == e + 1
                && v == 2 * w + bit && node_at(grow(t, y, bit, s), v, d) == t.count,
{
    let g = grow(t, y, bit, s);
    lemma_node_at_range(t, w, e);
    lemma_grow_shape(t, y, bit, s);
    lemma_grow_old(t, y, bit, s, w, e);
    assert((2 * w + bit) / 2 == w && (2 * w + bit) % 2 == bit);
    assert forall|v: int, d: nat| #[trigger] node_at(t, v, d) >= 0 implies node_at(g, v, d) == node_at(t, v, d) by {
        lemma_grow_old(t, y, bit, s, v, d);
    }
    assert forall|v: int, d: nat|
        0 <= v < pow2(d) && #[trigger] node_at(g, v, d) >= 0 && node_at(t, v, d) < 0 implies d == e + 1 && v == 2 * w + bit
            && node_at(g, v, d) == t.count by {
        lemma_grow_new(t, y, w, e, bit, s, v, d);
    }
    assert forall|v1: int, d1: nat, v2: int, d2: nat|
        0 <= v1 < pow2(d1) && 0 <= v2 < pow2(d2) && #[trigger] node_at(g, v1, d1) == #[trigger] node_at(g, v2, d2)
            && node_at(g, v1, d1) >= 0 implies d1 == d2 && v1 == v2 by {
        lemma_node_at_range(t, v1, d1);
        lemma_node_at_range(t, v2, d2);
        if node_at(t, v1, d1) >= 0 {
            lemma_grow_old(t, y, bit, s, v1, d1);
            if node_at(t, v2, d2) >= 0 {
                lemma_grow_old(t, y, bit, s, v2, d2);
            } else {
                lemma_grow_new(t, y, w, e, bit, s, v2, d2);
            }
        } else {
            lemma_grow_new(t, y, w, e, bit, s, v1, d1);
            if node_at(t, v2, d2) >= 0 {
                lemma_grow_old(t, y, bit, s, v2, d2);
            } else {
                lemma_grow_new(t, y, w, e, bit, s, v2, d2);
            }
        }
    }
}


proof fn lemma_insert(t: Tree, node: int, c: u16, len: int, b: int, sym: int)
    requires
        shape_ok(t),
        paths_unique(t),
        0 <= b < len <= 16,
        node == node_at(t, code_prefix(c, len, (len - 1 - b) as nat), (len - 1 - b) as nat),
        0 <= node,
        insert_code(t, node, c, b, sym) is Some,
    ensures
        ({
            let t2 = insert_code(t, node, c, b, sym).unwrap();
            let z = node_at(t2, code_prefix(c, len, len as nat), len as nat);
            &&& shape_ok(t2)
            &&& paths_unique(t2)
            &&& t2.count >= t.count
            &&& z >= t.count
            &&& t2.symbol[z] == sym as i16
            &&& forall|k: int| 0 <= k < HUFF_NODES && k != z ==> #[trigger] t2.symbol[k] == t.symbol[k]
            &&& forall|v: int, d: nat| #[trigger] node_at(t, v, d) >= 0 ==> node_at(t2, v, d) == node_at(t, v, d)
            &&& forall|v: int, d: nat|
                0 <= v < pow2(d) && #[trigger] node_at(t2, v, d) >= 0 && node_at(t, v, d) < 0 ==> node_at(t2, v, d) >= t.count
        }),
    decreases b,
{
    let e = (len - 1 - b) as nat;
    let w = code_prefix(c, len, e);
    lemma_code_prefix_bound(c, len, e);
    let bit = code_bit(c, b as u32) as nat;
    lemma_code_bit(c, b as u32);
    assert(code_prefix(c, len, e + 1) == 2 * w + bit);
    assert((2 * w + bit) / 2 == w && (2 * w + bit) % 2 == bit);
    lemma_node_at_range(t, w, e);
    let edge = child_of(t, node, bit);
    assert(node_at(t, 2 * w + bit, e + 1) == edge);
    if b == 0 {
        let g = grow(t, node, bit, sym as i16);
        lemma_grow(t, node, w, e, bit, sym as i16);
        assert(insert_code(t, node, c, b, sym).unwrap() =~= g);
        assert(e + 1 == len);
    } else if edge == -1 {
        let g = grow(t, node, bit, -1i16);
        lemma_grow(t, node, w, e, bit, -1i16);
        assert(t.symbol[t.count as int] == -1);
        assert(Tree { count: t.count + 1, ..set_child(t, node, bit, t.count) } =~= g);
        assert(insert_code(t, node, c, b, sym) == insert_code(g, t.count, c, b - 1, sym));
        lemma_insert(g, t.count, c, len, b - 1, sym);
        let t2 = insert_code(g, t.count, c, b - 1, sym).unwrap();
        let z = node_at(t2, code_prefix(c, len, len as nat), len as nat);
        assert forall|k: int| 0 <= k < HUFF_NODES && k != z implies #[trigger] t2.symbol[k] == t.symbol[k] by {
            assert(t2.symbol[k] == g.symbol[k]);
        }
        assert forall|v: int, d: nat| #[trigger] node_at(t, v, d) >= 0 implies node_at(t2, v, d) == node_at(t, v, d) by {
            assert(node_at(g, v, d) == node_at(t, v, d));
        }
        assert forall|v: int, d: nat|
            0 <= v < pow2(d) && #[trigger] node_at(t2, v, d) >= 0 && node_at(t, v, d) < 0 implies node_at(t2, v, d) >= t.count by {
            if node_at(g, v, d) >= 0 {
                assert(node_at(g, v, d) == t.count);
            }
        }
    } else {
        assert(insert_code(t, node, c, b, sym) == insert_code(t, edge, c, b - 1, sym));
        lemma_insert(t, edge, c, len, b - 1, sym);
    }
}

proof fn lemma_build(lengths: Seq<u8>, t: Tree, n: int)
    requires
        shape_ok(t),
        paths_unique(t),
        labels_ok(t, lengths, n),
        0 <= n <= lengths.len(),
        lengths.len() < 32768,
        lengths_ok(lengths),
        build_from(lengths, t, n) is Some,
    ensures
        shape_ok(build_from(lengths, t, n).unwrap()),
        labels_ok(build_from(lengths, t, n).unwrap(), lengths, lengths.len() as int),
    decreases lengths.len() - n,
{
    if n == lengths.len() {
        return;
    }
    if lengths[n] == 0 {
        lemma_build(lengths, t, n + 1);
        return;
    }
    let len = lengths[n] as int;
    let c = sym_code(lengths, n);
    assert(lengths[n] <= 15);
    assert(node_at(t, code_prefix(c, len, 0), 0) == 0);
    lemma_insert(t, 0, c, len, len - 1, n);
    let t1 = insert_code(t, 0, c, len - 1, n).unwrap();
    let z = node_at(t1, code_prefix(c, len, len as nat), len as nat);
    lemma_code_prefix_bound(c, len, len as nat);
    lemma_node_at_range(t1, code_prefix(c, len, len as nat), len as nat);
    assert(z == code_node(t1, lengths, n));
    assert forall|v: int, d: nat|
        0 <= v < pow2(d) && 0 <= #[trigger] node_at(t1, v, d) && t1.symbol[node_at(t1, v, d)] >= 0 implies {
            let s = t1.symbol[node_at(t1, v, d)] as int;
            &&& 0 <= s < n + 1
            &&& lengths[s] == d
            &&& code_prefix(sym_code(lengths, s), d as int, d) == v
        } by {
        let x = node_at(t1, v, d);
        lemma_node_at_range(t1, v, d);
        if x == z {
            assert(node_at(t1, v, d) == node_at(t1, code_prefix(c, len, len as nat), len as nat));
        } else {
            assert(t1.symbol[x] == t.symbol[x]);
            if x >= t.count {
                assert(t.symbol[x] == -1);
            }
            lemma_node_at_range(t, v, d);
            assert(node_at(t, v, d) == x);
        }
    }
    assert forall|i: int| 0 <= i < n + 1 && lengths[i] > 0 implies 0 <= #[trigger] code_node(t1, lengths, i) && t1.symbol[code_node(t1, lengths, i)] == i by {
        if i < n {
            assert(0 <= code_node(t, lengths, i) && t.symbol[code_node(t, lengths, i)] == i);
            lemma_node_at_range(t, code_prefix(sym_code(lengths, i), lengths[i] as int, lengths[i] as nat), lengths[i] as nat);
            assert(code_node(t1, lengths, i) == code_node(t, lengths, i));
        }
    }
    assert(build_from(lengths, t, n) == build_from(lengths, t1, n + 1));
    lemma_build(lengths, t1, n + 1);
}


proof fn lemma_empty_paths(v: int, d: nat)
    ensures
        node_at(empty_tree(), v, d) == if d == 0 { 0int } else { -1int },
    decreases d,
{
    if d > 0 {
        lemma_empty_paths(v / 2, (d - 1) as nat);
    }
}

proof fn lemma_empty_tree_ok(lengths: Seq<u8>)
    ensures
        shape_ok(empty_tree()),
        paths_unique(empty_tree()),
        labels_ok(empty_tree(), lengths, 0),
{
    let t = empty_tree();
    assert forall|v1: int, d1: nat, v2: int, d2: nat|
        0 <= v1 < pow2(d1) && 0 <= v2 < pow2(d2) && #[trigger] node_at(t, v1, d1) == #[trigger] node_at(t, v2, d2)
            && node_at(t, v1, d1) >= 0 implies d1 == d2 && v1 == v2 by {
        lemma_empty_paths(v1, d1);
        lemma_empty_paths(v2, d2);
        vstd::arithmetic::power2::lemma2_to64();
    }
    assert forall|v: int, d: nat| 0 <= v < pow2(d) && 0 <= #[trigger] node_at(t, v, d) implies t.symbol[node_at(t, v, d)] < 0 by {
        lemma_empty_paths(v, d);
    }
}

/// Along the code of symbol `n`, every node before the last stands for no symbol and
/// the last stands for `n`: walking from the node after `i` bits of the code reads the
/// rest of it and gives `n`.
proof fn lemma_walk_code(t: Tree, lengths: Seq<u8>, data: Seq<u8>, p: int, n: int, i: nat)
    requires
        shape_ok(t),
        labels_ok(t, lengths, lengths.len() as int),
        prefix_free(lengths),
        lengths.len() < 32768,
        lengths_ok(lengths),
        0 <= n < lengths.len(),
        lengths[n] > 0,
        i < lengths[n],
        0 <= p,
        p + lengths[n] <= data.len() * 8,
        forall|k: int| 0 <= k < lengths[n] ==> #[trigger] bit_at(data, p + k) == code_bit(sym_code(lengths, n), (lengths[n] - 1 - k) as u32),
    ensures
        walk(t, data, p + i, node_at(t, code_prefix(sym_code(lengths, n), lengths[n] as int, i), i)) == Some(
            (n as u32, p + lengths[n]),
        ),
    decreases lengths[n] - i,
{
    let len = lengths[n] as int;
    let c = sym_code(lengths, n);
    let x = node_at(t, code_prefix(c, len, i), i);
    let v1 = code_prefix(c, len, i + 1);
    let y = node_at(t, v1, i + 1);
    assert(0 <= code_node(t, lengths, n) && t.symbol[code_node(t, lengths, n)] == n);
    lemma_path_prefixes(t, c, len, (i + 1) as nat, len as nat);
    lemma_node_at_range(t, v1, i + 1);
    lemma_code_prefix_bound(c, len, i + 1);
    lemma_code_bit(c, (len - 1 - i) as u32);
    assert(bit_at(data, p + i) == code_bit(c, (len - 1 - i) as u32));
    assert(v1 == 2 * code_prefix(c, len, i) + code_bit(c, (len - 1 - i) as u32));
    assert(v1 / 2 == code_prefix(c, len, i) && v1 % 2 == code_bit(c, (len - 1 - i) as u32));
    assert(y == child_of(t, x, bit_at(data, p + i)));
    if i + 1 < len {
        if t.symbol[y] >= 0 {
            let s = t.symbol[y] as int;
            assert(0 <= s < lengths.len() && lengths[s] == i + 1 && code_prefix(sym_code(lengths, s), (i + 1) as int, (i + 1) as nat) == v1);
            assert(code_prefix(sym_code(lengths, n), lengths[n] as int, lengths[s] as nat) != code_prefix(
                sym_code(lengths, s),
                lengths[s] as int,
                lengths[s] as nat,
            ));
        }
        lemma_walk_code(t, lengths, data, p, n, i + 1);
    } else {
        assert(y == code_node(t, lengths, n));
    }
}

/// The nodes along a path that leads somewhere are all present.
proof fn lemma_path_prefixes(t: Tree, c: u16, len: int, d: nat, d2: nat)
    requires
        shape_ok(t),
        d <= d2,
        node_at(t, code_prefix(c, len, d2), d2) >= 0,
    ensures
        node_at(t, code_prefix(c, len, d), d) >= 0,
    decreases d2 - d,
{
    if d < d2 {
        lemma_node_at_range(t, code_prefix(c, len, d2), d2);
        lemma_code_bit(c, (len - d2) as u32);
        assert(code_prefix(c, len, d2) / 2 == code_prefix(c, len, (d2 - 1) as nat));
        lemma_path_prefixes(t, c, len, d, (d2 - 1) as nat);
    }
}

/// Decoding a canonical code that no other code starts: in the code tree built for
/// the code lengths, the bits of the code of symbol `n` (most significant first) lead
/// to `n`, and decoding takes exactly those bits.
pub proof fn lemma_decode_prefix_free_code(lengths: Seq<u8>, data: Seq<u8>, p: int, n: int)
    requires
        built_tree(lengths) is Some,
        prefix_free(lengths),
        lengths.len() < 32768,
        0 <= n < lengths.len(),
        lengths[n] > 0,
        0 <= p,
        p + lengths[n] <= data.len() * 8,
        forall|k: int| 0 <= k < lengths[n] ==> #[trigger] bit_at(data, p + k) == code_bit(sym_code(lengths, n), (lengths[n] - 1 - k) as u32),
    ensures
        walk(built_tree(lengths).unwrap(), data, p, 0) == Some((n as u32, p + lengths[n])),
{
    lemma_empty_tree_ok(lengths);
    lemma_build(lengths, empty_tree(), 0);
    let t = built_tree(lengths).unwrap();
    lemma_walk_code(t, lengths, data, p, n, 0);
}


/// The Kraft sum of the first `upto` code lengths in units of 2^-15: each used length
/// `l` adds 2^(15 - l).
pub open spec fn kraft_sum(lengths: Seq<u8>, upto: int) -> nat
    decreases upto,
{
    if upto <= 0 {
        0
    } else {
        kraft_sum(lengths, upto - 1) + if lengths[upto - 1] != 0 {
            pow2((15 - lengths[upto - 1]) as nat)
        } else {
            0
        }
    }
}

/// The code lengths meet the Kraft inequality: the sum of 2^-l over the used lengths
/// l is at most 1.
pub open spec fn kraft_ok(lengths: Seq<u8>) -> bool {
    kraft_sum(lengths, lengths.len() as int) <= pow2(15)
}

/// The Kraft sum of the first `upto` lengths, taken length by length up to `m`.
spec fn by_length(lengths: Seq<u8>, upto: int, m: int) -> int
    decreases m,
{
    if m <= 0 {
        0
    } else {
        by_length(lengths, upto, m - 1) + count_len(lengths, upto, m) * pow2((15 - m) as nat)
    }
}

/// The codes of lengths up to `m` fill this many of the `2^m` codes of length `m`
/// (each shorter code standing for all the codes it starts).
spec fn code_space(lengths: Seq<u8>, m: int) -> int
    decreases m,
{
    if m <= 0 {
        0
    } else {
        2 * code_space(lengths, m - 1) + count_len(lengths, lengths.len() as int, m)
    }
}

proof fn lemma_code_bit_div(c: u16, b: u16)
    requires
        b < 16,
    ensures
        code_bit(c, b as u32) == (c as nat / pow2(b as nat)) % 2,
{
    vstd::bits::lemma_u16_shr_is_div(c, b);
    assert((c >> (b as u32)) == (c >> b)) by (bit_vector);
    let x = c >> b;
    assert((x & 1u16) == x % 2) by (bit_vector);
}

proof fn lemma_count_len_grows(lengths: Seq<u8>, a: int, b: int, len: int)
    requires
        0 <= a <= b,
    ensures
        count_len(lengths, a, len) <= count_len(lengths, b, len),
    decreases b - a,
{
    if a < b {
        lemma_count_len_grows(lengths, a, b - 1, len);
    }
}

proof fn lemma_by_length_step(lengths: Seq<u8>, upto: int, m: int)
    requires
        0 <= upto < lengths.len(),
        0 <= m <= 15,
    ensures
        by_length(lengths, upto + 1, m) == by_length(lengths, upto, m) + if 1 <= lengths[upto] <= m {
            pow2((15 - lengths[upto]) as nat) as int
        } else {
            0
        },
    decreases m,
{
    if m > 0 {
        lemma_by_length_step(lengths, upto, m - 1);
        let a = count_len(lengths, upto, m) as int;
        let b = count_len(lengths, upto + 1, m) as int;
        let pm = pow2((15 - m) as nat) as int;
        assert(b == a + if lengths[upto] == m { 1int } else { 0int });
        if lengths[upto] == m {
            assert(b * pm == a * pm + pm) by (nonlinear_arith)
                requires
                    b == a + 1,
            ;
        }
    }
}

proof fn lemma_by_length_empty(lengths: Seq<u8>, m: int)
    ensures
        by_length(lengths, 0, m) == 0,
    decreases m,
{
    if m > 0 {
        lemma_by_length_empty(lengths, m - 1);
        assert(count_len(lengths, 0, m) == 0);
        assert(0 * pow2((15 - m) as nat) == 0);
    }
}

proof fn lemma_kraft_by_length(lengths: Seq<u8>, upto: int)
    requires
        lengths_ok(lengths),
        0 <= upto <= lengths.len(),
    ensures
        kraft_sum(lengths, upto) == by_length(lengths, upto, 15),
    decreases upto,
{
    if upto == 0 {
        lemma_by_length_empty(lengths, 15);
    } else {
        lemma_kraft_by_length(lengths, upto - 1);
        lemma_by_length_step(lengths, upto - 1, 15);
        assert(lengths[upto - 1] <= 15);
    }
}

proof fn lemma_by_length_grows(lengths: Seq<u8>, upto: int, m: int, m2: int)
    requires
        m <= m2,
    ensures
        by_length(lengths, upto, m) <= by_length(lengths, upto, m2),
    decreases m2 - m,
{
    if m < m2 {
        lemma_by_length_grows(lengths, upto, m, m2 - 1);
        if m2 > 0 {
            lemma_pow2_pos((15 - m2) as nat);
            assert(count_len(lengths, upto, m2) * pow2((15 - m2) as nat) >= 0) by (nonlinear_arith)
                requires
                    pow2((15 - m2) as nat) > 0,
            ;
        }
    }
}

proof fn lemma_code_space_weight(lengths: Seq<u8>, m: int)
    requires
        0 <= m <= 15,
    ensures
        code_space(lengths, m) * pow2((15 - m) as nat) == by_length(lengths, lengths.len() as int, m),
    decreases m,
{
    if m > 0 {
        lemma_code_space_weight(lengths, m - 1);
        lemma_pow2_unfold((16 - m) as nat);
        let p = pow2((15 - m) as nat);
        let a = code_space(lengths, m - 1);
        let b = count_len(lengths, lengths.len() as int, m) as int;
        assert(pow2((15 - (m - 1)) as nat) == 2 * p);
        assert((2 * a + b) * p == a * (2 * p) + b * p) by (nonlinear_arith);
    }
}

/// Under the Kraft inequality the codes of lengths up to `m` fit in `m` bits.
proof fn lemma_code_space_fits(lengths: Seq<u8>, m: int)
    requires
        lengths_ok(lengths),
        kraft_ok(lengths),
        0 <= m <= 15,
    ensures
        0 <= code_space(lengths, m) <= pow2(m as nat),
    decreases m,
{
    if m > 0 {
        lemma_code_space_fits(lengths, m - 1);
    }
    lemma_code_space_weight(lengths, m);
    lemma_by_length_grows(lengths, lengths.len() as int, m, 15);
    lemma_kraft_by_length(lengths, lengths.len() as int);
    lemma_pow2_adds(m as nat, (15 - m) as nat);
    lemma_pow2_pos((15 - m) as nat);
    let p = pow2((15 - m) as nat);
    let cs = code_space(lengths, m);
    let q = pow2(m as nat);
    assert(cs * p <= q * p);
    assert(cs <= q) by (nonlinear_arith)
        requires
            cs * p <= q * p,
            p > 0,
    ;
}

proof fn lemma_code_space_doubles(lengths: Seq<u8>, k: int, m: int)
    requires
        0 <= k <= m,
    ensures
        code_space(lengths, m) >= pow2((m - k) as nat) * code_space(lengths, k),
    decreases m - k,
{
    if m == k {
        vstd::arithmetic::power2::lemma2_to64();
    } else {
        lemma_code_space_doubles(lengths, k, m - 1);
        lemma_pow2_unfold((m - k) as nat);
        let a = code_space(lengths, k);
        let pp = pow2((m - 1 - k) as nat);
        assert(code_space(lengths, m - 1) >= pp * a);
        assert(2 * (pp * a) == (2 * pp) * a) by (nonlinear_arith);
    }
}

/// Without wrapping, the first code of each length is twice the space the shorter
/// codes fill.
proof fn lemma_first_code_value(lengths: Seq<u8>, m: int)
    requires
        lengths_ok(lengths),
        kraft_ok(lengths),
        lengths.len() < 32768,
        1 <= m <= 15,
    ensures
        first_code(lengths, m) as int == 2 * code_space(lengths, m - 1),
    decreases m,
{
    let prev = first_code(lengths, m - 1);
    let cnt = count_len(lengths, lengths.len() as int, m - 1);
    lemma_count_len_bound(lengths, lengths.len() as int, m - 1);
    if m > 1 {
        lemma_first_code_value(lengths, m - 1);
    } else {
        assert(cnt == 0) by {
            lemma_count_len_zero(lengths, lengths.len() as int);
        }
    }
    lemma_code_space_fits(lengths, m - 1);
    assert(pow2((m - 1) as nat) <= pow2(14)) by {
        if m - 1 < 14 {
            lemma_pow2_strictly_increases((m - 1) as nat, 14);
        }
    }
    assert(pow2(14) == 0x4000) by {
        vstd::arithmetic::power2::lemma2_to64();
    }
    let x = wrapping_add(prev, cnt as u16);
    assert(x as int == code_space(lengths, m - 1));
    assert(x <= 0x4000u16 ==> (x << (1u32 % 16)) == 2 * x) by (bit_vector);
}

proof fn lemma_count_len_zero(lengths: Seq<u8>, upto: int)
    ensures
        count_len(lengths, upto, 0) == 0,
    decreases upto,
{
    if upto > 0 {
        lemma_count_len_zero(lengths, upto - 1);
    }
}

/// The canonical code of a symbol of length `l`: the first code of that length plus
/// the earlier symbols of that length, below the space the codes up to `l` fill.
proof fn lemma_sym_code_value(lengths: Seq<u8>, n: int)
    requires
        lengths_ok(lengths),
        kraft_ok(lengths),
        lengths.len() < 32768,
        0 <= n < lengths.len(),
        lengths[n] > 0,
    ensures
        sym_code(lengths, n) as int == 2 * code_space(lengths, lengths[n] - 1) + count_len(lengths, n, lengths[n] as int),
        (sym_code(lengths, n) as int) < code_space(lengths, lengths[n] as int),
        (sym_code(lengths, n) as int) < pow2(lengths[n] as nat),
{
    let l = lengths[n] as int;
    assert(l <= 15);
    lemma_first_code_value(lengths, l);
    lemma_count_len_grows(lengths, n + 1, lengths.len() as int, l);
    lemma_code_space_fits(lengths, l);
    assert(pow2(l as nat) <= pow2(15)) by {
        if l < 15 {
            lemma_pow2_strictly_increases(l as nat, 15);
        }
    }
    assert(pow2(15) == 0x8000) by {
        vstd::arithmetic::power2::lemma2_to64();
    }
}

/// The first `d` bits of a `len`-bit code are the code divided by 2^(len - d).
proof fn lemma_code_prefix_div(c: u16, len: int, d: nat)
    requires
        (c as int) < pow2(len as nat),
        d <= len <= 15,
    ensures
        code_prefix(c, len, d) == c as int / (pow2((len - d) as nat) as int),
    decreases d,
{
    lemma_pow2_pos((len - d) as nat);
    if d == 0 {
        let pl = pow2(len as nat) as int;
        assert(c as int / pl == 0) by (nonlinear_arith)
            requires
                0 <= c < pl,
        ;
    } else {
        lemma_code_prefix_div(c, len, (d - 1) as nat);
        let k = (len - d) as nat;
        lemma_code_bit_div(c, k as u16);
        assert((k as u16) as u32 == (len - d) as u32);
        lemma_pow2_pos(k);
        lemma_pow2_unfold(k + 1);
        let pk = pow2(k) as int;
        assert((len - (d - 1)) as nat == k + 1);
        assert(pow2(k + 1) as int == pk * 2);
        lemma_div_denominator(c as int, pk, 2);
        let q = c as int / pk;
        assert(c as int / (pk * 2) == q / 2);
        assert(code_prefix(c, len, (d - 1) as nat) == q / 2);
        assert(code_bit(c, (len - d) as u32) == q % 2);
        lemma_fundamental_div_mod(q, 2);
    }
}

/// Under the Kraft inequality the canonical codes are prefix-free.
pub proof fn lemma_kraft_prefix_free(lengths: Seq<u8>)
    requires
        lengths_ok(lengths),
        kraft_ok(lengths),
        lengths.len() < 32768,
    ensures
        prefix_free(lengths),
{
    assert forall|i: int, j: int|
        0 <= i < lengths.len() && 0 <= j < lengths.len() && i != j && 0 < lengths[i] <= lengths[j] implies #[trigger] code_prefix(
            sym_code(lengths, j),
            lengths[j] as int,
            lengths[i] as nat,
        ) != #[trigger] code_prefix(sym_code(lengths, i), lengths[i] as int, lengths[i] as nat) by {
        let li = lengths[i] as int;
        let lj = lengths[j] as int;
        assert(li <= 15 && lj <= 15);
        let ci = sym_code(lengths, i);
        let cj = sym_code(lengths, j);
        lemma_sym_code_value(lengths, i);
        lemma_sym_code_value(lengths, j);
        lemma_code_prefix_div(ci, li, li as nat);
        lemma_code_prefix_div(cj, lj, li as nat);
        assert(pow2(0) == 1) by {
            vstd::arithmetic::power2::lemma2_to64();
        }
        let pi = code_prefix(ci, li, li as nat);
        let pj = code_prefix(cj, lj, li as nat);
        assert((li - li) as nat == 0nat);
        assert(pi == ci as int / (pow2(0) as int));
        assert(ci as int / 1 == ci as int);
        assert(pi == ci as int);
        if li == lj {
            assert((lj - li) as nat == 0nat);
            assert(pj == cj as int / (pow2(0) as int));
            assert(cj as int / 1 == cj as int);
            assert(pj == cj as int);
            if i < j {
                lemma_count_len_grows(lengths, i + 1, j, li);
                assert(count_len(lengths, i + 1, li) == count_len(lengths, i, li) + 1);
            } else {
                lemma_count_len_grows(lengths, j + 1, i, li);
                assert(count_len(lengths, j + 1, li) == count_len(lengths, j, li) + 1);
            }
        } else {
            let k = pow2((lj - li) as nat);
            lemma_pow2_pos((lj - li) as nat);
            lemma_code_space_doubles(lengths, li, lj - 1);
            lemma_pow2_unfold((lj - li) as nat);
            let a = code_space(lengths, li);
            let pp = pow2((lj - 1 - li) as nat);
            assert(cj as int >= 2 * (pp * a));
            assert(2 * (pp * a) == k * a) by (nonlinear_arith)
                requires
                    k == 2 * pp,
            ;
            lemma_div_is_ordered(k * a, cj as int, k as int);
            vstd::arithmetic::div_mod::lemma_div_by_multiple(a, k as int);
            assert(a * k == k * a) by (nonlinear_arith);
            assert(pj == cj as int / (k as int));
            assert(pj >= a);
            assert(ci < a);
        }
    }
}

/// Decoding a canonical code: when the code lengths (each at most 15) meet the Kraft
/// inequality, the bits of the code of symbol `n`, most significant first, lead
/// through the code tree built for them to `n`, and decoding takes exactly those bits.
pub proof fn lemma_decode_canonical_code(lengths: Seq<u8>, data: Seq<u8>, p: int, n: int)
    requires
        built_tree(lengths) is Some,
        kraft_ok(lengths),
        lengths.len() < 32768,
        0 <= n < lengths.len(),
        lengths[n] > 0,
        0 <= p,
        p + lengths[n] <= data.len() * 8,
        forall|k: int| 0 <= k < lengths[n] ==> #[trigger] bit_at(data, p + k) == code_bit(sym_code(lengths, n), (lengths[n] - 1 - k) as u32),
    ensures
        walk(built_tree(lengths).unwrap(), data, p, 0) == Some((n as u32, p + lengths[n])),
{
    lemma_kraft_prefix_free(lengths);
    lemma_decode_prefix_free_code(lengths, data, p, n);
}


/// How many of the first `u` fixed literal/length symbols have code length `l`.
spec fn fixed_count(l: int, u: int) -> int {
    if l == 8 {
        (if u < 144 { u } else { 144 }) + (if u > 280 { u - 280 } else { 0 })
    } else if l == 9 {
        if u < 144 { 0 } else if u < 256 { u - 144 } else { 112 }
    } else if l == 7 {
        if u < 256 { 0 } else if u < 280 { u - 256 } else { 24 }
    } else {
        0
    }
}

proof fn lemma_fixed_counts(u: int, l: int)
    requires
        0 <= u <= 288,
    ensures
        count_len(fixed_lit_lengths(), u, l) == fixed_count(l, u),
    decreases u,
{
    if u > 0 {
        lemma_fixed_counts(u - 1, l);
    }
}

proof fn lemma_dist_counts(u: int, l: int)
    requires
        0 <= u <= 32,
    ensures
        count_len(fixed_dist_lengths(), u, l) == if l == 5 { u } else { 0 },
    decreases u,
{
    if u > 0 {
        lemma_dist_counts(u - 1, l);
    }
}

/// The fixed codes (RFC 1951, 3.2.6), over every symbol: literal/length symbols 0 to
/// 143 have the 8-bit codes 0x30 to 0xBF, 144 to 255 the 9-bit codes 0x190 to 0x1FF,
/// 256 to 279 the 7-bit codes 0 to 0x17, and 280 to 287 the 8-bit codes 0xC0 to 0xC7;
/// the 32 distance symbols have the 5-bit codes 0 to 31.
pub proof fn lemma_fixed_codes(s: int, ds: int)
    requires
        0 <= s < 288,
        0 <= ds < 32,
    ensures
        fixed_lit_lengths()[s] == if s < 144 { 8int } else if s < 256 { 9int } else if s < 280 { 7int } else { 8int },
        sym_code(fixed_lit_lengths(), s) == if s < 144 {
            0x30 + s
        } else if s < 256 {
            0x190 + (s - 144)
        } else if s < 280 {
            s - 256
        } else {
            0xC0 + (s - 280)
        },
        fixed_dist_lengths()[ds] == 5,
        sym_code(fixed_dist_lengths(), ds) == ds,
{
    let lit = fixed_lit_lengths();
    let dist = fixed_dist_lengths();
    assert forall|l: int| #![trigger count_len(lit, 288, l)] 0 <= l <= 9 implies count_len(lit, 288, l) == fixed_count(l, 288) by {
        lemma_fixed_counts(288, l);
    }
    lemma_fixed_counts(s, lit[s] as int);
    lemma_dist_counts(ds, 5);
    assert forall|l: int| #![trigger count_len(dist, 32, l)] 0 <= l <= 5 implies count_len(dist, 32, l) == if l == 5 { 32int } else { 0 } by {
        lemma_dist_counts(32, l);
    }
    assert((0u16 << (1u32 % 16u32)) == 0u16) by (bit_vector);
    assert((24u16 << (1u32 % 16u32)) == 48u16) by (bit_vector);
    assert((200u16 << (1u32 % 16u32)) == 400u16) by (bit_vector);
    assert(first_code(lit, 0) == 0);
    assert(first_code(lit, 1) == 0);
    assert(first_code(lit, 2) == 0);
    assert(first_code(lit, 3) == 0);
    assert(first_code(lit, 4) == 0);
    assert(first_code(lit, 5) == 0);
    assert(first_code(lit, 6) == 0);
    assert(first_code(lit, 7) == 0);
    assert(wrapping_add(0u16, 24u16) == 24u16);
    assert(first_code(lit, 8) == 48);
    assert(wrapping_add(48u16, 152u16) == 200u16);
    assert(first_code(lit, 9) == 400);
    assert(first_code(dist, 0) == 0);
    assert(first_code(dist, 1) == 0);
    assert(first_code(dist, 2) == 0);
    assert(first_code(dist, 3) == 0);
    assert(first_code(dist, 4) == 0);
    assert(first_code(dist, 5) == 0);
}

} // verus!
