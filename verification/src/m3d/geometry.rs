//! The geometry of a mesh, and what welding its corners means.
//!
//! A mesh block stores polygons, each corner of which names a position, a
//! normal and a colour. Welding merges the corners with the same attribute
//! tuple into one vertex and keeps, for each corner slot, the id of the
//! vertex that stands for it.

use vstd::prelude::*;

verus! {

/// One vertex of a decoded mesh.
#[derive(Clone, Copy, Debug, PartialEq, Eq)]
pub struct Vertex {
    pub pos: [i8; 3],
    pub color: u8,
    pub normal: [i8; 3],
}

/// The vertices of a mesh and, for a welded mesh, one index per corner slot.
/// A flat mesh has one vertex per corner and no indices.
#[derive(Clone, Debug, Default)]
pub struct Geometry {
    pub vertices: Vec<Vertex>,
    pub indices: Vec<u16>,
}

/// The attribute tuple of a polygon corner as the stream stores it: the
/// position, the four raw bytes of the normal and the two colour words.
/// Corners are ordered by this tuple, position first, each part
/// lexicographically.
#[derive(Clone, Copy, Debug, PartialEq, Eq)]
pub struct Attributes {
    pub pos: [i8; 3],
    pub normal: [u8; 4],
    pub color: [u32; 2],
}

/// A polygon corner: its attribute tuple and the absolute slot that it
/// fills, which is three times the polygon's index plus the corner's offset.
#[derive(Clone, Copy, Debug, PartialEq, Eq)]
pub struct Corner {
    pub slot: usize,
    pub attributes: Attributes,
}

/// The byte `b` read as a signed number.
pub open spec fn signed_byte(b: u8) -> i8 {
    if b >= 0x80 {
        (b - 0x100) as i8
    } else {
        b as i8
    }
}

/// The vertex made from an attribute tuple. Of the normal the first three
/// bytes are kept, read as signed numbers. Of the colour only the low byte
/// of the first word is kept: the second word takes part in the order of
/// the tuples and in telling them apart, and is then dropped.
pub open spec fn to_vertex(a: Attributes) -> Vertex {
    Vertex {
        pos: a.pos,
        color: (a.color[0] % 0x100) as u8,
        normal: [signed_byte(a.normal[0]), signed_byte(a.normal[1]), signed_byte(a.normal[2])],
    }
}

/// The nine components of an attribute tuple in comparison order.
pub open spec fn components(a: Attributes) -> Seq<int> {
    seq![
        a.pos[0] as int,
        a.pos[1] as int,
        a.pos[2] as int,
        a.normal[0] as int,
        a.normal[1] as int,
        a.normal[2] as int,
        a.normal[3] as int,
        a.color[0] as int,
        a.color[1] as int,
    ]
}

/// Lexicographic order on two component lists from position `k` on.
pub open spec fn lex_less(x: Seq<int>, y: Seq<int>, k: int) -> bool
    decreases x.len() - k,
{
    if k >= x.len() || k < 0 {
        false
    } else if x[k] != y[k] {
        x[k] < y[k]
    } else {
        lex_less(x, y, k + 1)
    }
}

/// Whether `a` comes strictly before `b` in the order of attribute tuples.
pub open spec fn precedes(a: Attributes, b: Attributes) -> bool {
    lex_less(components(a), components(b), 0)
}

/// A number that orders attribute tuples as `precedes` does: the components
/// are the digits of a mixed-radix numeral.
#[verifier::opaque]
pub open spec fn rank(a: Attributes) -> int {
    ((((((((a.pos[0] + 0x80) * 0x100 + (a.pos[1] + 0x80)) * 0x100 + (a.pos[2] + 0x80)) * 0x100
        + a.normal[0]) * 0x100 + a.normal[1]) * 0x100 + a.normal[2]) * 0x100 + a.normal[3])
        * 0x1_0000_0000 + a.color[0]) * 0x1_0000_0000 + a.color[1]
}

/// A numeral with `lo` as its last digit in base `base` and `hi` before it.
pub open spec fn pack(hi: int, lo: int, base: int) -> int {
    hi * base + lo
}

/// The leading digits of the rank of `a`: its first `k + 1` components.
pub open spec fn rank_prefix(a: Attributes, k: int) -> int
    decreases k,
{
    if k <= 0 {
        a.pos[0] + 0x80
    } else if k <= 2 {
        pack(rank_prefix(a, k - 1), components(a)[k] + 0x80, 0x100)
    } else if k <= 6 {
        pack(rank_prefix(a, k - 1), components(a)[k], 0x100)
    } else {
        pack(rank_prefix(a, k - 1), components(a)[k], 0x1_0000_0000)
    }
}

proof fn lemma_pack(h1: int, l1: int, h2: int, l2: int, base: int)
    requires
        base > 0,
        0 <= l1 < base,
        0 <= l2 < base,
    ensures
        pack(h1, l1, base) == pack(h2, l2, base) <==> h1 == h2 && l1 == l2,
        pack(h1, l1, base) < pack(h2, l2, base) <==> h1 < h2 || (h1 == h2 && l1 < l2),
        h1 >= 0 ==> pack(h1, l1, base) >= 0,
{
    assert(h1 < h2 ==> h1 * base + base <= h2 * base) by (nonlinear_arith)
        requires
            base > 0,
    ;
    assert(h2 < h1 ==> h2 * base + base <= h1 * base) by (nonlinear_arith)
        requires
            base > 0,
    ;
    assert(h1 >= 0 ==> h1 * base >= 0) by (nonlinear_arith)
        requires
            base > 0,
    ;
}

proof fn lemma_rank_unfold(a: Attributes)
    ensures
        rank(a) == rank_prefix(a, 8),
{
    reveal(rank);
    reveal_with_fuel(rank_prefix, 10);
}

proof fn lemma_prefix_step(a: Attributes, b: Attributes, k: int)
    requires
        1 <= k <= 8,
    ensures
        rank_prefix(a, k) == rank_prefix(b, k) <==> rank_prefix(a, k - 1) == rank_prefix(b, k - 1)
            && components(a)[k] == components(b)[k],
        rank_prefix(a, k) < rank_prefix(b, k) <==> rank_prefix(a, k - 1) < rank_prefix(b, k - 1)
            || (rank_prefix(a, k - 1) == rank_prefix(b, k - 1) && components(a)[k] < components(
            b,
        )[k]),
        rank_prefix(a, k - 1) >= 0 ==> rank_prefix(a, k) >= 0,
{
    let ha = rank_prefix(a, k - 1);
    let hb = rank_prefix(b, k - 1);
    let ca = components(a)[k];
    let cb = components(b)[k];
    if k <= 2 {
        lemma_pack(ha, ca + 0x80, hb, cb + 0x80, 0x100);
    } else if k <= 6 {
        lemma_pack(ha, ca, hb, cb, 0x100);
    } else {
        lemma_pack(ha, ca, hb, cb, 0x1_0000_0000);
    }
}

/// The leading digits of two ranks compare as the leading components do.
proof fn lemma_prefix_orders(a: Attributes, b: Attributes, k: int)
    requires
        0 <= k <= 8,
    ensures
        rank_prefix(a, k) == rank_prefix(b, k) <==> (forall|j: int|
            0 <= j <= k ==> components(a)[j] == components(b)[j]),
        rank_prefix(a, k) < rank_prefix(b, k) <==> (exists|m: int|
            0 <= m <= k && components(a)[m] < components(b)[m] && (forall|j: int|
                0 <= j < m ==> components(a)[j] == components(b)[j])),
        rank_prefix(a, k) >= 0,
    decreases k,
{
    let x = components(a);
    let y = components(b);
    if k == 0 {
        if x[0] < y[0] {
            assert(0 <= 0 <= k && x[0] < y[0] && (forall|j: int| 0 <= j < 0 ==> x[j] == y[j]));
        }
    } else {
        lemma_prefix_orders(a, b, k - 1);
        lemma_prefix_step(a, b, k);
        if rank_prefix(a, k) < rank_prefix(b, k) {
            if rank_prefix(a, k - 1) < rank_prefix(b, k - 1) {
                let m = choose|m: int|
                    0 <= m <= k - 1 && x[m] < y[m] && (forall|j: int|
                        0 <= j < m ==> x[j] == y[j]);
                assert(0 <= m <= k && x[m] < y[m] && (forall|j: int| 0 <= j < m ==> x[j] == y[j]));
            } else {
                assert(0 <= k <= k && x[k] < y[k] && (forall|j: int| 0 <= j < k ==> x[j] == y[j]));
            }
        }
        if exists|m: int|
            0 <= m <= k && x[m] < y[m] && (forall|j: int| 0 <= j < m ==> x[j] == y[j]) {
            let m = choose|m: int|
                0 <= m <= k && x[m] < y[m] && (forall|j: int| 0 <= j < m ==> x[j] == y[j]);
            if m < k {
                assert(0 <= m <= k - 1 && x[m] < y[m] && (forall|j: int|
                    0 <= j < m ==> x[j] == y[j]));
            }
        }
    }
}

/// `lex_less` from `k` on finds the first place where two lists differ.
proof fn lemma_lex_less(x: Seq<int>, y: Seq<int>, k: int)
    requires
        0 <= k <= x.len(),
    ensures
        lex_less(x, y, k) <==> (exists|m: int|
            k <= m < x.len() && x[m] < y[m] && (forall|j: int| k <= j < m ==> x[j] == y[j])),
    decreases x.len() - k,
{
    if k < x.len() {
        lemma_lex_less(x, y, k + 1);
        if x[k] != y[k] {
            if x[k] < y[k] {
                assert(k <= k < x.len() && x[k] < y[k] && (forall|j: int|
                    k <= j < k ==> x[j] == y[j]));
            }
        } else {
            if lex_less(x, y, k + 1) {
                let m = choose|m: int|
                    k + 1 <= m < x.len() && x[m] < y[m] && (forall|j: int|
                        k + 1 <= j < m ==> x[j] == y[j]);
                assert(k <= m < x.len() && x[m] < y[m] && (forall|j: int|
                    k <= j < m ==> x[j] == y[j]));
            }
            if exists|m: int|
                k <= m < x.len() && x[m] < y[m] && (forall|j: int| k <= j < m ==> x[j] == y[j]) {
                let m = choose|m: int|
                    k <= m < x.len() && x[m] < y[m] && (forall|j: int|
                        k <= j < m ==> x[j] == y[j]);
                assert(k + 1 <= m < x.len() && x[m] < y[m] && (forall|j: int|
                    k + 1 <= j < m ==> x[j] == y[j]));
            }
        }
    }
}

/// Ranks compare as attribute tuples do.
pub proof fn lemma_rank_orders(a: Attributes, b: Attributes)
    ensures
        precedes(a, b) <==> rank(a) < rank(b),
        0 <= rank(a),
{
    lemma_rank_unfold(a);
    lemma_rank_unfold(b);
    lemma_prefix_orders(a, b, 8);
    lemma_lex_less(components(a), components(b), 0);
}

/// Two attribute tuples of one rank are the same tuple.
pub proof fn lemma_rank_injective(a: Attributes, b: Attributes)
    requires
        rank(a) == rank(b),
    ensures
        a == b,
{
    lemma_rank_unfold(a);
    lemma_rank_unfold(b);
    lemma_prefix_orders(a, b, 8);
    let x = components(a);
    let y = components(b);
    assert(x[0] == y[0] && x[1] == y[1] && x[2] == y[2]);
    assert(x[3] == y[3] && x[4] == y[4] && x[5] == y[5] && x[6] == y[6]);
    assert(x[7] == y[7] && x[8] == y[8]);
    assert(a.pos =~= b.pos);
    assert(a.normal =~= b.normal);
    assert(a.color =~= b.color);
}

/// Ranks stand for the order of attribute tuples wherever it is used.
pub broadcast proof fn lemma_precedes_by_rank(a: Attributes, b: Attributes)
    ensures
        #[trigger] precedes(a, b) <==> rank(a) < rank(b),
{
    lemma_rank_orders(a, b);
}

/// Attribute tuples in strictly ascending order.
pub open spec fn strictly_ascending(u: Seq<Attributes>) -> bool {
    forall|i: int, j: int| 0 <= i < j < u.len() ==> precedes(#[trigger] u[i], #[trigger] u[j])
}

/// Whether some corner of the list carries the attribute tuple `a`.
pub open spec fn has_attributes(corners: Seq<Corner>, a: Attributes) -> bool {
    exists|i: int| 0 <= i < corners.len() && (#[trigger] corners[i]).attributes == a
}

/// Whether `u` lists each attribute tuple of `corners` exactly once, in
/// ascending order.
pub open spec fn is_distinct_sorted(u: Seq<Attributes>, corners: Seq<Corner>) -> bool {
    &&& strictly_ascending(u)
    &&& forall|a: Attributes| #[trigger] u.contains(a) <==> has_attributes(corners, a)
}

/// The attribute tuples of `corners`, each once, in ascending order.
pub open spec fn distinct_sorted(corners: Seq<Corner>) -> Seq<Attributes> {
    choose|u: Seq<Attributes>| is_distinct_sorted(u, corners)
}

/// Whether some corner of the list fills `slot`.
pub open spec fn slot_used(corners: Seq<Corner>, slot: int) -> bool {
    exists|i: int| 0 <= i < corners.len() && (#[trigger] corners[i]).slot == slot
}

/// Whether `a` is the greatest attribute tuple among the corners that fill
/// `slot`.
pub open spec fn is_slot_top(corners: Seq<Corner>, slot: int, a: Attributes) -> bool {
    &&& exists|i: int|
        0 <= i < corners.len() && (#[trigger] corners[i]).slot == slot && corners[i].attributes
            == a
    &&& forall|j: int|
        0 <= j < corners.len() && (#[trigger] corners[j]).slot == slot ==> !precedes(
            a,
            corners[j].attributes,
        )
}

/// The greatest attribute tuple among the corners that fill `slot`. A slot
/// is shared where a polygon has four corners: its last corner has the slot
/// of the next polygon's first.
pub open spec fn slot_top(corners: Seq<Corner>, slot: int) -> Attributes {
    choose|a: Attributes| is_slot_top(corners, slot, a)
}

/// The place of the attribute tuple `a` among the distinct tuples of
/// `corners`: the number of distinct tuples that come before it.
pub open spec fn vertex_id(corners: Seq<Corner>, a: Attributes) -> int {
    distinct_sorted(corners).index_of(a)
}

/// The index stored for `slot`: the vertex id of the slot's greatest
/// attribute tuple, reduced to sixteen bits, or zero for a slot that no
/// corner fills.
pub open spec fn slot_index(corners: Seq<Corner>, slot: int) -> u16 {
    if slot_used(corners, slot) {
        (vertex_id(corners, slot_top(corners, slot)) % 0x1_0000) as u16
    } else {
        0
    }
}

/// Whether every corner's slot lies within the corner count.
pub open spec fn slots_in_range(corners: Seq<Corner>) -> bool {
    forall|i: int| 0 <= i < corners.len() ==> (#[trigger] corners[i]).slot < corners.len()
}

impl Geometry {
    /// Whether this is the welded geometry of `corners`: one vertex per
    /// distinct attribute tuple, in ascending order, and one index per slot.
    pub open spec fn is_welded(&self, corners: Seq<Corner>) -> bool {
        &&& self.vertices@ == distinct_sorted(corners).map_values(|a: Attributes| to_vertex(a))
        &&& self.indices@.len() == corners.len()
        &&& forall|s: int|
            0 <= s < corners.len() ==> #[trigger] self.indices@[s] == slot_index(corners, s)
    }

    /// Whether this is the flat geometry of `corners`: one vertex per corner
    /// in the order of the list, and no indices.
    pub open spec fn is_flat(&self, corners: Seq<Corner>) -> bool {
        &&& self.vertices@ == corners.map_values(|c: Corner| to_vertex(c.attributes))
        &&& self.indices@.len() == 0
    }
}

/// Two strictly ascending lists with the same members are the same list.
pub proof fn lemma_ascending_unique(u: Seq<Attributes>, v: Seq<Attributes>)
    requires
        strictly_ascending(u),
        strictly_ascending(v),
        forall|a: Attributes| u.contains(a) <==> v.contains(a),
    ensures
        u == v,
    decreases u.len(),
{
    broadcast use lemma_precedes_by_rank;

    if u.len() == 0 {
        if v.len() > 0 {
            assert(v.contains(v[0]));
        }
        assert(u =~= v);
    } else {
        assert(u.contains(u[0]));
        assert(v.len() > 0);
        let a = u.last();
        let b = v.last();
        assert(u.contains(a));
        assert(v.contains(b));
        let j = choose|j: int| 0 <= j < v.len() && v[j] == a;
        let i = choose|i: int| 0 <= i < u.len() && u[i] == b;
        assert(a == b) by {
            if j < v.len() - 1 {
                assert(precedes(v[j], v[v.len() - 1]));
                if i < u.len() - 1 {
                    assert(precedes(u[i], u[u.len() - 1]));
                }
            }
        }
        let u1 = u.drop_last();
        let v1 = v.drop_last();
        assert forall|x: Attributes| u1.contains(x) <==> v1.contains(x) by {
            if u1.contains(x) {
                let k = choose|k: int| 0 <= k < u1.len() && u1[k] == x;
                assert(precedes(u[k], u[u.len() - 1]));
                assert(u.contains(x));
                let m = choose|m: int| 0 <= m < v.len() && v[m] == x;
                assert(m < v.len() - 1);
                assert(v1[m] == x);
            }
            if v1.contains(x) {
                let k = choose|k: int| 0 <= k < v1.len() && v1[k] == x;
                assert(precedes(v[k], v[v.len() - 1]));
                assert(v.contains(x));
                let m = choose|m: int| 0 <= m < u.len() && u[m] == x;
                assert(m < u.len() - 1);
                assert(u1[m] == x);
            }
        }
        assert(strictly_ascending(u1)) by {
            assert forall|p: int, q: int| 0 <= p < q < u1.len() implies precedes(
                #[trigger] u1[p],
                #[trigger] u1[q],
            ) by {
                assert(precedes(u[p], u[q]));
            }
        }
        assert(strictly_ascending(v1)) by {
            assert forall|p: int, q: int| 0 <= p < q < v1.len() implies precedes(
                #[trigger] v1[p],
                #[trigger] v1[q],
            ) by {
                assert(precedes(v[p], v[q]));
            }
        }
        lemma_ascending_unique(u1, v1);
        assert(u =~= u1.push(a));
        assert(v =~= v1.push(b));
    }
}

/// A list that holds each attribute tuple of `corners` once, in ascending
/// order, is the list that `distinct_sorted` names.
pub proof fn lemma_distinct_sorted_is(corners: Seq<Corner>, u: Seq<Attributes>)
    requires
        is_distinct_sorted(u, corners),
    ensures
        distinct_sorted(corners) == u,
{
    let d = distinct_sorted(corners);
    assert(is_distinct_sorted(d, corners));
    lemma_ascending_unique(d, u);
}

/// In a strictly ascending list each member stands at one place only.
pub proof fn lemma_ascending_index(u: Seq<Attributes>, k: int)
    requires
        strictly_ascending(u),
        0 <= k < u.len(),
    ensures
        u.index_of(u[k]) == k,
{
    broadcast use lemma_precedes_by_rank;

    let m = u.index_of(u[k]);
    assert(0 <= m < u.len() && u[m] == u[k]);
    if m < k {
        assert(precedes(u[m], u[k]));
    }
    if k < m {
        assert(precedes(u[k], u[m]));
    }
}

/// The greatest attribute tuple of a slot is the one that `slot_top` names.
pub proof fn lemma_slot_top_is(corners: Seq<Corner>, slot: int, a: Attributes)
    requires
        is_slot_top(corners, slot, a),
    ensures
        slot_top(corners, slot) == a,
{
    broadcast use lemma_precedes_by_rank;

    let b = slot_top(corners, slot);
    assert(is_slot_top(corners, slot, b));
    let i = choose|i: int|
        0 <= i < corners.len() && (#[trigger] corners[i]).slot == slot && corners[i].attributes
            == a;
    let j = choose|j: int|
        0 <= j < corners.len() && (#[trigger] corners[j]).slot == slot && corners[j].attributes
            == b;
    assert(!precedes(a, corners[j].attributes));
    assert(!precedes(b, corners[i].attributes));
    lemma_rank_injective(a, b);
}

} // verus!
