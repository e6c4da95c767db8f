//! What holds of welding, stated over the functions that the contracts of
//! the decoders use.

use vstd::prelude::*;

use crate::m3d::geometry::{
    distinct_sorted, has_attributes, is_distinct_sorted, is_slot_top, lemma_ascending_index,
    lemma_distinct_sorted_is, lemma_precedes_by_rank, lemma_rank_injective, lemma_slot_top_is,
    precedes, rank, slot_index, slots_in_range, strictly_ascending, to_vertex, vertex_id,
    Attributes, Corner, Geometry,
};

use crate::m3d::mesh::{
    arity, corner, mesh_corners, mesh_layout, num_polygons, polygon_corners, polygons, Mesh,
};

verus! {

broadcast use lemma_precedes_by_rank;

/// The strictly ascending list `u` with `a` put in at its place, unless it
/// is there already.
pub open spec fn insert_sorted(u: Seq<Attributes>, a: Attributes) -> Seq<Attributes>
    decreases u.len(),
{
    if u.len() == 0 {
        seq![a]
    } else if u.last() == a {
        u
    } else if precedes(u.last(), a) {
        u.push(a)
    } else {
        insert_sorted(u.drop_last(), a).push(u.last())
    }
}

/// The distinct attribute tuples of `corners` in ascending order, built by
/// putting in one corner after the other.
pub open spec fn build_sorted(corners: Seq<Corner>) -> Seq<Attributes>
    decreases corners.len(),
{
    if corners.len() == 0 {
        Seq::empty()
    } else {
        insert_sorted(build_sorted(corners.drop_last()), corners.last().attributes)
    }
}

proof fn lemma_insert_sorted(u: Seq<Attributes>, a: Attributes)
    requires
        strictly_ascending(u),
    ensures
        strictly_ascending(insert_sorted(u, a)),
        forall|x: Attributes| #[trigger] insert_sorted(u, a).contains(x) <==> u.contains(x) || x == a,
        insert_sorted(u, a).len() == if u.contains(a) {
            u.len()
        } else {
            u.len() + 1
        },
    decreases u.len(),
{
    let r = insert_sorted(u, a);
    if u.len() == 0 {
        assert(r[0] == a);
    } else if u.last() == a {
        assert(u.contains(a));
    } else if precedes(u.last(), a) {
        assert forall|p: int, q: int| 0 <= p < q < r.len() implies precedes(
            #[trigger] r[p],
            #[trigger] r[q],
        ) by {
            if q == u.len() {
                assert(r[p] == u[p]);
                assert(p < u.len() - 1 ==> precedes(u[p], u[u.len() - 1]));
            } else {
                assert(precedes(u[p], u[q]));
            }
        }
        assert forall|x: Attributes| #[trigger] r.contains(x) <==> u.contains(x) || x == a by {
            if u.contains(x) {
                let k = choose|k: int| 0 <= k < u.len() && u[k] == x;
                assert(r[k] == x);
            }
            if x == a {
                assert(r[u.len() as int] == a);
            }
            if r.contains(x) {
                let k = choose|k: int| 0 <= k < r.len() && r[k] == x;
                if k < u.len() {
                    assert(u[k] == x);
                }
            }
        }
        if u.contains(a) {
            let k = choose|k: int| 0 <= k < u.len() && u[k] == a;
            assert(k < u.len() - 1 ==> precedes(u[k], u[u.len() - 1]));
        }
    } else {
        let u1 = u.drop_last();
        let z = u.last();
        assert forall|p: int, q: int| 0 <= p < q < u1.len() implies precedes(
            #[trigger] u1[p],
            #[trigger] u1[q],
        ) by {
            assert(precedes(u[p], u[q]));
        }
        lemma_insert_sorted(u1, a);
        let r1 = insert_sorted(u1, a);
        assert(r == r1.push(z));
        assert forall|x: Attributes| r1.contains(x) implies rank(x) < rank(z) by {
            if u1.contains(x) {
                let k = choose|k: int| 0 <= k < u1.len() && u1[k] == x;
                assert(precedes(u[k], u[u.len() - 1]));
            } else {
                if rank(a) == rank(z) {
                    lemma_rank_injective(a, z);
                }
            }
        }
        assert forall|p: int, q: int| 0 <= p < q < r.len() implies precedes(
            #[trigger] r[p],
            #[trigger] r[q],
        ) by {
            if q == r1.len() {
                assert(r1.contains(r1[p]));
            } else {
                assert(precedes(r1[p], r1[q]));
            }
        }
        assert forall|x: Attributes| #[trigger] r.contains(x) <==> u.contains(x) || x == a by {
            if u.contains(x) {
                let k = choose|k: int| 0 <= k < u.len() && u[k] == x;
                if k < u.len() - 1 {
                    assert(u1[k] == x);
                    assert(r1.contains(x));
                    let m = choose|m: int| 0 <= m < r1.len() && r1[m] == x;
                    assert(r[m] == x);
                } else {
                    assert(r[r1.len() as int] == x);
                }
            }
            if x == a {
                assert(r1.contains(a));
                let m = choose|m: int| 0 <= m < r1.len() && r1[m] == x;
                assert(r[m] == x);
            }
            if r.contains(x) {
                let k = choose|k: int| 0 <= k < r.len() && r[k] == x;
                if k < r1.len() {
                    assert(r1.contains(r1[k]));
                    if u1.contains(x) {
                        let m = choose|m: int| 0 <= m < u1.len() && u1[m] == x;
                        assert(u[m] == x);
                    }
                } else {
                    assert(u[u.len() - 1] == x);
                }
            }
        }
        if u.contains(a) {
            let k = choose|k: int| 0 <= k < u.len() && u[k] == a;
            assert(u1[k] == a);
        }
        if u1.contains(a) {
            let k = choose|k: int| 0 <= k < u1.len() && u1[k] == a;
            assert(u[k] == a);
        }
    }
}

proof fn lemma_build_sorted(corners: Seq<Corner>)
    ensures
        is_distinct_sorted(build_sorted(corners), corners),
    decreases corners.len(),
{
    let r = build_sorted(corners);
    if corners.len() == 0 {
        assert forall|a: Attributes| #[trigger] r.contains(a) <==> has_attributes(corners, a) by {}
    } else {
        let c1 = corners.drop_last();
        let a = corners.last().attributes;
        lemma_build_sorted(c1);
        lemma_insert_sorted(build_sorted(c1), a);
        assert forall|x: Attributes| #[trigger] r.contains(x) <==> has_attributes(corners, x) by {
            if has_attributes(c1, x) {
                let i = choose|i: int| 0 <= i < c1.len() && (#[trigger] c1[i]).attributes == x;
                assert(corners[i].attributes == x);
            }
            if x == a {
                assert(corners[corners.len() - 1].attributes == x);
            }
            if has_attributes(corners, x) {
                let i = choose|i: int|
                    0 <= i < corners.len() && (#[trigger] corners[i]).attributes == x;
                if i < c1.len() {
                    assert(c1[i].attributes == x);
                }
            }
        }
    }
}

/// Every corner list has its list of distinct attribute tuples: ascending,
/// without repeats, and holding exactly the tuples that occur. It is the
/// list that putting in the corners one by one builds.
pub proof fn lemma_distinct_sorted(corners: Seq<Corner>)
    ensures
        is_distinct_sorted(distinct_sorted(corners), corners),
        distinct_sorted(corners) == build_sorted(corners),
{
    lemma_build_sorted(corners);
    lemma_distinct_sorted_is(corners, build_sorted(corners));
}

/// Whether no two corners of the list carry the same attribute tuple.
pub open spec fn all_distinct(corners: Seq<Corner>) -> bool {
    forall|i: int, j: int|
        0 <= i < j < corners.len() ==> (#[trigger] corners[i]).attributes != (
        #[trigger] corners[j]).attributes
}

/// Welding a list in which no attribute tuple occurs twice yields as many
/// vertices as there are corners. So welding what was welded already leaves
/// the number of vertices as it is.
pub proof fn lemma_distinct_corners_keep_count(corners: Seq<Corner>)
    requires
        all_distinct(corners),
    ensures
        distinct_sorted(corners).len() == corners.len(),
    decreases corners.len(),
{
    lemma_distinct_sorted(corners);
    if corners.len() > 0 {
        let c1 = corners.drop_last();
        let a = corners.last().attributes;
        assert(all_distinct(c1)) by {
            assert forall|i: int, j: int| 0 <= i < j < c1.len() implies (#[trigger] c1[i]).attributes
                != (#[trigger] c1[j]).attributes by {
                assert(corners[i].attributes != corners[j].attributes);
            }
        }
        lemma_distinct_corners_keep_count(c1);
        lemma_distinct_sorted(c1);
        lemma_insert_sorted(build_sorted(c1), a);
        if build_sorted(c1).contains(a) {
            assert(has_attributes(c1, a));
            let i = choose|i: int| 0 <= i < c1.len() && (#[trigger] c1[i]).attributes == a;
            assert(corners[i].attributes != corners[corners.len() - 1].attributes);
        }
    }
}

/// The attribute tuples of a corner list, corner by corner.
pub open spec fn attributes_of(corners: Seq<Corner>) -> Seq<Attributes> {
    corners.map_values(|c: Corner| c.attributes)
}

/// Welding is the identity on a list that is welded already: where the
/// corners stand in strictly ascending order and each fills the slot of its
/// own place, the vertices are the corners' own and the index of slot `s` is
/// `s`, reduced to sixteen bits.
pub proof fn lemma_welding_sorted_is_identity(corners: Seq<Corner>)
    requires
        strictly_ascending(attributes_of(corners)),
        forall|i: int| 0 <= i < corners.len() ==> (#[trigger] corners[i]).slot == i,
    ensures
        distinct_sorted(corners) == attributes_of(corners),
        forall|s: int|
            0 <= s < corners.len() ==> #[trigger] slot_index(corners, s) as int == s % 0x1_0000,
{
    let u = attributes_of(corners);
    assert forall|a: Attributes| #[trigger] u.contains(a) <==> has_attributes(corners, a) by {
        if u.contains(a) {
            let k = choose|k: int| 0 <= k < u.len() && u[k] == a;
            assert(corners[k].attributes == a);
        }
        if has_attributes(corners, a) {
            let k = choose|k: int|
                0 <= k < corners.len() && (#[trigger] corners[k]).attributes == a;
            assert(u[k] == a);
        }
    }
    lemma_distinct_sorted_is(corners, u);
    assert forall|s: int| 0 <= s < corners.len() implies #[trigger] slot_index(corners, s) as int
        == s % 0x1_0000 by {
        let a = corners[s].attributes;
        assert(corners[s].slot == s);
        assert(is_slot_top(corners, s, a));
        lemma_slot_top_is(corners, s, a);
        assert(u[s] == a);
        lemma_ascending_index(u, s);
    }
}

/// Whether corner `i` is the only one that fills its slot.
pub open spec fn owns_slot(corners: Seq<Corner>, i: int) -> bool {
    forall|k: int|
        0 <= k < corners.len() && (#[trigger] corners[k]).slot == corners[i].slot ==> k == i
}

/// A corner that alone fills its slot finds its own vertex there: the index
/// of the slot is the vertex id of the corner's attribute tuple, and that id
/// names the tuple in the list of distinct tuples.
pub proof fn lemma_slot_names_own_vertex(corners: Seq<Corner>, i: int)
    requires
        0 <= i < corners.len(),
        owns_slot(corners, i),
    ensures
        slot_index(corners, corners[i].slot as int) as int == vertex_id(
            corners,
            corners[i].attributes,
        ) % 0x1_0000,
        0 <= vertex_id(corners, corners[i].attributes) < distinct_sorted(corners).len(),
        distinct_sorted(corners)[vertex_id(corners, corners[i].attributes)]
            == corners[i].attributes,
{
    let a = corners[i].attributes;
    let s = corners[i].slot as int;
    assert(is_slot_top(corners, s, a));
    lemma_slot_top_is(corners, s, a);
    lemma_distinct_sorted(corners);
    assert(has_attributes(corners, a));
    assert(distinct_sorted(corners).contains(a));
}

/// Two corners with the same attribute tuple collapse to one vertex: where
/// each alone fills its slot, both slots hold the same index.
pub proof fn lemma_equal_corners_share_vertex(corners: Seq<Corner>, i: int, j: int)
    requires
        0 <= i < corners.len(),
        0 <= j < corners.len(),
        corners[i].attributes == corners[j].attributes,
        owns_slot(corners, i),
        owns_slot(corners, j),
    ensures
        slot_index(corners, corners[i].slot as int) == slot_index(corners, corners[j].slot as int),
        vertex_id(corners, corners[i].attributes) == vertex_id(corners, corners[j].attributes),
{
    lemma_slot_names_own_vertex(corners, i);
    lemma_slot_names_own_vertex(corners, j);
}

/// Welding a list in which no attribute tuple occurs twice gives as many
/// vertices as the list has corners.
pub proof fn lemma_welded_without_repeats(g: Geometry, corners: Seq<Corner>)
    requires
        g.is_welded(corners),
        all_distinct(corners),
    ensures
        g.vertices@.len() == corners.len(),
{
    lemma_distinct_corners_keep_count(corners);
}

/// Welding what is welded already changes nothing: the vertices are those
/// of the corners in their order, and the indices count up from zero.
pub proof fn lemma_welded_again(g: Geometry, corners: Seq<Corner>)
    requires
        g.is_welded(corners),
        strictly_ascending(attributes_of(corners)),
        forall|i: int| 0 <= i < corners.len() ==> (#[trigger] corners[i]).slot == i,
    ensures
        g.vertices@ == corners.map_values(|c: Corner| to_vertex(c.attributes)),
        forall|s: int| 0 <= s < corners.len() ==> #[trigger] g.indices@[s] as int == s % 0x1_0000,
{
    lemma_welding_sorted_is_identity(corners);
    assert(g.vertices@ =~= corners.map_values(|c: Corner| to_vertex(c.attributes)));
    assert forall|s: int| 0 <= s < corners.len() implies #[trigger] g.indices@[s] as int == s
        % 0x1_0000 by {
        assert(g.indices@[s] == slot_index(corners, s));
    }
}

/// In a welded geometry of at most 65536 vertices, the slot of a corner
/// that alone fills it leads to the corner's own vertex.
pub proof fn lemma_welded_corner_keeps_vertex(g: Geometry, corners: Seq<Corner>, i: int)
    requires
        g.is_welded(corners),
        slots_in_range(corners),
        0 <= i < corners.len(),
        owns_slot(corners, i),
        g.vertices@.len() <= 0x1_0000,
    ensures
        g.indices@[corners[i].slot as int] < g.vertices@.len(),
        g.vertices@[g.indices@[corners[i].slot as int] as int] == to_vertex(
            corners[i].attributes,
        ),
{
    lemma_slot_names_own_vertex(corners, i);
    let s = corners[i].slot as int;
    assert(g.indices@[s] == slot_index(corners, s));
}

/// Two corners with the same attribute tuple collapse to one vertex: where
/// each alone fills its slot, both slots of the welded geometry hold the
/// same index.
pub proof fn lemma_welded_equal_corners(g: Geometry, corners: Seq<Corner>, i: int, j: int)
    requires
        g.is_welded(corners),
        slots_in_range(corners),
        0 <= i < corners.len(),
        0 <= j < corners.len(),
        corners[i].attributes == corners[j].attributes,
        owns_slot(corners, i),
        owns_slot(corners, j),
    ensures
        g.indices@[corners[i].slot as int] == g.indices@[corners[j].slot as int],
{
    lemma_equal_corners_share_vertex(corners, i, j);
    assert(g.indices@[corners[i].slot as int] == slot_index(corners, corners[i].slot as int));
    assert(g.indices@[corners[j].slot as int] == slot_index(corners, corners[j].slot as int));
}

/// Whether each of the first `n` polygons of the mesh block at `at` is a
/// triangle.
pub open spec fn triangles_only(s: Seq<u8>, at: int, n: nat) -> bool
    decreases n,
{
    n == 0 || (triangles_only(s, at, (n - 1) as nat) && match polygons(s, at, (n - 1) as nat) {
        Ok((_, p)) => arity(s, p) == 3,
        Err(_) => false,
    })
}

/// In a mesh of triangles the corners fill the slots one by one: corner
/// `i` of the stream has slot `i`, so each corner alone fills its slot.
pub proof fn lemma_triangle_slots(s: Seq<u8>, at: int, n: nat)
    requires
        polygons(s, at, n) is Ok,
        triangles_only(s, at, n),
        3 * n <= usize::MAX,
    ensures
        polygons(s, at, n)->Ok_0.0.len() == 3 * n,
        forall|i: int|
            0 <= i < 3 * n ==> (#[trigger] polygons(s, at, n)->Ok_0.0[i]).slot == i,
        forall|i: int| 0 <= i < 3 * n ==> owns_slot(polygons(s, at, n)->Ok_0.0, i),
    decreases n,
{
    let cs = polygons(s, at, n)->Ok_0.0;
    if n > 0 {
        let m = (n - 1) as nat;
        lemma_triangle_slots(s, at, m);
        let before = polygons(s, at, m)->Ok_0.0;
        let p = polygons(s, at, m)->Ok_0.1;
        let added = polygon_corners(s, at, p, n - 1);
        assert(cs == before + added);
        assert(added.len() == 3);
        assert forall|i: int| 0 <= i < 3 * n implies (#[trigger] cs[i]).slot == i by {
            if i < 3 * m {
                assert(cs[i] == before[i]);
            } else {
                assert(cs[i] == added[i - 3 * m]);
                assert(added[i - 3 * m] == corner(s, at, p, n - 1, i - 3 * m));
            }
        }
    }
    assert forall|i: int| 0 <= i < 3 * n implies owns_slot(cs, i) by {
        assert forall|k: int| 0 <= k < cs.len() && (#[trigger] cs[k]).slot == cs[i].slot implies k
            == i by {
            assert(cs[k].slot == k);
            assert(cs[i].slot == i);
        }
    }
}

/// Welding keeps every corner of a mesh of triangles: in a welded mesh of
/// at most 65536 vertices, index `i` leads to the vertex of corner `i` of
/// the stream.
pub proof fn lemma_triangle_mesh_keeps_corners(mesh: Mesh<Geometry>, s: Seq<u8>, at: int, i: int)
    requires
        mesh.is_decoded_from(s, at, true),
        triangles_only(s, at, num_polygons(s, at) as nat),
        3 * num_polygons(s, at) <= usize::MAX,
        mesh.geometry.vertices@.len() <= 0x1_0000,
        0 <= i < 3 * num_polygons(s, at),
    ensures
        mesh_corners(s, at).len() == 3 * num_polygons(s, at),
        mesh.geometry.indices@.len() == 3 * num_polygons(s, at),
        mesh.geometry.indices@[i] < mesh.geometry.vertices@.len(),
        mesh.geometry.vertices@[mesh.geometry.indices@[i] as int] == to_vertex(
            mesh_corners(s, at)[i].attributes,
        ),
{
    reveal(mesh_layout);
    let n = num_polygons(s, at) as nat;
    let corners = mesh_corners(s, at);
    assert(polygons(s, at, n) is Ok);
    assert(corners == polygons(s, at, n)->Ok_0.0);
    lemma_triangle_slots(s, at, n);
    assert(slots_in_range(corners)) by {
        assert forall|k: int| 0 <= k < corners.len() implies (#[trigger] corners[k]).slot
            < corners.len() by {
            assert(corners[k].slot == k);
        }
    }
    assert(owns_slot(corners, i));
    assert(corners[i].slot == i);
    lemma_welded_corner_keeps_vertex(mesh.geometry, corners, i);
}

} // verus!
