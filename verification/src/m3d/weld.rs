//! Welding a corner list: the corners are sorted by their attribute
//! tuples, and a walk over the sorted list starts a new vertex wherever the
//! tuple changes.

use vstd::prelude::*;

use crate::error::DecodeError;
use crate::m3d::geometry::{
    distinct_sorted, has_attributes, is_distinct_sorted, is_slot_top, lemma_ascending_index,
    lemma_distinct_sorted_is, lemma_precedes_by_rank, lemma_rank_injective, lemma_slot_top_is,
    precedes, rank, signed_byte, slot_index, slot_used, slots_in_range, strictly_ascending,
    to_vertex, Attributes, Corner, Geometry, Vertex,
};
use crate::m3d::sort::{ascending, lemma_sorted_list, sort_corners};

verus! {

broadcast use lemma_precedes_by_rank;

/// Computes the rank of an attribute tuple.
pub fn rank_of(a: &Attributes) -> (r: u128)
    ensures
        r as int == rank(*a),
{
    proof {
        reveal(rank);
    }
    let px: u128 = (a.pos[0] as i16 + 0x80) as u128;
    let py: u128 = (a.pos[1] as i16 + 0x80) as u128;
    let pz: u128 = (a.pos[2] as i16 + 0x80) as u128;
    let mut r: u128 = (px * 0x100 + py) * 0x100 + pz;
    r = r * 0x100 + a.normal[0] as u128;
    r = r * 0x100 + a.normal[1] as u128;
    r = r * 0x100 + a.normal[2] as u128;
    r = r * 0x100 + a.normal[3] as u128;
    r = r * 0x1_0000_0000 + a.color[0] as u128;
    r = r * 0x1_0000_0000 + a.color[1] as u128;
    r
}

fn signed(b: u8) -> (r: i8)
    ensures
        r == signed_byte(b),
{
    if b >= 0x80 {
        (b as i16 - 0x100) as i8
    } else {
        b as i8
    }
}

/// Builds the vertex of an attribute tuple.
pub fn vertex_of(a: &Attributes) -> (v: Vertex)
    ensures
        v == to_vertex(*a),
{
    let v = Vertex {
        pos: a.pos,
        color: (a.color[0] % 0x100) as u8,
        normal: [signed(a.normal[0]), signed(a.normal[1]), signed(a.normal[2])],
    };
    assert(v.normal =~= to_vertex(*a).normal);
    v
}

/// Whether every corner's slot lies within the corner count.
pub fn slots_fit(corners: &Vec<Corner>) -> (ok: bool)
    ensures
        ok == slots_in_range(corners@),
{
    let n: usize = corners.len();
    let mut i: usize = 0;
    while i < n
        invariant
            i <= n,
            n == corners@.len(),
            forall|k: int| 0 <= k < i ==> (#[trigger] corners@[k]).slot < n,
        decreases n - i,
    {
        if corners[i].slot >= n {
            return false;
        }
        i = i + 1;
    }
    true
}

impl Geometry {
    /// Welds a corner list: corners with the same attribute tuple share one
    /// vertex, and each slot gets the id of the vertex that stands for it.
    /// A list with a slot beyond its corner count is refused.
    pub fn compact(corners: &Vec<Corner>) -> (r: Result<Geometry, DecodeError>)
        ensures
            r is Ok <==> slots_in_range(corners@),
            r is Err ==> r == Err::<Geometry, DecodeError>(DecodeError::IntegrityMismatch),
            r matches Ok(g) ==> g.is_welded(corners@),
    {
        if slots_fit(corners) {
            Ok(Self::weld(corners))
        } else {
            Err(DecodeError::IntegrityMismatch)
        }
    }

    /// Welds a corner list whose slots lie within the corner count.
    fn weld(corners: &Vec<Corner>) -> (g: Geometry)
        requires
            slots_in_range(corners@),
        ensures
            g.is_welded(corners@),
    {
        let n: usize = corners.len();
        let sorted = sort_corners(corners);
        proof {
            lemma_sorted_list(sorted@, corners@);
        }
        let mut vertices: Vec<Vertex> = Vec::new();
        let mut indices: Vec<u16> = Vec::new();
        let mut s: usize = 0;
        while s < n
            invariant
                s <= n,
                indices@.len() == s,
                forall|k: int| 0 <= k < s ==> indices@[k] == 0,
            decreases n - s,
        {
            indices.push(0);
            s = s + 1;
        }
        proof {
            assert forall|i: int| 0 <= i < sorted@.len() implies (#[trigger] sorted@[i]).slot
                < n by {
                assert(sorted@.contains(sorted@[i]));
                assert(corners@.contains(sorted@[i]));
            }
        }
        // `keys[k]` is the attribute tuple of vertex `k`, `ids[i]` the vertex
        // of the sorted corner `i`, and `owner[s]` the last sorted corner
        // that wrote slot `s`, or -1 while none did.
        let ghost mut keys: Seq<Attributes> = Seq::empty();
        let ghost mut ids: Seq<int> = Seq::empty();
        let ghost mut owner: Seq<int> = Seq::new(n as nat, |s: int| -1int);
        let mut last_rank: u128 = 0;
        let mut id: u16 = 0;
        let mut t: usize = 0;
        while t < n
            invariant
                t <= n,
                n == corners@.len(),
                sorted@.len() == n,
                indices@.len() == n,
                owner.len() == n,
                ids.len() == t,
                ascending(sorted@),
                forall|i: int| 0 <= i < n ==> (#[trigger] sorted@[i]).slot < n,
                vertices@.len() == keys.len(),
                forall|k: int| 0 <= k < keys.len() ==> #[trigger] vertices@[k] == to_vertex(keys[k]),
                forall|p: int, q: int|
                    0 <= p < q < keys.len() ==> rank(#[trigger] keys[p]) < rank(#[trigger] keys[q]),
                t > 0 ==> keys.len() > 0 && last_rank == rank(keys.last()) && keys.last()
                    == sorted@[t - 1].attributes && id == (keys.len() - 1) % 0x1_0000,
                t == 0 ==> keys.len() == 0,
                forall|i: int|
                    0 <= i < t ==> 0 <= #[trigger] ids[i] < keys.len() && keys[ids[i]]
                        == sorted@[i].attributes,
                forall|k: int|
                    0 <= k < keys.len() ==> exists|i: int|
                        0 <= i < t && (#[trigger] sorted@[i]).attributes == #[trigger] keys[k],
                forall|s: int|
                    0 <= s < n && #[trigger] owner[s] == -1 ==> indices@[s] == 0 && (forall|i: int|
                        0 <= i < t ==> (#[trigger] sorted@[i]).slot != s),
                forall|s: int|
                    0 <= s < n && #[trigger] owner[s] != -1 ==> 0 <= owner[s] < t
                        && sorted@[owner[s]].slot == s && indices@[s] == ids[owner[s]] % 0x1_0000
                        && (forall|i: int|
                        owner[s] < i < t ==> (#[trigger] sorted@[i]).slot != s),
            decreases n - t,
        {
            let c: Corner = sorted[t];
            let r: u128 = rank_of(&c.attributes);
            let ghost old_keys = keys;
            let ghost old_ids = ids;
            let ghost old_owner = owner;
            let ghost old_indices = indices@;
            if t == 0 || r != last_rank {
                proof {
                    if t > 0 {
                        assert(rank(sorted@[t - 1].attributes) <= rank(sorted@[t as int].attributes));
                    }
                }
                last_rank = r;
                id = (vertices.len() % 0x1_0000) as u16;
                vertices.push(vertex_of(&c.attributes));
                proof {
                    keys = keys.push(c.attributes);
                    assert forall|p: int, q: int| 0 <= p < q < keys.len() implies rank(
                        #[trigger] keys[p],
                    ) < rank(#[trigger] keys[q]) by {
                        if q == old_keys.len() {
                            assert(keys[p] == old_keys[p]);
                            assert(rank(old_keys[p]) <= rank(old_keys.last()));
                        } else {
                            assert(keys[p] == old_keys[p] && keys[q] == old_keys[q]);
                        }
                    }
                }
            } else {
                proof {
                    lemma_rank_injective(keys.last(), c.attributes);
                }
            }
            indices[c.slot] = id;
            proof {
                ids = ids.push(keys.len() - 1);
                owner = owner.update(c.slot as int, t as int);
                assert forall|k: int| 0 <= k < keys.len() implies exists|i: int|
                    0 <= i < t + 1 && (#[trigger] sorted@[i]).attributes == #[trigger] keys[k] by {
                    if k < old_keys.len() {
                        assert(keys[k] == old_keys[k]);
                        let i = choose|i: int|
                            0 <= i < t && (#[trigger] sorted@[i]).attributes == old_keys[k];
                        assert(0 <= i < t + 1 && sorted@[i].attributes == keys[k]);
                    } else {
                        assert(sorted@[t as int].attributes == keys[k]);
                    }
                }
                assert forall|i: int| 0 <= i < t + 1 implies 0 <= #[trigger] ids[i] < keys.len()
                    && keys[ids[i]] == sorted@[i].attributes by {
                    if i < t {
                        assert(ids[i] == old_ids[i]);
                        assert(keys[old_ids[i]] == old_keys[old_ids[i]]);
                    }
                }
                assert forall|s: int| 0 <= s < n && #[trigger] owner[s] == -1 implies indices@[s]
                    == 0 && (forall|i: int|
                    0 <= i < t + 1 ==> (#[trigger] sorted@[i]).slot != s) by {
                    assert(s != c.slot);
                    assert(old_owner[s] == -1);
                    assert(indices@[s] == old_indices[s]);
                }
                assert forall|s: int| 0 <= s < n && #[trigger] owner[s] != -1 implies 0 <= owner[s]
                    < t + 1 && sorted@[owner[s]].slot == s && indices@[s] == ids[owner[s]]
                    % 0x1_0000 && (forall|i: int|
                    owner[s] < i < t + 1 ==> (#[trigger] sorted@[i]).slot != s) by {
                    if s != c.slot {
                        assert(old_owner[s] == owner[s]);
                        assert(indices@[s] == old_indices[s]);
                        assert(ids[owner[s]] == old_ids[owner[s]]);
                    }
                }
            }
            t = t + 1;
        }
        let g = Geometry { vertices, indices };
        proof {
            // The vertices are the distinct tuples in ascending order, and
            // the last corner that wrote a slot is the greatest that fills it.
            let cs = corners@;
            assert(strictly_ascending(keys));
            assert forall|a: Attributes| #[trigger]
                keys.contains(a) <==> has_attributes(cs, a) by {
                if keys.contains(a) {
                    let k = choose|k: int| 0 <= k < keys.len() && keys[k] == a;
                    let i = choose|i: int|
                        0 <= i < n && (#[trigger] sorted@[i]).attributes == keys[k];
                    assert(sorted@.contains(sorted@[i]));
                    assert(cs.contains(sorted@[i]));
                    let m = choose|m: int| 0 <= m < cs.len() && cs[m] == sorted@[i];
                    assert(cs[m].attributes == a);
                }
                if has_attributes(cs, a) {
                    let m = choose|m: int| 0 <= m < cs.len() && (#[trigger] cs[m]).attributes == a;
                    assert(cs.contains(cs[m]));
                    assert(sorted@.contains(cs[m]));
                    let i = choose|i: int| 0 <= i < sorted@.len() && sorted@[i] == cs[m];
                    assert(keys[ids[i]] == a);
                }
            }
            assert(is_distinct_sorted(keys, cs));
            lemma_distinct_sorted_is(cs, keys);
            assert(g.vertices@ =~= distinct_sorted(cs).map_values(|a: Attributes| to_vertex(a)));
            assert forall|s: int| 0 <= s < cs.len() implies #[trigger] g.indices@[s] == slot_index(
                cs,
                s,
            ) by {
                if owner[s] == -1 {
                    if slot_used(cs, s) {
                        let m = choose|m: int| 0 <= m < cs.len() && (#[trigger] cs[m]).slot == s;
                        assert(cs.contains(cs[m]));
                        assert(sorted@.contains(cs[m]));
                        let i = choose|i: int| 0 <= i < sorted@.len() && sorted@[i] == cs[m];
                        assert(sorted@[i].slot == s);
                    }
                } else {
                    let o = owner[s];
                    let a = sorted@[o].attributes;
                    assert(sorted@.contains(sorted@[o]));
                    assert(cs.contains(sorted@[o]));
                    let m0 = choose|m: int| 0 <= m < cs.len() && cs[m] == sorted@[o];
                    assert(cs[m0].slot == s && cs[m0].attributes == a);
                    assert(slot_used(cs, s));
                    assert forall|j: int|
                        0 <= j < cs.len() && (#[trigger] cs[j]).slot == s implies !precedes(
                        a,
                        cs[j].attributes,
                    ) by {
                        assert(cs.contains(cs[j]));
                        assert(sorted@.contains(cs[j]));
                        let i = choose|i: int| 0 <= i < sorted@.len() && sorted@[i] == cs[j];
                        assert(sorted@[i].slot == s);
                        assert(i <= o);
                        if i < o {
                            assert(rank(sorted@[i].attributes) <= rank(sorted@[o].attributes));
                        }
                    }
                    assert(is_slot_top(cs, s, a));
                    lemma_slot_top_is(cs, s, a);
                    lemma_ascending_index(keys, ids[o]);
                }
            }
        }
        g
    }

    /// Builds the flat geometry of a corner list: one vertex per corner, in
    /// the order of the list.
    pub fn flat(corners: &Vec<Corner>) -> (g: Geometry)
        ensures
            g.is_flat(corners@),
    {
        let mut vertices: Vec<Vertex> = Vec::new();
        let mut i: usize = 0;
        while i < corners.len()
            invariant
                i <= corners@.len(),
                vertices@.len() == i,
                forall|k: int|
                    0 <= k < i ==> #[trigger] vertices@[k] == to_vertex(corners@[k].attributes),
            decreases corners@.len() - i,
        {
            vertices.push(vertex_of(&corners[i].attributes));
            i = i + 1;
        }
        let g = Geometry { vertices, indices: Vec::new() };
        assert(g.vertices@ =~= corners@.map_values(|c: Corner| to_vertex(c.attributes)));
        g
    }
}

} // verus!
