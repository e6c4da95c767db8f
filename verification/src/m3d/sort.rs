//! A stable merge sort of corners by their attribute tuples.

use vstd::prelude::*;

use crate::m3d::geometry::{lemma_precedes_by_rank, precedes, rank, Corner};
use crate::m3d::weld::rank_of;

verus! {

broadcast use lemma_precedes_by_rank;

/// Whether the corner `a` that came from place `i` of a list belongs before
/// the corner `b` from place `j`: its attribute tuple is the lesser one, or
/// neither is and `a` came first.
pub open spec fn in_order(a: Corner, i: int, b: Corner, j: int) -> bool {
    !precedes(b.attributes, a.attributes) && (precedes(a.attributes, b.attributes) || i < j)
}

/// Whether place `i` is among the places in `origin`.
pub open spec fn has_origin(origin: Seq<int>, i: int) -> bool {
    exists|k: int| 0 <= k < origin.len() && #[trigger] origin[k] == i
}

/// Whether `out` holds the corners `list[lo..hi]` in stable ascending order,
/// `out[k]` being the corner from place `origin[k]` of the list.
pub open spec fn sorts(
    out: Seq<Corner>,
    origin: Seq<int>,
    list: Seq<Corner>,
    lo: int,
    hi: int,
) -> bool {
    &&& 0 <= lo <= hi <= list.len()
    &&& out.len() == hi - lo
    &&& origin.len() == hi - lo
    &&& forall|k: int|
        0 <= k < out.len() ==> lo <= #[trigger] origin[k] < hi && out[k] == list[origin[k]]
    &&& forall|k: int, l: int|
        0 <= k < l < out.len() ==> in_order(
            out[k],
            #[trigger] origin[k],
            out[l],
            #[trigger] origin[l],
        )
    &&& forall|i: int| lo <= i < hi ==> #[trigger] has_origin(origin, i)
}

/// Whether `out` is `list` sorted by attribute tuples, corners with the same
/// tuple keeping the order that they have in `list`.
pub open spec fn is_stable_sort(out: Seq<Corner>, list: Seq<Corner>) -> bool {
    exists|origin: Seq<int>| sorts(out, origin, list, 0, list.len() as int)
}

/// Corners in ascending order of their attribute tuples; equal tuples may
/// follow each other.
pub open spec fn ascending(s: Seq<Corner>) -> bool {
    forall|i: int, j: int|
        0 <= i < j < s.len() ==> !precedes(
            (#[trigger] s[j]).attributes,
            (#[trigger] s[i]).attributes,
        )
}

/// A sorted list is in ascending order and has the corners of the list that
/// it was sorted from.
pub proof fn lemma_sorted_list(out: Seq<Corner>, list: Seq<Corner>)
    requires
        is_stable_sort(out, list),
    ensures
        out.len() == list.len(),
        ascending(out),
        forall|c: Corner| #[trigger] out.contains(c) <==> list.contains(c),
{
    let origin = choose|origin: Seq<int>| sorts(out, origin, list, 0, list.len() as int);
    assert forall|i: int, j: int| 0 <= i < j < out.len() implies !precedes(
        (#[trigger] out[j]).attributes,
        (#[trigger] out[i]).attributes,
    ) by {
        assert(in_order(out[i], origin[i], out[j], origin[j]));
    }
    assert forall|c: Corner| #[trigger] out.contains(c) <==> list.contains(c) by {
        if out.contains(c) {
            let k = choose|k: int| 0 <= k < out.len() && out[k] == c;
            assert(list[origin[k]] == c);
        }
        if list.contains(c) {
            let i = choose|i: int| 0 <= i < list.len() && list[i] == c;
            assert(has_origin(origin, i));
            let k = choose|k: int| 0 <= k < origin.len() && #[trigger] origin[k] == i;
            assert(out[k] == c);
        }
    }
}

/// The order in which the places of `list` come when it is sorted: two
/// lists of places that both sort it are the same.
proof fn lemma_origins_agree(
    a: Seq<Corner>,
    oa: Seq<int>,
    b: Seq<Corner>,
    ob: Seq<int>,
    list: Seq<Corner>,
    n: int,
)
    requires
        0 <= n <= oa.len(),
        oa.len() == ob.len(),
        sorts(a, oa, list, 0, oa.len() as int),
        sorts(b, ob, list, 0, oa.len() as int),
    ensures
        forall|k: int| 0 <= k < n ==> oa[k] == ob[k],
    decreases n,
{
    if n > 0 {
        lemma_origins_agree(a, oa, b, ob, list, n - 1);
        let k = n - 1;
        // The place at `k` is the least, in the order of sorting, of those
        // that are not among the first `k`; in both lists.
        let x = oa[k];
        let y = ob[k];
        assert(has_origin(ob, x));
        let kb = choose|kb: int| 0 <= kb < ob.len() && #[trigger] ob[kb] == x;
        assert(has_origin(oa, y));
        let ka = choose|ka: int| 0 <= ka < oa.len() && #[trigger] oa[ka] == y;
        assert(kb >= k) by {
            if kb < k {
                assert(oa[kb] == ob[kb]);
                assert(in_order(a[kb], oa[kb], a[k], oa[k]));
            }
        }
        assert(ka >= k) by {
            if ka < k {
                assert(oa[ka] == ob[ka]);
                assert(in_order(b[ka], ob[ka], b[k], ob[k]));
            }
        }
        if x != y {
            assert(kb > k);
            assert(ka > k);
            assert(in_order(b[k], ob[k], b[kb], ob[kb]));
            assert(in_order(a[k], oa[k], a[ka], oa[ka]));
            assert(a[k] == list[x] && b[kb] == list[x]);
            assert(b[k] == list[y] && a[ka] == list[y]);
        }
    }
}

/// Sorting pins its result: two lists that both are `list` sorted are the
/// same.
pub proof fn lemma_stable_sort_unique(a: Seq<Corner>, b: Seq<Corner>, list: Seq<Corner>)
    requires
        is_stable_sort(a, list),
        is_stable_sort(b, list),
    ensures
        a == b,
{
    let oa = choose|origin: Seq<int>| sorts(a, origin, list, 0, list.len() as int);
    let ob = choose|origin: Seq<int>| sorts(b, origin, list, 0, list.len() as int);
    lemma_origins_agree(a, oa, b, ob, list, oa.len() as int);
    assert forall|k: int| 0 <= k < a.len() implies a[k] == b[k] by {
        assert(oa[k] == ob[k]);
    }
    assert(a =~= b);
}

/// Merges two sorted runs of a list that follow each other into one. Of two
/// corners with the same attribute tuple the one from `left` comes first.
fn merge(
    left: &Vec<Corner>,
    right: &Vec<Corner>,
    Ghost(list): Ghost<Seq<Corner>>,
    Ghost(from_left): Ghost<Seq<int>>,
    Ghost(from_right): Ghost<Seq<int>>,
    Ghost(lo): Ghost<int>,
    Ghost(mid): Ghost<int>,
    Ghost(hi): Ghost<int>,
) -> (r: (Vec<Corner>, Ghost<Seq<int>>))
    requires
        sorts(left@, from_left, list, lo, mid),
        sorts(right@, from_right, list, mid, hi),
    ensures
        sorts(r.0@, r.1@, list, lo, hi),
{
    let mut out: Vec<Corner> = Vec::new();
    let ghost mut origin: Seq<int> = Seq::empty();
    let mut i: usize = 0;
    let mut j: usize = 0;
    while i < left.len() || j < right.len()
        invariant
            sorts(left@, from_left, list, lo, mid),
            sorts(right@, from_right, list, mid, hi),
            i <= left@.len(),
            j <= right@.len(),
            out@.len() == i + j,
            origin.len() == i + j,
            forall|k: int|
                0 <= k < out@.len() ==> lo <= #[trigger] origin[k] < hi && out@[k]
                    == list[origin[k]],
            forall|k: int, l: int|
                0 <= k < l < out@.len() ==> in_order(
                    out@[k],
                    #[trigger] origin[k],
                    out@[l],
                    #[trigger] origin[l],
                ),
            forall|k: int|
                0 <= k < out@.len() && i < left@.len() ==> in_order(
                    out@[k],
                    #[trigger] origin[k],
                    left@[i as int],
                    from_left[i as int],
                ),
            forall|k: int|
                0 <= k < out@.len() && j < right@.len() ==> in_order(
                    out@[k],
                    #[trigger] origin[k],
                    right@[j as int],
                    from_right[j as int],
                ),
            forall|m: int| 0 <= m < i ==> has_origin(origin, #[trigger] from_left[m]),
            forall|m: int| 0 <= m < j ==> has_origin(origin, #[trigger] from_right[m]),
        decreases left@.len() - i + right@.len() - j,
    {
        let take_left: bool = if i >= left.len() {
            false
        } else if j >= right.len() {
            true
        } else {
            rank_of(&left[i].attributes) <= rank_of(&right[j].attributes)
        };
        let ghost before = out@;
        let ghost origin_before = origin;
        let ghost taken: int = if take_left {
            from_left[i as int]
        } else {
            from_right[j as int]
        };
        let c: Corner = if take_left {
            left[i]
        } else {
            right[j]
        };
        out.push(c);
        proof {
            origin = origin.push(taken);
            assert(forall|k: int| 0 <= k < before.len() ==> out@[k] == before[k] && origin[k]
                == origin_before[k]);
            assert(out@[before.len() as int] == c && origin[before.len() as int] == taken);
            assert forall|m: int| 0 <= m < i implies has_origin(
                origin,
                #[trigger] from_left[m],
            ) by {
                assert(has_origin(origin_before, from_left[m]));
                let k = choose|k: int|
                    0 <= k < origin_before.len() && #[trigger] origin_before[k] == from_left[m];
                assert(origin[k] == from_left[m]);
            }
            assert forall|m: int| 0 <= m < j implies has_origin(
                origin,
                #[trigger] from_right[m],
            ) by {
                assert(has_origin(origin_before, from_right[m]));
                let k = choose|k: int|
                    0 <= k < origin_before.len() && #[trigger] origin_before[k] == from_right[m];
                assert(origin[k] == from_right[m]);
            }
            assert(has_origin(origin, taken)) by {
                assert(origin[before.len() as int] == taken);
            }
            if take_left {
                assert(lo <= from_left[i as int] < mid);
                if j < right@.len() {
                    assert(mid <= from_right[j as int] < hi);
                }
                if i + 1 < left@.len() {
                    assert(in_order(
                        left@[i as int],
                        from_left[i as int],
                        left@[i + 1],
                        from_left[i + 1],
                    ));
                }
            } else {
                assert(mid <= from_right[j as int] < hi);
                if j + 1 < right@.len() {
                    assert(in_order(
                        right@[j as int],
                        from_right[j as int],
                        right@[j + 1],
                        from_right[j + 1],
                    ));
                }
            }
        }
        if take_left {
            i = i + 1;
        } else {
            j = j + 1;
        }
    }
    proof {
        assert forall|p: int| lo <= p < hi implies #[trigger] has_origin(origin, p) by {
            if p < mid {
                assert(has_origin(from_left, p));
                let m = choose|m: int| 0 <= m < from_left.len() && #[trigger] from_left[m] == p;
                assert(has_origin(origin, from_left[m]));
            } else {
                assert(has_origin(from_right, p));
                let m = choose|m: int| 0 <= m < from_right.len() && #[trigger] from_right[m] == p;
                assert(has_origin(origin, from_right[m]));
            }
        }
    }
    (out, Ghost(origin))
}

/// Sorts the corners `v[lo..hi]`.
fn sort_range(v: &Vec<Corner>, lo: usize, hi: usize) -> (r: (Vec<Corner>, Ghost<Seq<int>>))
    requires
        lo <= hi <= v@.len(),
    ensures
        sorts(r.0@, r.1@, v@, lo as int, hi as int),
    decreases hi - lo,
{
    if hi - lo <= 1 {
        let mut out: Vec<Corner> = Vec::new();
        let ghost mut origin: Seq<int> = Seq::empty();
        if hi - lo == 1 {
            out.push(v[lo]);
            proof {
                origin = origin.push(lo as int);
                assert(origin[0] == lo);
                assert(has_origin(origin, lo as int));
            }
        }
        (out, Ghost(origin))
    } else {
        let mid: usize = lo + (hi - lo) / 2;
        let (left, Ghost(from_left)) = sort_range(v, lo, mid);
        let (right, Ghost(from_right)) = sort_range(v, mid, hi);
        merge(
            &left,
            &right,
            Ghost(v@),
            Ghost(from_left),
            Ghost(from_right),
            Ghost(lo as int),
            Ghost(mid as int),
            Ghost(hi as int),
        )
    }
}

/// Sorts corners by their attribute tuples. Corners with the same tuple
/// keep their order.
pub fn sort_corners(corners: &Vec<Corner>) -> (out: Vec<Corner>)
    ensures
        is_stable_sort(out@, corners@),
{
    let (out, Ghost(origin)) = sort_range(corners, 0, corners.len());
    assert(sorts(out@, origin, corners@, 0, corners@.len() as int));
    out
}

} // verus!
