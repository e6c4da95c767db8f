//! One mesh block of the model format.
//!
//! A block is a header of 176 bytes, a table of positions (19 bytes each), a
//! table of normals (8 bytes each), the polygons (23 bytes and 8 more per
//! corner) and three index tables of one word per polygon, which are passed
//! over. All numbers are little-endian.

use vstd::prelude::*;

use crate::bytes::{
    i32_triple, i32_triple_at, i8_at, le_i8, le_u32, le_u64, u32_at, u64_at, ByteReader,
};
use crate::error::DecodeError;
use crate::m3d::geometry::{slots_in_range, Attributes, Corner, Geometry};

verus! {

/// The version that a mesh block must open with.
pub const MAGIC_VERSION: u32 = 8;

/// The bounding box of a mesh. The stream stores the greater corner first.
#[derive(Clone, Copy, Debug, PartialEq, Eq)]
pub struct Bounds {
    pub coord_min: [i32; 3],
    pub coord_max: [i32; 3],
}

/// The physical properties of a mesh. Each number is kept as the bit pattern
/// of the double-precision value that the stream stores.
#[derive(Clone, Copy, Debug, PartialEq, Eq)]
pub struct Physics {
    pub volume: u64,
    /// The centre of mass.
    pub rcm: [u64; 3],
    /// The inertia tensor, column by column.
    pub jacobi: [[u64; 3]; 3],
}

/// A mesh block. The offset and the rotation against the parent and the
/// radius are kept as the integers that the stream stores.
#[derive(Clone, Debug)]
pub struct Mesh<G> {
    pub geometry: G,
    pub bounds: Bounds,
    pub parent_off: [i32; 3],
    pub parent_rot: [i32; 3],
    pub max_radius: u32,
    pub physics: Physics,
}

/// The bounds stored at `at`: six numbers, the greater corner first.
pub open spec fn bounds_at(s: Seq<u8>, at: int) -> Bounds {
    Bounds { coord_min: i32_triple(s, at + 12), coord_max: i32_triple(s, at) }
}

/// The `i`-th of the thirteen numbers of the physics record at `at`.
pub open spec fn physics_word(s: Seq<u8>, at: int, i: int) -> u64 {
    le_u64(s, at + 8 * i) as u64
}

/// The physics record stored at `at`: the volume, the centre of mass, and
/// the nine entries of the inertia tensor. Column `c` of the tensor holds
/// the words `4 + c`, `7 + c` and `10 + c` of the record.
pub open spec fn physics_at(s: Seq<u8>, at: int) -> Physics {
    Physics {
        volume: physics_word(s, at, 0),
        rcm: [physics_word(s, at, 1), physics_word(s, at, 2), physics_word(s, at, 3)],
        jacobi: [
            [physics_word(s, at, 4), physics_word(s, at, 7), physics_word(s, at, 10)],
            [physics_word(s, at, 5), physics_word(s, at, 8), physics_word(s, at, 11)],
            [physics_word(s, at, 6), physics_word(s, at, 9), physics_word(s, at, 12)],
        ],
    }
}

/// The length of the header of a mesh block.
pub open spec fn header_len() -> int {
    176
}

/// The number of positions that the block at `at` declares.
pub open spec fn num_positions(s: Seq<u8>, at: int) -> int {
    le_u32(s, at + 4)
}

/// The number of normals that the block at `at` declares.
pub open spec fn num_normals(s: Seq<u8>, at: int) -> int {
    le_u32(s, at + 8)
}

/// The number of polygons that the block at `at` declares.
pub open spec fn num_polygons(s: Seq<u8>, at: int) -> int {
    le_u32(s, at + 12)
}

/// Where the table of normals of the block at `at` starts.
pub open spec fn normals_at(s: Seq<u8>, at: int) -> int {
    at + header_len() + 19 * num_positions(s, at)
}

/// Where the polygons of the block at `at` start.
pub open spec fn polygons_at(s: Seq<u8>, at: int) -> int {
    normals_at(s, at) + 8 * num_normals(s, at)
}

/// The `i`-th position of the block at `at`: three signed bytes that follow
/// twelve unused ones.
pub open spec fn position(s: Seq<u8>, at: int, i: int) -> [i8; 3] {
    let p = at + header_len() + 19 * i + 12;
    [le_i8(s, p) as i8, le_i8(s, p + 1) as i8, le_i8(s, p + 2) as i8]
}

/// The `i`-th normal of the block at `at`: four raw bytes.
pub open spec fn normal(s: Seq<u8>, at: int, i: int) -> [u8; 4] {
    let p = normals_at(s, at) + 8 * i;
    [s[p], s[p + 1], s[p + 2], s[p + 3]]
}

/// The corner count of the polygon stored at `p`.
pub open spec fn arity(s: Seq<u8>, p: int) -> int {
    le_u32(s, p)
}

/// The length of a polygon with `k` corners.
pub open spec fn polygon_len(k: int) -> int {
    23 + 8 * k
}

/// The index of the position of corner `j` of the polygon stored at `p`.
pub open spec fn position_id(s: Seq<u8>, p: int, j: int) -> int {
    le_u32(s, p + 23 + 8 * j)
}

/// The index of the normal of corner `j` of the polygon stored at `p`.
pub open spec fn normal_id(s: Seq<u8>, p: int, j: int) -> int {
    le_u32(s, p + 27 + 8 * j)
}

/// Whether corner `j` of the polygon at `p` names a position and a normal
/// that the block at `at` has.
pub open spec fn corner_in_tables(s: Seq<u8>, at: int, p: int, j: int) -> bool {
    position_id(s, p, j) < num_positions(s, at) && normal_id(s, p, j) < num_normals(s, at)
}

/// Corner `j` of the polygon number `index`, stored at `p` in the block at
/// `at`.
pub open spec fn corner(s: Seq<u8>, at: int, p: int, index: int, j: int) -> Corner {
    Corner {
        slot: (3 * index + j) as usize,
        attributes: Attributes {
            pos: position(s, at, position_id(s, p, j)),
            normal: normal(s, at, normal_id(s, p, j)),
            color: [le_u32(s, p + 8) as u32, le_u32(s, p + 12) as u32],
        },
    }
}

/// The corners of the polygon number `index`, stored at `p`.
pub open spec fn polygon_corners(s: Seq<u8>, at: int, p: int, index: int) -> Seq<Corner> {
    Seq::new(arity(s, p) as nat, |j: int| corner(s, at, p, index, j))
}

/// What is wrong with the polygon stored at `p`, if anything: the stream
/// ends before its corner count, the count is neither 3 nor 4, the stream
/// ends within the polygon, or a corner names a position or a normal that
/// the block does not have.
pub open spec fn polygon_fault(s: Seq<u8>, at: int, p: int) -> Option<DecodeError> {
    if p + 4 > s.len() {
        Some(DecodeError::TruncatedStream)
    } else if arity(s, p) != 3 && arity(s, p) != 4 {
        Some(DecodeError::InvalidPolygonArity)
    } else if p + polygon_len(arity(s, p)) > s.len() {
        Some(DecodeError::TruncatedStream)
    } else if exists|j: int| 0 <= j < arity(s, p) && !corner_in_tables(s, at, p, j) {
        Some(DecodeError::IntegrityMismatch)
    } else {
        None
    }
}

/// The corners of the first `n` polygons of the block at `at`, in the order
/// of the stream, and where the next polygon starts; or the fault of the
/// first polygon that has one.
pub open spec fn polygons(s: Seq<u8>, at: int, n: nat) -> Result<(Seq<Corner>, int), DecodeError>
    decreases n,
{
    if n == 0 {
        Ok((Seq::empty(), polygons_at(s, at)))
    } else {
        match polygons(s, at, (n - 1) as nat) {
            Err(e) => Err(e),
            Ok((corners, p)) => match polygon_fault(s, at, p) {
                Some(e) => Err(e),
                None => Ok(
                    (
                        corners + polygon_corners(s, at, p, n - 1),
                        p + polygon_len(arity(s, p)),
                    ),
                ),
            },
        }
    }
}

/// The corners of the mesh block at `at` and where the block ends; or why
/// the block cannot be decoded. The faults are found in the order of the
/// stream: the version, the header, the two tables, the polygons one by
/// one, the index tables.
#[verifier::opaque]
pub open spec fn mesh_layout(s: Seq<u8>, at: int) -> Result<(Seq<Corner>, int), DecodeError> {
    if at + 4 > s.len() {
        Err(DecodeError::TruncatedStream)
    } else if le_u32(s, at) != MAGIC_VERSION {
        Err(DecodeError::FormatVersionMismatch)
    } else if at + header_len() > s.len() {
        Err(DecodeError::TruncatedStream)
    } else if polygons_at(s, at) > s.len() {
        Err(DecodeError::TruncatedStream)
    } else {
        match polygons(s, at, num_polygons(s, at) as nat) {
            Err(e) => Err(e),
            Ok((corners, p)) => if p + 12 * num_polygons(s, at) > s.len() {
                Err(DecodeError::TruncatedStream)
            } else {
                Ok((corners, p + 12 * num_polygons(s, at)))
            },
        }
    }
}

/// The corners of the mesh block at `at`, where it can be decoded.
pub open spec fn mesh_corners(s: Seq<u8>, at: int) -> Seq<Corner> {
    mesh_layout(s, at)->Ok_0.0
}

/// Where the mesh block at `at` ends, where it can be decoded.
pub open spec fn mesh_end(s: Seq<u8>, at: int) -> int {
    mesh_layout(s, at)->Ok_0.1
}

impl<G> Mesh<G> {
    /// Whether all but the geometry is what the header of the block at `at`
    /// stores.
    pub open spec fn has_header_of(&self, s: Seq<u8>, at: int) -> bool {
        &&& self.bounds == bounds_at(s, at + 20)
        &&& self.parent_off == i32_triple(s, at + 44)
        &&& self.max_radius == le_u32(s, at + 56)
        &&& self.parent_rot == i32_triple(s, at + 60)
        &&& self.physics == physics_at(s, at + 72)
    }
}

impl Mesh<Geometry> {
    /// Whether this is the mesh that the block at `at` stores, with welded
    /// geometry if `compact` and flat geometry if not.
    pub open spec fn is_decoded_from(&self, s: Seq<u8>, at: int, compact: bool) -> bool {
        &&& mesh_layout(s, at) is Ok
        &&& self.has_header_of(s, at)
        &&& if compact {
            self.geometry.is_welded(mesh_corners(s, at))
        } else {
            self.geometry.is_flat(mesh_corners(s, at))
        }
    }
}

/// Once a polygon has a fault, the walk over more polygons reports it.
proof fn lemma_fault_stays(s: Seq<u8>, at: int, k: nat, n: nat)
    requires
        k <= n,
        polygons(s, at, k) is Err,
    ensures
        polygons(s, at, n) == polygons(s, at, k),
    decreases n - k,
{
    if k < n {
        lemma_fault_stays(s, at, k, (n - 1) as nat);
    }
}

fn bounds_from(data: &[u8], at: usize) -> (b: Bounds)
    requires
        at + 24 <= data@.len(),
    ensures
        b == bounds_at(data@, at as int),
{
    let len: usize = data.len();
    assert(at < len);
    Bounds { coord_min: i32_triple_at(data, at + 12), coord_max: i32_triple_at(data, at) }
}

fn physics_from(data: &[u8], at: usize) -> (p: Physics)
    requires
        at + 104 <= data@.len(),
    ensures
        p == physics_at(data@, at as int),
{
    let len: usize = data.len();
    assert(at < len);
    let ghost s = data@;
    let ghost a = at as int;
    let q0: u64 = u64_at(data, at);
    let q1: u64 = u64_at(data, at + 8);
    let q2: u64 = u64_at(data, at + 16);
    let q3: u64 = u64_at(data, at + 24);
    let q4: u64 = u64_at(data, at + 32);
    let q5: u64 = u64_at(data, at + 40);
    let q6: u64 = u64_at(data, at + 48);
    let q7: u64 = u64_at(data, at + 56);
    let q8: u64 = u64_at(data, at + 64);
    let q9: u64 = u64_at(data, at + 72);
    let q10: u64 = u64_at(data, at + 80);
    let q11: u64 = u64_at(data, at + 88);
    let q12: u64 = u64_at(data, at + 96);
    let p = Physics {
        volume: q0,
        rcm: [q1, q2, q3],
        jacobi: [[q4, q7, q10], [q5, q8, q11], [q6, q9, q12]],
    };
    proof {
        let e = physics_at(s, a);
        assert(p.rcm =~= e.rcm);
        assert(p.jacobi[0] =~= e.jacobi[0]);
        assert(p.jacobi[1] =~= e.jacobi[1]);
        assert(p.jacobi[2] =~= e.jacobi[2]);
        assert(p.jacobi =~= e.jacobi);
    }
    p
}

/// Decodes the polygons of the block at `at`, which start at `start`.
fn decode_polygons(data: &[u8], at: usize, start: usize, np: u32, nn: u32, count: u32) -> (r:
    Result<(Vec<Corner>, usize), DecodeError>)
    requires
        at + 176 <= data@.len(),
        np == num_positions(data@, at as int),
        nn == num_normals(data@, at as int),
        start == polygons_at(data@, at as int),
        start <= data@.len(),
    ensures
        match r {
            Ok((corners, end)) => polygons(data@, at as int, count as nat) == Ok::<
                (Seq<Corner>, int),
                DecodeError,
            >((corners@, end as int)) && slots_in_range(corners@) && start <= end <= data@.len(),
            Err(e) => polygons(data@, at as int, count as nat) == Err::<
                (Seq<Corner>, int),
                DecodeError,
            >(e),
        },
{
    let ghost s = data@;
    let ghost a = at as int;
    let len: usize = data.len();
    let normals_start: usize = start - 8 * (nn as usize);
    let mut corners: Vec<Corner> = Vec::new();
    let mut p: usize = start;
    let mut i: u32 = 0;
    while i < count
        invariant
            s == data@,
            a == at as int,
            len == s.len(),
            at + 176 <= len,
            np == num_positions(s, a),
            nn == num_normals(s, a),
            start == polygons_at(s, a),
            normals_start == normals_at(s, a),
            start <= len,
            i <= count,
            start + 47 * i <= p <= len,
            polygons(s, a, i as nat) == Ok::<(Seq<Corner>, int), DecodeError>(
                (corners@, p as int),
            ),
            slots_in_range(corners@),
            corners@.len() >= 3 * i,
        decreases count - i,
    {
        if len - p < 4 {
            proof {
                assert(polygon_fault(s, a, p as int) == Some(DecodeError::TruncatedStream));
                assert(polygons(s, a, (i + 1) as nat) is Err);
                lemma_fault_stays(s, a, (i + 1) as nat, count as nat);
            }
            return Err(DecodeError::TruncatedStream);
        }
        let k: u32 = u32_at(data, p);
        if k != 3 && k != 4 {
            proof {
                assert(polygon_fault(s, a, p as int) == Some(DecodeError::InvalidPolygonArity));
                assert(polygons(s, a, (i + 1) as nat) is Err);
                lemma_fault_stays(s, a, (i + 1) as nat, count as nat);
            }
            return Err(DecodeError::InvalidPolygonArity);
        }
        let need: usize = 23 + 8 * (k as usize);
        if len - p < need {
            proof {
                assert(polygon_fault(s, a, p as int) == Some(DecodeError::TruncatedStream));
                assert(polygons(s, a, (i + 1) as nat) is Err);
                lemma_fault_stays(s, a, (i + 1) as nat, count as nat);
            }
            return Err(DecodeError::TruncatedStream);
        }
        let color: [u32; 2] = [u32_at(data, p + 8), u32_at(data, p + 12)];
        let ghost base = corners@;
        let mut j: u32 = 0;
        while j < k
            invariant
                s == data@,
                a == at as int,
                len == s.len(),
                at + 176 <= len,
                np == num_positions(s, a),
                nn == num_normals(s, a),
                start == polygons_at(s, a),
                normals_start == normals_at(s, a),
                start <= len,
                i < count,
                start + 47 * i <= p,
                p + need <= len,
                need == polygon_len(k as int),
                k == arity(s, p as int),
                k == 3 || k == 4,
                j <= k,
                color@ == seq![le_u32(s, p + 8) as u32, le_u32(s, p + 12) as u32],
                polygons(s, a, i as nat) == Ok::<(Seq<Corner>, int), DecodeError>(
                    (base, p as int),
                ),
                slots_in_range(base),
                base.len() >= 3 * i,
                corners@.len() == base.len() + j,
                forall|m: int| 0 <= m < base.len() ==> corners@[m] == base[m],
                forall|m: int|
                    0 <= m < j ==> #[trigger] corners@[base.len() + m] == corner(
                        s,
                        a,
                        p as int,
                        i as int,
                        m,
                    ),
                forall|m: int| 0 <= m < j ==> corner_in_tables(s, a, p as int, m),
            decreases k - j,
        {
            let pid: u32 = u32_at(data, p + 23 + 8 * (j as usize));
            let nid: u32 = u32_at(data, p + 27 + 8 * (j as usize));
            if pid >= np || nid >= nn {
                proof {
                    assert(!corner_in_tables(s, a, p as int, j as int));
                    assert(polygon_fault(s, a, p as int) == Some(
                        DecodeError::IntegrityMismatch,
                    ));
                    assert(polygons(s, a, (i + 1) as nat) is Err);
                    lemma_fault_stays(s, a, (i + 1) as nat, count as nat);
                }
                return Err(DecodeError::IntegrityMismatch);
            }
            let pp: usize = at + 176 + 19 * (pid as usize) + 12;
            let pos: [i8; 3] = [i8_at(data, pp), i8_at(data, pp + 1), i8_at(data, pp + 2)];
            let q: usize = normals_start + 8 * (nid as usize);
            let normal: [u8; 4] = [data[q], data[q + 1], data[q + 2], data[q + 3]];
            let c = Corner {
                slot: 3 * (i as usize) + (j as usize),
                attributes: Attributes { pos, normal, color },
            };
            proof {
                let e = corner(s, a, p as int, i as int, j as int);
                assert(c.attributes.pos =~= e.attributes.pos);
                assert(c.attributes.normal =~= e.attributes.normal);
                assert(c.attributes.color =~= e.attributes.color);
                assert(c == e);
            }
            corners.push(c);
            j = j + 1;
        }
        proof {
            let added = polygon_corners(s, a, p as int, i as int);
            assert forall|x: int| 0 <= x < corners@.len() implies corners@[x] == (base
                + added)[x] by {
                if x >= base.len() {
                    let m = x - base.len();
                    assert(corners@[base.len() + m] == corner(s, a, p as int, i as int, m));
                }
            }
            assert(corners@ =~= base + added);
            assert(polygon_fault(s, a, p as int) is None);
            assert(polygons(s, a, (i + 1) as nat) == Ok::<(Seq<Corner>, int), DecodeError>(
                (corners@, p + need),
            ));
            assert forall|m: int| 0 <= m < corners@.len() implies (#[trigger] corners@[m]).slot
                < corners@.len() by {
                if m < base.len() {
                    assert(corners@[m] == base[m]);
                } else {
                    assert(corners@[base.len() + (m - base.len())] == corner(
                        s,
                        a,
                        p as int,
                        i as int,
                        m - base.len(),
                    ));
                }
            }
        }
        p = p + need;
        i = i + 1;
    }
    Ok((corners, p))
}

/// The counts that the header of a mesh block declares, and where its
/// polygons start.
struct Counts {
    positions: u32,
    normals: u32,
    polygons: u32,
    start: usize,
}

/// Checks the head of the mesh block at `at`: the version, the header and
/// the two tables.
fn decode_counts(data: &[u8], at: usize) -> (r: Result<Counts, DecodeError>)
    ensures
        match r {
            Ok(c) => {
                &&& at + 176 <= data@.len()
                &&& le_u32(data@, at as int) == MAGIC_VERSION
                &&& c.positions == num_positions(data@, at as int)
                &&& c.normals == num_normals(data@, at as int)
                &&& c.polygons == num_polygons(data@, at as int)
                &&& c.start == polygons_at(data@, at as int)
                &&& c.start <= data@.len()
            },
            Err(e) => mesh_layout(data@, at as int) == Err::<(Seq<Corner>, int), DecodeError>(e),
        },
{
    reveal(mesh_layout);
    let len: usize = data.len();
    if at > len || len - at < 4 {
        return Err(DecodeError::TruncatedStream);
    }
    if u32_at(data, at) != MAGIC_VERSION {
        return Err(DecodeError::FormatVersionMismatch);
    }
    if len - at < 176 {
        return Err(DecodeError::TruncatedStream);
    }
    let positions: u32 = u32_at(data, at + 4);
    let normals: u32 = u32_at(data, at + 8);
    let polygons: u32 = u32_at(data, at + 12);
    let tables: u64 = 19 * (positions as u64) + 8 * (normals as u64);
    if ((len - at - 176) as u64) < tables {
        return Err(DecodeError::TruncatedStream);
    }
    Ok(Counts { positions, normals, polygons, start: at + 176 + tables as usize })
}

/// Builds the mesh of the block at `at` around a geometry.
fn mesh_around<G>(data: &[u8], at: usize, geometry: G) -> (mesh: Mesh<G>)
    requires
        at + 176 <= data@.len(),
    ensures
        mesh.geometry == geometry,
        mesh.has_header_of(data@, at as int),
{
    let len: usize = data.len();
    assert(at < len);
    Mesh {
        geometry,
        bounds: bounds_from(data, at + 20),
        parent_off: i32_triple_at(data, at + 44),
        parent_rot: i32_triple_at(data, at + 60),
        max_radius: u32_at(data, at + 56),
        physics: physics_from(data, at + 72),
    }
}

/// Decodes the mesh block that starts at `at` and says where it ends.
pub fn decode_mesh(data: &[u8], at: usize, compact: bool) -> (r: Result<
    (Mesh<Geometry>, usize),
    DecodeError,
>)
    ensures
        match r {
            Ok((mesh, end)) => mesh.is_decoded_from(data@, at as int, compact) && end == mesh_end(
                data@,
                at as int,
            ) && at <= end <= data@.len(),
            Err(e) => mesh_layout(data@, at as int) == Err::<(Seq<Corner>, int), DecodeError>(e),
        },
{
    reveal(mesh_layout);
    let ghost s = data@;
    let ghost a = at as int;
    let len: usize = data.len();
    let counts = match decode_counts(data, at) {
        Ok(c) => c,
        Err(e) => {
            return Err(e);
        },
    };
    let (corners, p) = match decode_polygons(
        data,
        at,
        counts.start,
        counts.positions,
        counts.normals,
        counts.polygons,
    ) {
        Ok(found) => found,
        Err(e) => {
            return Err(e);
        },
    };
    let tail: u64 = 12 * (counts.polygons as u64);
    if ((len - p) as u64) < tail {
        return Err(DecodeError::TruncatedStream);
    }
    let end: usize = p + tail as usize;
    proof {
        assert(mesh_layout(s, a) == Ok::<(Seq<Corner>, int), DecodeError>((corners@, end as int)));
    }
    let geometry = if compact {
        match Geometry::compact(&corners) {
            Ok(welded) => welded,
            Err(e) => {
                return Err(e);
            },
        }
    } else {
        Geometry::flat(&corners)
    };
    let mesh = mesh_around(data, at, geometry);
    Ok((mesh, end))
}

/// A mesh block that opens with another version than the supported one is
/// refused as such, whatever follows.
pub proof fn lemma_wrong_version_fails(s: Seq<u8>, at: int)
    requires
        at + 4 <= s.len(),
        le_u32(s, at) != MAGIC_VERSION,
    ensures
        mesh_layout(s, at) == Err::<(Seq<Corner>, int), DecodeError>(
            DecodeError::FormatVersionMismatch,
        ),
{
    reveal(mesh_layout);
}

/// Reads three signed 32-bit numbers.
pub fn read_vec(source: &mut ByteReader) -> (r: Result<[i32; 3], DecodeError>)
    ensures
        final(source).bytes() == old(source).bytes(),
        r is Ok <==> old(source).has(12),
        r matches Ok(v) ==> v == i32_triple(old(source).bytes(), old(source).offset()),
        r is Ok ==> final(source).offset() == old(source).offset() + 12,
        r is Err ==> r == Err::<[i32; 3], DecodeError>(DecodeError::TruncatedStream),
        r is Err ==> final(source).offset() == old(source).offset(),
{
    if source.remaining() < 12 {
        return Err(DecodeError::TruncatedStream);
    }
    let v: [i32; 3] = i32_triple_at(source.data(), source.position());
    match source.skip(12) {
        Ok(()) => Ok(v),
        Err(e) => Err(e),
    }
}

impl Bounds {
    /// Reads the bounds: six signed 32-bit numbers, the greater corner
    /// first.
    pub fn read(source: &mut ByteReader) -> (r: Result<Bounds, DecodeError>)
        ensures
            final(source).bytes() == old(source).bytes(),
            r is Ok <==> old(source).has(24),
            r matches Ok(b) ==> b == bounds_at(old(source).bytes(), old(source).offset()),
            r is Ok ==> final(source).offset() == old(source).offset() + 24,
            r is Err ==> r == Err::<Bounds, DecodeError>(DecodeError::TruncatedStream),
            r is Err ==> final(source).offset() == old(source).offset(),
    {
        if source.remaining() < 24 {
            return Err(DecodeError::TruncatedStream);
        }
        let coord_max: [i32; 3] = match read_vec(source) {
            Ok(v) => v,
            Err(e) => {
                return Err(e);
            },
        };
        let coord_min: [i32; 3] = match read_vec(source) {
            Ok(v) => v,
            Err(e) => {
                return Err(e);
            },
        };
        Ok(Bounds { coord_min, coord_max })
    }
}

impl Mesh<Geometry> {
    /// Decodes one mesh block from `source` and moves past it. With
    /// `compact` the corners are welded; without, each corner becomes a
    /// vertex. When the block cannot be decoded, `source` stays where it
    /// was.
    pub fn load(source: &mut ByteReader, compact: bool) -> (r: Result<Self, DecodeError>)
        ensures
            final(source).bytes() == old(source).bytes(),
            match r {
                Ok(mesh) => mesh.is_decoded_from(
                    old(source).bytes(),
                    old(source).offset(),
                    compact,
                ) && final(source).offset() == mesh_end(old(source).bytes(), old(source).offset()),
                Err(e) => mesh_layout(old(source).bytes(), old(source).offset()) == Err::<
                    (Seq<Corner>, int),
                    DecodeError,
                >(e) && final(source).offset() == old(source).offset(),
            },
            old(source).has(4) && le_u32(old(source).bytes(), old(source).offset())
                != MAGIC_VERSION ==> r == Err::<Self, DecodeError>(
                DecodeError::FormatVersionMismatch,
            ),
    {
        proof {
            if source.has(4) && le_u32(source.bytes(), source.offset()) != MAGIC_VERSION {
                lemma_wrong_version_fails(source.bytes(), source.offset());
            }
        }
        let (mesh, end) = match decode_mesh(source.data(), source.position(), compact) {
            Ok(found) => found,
            Err(e) => {
                return Err(e);
            },
        };
        match source.seek(end) {
            Ok(()) => Ok(mesh),
            Err(e) => Err(e),
        }
    }
}

impl<G> Mesh<G> {
    /// The same mesh with another geometry in place of its own.
    pub fn with_geometry<T>(self, geometry: T) -> (m: Mesh<T>)
        ensures
            m.geometry == geometry,
            m.bounds == self.bounds,
            m.parent_off == self.parent_off,
            m.parent_rot == self.parent_rot,
            m.max_radius == self.max_radius,
            m.physics == self.physics,
    {
        Mesh {
            geometry,
            bounds: self.bounds,
            parent_off: self.parent_off,
            parent_rot: self.parent_rot,
            max_radius: self.max_radius,
            physics: self.physics,
        }
    }
}

} // verus!
