use vangers::bytes::ByteReader;
use vangers::error::DecodeError;
use vangers::m3d::geometry::{Geometry, Vertex};
use vangers::m3d::mesh::{decode_mesh, read_vec, Bounds, Mesh, Physics, MAGIC_VERSION};

struct Polygon {
    corners: Vec<(u32, u32)>,
    color: [u32; 2],
}

fn put_u32(out: &mut Vec<u8>, v: u32) {
    out.extend_from_slice(&v.to_le_bytes());
}

fn put_i32(out: &mut Vec<u8>, v: i32) {
    out.extend_from_slice(&v.to_le_bytes());
}

fn header(version: u32, positions: u32, normals: u32, polygons: u32) -> Vec<u8> {
    let mut out = Vec::new();
    put_u32(&mut out, version);
    put_u32(&mut out, positions);
    put_u32(&mut out, normals);
    put_u32(&mut out, polygons);
    put_u32(&mut out, 0xDEAD_BEEF);
    for v in [70, 80, 90, -7, -8, -9] {
        put_i32(&mut out, v);
    }
    for v in [1, -2, 3] {
        put_i32(&mut out, v);
    }
    put_u32(&mut out, 123);
    for v in [-4, 5, -6] {
        put_i32(&mut out, v);
    }
    for i in 0..13 {
        out.extend_from_slice(&(100.0 + i as f64).to_bits().to_le_bytes());
    }
    out
}

fn mesh_bytes(version: u32, positions: &[[i8; 3]], normals: &[[u8; 4]], polygons: &[Polygon]) -> Vec<u8> {
    let mut out =
        header(version, positions.len() as u32, normals.len() as u32, polygons.len() as u32);
    for p in positions {
        out.extend_from_slice(&[0xAA; 12]);
        out.extend_from_slice(&[p[0] as u8, p[1] as u8, p[2] as u8]);
        put_u32(&mut out, 0x0BAD_F00D);
    }
    for n in normals {
        out.extend_from_slice(n);
        put_u32(&mut out, 0x0BAD_F00D);
    }
    for poly in polygons {
        put_u32(&mut out, poly.corners.len() as u32);
        put_u32(&mut out, 0x5050_5050);
        put_u32(&mut out, poly.color[0]);
        put_u32(&mut out, poly.color[1]);
        out.extend_from_slice(&[1, 2, 3, 4]);
        out.extend_from_slice(&[5, 6, 7]);
        for &(pid, nid) in &poly.corners {
            put_u32(&mut out, pid);
            put_u32(&mut out, nid);
        }
    }
    for _ in 0..3 * polygons.len() {
        put_u32(&mut out, 0x7777_7777);
    }
    out
}

const POSITIONS: [[i8; 3]; 4] = [[0, 0, 0], [1, 0, 0], [0, 1, 0], [-1, 0, 0]];
const NORMALS: [[u8; 4]; 2] = [[0, 0, 127, 9], [0, 0x81, 0, 9]];

fn triangle(a: u32, b: u32, c: u32) -> Polygon {
    Polygon { corners: vec![(a, 0), (b, 0), (c, 0)], color: [0x0000_0105, 9] }
}

fn two_triangles() -> Vec<u8> {
    mesh_bytes(MAGIC_VERSION, &POSITIONS, &NORMALS, &[triangle(0, 1, 2), triangle(0, 2, 3)])
}

fn vertex(pos: [i8; 3]) -> Vertex {
    Vertex { pos, color: 5, normal: [0, 0, 127] }
}

#[test]
fn test_magic_version_is_eight() {
    assert_eq!(MAGIC_VERSION, 8);
}

#[test]
fn test_flat_mesh_has_a_vertex_per_corner() {
    let data = two_triangles();
    let mut reader = ByteReader::new(&data);
    let mesh = Mesh::load(&mut reader, false).unwrap();
    assert_eq!(reader.position(), data.len());
    assert_eq!(
        mesh.geometry.vertices,
        vec![
            vertex([0, 0, 0]),
            vertex([1, 0, 0]),
            vertex([0, 1, 0]),
            vertex([0, 0, 0]),
            vertex([0, 1, 0]),
            vertex([-1, 0, 0]),
        ]
    );
    assert!(mesh.geometry.indices.is_empty());
}

#[test]
fn test_header_fields() {
    let data = two_triangles();
    let mut reader = ByteReader::new(&data);
    let mesh = Mesh::load(&mut reader, false).unwrap();
    assert_eq!(mesh.bounds, Bounds { coord_min: [-7, -8, -9], coord_max: [70, 80, 90] });
    assert_eq!(mesh.parent_off, [1, -2, 3]);
    assert_eq!(mesh.max_radius, 123);
    assert_eq!(mesh.parent_rot, [-4, 5, -6]);
    let q = |i: u32| (100.0 + i as f64).to_bits();
    assert_eq!(
        mesh.physics,
        Physics {
            volume: q(0),
            rcm: [q(1), q(2), q(3)],
            jacobi: [[q(4), q(7), q(10)], [q(5), q(8), q(11)], [q(6), q(9), q(12)]],
        }
    );
    assert_eq!(f64::from_bits(mesh.physics.jacobi[1][2]), 111.0);
}

#[test]
fn test_compact_mesh_shares_equal_corners() {
    let data = two_triangles();
    let mut reader = ByteReader::new(&data);
    let mesh = Mesh::load(&mut reader, true).unwrap();
    assert_eq!(reader.position(), data.len());
    // The positions in ascending order: -1 comes first.
    assert_eq!(
        mesh.geometry.vertices,
        vec![vertex([-1, 0, 0]), vertex([0, 0, 0]), vertex([0, 1, 0]), vertex([1, 0, 0])]
    );
    assert_eq!(mesh.geometry.indices, vec![1, 3, 2, 1, 2, 0]);
    // Slots 0 and 3 hold the same corner, and so do slots 2 and 4.
    assert_eq!(mesh.geometry.indices[0], mesh.geometry.indices[3]);
    assert_eq!(mesh.geometry.indices[2], mesh.geometry.indices[4]);
}

#[test]
fn test_compact_mesh_of_distinct_sorted_corners_is_unchanged() {
    let positions: [[i8; 3]; 3] = [[-5, 0, 0], [0, 0, 0], [5, 0, 0]];
    let data = mesh_bytes(MAGIC_VERSION, &positions, &NORMALS, &[triangle(0, 1, 2)]);
    let (flat, _) = decode_mesh(&data, 0, false).unwrap();
    let (welded, _) = decode_mesh(&data, 0, true).unwrap();
    assert_eq!(welded.geometry.vertices, flat.geometry.vertices);
    assert_eq!(welded.geometry.vertices.len(), 3);
    assert_eq!(welded.geometry.indices, vec![0, 1, 2]);
}

#[test]
fn test_corners_differ_by_normal_and_colour() {
    let polygons = [
        Polygon { corners: vec![(0, 0), (0, 1), (0, 0)], color: [7, 1] },
        Polygon { corners: vec![(0, 0), (0, 1), (0, 0)], color: [7, 2] },
    ];
    let data = mesh_bytes(MAGIC_VERSION, &POSITIONS, &NORMALS, &polygons);
    let (mesh, end) = decode_mesh(&data, 0, true).unwrap();
    assert_eq!(end, data.len());
    // Ordered by normal first, then by the second colour word, which the
    // vertex does not keep.
    let a = Vertex { pos: [0, 0, 0], color: 7, normal: [0, 0, 127] };
    let b = Vertex { pos: [0, 0, 0], color: 7, normal: [0, -127, 0] };
    assert_eq!(mesh.geometry.vertices, vec![a, a, b, b]);
    assert_eq!(mesh.geometry.indices, vec![0, 2, 0, 1, 3, 1]);
}

#[test]
fn test_quad_shares_its_last_slot_with_the_next_polygon() {
    let polygons = [
        Polygon { corners: vec![(0, 0), (1, 0), (2, 0), (3, 0)], color: [0x0105, 9] },
        triangle(1, 2, 0),
    ];
    let data = mesh_bytes(MAGIC_VERSION, &POSITIONS, &NORMALS, &polygons);
    let (mesh, end) = decode_mesh(&data, 0, true).unwrap();
    assert_eq!(end, data.len());
    assert_eq!(
        mesh.geometry.vertices,
        vec![vertex([-1, 0, 0]), vertex([0, 0, 0]), vertex([0, 1, 0]), vertex([1, 0, 0])]
    );
    // Slot 3 is filled twice; the greater corner stays. Slot 6 is never
    // filled.
    assert_eq!(mesh.geometry.indices, vec![1, 3, 2, 3, 2, 1, 0]);
    let (flat, _) = decode_mesh(&data, 0, false).unwrap();
    assert_eq!(flat.geometry.vertices.len(), 7);
    assert_eq!(flat.geometry.vertices[3], vertex([-1, 0, 0]));
}

#[test]
fn test_mesh_without_polygons() {
    let data = mesh_bytes(MAGIC_VERSION, &POSITIONS, &NORMALS, &[]);
    for compact in [false, true] {
        let (mesh, end) = decode_mesh(&data, 0, compact).unwrap();
        assert_eq!(end, data.len());
        assert!(mesh.geometry.vertices.is_empty());
        assert!(mesh.geometry.indices.is_empty());
    }
}

#[test]
fn test_wrong_version_is_refused() {
    let data = mesh_bytes(7, &POSITIONS, &NORMALS, &[triangle(0, 1, 2)]);
    for compact in [false, true] {
        let mut reader = ByteReader::new(&data);
        assert_eq!(Mesh::load(&mut reader, compact).err(), Some(DecodeError::FormatVersionMismatch));
        assert_eq!(reader.position(), 0);
    }
    // The version is looked at before anything else, even in a stream that
    // ends right after it.
    assert_eq!(decode_mesh(&[9, 0, 0, 0], 0, true).err(), Some(DecodeError::FormatVersionMismatch));
    assert_eq!(decode_mesh(&[8, 0, 0, 1], 0, true).err(), Some(DecodeError::FormatVersionMismatch));
}

#[test]
fn test_every_cut_stream_is_refused() {
    let data = two_triangles();
    for len in 0..data.len() {
        let mut reader = ByteReader::new(&data[..len]);
        assert_eq!(Mesh::load(&mut reader, true).err(), Some(DecodeError::TruncatedStream));
        assert_eq!(reader.position(), 0);
    }
}

#[test]
fn test_corner_count_must_be_three_or_four() {
    for count in [0usize, 1, 2, 5, 6] {
        let polygons = [Polygon { corners: vec![(0, 0); count], color: [1, 1] }];
        let data = mesh_bytes(MAGIC_VERSION, &POSITIONS, &NORMALS, &polygons);
        assert_eq!(decode_mesh(&data, 0, false).err(), Some(DecodeError::InvalidPolygonArity));
    }
}

#[test]
fn test_corner_must_name_a_position_and_a_normal() {
    let bad_position = [Polygon { corners: vec![(0, 0), (4, 0), (1, 0)], color: [1, 1] }];
    let data = mesh_bytes(MAGIC_VERSION, &POSITIONS, &NORMALS, &bad_position);
    assert_eq!(decode_mesh(&data, 0, false).err(), Some(DecodeError::IntegrityMismatch));
    let bad_normal = [Polygon { corners: vec![(0, 0), (3, 1), (1, 2)], color: [1, 1] }];
    let data = mesh_bytes(MAGIC_VERSION, &POSITIONS, &NORMALS, &bad_normal);
    assert_eq!(decode_mesh(&data, 0, true).err(), Some(DecodeError::IntegrityMismatch));
}

#[test]
fn test_mesh_in_the_middle_of_a_stream() {
    let mut data = vec![0xEE; 5];
    data.extend_from_slice(&two_triangles());
    let end = data.len();
    data.extend_from_slice(&[0xEE; 3]);
    let mut reader = ByteReader::new(&data);
    reader.skip(5).unwrap();
    let mesh = Mesh::load(&mut reader, true).unwrap();
    assert_eq!(reader.position(), end);
    assert_eq!(mesh.geometry.indices, vec![1, 3, 2, 1, 2, 0]);
    assert_eq!(decode_mesh(&data, end, true).err(), Some(DecodeError::TruncatedStream));
    assert_eq!(decode_mesh(&data, data.len() + 1, true).err(), Some(DecodeError::TruncatedStream));
}

#[test]
fn test_bounds_are_stored_greater_corner_first() {
    let mut data = Vec::new();
    for v in [10, 20, 30, -1, -2, -3] {
        put_i32(&mut data, v);
    }
    let mut reader = ByteReader::new(&data);
    let bounds = Bounds::read(&mut reader).unwrap();
    assert_eq!(bounds, Bounds { coord_min: [-1, -2, -3], coord_max: [10, 20, 30] });
    assert_eq!(reader.position(), 24);
    let mut short = ByteReader::new(&data[..23]);
    assert_eq!(Bounds::read(&mut short), Err(DecodeError::TruncatedStream));
    assert_eq!(short.position(), 0);
}

#[test]
fn test_read_vec() {
    let mut data = Vec::new();
    for v in [i32::MIN, 0x0102_0304, -1] {
        put_i32(&mut data, v);
    }
    let mut reader = ByteReader::new(&data);
    assert_eq!(read_vec(&mut reader), Ok([i32::MIN, 0x0102_0304, -1]));
    assert_eq!(reader.position(), 12);
    assert_eq!(read_vec(&mut reader), Err(DecodeError::TruncatedStream));
    assert_eq!(reader.position(), 12);
}

#[test]
fn test_with_geometry_keeps_the_rest() {
    let data = two_triangles();
    let (mesh, _) = decode_mesh(&data, 0, false).unwrap();
    let named = mesh.clone().with_geometry(String::from("body.obj"));
    assert_eq!(named.geometry, "body.obj");
    assert_eq!(named.bounds, mesh.bounds);
    assert_eq!(named.parent_off, mesh.parent_off);
    assert_eq!(named.parent_rot, mesh.parent_rot);
    assert_eq!(named.max_radius, mesh.max_radius);
    assert_eq!(named.physics, mesh.physics);
    let empty = named.with_geometry(Geometry::default());
    assert!(empty.geometry.vertices.is_empty());
}

#[test]
fn test_welding_keeps_every_corner_of_a_triangle_mesh() {
    let polygons = [
        triangle(3, 2, 1),
        triangle(0, 2, 3),
        Polygon { corners: vec![(1, 1), (1, 0), (2, 1)], color: [0x0105, 9] },
        Polygon { corners: vec![(1, 1), (1, 0), (2, 1)], color: [0x0106, 9] },
    ];
    let data = mesh_bytes(MAGIC_VERSION, &POSITIONS, &NORMALS, &polygons);
    let (flat, _) = decode_mesh(&data, 0, false).unwrap();
    let (welded, _) = decode_mesh(&data, 0, true).unwrap();
    assert_eq!(flat.geometry.vertices.len(), 12);
    assert_eq!(welded.geometry.indices.len(), 12);
    assert_eq!(welded.geometry.vertices.len(), 9);
    for (i, vertex) in flat.geometry.vertices.iter().enumerate() {
        assert_eq!(welded.geometry.vertices[welded.geometry.indices[i] as usize], *vertex);
    }
}
