use vangers::bytes::ByteReader;
use vangers::error::DecodeError;
use vangers::m3d::geometry::Geometry;
use vangers::m3d::mesh::Mesh;
use vangers::m3d::model::{decode_model, FullModel, Model, Slot, MAX_SLOTS, UNIT_SCALE};

fn put_u32(out: &mut Vec<u8>, v: u32) {
    out.extend_from_slice(&v.to_le_bytes());
}

fn put_i32(out: &mut Vec<u8>, v: i32) {
    out.extend_from_slice(&v.to_le_bytes());
}

fn put_f64(out: &mut Vec<u8>, v: f64) {
    out.extend_from_slice(&v.to_bits().to_le_bytes());
}

/// A mesh block with one position, one normal and `triangles` triangles
/// whose colour is `tag`.
fn put_mesh(out: &mut Vec<u8>, tag: u32, triangles: u32) {
    put_u32(out, 8);
    put_u32(out, 1);
    put_u32(out, 1);
    put_u32(out, triangles);
    put_u32(out, 0);
    for v in [3, 2, 1, -1, -2, -3] {
        put_i32(out, v);
    }
    for _ in 0..3 {
        put_i32(out, tag as i32);
    }
    put_u32(out, tag);
    for _ in 0..3 {
        put_i32(out, -(tag as i32));
    }
    for i in 0..13 {
        put_f64(out, i as f64);
    }
    out.extend_from_slice(&[0; 12]);
    out.extend_from_slice(&[1, 2, 3]);
    put_u32(out, 0);
    out.extend_from_slice(&[4, 5, 6, 7]);
    put_u32(out, 0);
    for _ in 0..triangles {
        put_u32(out, 3);
        put_u32(out, 0);
        put_u32(out, tag);
        put_u32(out, 0);
        out.extend_from_slice(&[0; 7]);
        for _ in 0..3 {
            put_u32(out, 0);
            put_u32(out, 0);
        }
    }
    for _ in 0..3 * triangles {
        put_u32(out, 0);
    }
}

fn put_wheel(out: &mut Vec<u8>, steer: u32, tag: u32) {
    put_u32(out, steer);
    put_f64(out, 1.5);
    put_f64(out, -2.5);
    put_f64(out, tag as f64);
    put_u32(out, 10 + tag);
    put_u32(out, 20 + tag);
    put_u32(out, 30 + tag);
    if steer != 0 {
        put_mesh(out, tag, 1);
    }
}

fn model_bytes() -> Vec<u8> {
    let mut out = Vec::new();
    put_mesh(&mut out, 1, 2);
    for v in [100, 200, 300] {
        put_u32(&mut out, v);
    }
    put_u32(&mut out, 55);
    put_u32(&mut out, 3);
    put_u32(&mut out, 2);
    put_u32(&mut out, 7);
    put_u32(&mut out, 8);
    put_wheel(&mut out, 0, 40);
    put_wheel(&mut out, 1, 41);
    put_wheel(&mut out, 9, 42);
    put_mesh(&mut out, 50, 1);
    put_mesh(&mut out, 51, 0);
    put_mesh(&mut out, 52, 3);
    put_mesh(&mut out, 53, 1);
    put_mesh(&mut out, 60, 4);
    put_u32(&mut out, 0b101);
    for slot in 0..3 {
        for k in 0..3 {
            put_i32(&mut out, -(10 * slot + k));
        }
        put_i32(&mut out, 90 * slot - 45);
    }
    out
}

fn check_mesh(mesh: &Mesh<Geometry>, tag: u32, triangles: usize) {
    assert_eq!(mesh.max_radius, tag);
    assert_eq!(mesh.parent_off, [tag as i32; 3]);
    assert_eq!(mesh.parent_rot, [-(tag as i32); 3]);
    assert_eq!(mesh.geometry.vertices.len(), 3 * triangles);
    for v in &mesh.geometry.vertices {
        assert_eq!(v.pos, [1, 2, 3]);
        assert_eq!(v.normal, [4, 5, 6]);
        assert_eq!(v.color, tag as u8);
    }
}

fn check_model(model: &FullModel) {
    check_mesh(&model.body, 1, 2);
    assert_eq!(model.dimensions, [100, 200, 300]);
    assert_eq!(model.max_radius, 55);
    assert_eq!(model.color, [7, 8]);
    assert_eq!(model.wheels.len(), 3);
    for (i, wheel) in model.wheels.iter().enumerate() {
        let tag = 40 + i as u32;
        assert_eq!(wheel.steer, [0, 1, 9][i]);
        assert_eq!(wheel.pos, [1.5f64.to_bits(), (-2.5f64).to_bits(), (tag as f64).to_bits()]);
        assert_eq!(wheel.width, 10 + tag);
        assert_eq!(wheel.radius, 20 + tag);
        assert_eq!(wheel.bound_index, 30 + tag);
        match &wheel.mesh {
            Some(mesh) => {
                assert!(i > 0);
                check_mesh(mesh, tag, 1);
            },
            None => assert_eq!(i, 0),
        }
    }
    assert_eq!(model.debris.len(), 2);
    check_mesh(&model.debris[0].mesh, 50, 1);
    check_mesh(&model.debris[0].shape, 51, 0);
    check_mesh(&model.debris[1].mesh, 52, 3);
    check_mesh(&model.debris[1].shape, 53, 1);
    check_mesh(&model.shape, 60, 4);
    assert_eq!(model.slots.len(), MAX_SLOTS);
    for (i, slot) in model.slots.iter().enumerate() {
        let i = i as i32;
        assert!(slot.mesh.is_none());
        assert_eq!(slot.scale, UNIT_SCALE);
        assert_eq!(f32::from_bits(slot.scale), 1.0);
        assert_eq!(slot.pos, [-10 * i, -(10 * i + 1), -(10 * i + 2)]);
        assert_eq!(slot.angle, 90 * i - 45);
    }
}

#[test]
fn test_model_is_decoded_part_by_part() {
    let data = model_bytes();
    let (model, end) = decode_model(&data, 0, false).unwrap();
    assert_eq!(end, data.len());
    check_model(&model);
}

#[test]
fn test_model_is_loaded_from_a_reader() {
    let mut data = vec![0xCC; 9];
    data.extend_from_slice(&model_bytes());
    let end = data.len();
    data.push(0xCC);
    let mut reader = ByteReader::new(&data);
    reader.skip(9).unwrap();
    let model = Model::load(&mut reader, false).unwrap();
    assert_eq!(reader.position(), end);
    check_model(&model);
}

#[test]
fn test_compact_model_welds_every_mesh() {
    let data = model_bytes();
    let (model, end) = decode_model(&data, 0, true).unwrap();
    assert_eq!(end, data.len());
    assert_eq!(model.body.geometry.vertices.len(), 1);
    assert_eq!(model.body.geometry.indices, vec![0; 6]);
    assert_eq!(model.shape.geometry.vertices.len(), 1);
    assert_eq!(model.shape.geometry.indices, vec![0; 12]);
    assert_eq!(model.wheels[1].mesh.as_ref().unwrap().geometry.indices, vec![0; 3]);
    assert!(model.debris[0].shape.geometry.vertices.is_empty());
    assert!(model.debris[0].shape.geometry.indices.is_empty());
}

#[test]
fn test_every_cut_model_is_refused() {
    let data = model_bytes();
    for len in 0..data.len() {
        let mut reader = ByteReader::new(&data[..len]);
        assert_eq!(Model::load(&mut reader, false).err(), Some(DecodeError::TruncatedStream));
        assert_eq!(reader.position(), 0);
    }
}

#[test]
fn test_fault_inside_a_part_is_reported() {
    let data = model_bytes();
    let mut body_len = Vec::new();
    put_mesh(&mut body_len, 1, 2);
    let wheels_at = body_len.len() + 32;
    // The second wheel steers: its mesh starts 40 bytes after it.
    let mesh_at = wheels_at + 40 + 40;
    let mut wrong_version = data.clone();
    wrong_version[mesh_at] = 9;
    assert_eq!(
        decode_model(&wrong_version, 0, false).err(),
        Some(DecodeError::FormatVersionMismatch)
    );
    let mut wrong_count = data.clone();
    // The corner count of the wheel's only polygon.
    wrong_count[mesh_at + 176 + 19 + 8] = 5;
    assert_eq!(
        decode_model(&wrong_count, 0, false).err(),
        Some(DecodeError::InvalidPolygonArity)
    );
    let mut wrong_index = data.clone();
    wrong_index[mesh_at + 176 + 19 + 8 + 23] = 1;
    assert_eq!(
        decode_model(&wrong_index, 0, false).err(),
        Some(DecodeError::IntegrityMismatch)
    );
    let mut wrong_body = data;
    wrong_body[0] = 0;
    assert_eq!(decode_model(&wrong_body, 0, true).err(), Some(DecodeError::FormatVersionMismatch));
}

#[test]
fn test_empty_slot() {
    let slot: Slot<Mesh<Geometry>> = Slot::empty();
    assert!(slot.mesh.is_none());
    assert_eq!(slot.scale, 0);
    assert_eq!(f32::from_bits(slot.scale), 0.0);
    assert_eq!(slot.pos, [0, 0, 0]);
    assert_eq!(slot.angle, 0);
}

#[test]
fn test_model_without_wheels_and_debris() {
    let mut data = Vec::new();
    put_mesh(&mut data, 1, 1);
    for v in [1, 2, 3, 4, 0, 0, 5, 6] {
        put_u32(&mut data, v);
    }
    put_mesh(&mut data, 2, 1);
    put_u32(&mut data, 0);
    for _ in 0..12 {
        put_i32(&mut data, 0);
    }
    let (model, end) = decode_model(&data, 0, false).unwrap();
    assert_eq!(end, data.len());
    assert!(model.wheels.is_empty());
    assert!(model.debris.is_empty());
    assert_eq!(model.dimensions, [1, 2, 3]);
    assert_eq!(model.max_radius, 4);
    assert_eq!(model.color, [5, 6]);
    check_mesh(&model.shape, 2, 1);
}
