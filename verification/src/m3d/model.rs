//! A whole model: the body, the wheels, the debris, the collision shape and
//! the slots, one after the other in one stream.
//!
//! After the body's mesh block come 32 bytes of numbers, the wheels (40
//! bytes each, and a mesh block for a wheel that steers), the debris (two
//! mesh blocks each), the mesh block of the shape, a word with the slot
//! mask, and three slots of 16 bytes.

use vstd::prelude::*;

use crate::bytes::{
    i32_at, i32_triple, i32_triple_at, le_i32, le_u32, u32_at, u32_triple, u32_triple_at,
    u64_triple, u64_triple_at, ByteReader,
};
use crate::error::DecodeError;
use crate::m3d::geometry::Geometry;
use crate::m3d::mesh::{decode_mesh, mesh_end, mesh_layout, Mesh};

verus! {

/// The number of slots of a model.
pub const MAX_SLOTS: usize = 3;

/// The bit pattern of the single-precision number one: the scale of a slot
/// that was read from a stream.
pub const UNIT_SCALE: u32 = 0x3F80_0000;

/// A wheel. Its position is kept as the bit patterns of the three
/// double-precision numbers that the stream stores.
#[derive(Clone, Debug)]
pub struct Wheel<M> {
    pub mesh: Option<M>,
    pub steer: u32,
    pub pos: [u64; 3],
    pub width: u32,
    pub radius: u32,
    pub bound_index: u32,
}

/// A part that can come off: what is drawn and what collides.
#[derive(Clone, Debug)]
pub struct Debrie<M, S> {
    pub mesh: M,
    pub shape: S,
}

/// A place where equipment is mounted. The scale is kept as the bit pattern
/// of a single-precision number.
#[derive(Clone, Debug)]
pub struct Slot<M> {
    pub mesh: Option<M>,
    pub scale: u32,
    pub pos: [i32; 3],
    pub angle: i32,
}

/// A model of several parts.
#[derive(Clone, Debug)]
pub struct Model<M, S> {
    pub body: M,
    pub shape: S,
    pub dimensions: [u32; 3],
    pub max_radius: u32,
    pub color: [u32; 2],
    pub wheels: Vec<Wheel<M>>,
    pub debris: Vec<Debrie<M, S>>,
    pub slots: [Slot<M>; 3],
}

/// A model with the geometry of every mesh in memory.
pub type FullModel = Model<Mesh<Geometry>, Mesh<Geometry>>;

impl<M> Slot<M> {
    /// A slot with nothing mounted, at the origin, with scale zero.
    pub fn empty() -> (slot: Self)
        ensures
            slot.mesh is None,
            slot.scale == 0,
            slot.pos@ == seq![0i32, 0i32, 0i32],
            slot.angle == 0,
    {
        Slot { mesh: None, scale: 0, pos: [0, 0, 0], angle: 0 }
    }
}

/// Where the mesh block at `at` ends, or why it cannot be decoded.
pub open spec fn mesh_span(s: Seq<u8>, at: int) -> Result<int, DecodeError> {
    match mesh_layout(s, at) {
        Ok((_, end)) => Ok(end),
        Err(e) => Err(e),
    }
}

/// Where the wheel at `at` ends, or why it cannot be decoded. A wheel whose
/// first word is not zero steers and has a mesh block of its own.
pub open spec fn wheel_span(s: Seq<u8>, at: int) -> Result<int, DecodeError> {
    if at + 40 > s.len() {
        Err(DecodeError::TruncatedStream)
    } else if le_u32(s, at) == 0 {
        Ok(at + 40)
    } else {
        mesh_span(s, at + 40)
    }
}

/// Where `n` wheels that start at `at` end, or the fault of the first that
/// has one. This is also where wheel number `n` starts.
pub open spec fn wheels_span(s: Seq<u8>, at: int, n: nat) -> Result<int, DecodeError>
    decreases n,
{
    if n == 0 {
        Ok(at)
    } else {
        match wheels_span(s, at, (n - 1) as nat) {
            Err(e) => Err(e),
            Ok(p) => wheel_span(s, p),
        }
    }
}

/// Where the debris part at `at` ends: it is two mesh blocks.
pub open spec fn debrie_span(s: Seq<u8>, at: int) -> Result<int, DecodeError> {
    match mesh_span(s, at) {
        Err(e) => Err(e),
        Ok(p) => mesh_span(s, p),
    }
}

/// Where `n` debris parts that start at `at` end, or the fault of the first
/// that has one. This is also where part number `n` starts.
pub open spec fn debris_span(s: Seq<u8>, at: int, n: nat) -> Result<int, DecodeError>
    decreases n,
{
    if n == 0 {
        Ok(at)
    } else {
        match debris_span(s, at, (n - 1) as nat) {
            Err(e) => Err(e),
            Ok(p) => debrie_span(s, p),
        }
    }
}

/// Where the numbers that follow the body of the model at `at` start.
pub open spec fn numbers_at(s: Seq<u8>, at: int) -> int {
    mesh_end(s, at)
}

/// The number of wheels that the model at `at` declares.
pub open spec fn num_wheels(s: Seq<u8>, at: int) -> nat {
    le_u32(s, numbers_at(s, at) + 16) as nat
}

/// The number of debris parts that the model at `at` declares.
pub open spec fn num_debris(s: Seq<u8>, at: int) -> nat {
    le_u32(s, numbers_at(s, at) + 20) as nat
}

/// Where the wheels of the model at `at` start.
pub open spec fn wheels_at(s: Seq<u8>, at: int) -> int {
    numbers_at(s, at) + 32
}

/// Where wheel number `i` of the model at `at` starts.
pub open spec fn wheel_at(s: Seq<u8>, at: int, i: nat) -> int {
    wheels_span(s, wheels_at(s, at), i)->Ok_0
}

/// Where the debris of the model at `at` starts.
pub open spec fn debris_at(s: Seq<u8>, at: int) -> int {
    wheel_at(s, at, num_wheels(s, at))
}

/// Where debris part number `i` of the model at `at` starts.
pub open spec fn debrie_at(s: Seq<u8>, at: int, i: nat) -> int {
    debris_span(s, debris_at(s, at), i)->Ok_0
}

/// Where the collision shape of the model at `at` starts.
pub open spec fn shape_at(s: Seq<u8>, at: int) -> int {
    debrie_at(s, at, num_debris(s, at))
}

/// Where the slot mask of the model at `at` stands.
pub open spec fn slots_at(s: Seq<u8>, at: int) -> int {
    mesh_end(s, shape_at(s, at))
}

/// Where the model at `at` ends, or why it cannot be decoded. The faults
/// are found in the order of the stream.
pub open spec fn model_layout(s: Seq<u8>, at: int) -> Result<int, DecodeError> {
    match mesh_span(s, at) {
        Err(e) => Err(e),
        Ok(numbers) => if numbers + 32 > s.len() {
            Err(DecodeError::TruncatedStream)
        } else {
            match wheels_span(s, numbers + 32, num_wheels(s, at)) {
                Err(e) => Err(e),
                Ok(debris) => match debris_span(s, debris, num_debris(s, at)) {
                    Err(e) => Err(e),
                    Ok(shape) => match mesh_span(s, shape) {
                        Err(e) => Err(e),
                        Ok(slots) => if slots + 52 > s.len() {
                            Err(DecodeError::TruncatedStream)
                        } else {
                            Ok(slots + 52)
                        },
                    },
                },
            }
        },
    }
}

impl Wheel<Mesh<Geometry>> {
    /// Whether this is the wheel stored at `at`.
    pub open spec fn is_decoded_from(&self, s: Seq<u8>, at: int, compact: bool) -> bool {
        &&& self.steer == le_u32(s, at)
        &&& self.pos == u64_triple(s, at + 4)
        &&& self.width == le_u32(s, at + 28)
        &&& self.radius == le_u32(s, at + 32)
        &&& self.bound_index == le_u32(s, at + 36)
        &&& match self.mesh {
            Some(mesh) => self.steer != 0 && mesh.is_decoded_from(s, at + 40, compact),
            None => self.steer == 0,
        }
    }
}

impl Debrie<Mesh<Geometry>, Mesh<Geometry>> {
    /// Whether this is the debris part stored at `at`.
    pub open spec fn is_decoded_from(&self, s: Seq<u8>, at: int, compact: bool) -> bool {
        &&& self.mesh.is_decoded_from(s, at, compact)
        &&& self.shape.is_decoded_from(s, mesh_end(s, at), compact)
    }
}

impl Slot<Mesh<Geometry>> {
    /// Whether this is the slot stored at `at`: nothing is mounted and the
    /// scale is one.
    pub open spec fn is_decoded_from(&self, s: Seq<u8>, at: int) -> bool {
        &&& self.mesh is None
        &&& self.scale == UNIT_SCALE
        &&& self.pos == i32_triple(s, at)
        &&& self.angle == le_i32(s, at + 12)
    }
}

impl Model<Mesh<Geometry>, Mesh<Geometry>> {
    /// Whether the numbers of this model are those stored at `at`, where
    /// the body's mesh block ends.
    pub open spec fn has_numbers_of(&self, s: Seq<u8>, at: int) -> bool {
        &&& self.dimensions == u32_triple(s, at)
        &&& self.max_radius == le_u32(s, at + 12)
        &&& self.wheels@.len() == le_u32(s, at + 16)
        &&& self.debris@.len() == le_u32(s, at + 20)
        &&& self.color@ == seq![le_u32(s, at + 24) as u32, le_u32(s, at + 28) as u32]
    }

    /// Whether the wheels of this model are those stored from `at` on.
    pub open spec fn has_wheels_of(&self, s: Seq<u8>, at: int, compact: bool) -> bool {
        forall|i: int|
            0 <= i < self.wheels@.len() ==> (#[trigger] self.wheels@[i]).is_decoded_from(
                s,
                wheels_span(s, at, i as nat)->Ok_0,
                compact,
            )
    }

    /// Whether the debris of this model is that stored from `at` on.
    pub open spec fn has_debris_of(&self, s: Seq<u8>, at: int, compact: bool) -> bool {
        forall|i: int|
            0 <= i < self.debris@.len() ==> (#[trigger] self.debris@[i]).is_decoded_from(
                s,
                debris_span(s, at, i as nat)->Ok_0,
                compact,
            )
    }

    /// Whether the slots of this model are those stored after the slot mask
    /// at `at`.
    pub open spec fn has_slots_of(&self, s: Seq<u8>, at: int) -> bool {
        forall|i: int|
            0 <= i < 3 ==> (#[trigger] self.slots@[i]).is_decoded_from(s, at + 4 + 16 * i)
    }

    /// Whether this is the model stored at `at`.
    pub open spec fn is_decoded_from(&self, s: Seq<u8>, at: int, compact: bool) -> bool {
        &&& model_layout(s, at) is Ok
        &&& self.body.is_decoded_from(s, at, compact)
        &&& self.has_numbers_of(s, numbers_at(s, at))
        &&& self.has_wheels_of(s, wheels_at(s, at), compact)
        &&& self.has_debris_of(s, debris_at(s, at), compact)
        &&& self.shape.is_decoded_from(s, shape_at(s, at), compact)
        &&& self.has_slots_of(s, slots_at(s, at))
    }
}

proof fn lemma_wheel_fault_stays(s: Seq<u8>, at: int, k: nat, n: nat)
    requires
        k <= n,
        wheels_span(s, at, k) is Err,
    ensures
        wheels_span(s, at, n) == wheels_span(s, at, k),
    decreases n - k,
{
    if k < n {
        lemma_wheel_fault_stays(s, at, k, (n - 1) as nat);
    }
}

proof fn lemma_debris_fault_stays(s: Seq<u8>, at: int, k: nat, n: nat)
    requires
        k <= n,
        debris_span(s, at, k) is Err,
    ensures
        debris_span(s, at, n) == debris_span(s, at, k),
    decreases n - k,
{
    if k < n {
        lemma_debris_fault_stays(s, at, k, (n - 1) as nat);
    }
}

/// Decodes the wheel at `at` and says where it ends.
fn decode_wheel(data: &[u8], at: usize, compact: bool) -> (r: Result<
    (Wheel<Mesh<Geometry>>, usize),
    DecodeError,
>)
    requires
        at <= data@.len(),
    ensures
        match r {
            Ok((wheel, end)) => wheel.is_decoded_from(data@, at as int, compact) && wheel_span(
                data@,
                at as int,
            ) == Ok::<int, DecodeError>(end as int) && at <= end <= data@.len(),
            Err(e) => wheel_span(data@, at as int) == Err::<int, DecodeError>(e),
        },
{
    let len: usize = data.len();
    if len - at < 40 {
        return Err(DecodeError::TruncatedStream);
    }
    let steer: u32 = u32_at(data, at);
    let pos: [u64; 3] = u64_triple_at(data, at + 4);
    let width: u32 = u32_at(data, at + 28);
    let radius: u32 = u32_at(data, at + 32);
    let bound_index: u32 = u32_at(data, at + 36);
    if steer != 0 {
        let (mesh, end) = match decode_mesh(data, at + 40, compact) {
            Ok(found) => found,
            Err(e) => {
                return Err(e);
            },
        };
        Ok((Wheel { mesh: Some(mesh), steer, pos, width, radius, bound_index }, end))
    } else {
        Ok((Wheel { mesh: None, steer, pos, width, radius, bound_index }, at + 40))
    }
}

/// Decodes the debris part at `at` and says where it ends.
fn decode_debrie(data: &[u8], at: usize, compact: bool) -> (r: Result<
    (Debrie<Mesh<Geometry>, Mesh<Geometry>>, usize),
    DecodeError,
>)
    ensures
        match r {
            Ok((debrie, end)) => debrie.is_decoded_from(data@, at as int, compact) && debrie_span(
                data@,
                at as int,
            ) == Ok::<int, DecodeError>(end as int) && at <= end <= data@.len(),
            Err(e) => debrie_span(data@, at as int) == Err::<int, DecodeError>(e),
        },
{
    let (mesh, middle) = match decode_mesh(data, at, compact) {
        Ok(found) => found,
        Err(e) => {
            return Err(e);
        },
    };
    let (shape, end) = match decode_mesh(data, middle, compact) {
        Ok(found) => found,
        Err(e) => {
            return Err(e);
        },
    };
    Ok((Debrie { mesh, shape }, end))
}

/// Decodes the slot at `at`.
fn decode_slot(data: &[u8], at: usize) -> (slot: Slot<Mesh<Geometry>>)
    requires
        at + 16 <= data@.len(),
    ensures
        slot.is_decoded_from(data@, at as int),
{
    let len: usize = data.len();
    assert(at < len);
    Slot { mesh: None, scale: UNIT_SCALE, pos: i32_triple_at(data, at), angle: i32_at(data, at + 12) }
}

/// Decodes `count` wheels that start at `at` and says where they end.
fn decode_wheels(data: &[u8], at: usize, count: u32, compact: bool) -> (r: Result<
    (Vec<Wheel<Mesh<Geometry>>>, usize),
    DecodeError,
>)
    requires
        at <= data@.len(),
    ensures
        match r {
            Ok((wheels, end)) => {
                &&& wheels_span(data@, at as int, count as nat) == Ok::<int, DecodeError>(
                    end as int,
                )
                &&& at <= end <= data@.len()
                &&& wheels@.len() == count
                &&& forall|i: int|
                    0 <= i < count ==> (#[trigger] wheels@[i]).is_decoded_from(
                        data@,
                        wheels_span(data@, at as int, i as nat)->Ok_0,
                        compact,
                    )
            },
            Err(e) => wheels_span(data@, at as int, count as nat) == Err::<int, DecodeError>(e),
        },
{
    let ghost s = data@;
    let mut wheels: Vec<Wheel<Mesh<Geometry>>> = Vec::new();
    let mut p: usize = at;
    let mut i: u32 = 0;
    while i < count
        invariant
            s == data@,
            i <= count,
            at <= p <= s.len(),
            wheels_span(s, at as int, i as nat) == Ok::<int, DecodeError>(p as int),
            wheels@.len() == i,
            forall|k: int|
                0 <= k < i ==> (#[trigger] wheels@[k]).is_decoded_from(
                    s,
                    wheels_span(s, at as int, k as nat)->Ok_0,
                    compact,
                ),
        decreases count - i,
    {
        let (wheel, end) = match decode_wheel(data, p, compact) {
            Ok(found) => found,
            Err(e) => {
                proof {
                    assert(wheels_span(s, at as int, (i + 1) as nat) is Err);
                    lemma_wheel_fault_stays(s, at as int, (i + 1) as nat, count as nat);
                }
                return Err(e);
            },
        };
        let ghost before = wheels@;
        wheels.push(wheel);
        proof {
            assert forall|k: int| 0 <= k < i + 1 implies (#[trigger] wheels@[k]).is_decoded_from(
                s,
                wheels_span(s, at as int, k as nat)->Ok_0,
                compact,
            ) by {
                if k < i {
                    assert(wheels@[k] == before[k]);
                }
            }
        }
        p = end;
        i = i + 1;
    }
    Ok((wheels, p))
}

/// Decodes `count` debris parts that start at `at` and says where they end.
fn decode_debris(data: &[u8], at: usize, count: u32, compact: bool) -> (r: Result<
    (Vec<Debrie<Mesh<Geometry>, Mesh<Geometry>>>, usize),
    DecodeError,
>)
    requires
        at <= data@.len(),
    ensures
        match r {
            Ok((debris, end)) => {
                &&& debris_span(data@, at as int, count as nat) == Ok::<int, DecodeError>(
                    end as int,
                )
                &&& at <= end <= data@.len()
                &&& debris@.len() == count
                &&& forall|i: int|
                    0 <= i < count ==> (#[trigger] debris@[i]).is_decoded_from(
                        data@,
                        debris_span(data@, at as int, i as nat)->Ok_0,
                        compact,
                    )
            },
            Err(e) => debris_span(data@, at as int, count as nat) == Err::<int, DecodeError>(e),
        },
{
    let ghost s = data@;
    let mut debris: Vec<Debrie<Mesh<Geometry>, Mesh<Geometry>>> = Vec::new();
    let mut p: usize = at;
    let mut i: u32 = 0;
    while i < count
        invariant
            s == data@,
            i <= count,
            at <= p <= s.len(),
            debris_span(s, at as int, i as nat) == Ok::<int, DecodeError>(p as int),
            debris@.len() == i,
            forall|k: int|
                0 <= k < i ==> (#[trigger] debris@[k]).is_decoded_from(
                    s,
                    debris_span(s, at as int, k as nat)->Ok_0,
                    compact,
                ),
        decreases count - i,
    {
        let (debrie, end) = match decode_debrie(data, p, compact) {
            Ok(found) => found,
            Err(e) => {
                proof {
                    assert(debris_span(s, at as int, (i + 1) as nat) is Err);
                    lemma_debris_fault_stays(s, at as int, (i + 1) as nat, count as nat);
                }
                return Err(e);
            },
        };
        let ghost before = debris@;
        debris.push(debrie);
        proof {
            assert forall|k: int| 0 <= k < i + 1 implies (#[trigger] debris@[k]).is_decoded_from(
                s,
                debris_span(s, at as int, k as nat)->Ok_0,
                compact,
            ) by {
                if k < i {
                    assert(debris@[k] == before[k]);
                }
            }
        }
        p = end;
        i = i + 1;
    }
    Ok((debris, p))
}

/// The numbers that follow the body of a model.
struct Numbers {
    dimensions: [u32; 3],
    max_radius: u32,
    wheels: u32,
    debris: u32,
    color: [u32; 2],
}

fn decode_numbers(data: &[u8], at: usize) -> (n: Numbers)
    requires
        at + 32 <= data@.len(),
    ensures
        n.dimensions == u32_triple(data@, at as int),
        n.max_radius == le_u32(data@, at + 12),
        n.wheels == le_u32(data@, at + 16),
        n.debris == le_u32(data@, at + 20),
        n.color@ == seq![le_u32(data@, at + 24) as u32, le_u32(data@, at + 28) as u32],
{
    let len: usize = data.len();
    assert(at < len);
    Numbers {
        dimensions: u32_triple_at(data, at),
        max_radius: u32_at(data, at + 12),
        wheels: u32_at(data, at + 16),
        debris: u32_at(data, at + 20),
        color: [u32_at(data, at + 24), u32_at(data, at + 28)],
    }
}

/// Decodes the three slots that follow the slot mask at `at`.
fn decode_slots(data: &[u8], at: usize) -> (slots: [Slot<Mesh<Geometry>>; 3])
    requires
        at + 52 <= data@.len(),
    ensures
        forall|i: int|
            0 <= i < 3 ==> (#[trigger] slots@[i]).is_decoded_from(data@, at + 4 + 16 * i),
{
    let len: usize = data.len();
    assert(at < len);
    let slots: [Slot<Mesh<Geometry>>; 3] = [
        decode_slot(data, at + 4),
        decode_slot(data, at + 20),
        decode_slot(data, at + 36),
    ];
    assert(slots@[0].is_decoded_from(data@, at + 4 + 16 * 0));
    assert(slots@[1].is_decoded_from(data@, at + 4 + 16 * 1));
    assert(slots@[2].is_decoded_from(data@, at + 4 + 16 * 2));
    slots
}

/// Decodes the model that starts at `at` and says where it ends.
pub fn decode_model(data: &[u8], at: usize, compact: bool) -> (r: Result<
    (FullModel, usize),
    DecodeError,
>)
    ensures
        match r {
            Ok((model, end)) => model.is_decoded_from(data@, at as int, compact) && model_layout(
                data@,
                at as int,
            ) == Ok::<int, DecodeError>(end as int) && at <= end <= data@.len(),
            Err(e) => model_layout(data@, at as int) == Err::<int, DecodeError>(e),
        },
{
    let ghost s = data@;
    let ghost a = at as int;
    let len: usize = data.len();
    let (body, numbers_start) = match decode_mesh(data, at, compact) {
        Ok(found) => found,
        Err(e) => {
            return Err(e);
        },
    };
    assert(mesh_span(s, a) == Ok::<int, DecodeError>(numbers_start as int));
    if len - numbers_start < 32 {
        return Err(DecodeError::TruncatedStream);
    }
    let numbers = decode_numbers(data, numbers_start);
    let (wheels, debris_start) = match decode_wheels(
        data,
        numbers_start + 32,
        numbers.wheels,
        compact,
    ) {
        Ok(found) => found,
        Err(e) => {
            return Err(e);
        },
    };
    let (debris, shape_start) = match decode_debris(
        data,
        debris_start,
        numbers.debris,
        compact,
    ) {
        Ok(found) => found,
        Err(e) => {
            return Err(e);
        },
    };
    let (shape, slots_start) = match decode_mesh(data, shape_start, compact) {
        Ok(found) => found,
        Err(e) => {
            return Err(e);
        },
    };
    assert(mesh_span(s, shape_start as int) == Ok::<int, DecodeError>(slots_start as int));
    if len - slots_start < 52 {
        return Err(DecodeError::TruncatedStream);
    }
    let slots = decode_slots(data, slots_start);
    let model = Model {
        body,
        shape,
        dimensions: numbers.dimensions,
        max_radius: numbers.max_radius,
        color: numbers.color,
        wheels,
        debris,
        slots,
    };
    proof {
        assert(numbers_start == numbers_at(s, a));
        assert(debris_start == debris_at(s, a));
        assert(shape_start == shape_at(s, a));
        assert(slots_start == slots_at(s, a));
        assert(model_layout(s, a) == Ok::<int, DecodeError>(slots_start + 52));
        assert(model.has_numbers_of(s, numbers_at(s, a)));
        assert(model.has_wheels_of(s, wheels_at(s, a), compact));
        assert(model.has_debris_of(s, debris_at(s, a), compact));
        assert(model.has_slots_of(s, slots_at(s, a)));
    }
    Ok((model, slots_start + 52))
}

impl Model<Mesh<Geometry>, Mesh<Geometry>> {
    /// Decodes a whole model from `source` and moves past it. With `compact`
    /// every mesh is welded. When the model cannot be decoded, `source`
    /// stays where it was.
    pub fn load(source: &mut ByteReader, compact: bool) -> (r: Result<Self, DecodeError>)
        ensures
            final(source).bytes() == old(source).bytes(),
            match r {
                Ok(model) => model.is_decoded_from(
                    old(source).bytes(),
                    old(source).offset(),
                    compact,
                ) && model_layout(old(source).bytes(), old(source).offset()) == Ok::<
                    int,
                    DecodeError,
                >(final(source).offset()),
                Err(e) => model_layout(old(source).bytes(), old(source).offset()) == Err::<
                    int,
                    DecodeError,
                >(e) && final(source).offset() == old(source).offset(),
            },
    {
        let (model, end) = match decode_model(source.data(), source.position(), compact) {
            Ok(found) => found,
            Err(e) => {
                return Err(e);
            },
        };
        match source.seek(end) {
            Ok(()) => Ok(model),
            Err(e) => Err(e),
        }
    }
}

} // verus!
