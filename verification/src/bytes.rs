//! Little-endian numbers in a byte sequence, and a cursor over a byte slice.

use byteorder::{ByteOrder, LittleEndian};
use vstd::prelude::*;

use crate::error::DecodeError;

verus! {

/// The unsigned 16-bit value stored little-endian at `at`.
pub open spec fn le_u16(s: Seq<u8>, at: int) -> int {
    s[at] as int + 0x100 * (s[at + 1] as int)
}

/// The unsigned 32-bit value stored little-endian at `at`.
pub open spec fn le_u32(s: Seq<u8>, at: int) -> int {
    s[at] as int + 0x100 * (s[at + 1] as int) + 0x1_0000 * (s[at + 2] as int) + 0x100_0000 * (s[at
        + 3] as int)
}

/// The unsigned 64-bit value stored little-endian at `at`.
pub open spec fn le_u64(s: Seq<u8>, at: int) -> int {
    le_u32(s, at) + 0x1_0000_0000 * le_u32(s, at + 4)
}

/// The two's complement reading of an unsigned value below `2 * half`.
pub open spec fn as_signed(v: int, half: int) -> int {
    if v >= half {
        v - 2 * half
    } else {
        v
    }
}

/// The signed 8-bit value stored at `at`.
pub open spec fn le_i8(s: Seq<u8>, at: int) -> int {
    as_signed(s[at] as int, 0x80)
}

/// The signed 16-bit value stored little-endian at `at`.
pub open spec fn le_i16(s: Seq<u8>, at: int) -> int {
    as_signed(le_u16(s, at), 0x8000)
}

/// The signed 32-bit value stored little-endian at `at`.
pub open spec fn le_i32(s: Seq<u8>, at: int) -> int {
    as_signed(le_u32(s, at), 0x8000_0000)
}

/// Calls `byteorder::LittleEndian::read_u32` on the bytes from `at` on. The
/// contract claims that it returns the little-endian reading of the first
/// four of them.
#[verifier::external_body]
pub(crate) fn u32_at(data: &[u8], at: usize) -> (v: u32)
    requires
        at + 4 <= data@.len(),
    ensures
        v as int == le_u32(data@, at as int),
{
    LittleEndian::read_u32(&data[at..])
}

/// Calls `byteorder::LittleEndian::read_i32` on the bytes from `at` on. The
/// contract claims that it returns the first four of them read as a
/// little-endian number in two's complement.
#[verifier::external_body]
pub(crate) fn i32_at(data: &[u8], at: usize) -> (v: i32)
    requires
        at + 4 <= data@.len(),
    ensures
        v as int == le_i32(data@, at as int),
{
    LittleEndian::read_i32(&data[at..])
}

/// Calls `byteorder::LittleEndian::read_i16` on the bytes from `at` on. The
/// contract claims that it returns the first two of them read as a
/// little-endian number in two's complement.
#[verifier::external_body]
pub(crate) fn i16_at(data: &[u8], at: usize) -> (v: i16)
    requires
        at + 2 <= data@.len(),
    ensures
        v as int == le_i16(data@, at as int),
{
    LittleEndian::read_i16(&data[at..])
}

/// Calls `byteorder::LittleEndian::read_u64` on the bytes from `at` on. The
/// contract claims that it returns the little-endian reading of the first
/// eight of them.
#[verifier::external_body]
pub(crate) fn u64_at(data: &[u8], at: usize) -> (v: u64)
    requires
        at + 8 <= data@.len(),
    ensures
        v as int == le_u64(data@, at as int),
{
    LittleEndian::read_u64(&data[at..])
}

/// The byte at `at` read as a signed number.
pub(crate) fn i8_at(data: &[u8], at: usize) -> (v: i8)
    requires
        at < data@.len(),
    ensures
        v as int == le_i8(data@, at as int),
{
    let b: u8 = data[at];
    if b >= 0x80 {
        (b as i16 - 0x100) as i8
    } else {
        b as i8
    }
}

/// The three signed 32-bit values stored from `at` on.
pub open spec fn i32_triple(s: Seq<u8>, at: int) -> [i32; 3] {
    [le_i32(s, at) as i32, le_i32(s, at + 4) as i32, le_i32(s, at + 8) as i32]
}

/// The three unsigned 32-bit values stored from `at` on.
pub open spec fn u32_triple(s: Seq<u8>, at: int) -> [u32; 3] {
    [le_u32(s, at) as u32, le_u32(s, at + 4) as u32, le_u32(s, at + 8) as u32]
}

/// The three unsigned 64-bit values stored from `at` on.
pub open spec fn u64_triple(s: Seq<u8>, at: int) -> [u64; 3] {
    [le_u64(s, at) as u64, le_u64(s, at + 8) as u64, le_u64(s, at + 16) as u64]
}

pub(crate) fn i32_triple_at(data: &[u8], at: usize) -> (v: [i32; 3])
    requires
        at + 12 <= data@.len(),
    ensures
        v == i32_triple(data@, at as int),
{
    let len: usize = data.len();
    assert(at < len);
    let v: [i32; 3] = [i32_at(data, at), i32_at(data, at + 4), i32_at(data, at + 8)];
    assert(v =~= i32_triple(data@, at as int));
    v
}

pub(crate) fn u32_triple_at(data: &[u8], at: usize) -> (v: [u32; 3])
    requires
        at + 12 <= data@.len(),
    ensures
        v == u32_triple(data@, at as int),
{
    let len: usize = data.len();
    assert(at < len);
    let v: [u32; 3] = [u32_at(data, at), u32_at(data, at + 4), u32_at(data, at + 8)];
    assert(v =~= u32_triple(data@, at as int));
    v
}

pub(crate) fn u64_triple_at(data: &[u8], at: usize) -> (v: [u64; 3])
    requires
        at + 24 <= data@.len(),
    ensures
        v == u64_triple(data@, at as int),
{
    let len: usize = data.len();
    assert(at < len);
    let v: [u64; 3] = [u64_at(data, at), u64_at(data, at + 8), u64_at(data, at + 16)];
    assert(v =~= u64_triple(data@, at as int));
    v
}

/// A read position in a byte slice. The decoders take their input through
/// it, move it past what they decoded, and leave it where it was when they
/// fail.
pub struct ByteReader<'a> {
    data: &'a [u8],
    pos: usize,
}

impl<'a> ByteReader<'a> {
    #[verifier::type_invariant]
    spec fn inv(&self) -> bool {
        self.pos <= self.data@.len()
    }

    /// All the bytes of the slice, read or not.
    pub closed spec fn bytes(&self) -> Seq<u8> {
        self.data@
    }

    /// The number of bytes that were read.
    pub closed spec fn offset(&self) -> int {
        self.pos as int
    }

    /// Whether `n` more bytes can be read.
    pub open spec fn has(&self, n: int) -> bool {
        self.offset() + n <= self.bytes().len()
    }

    /// A reader at the start of `data`.
    pub fn new(data: &'a [u8]) -> (r: Self)
        ensures
            r.bytes() == data@,
            r.offset() == 0,
    {
        ByteReader { data, pos: 0 }
    }

    /// The whole slice.
    pub fn data(&self) -> (d: &'a [u8])
        ensures
            d@ == self.bytes(),
    {
        self.data
    }

    /// The number of bytes that were read.
    pub fn position(&self) -> (p: usize)
        ensures
            p == self.offset(),
            p <= self.bytes().len(),
    {
        proof {
            use_type_invariant(self);
        }
        self.pos
    }

    /// The number of bytes that are left.
    pub fn remaining(&self) -> (n: usize)
        ensures
            n == self.bytes().len() - self.offset(),
    {
        proof {
            use_type_invariant(self);
        }
        self.data.len() - self.pos
    }

    /// Moves to the absolute position `pos`, which must lie within the
    /// bytes.
    pub fn seek(&mut self, pos: usize) -> (r: Result<(), DecodeError>)
        ensures
            final(self).bytes() == old(self).bytes(),
            r is Ok <==> pos <= old(self).bytes().len(),
            r is Ok ==> final(self).offset() == pos,
            r is Err ==> r == Err::<(), DecodeError>(DecodeError::TruncatedStream),
            r is Err ==> final(self).offset() == old(self).offset(),
    {
        if pos <= self.data.len() {
            self.pos = pos;
            Ok(())
        } else {
            Err(DecodeError::TruncatedStream)
        }
    }

    /// Passes over `n` bytes.
    pub fn skip(&mut self, n: usize) -> (r: Result<(), DecodeError>)
        ensures
            final(self).bytes() == old(self).bytes(),
            r is Ok <==> old(self).has(n as int),
            r is Ok ==> final(self).offset() == old(self).offset() + n,
            r is Err ==> r == Err::<(), DecodeError>(DecodeError::TruncatedStream),
            r is Err ==> final(self).offset() == old(self).offset(),
    {
        proof {
            use_type_invariant(&*self);
        }
        if n <= self.data.len() - self.pos {
            self.pos = self.pos + n;
            Ok(())
        } else {
            Err(DecodeError::TruncatedStream)
        }
    }

    /// Reads one byte.
    pub fn read_u8(&mut self) -> (r: Result<u8, DecodeError>)
        ensures
            final(self).bytes() == old(self).bytes(),
            r is Ok <==> old(self).has(1),
            r matches Ok(v) ==> v == old(self).bytes()[old(self).offset()] && final(self).offset()
                == old(self).offset() + 1,
            r is Err ==> r == Err::<u8, DecodeError>(DecodeError::TruncatedStream),
            r is Err ==> final(self).offset() == old(self).offset(),
    {
        proof {
            use_type_invariant(&*self);
        }
        if 1 <= self.data.len() - self.pos {
            let v: u8 = self.data[self.pos];
            self.pos = self.pos + 1;
            Ok(v)
        } else {
            Err(DecodeError::TruncatedStream)
        }
    }

    /// Reads one signed byte.
    pub fn read_i8(&mut self) -> (r: Result<i8, DecodeError>)
        ensures
            final(self).bytes() == old(self).bytes(),
            r is Ok <==> old(self).has(1),
            r matches Ok(v) ==> v == le_i8(old(self).bytes(), old(self).offset()),
            r is Ok ==> final(self).offset() == old(self).offset() + 1,
            r is Err ==> r == Err::<i8, DecodeError>(DecodeError::TruncatedStream),
            r is Err ==> final(self).offset() == old(self).offset(),
    {
        proof {
            use_type_invariant(&*self);
        }
        if 1 <= self.data.len() - self.pos {
            let v: i8 = i8_at(self.data, self.pos);
            self.pos = self.pos + 1;
            Ok(v)
        } else {
            Err(DecodeError::TruncatedStream)
        }
    }

    /// Reads a little-endian signed 16-bit number.
    pub fn read_i16(&mut self) -> (r: Result<i16, DecodeError>)
        ensures
            final(self).bytes() == old(self).bytes(),
            r is Ok <==> old(self).has(2),
            r matches Ok(v) ==> v == le_i16(old(self).bytes(), old(self).offset()),
            r is Ok ==> final(self).offset() == old(self).offset() + 2,
            r is Err ==> r == Err::<i16, DecodeError>(DecodeError::TruncatedStream),
            r is Err ==> final(self).offset() == old(self).offset(),
    {
        proof {
            use_type_invariant(&*self);
        }
        if 2 <= self.data.len() - self.pos {
            let v: i16 = i16_at(self.data, self.pos);
            self.pos = self.pos + 2;
            Ok(v)
        } else {
            Err(DecodeError::TruncatedStream)
        }
    }

    /// Reads a little-endian unsigned 32-bit number.
    pub fn read_u32(&mut self) -> (r: Result<u32, DecodeError>)
        ensures
            final(self).bytes() == old(self).bytes(),
            r is Ok <==> old(self).has(4),
            r matches Ok(v) ==> v == le_u32(old(self).bytes(), old(self).offset()),
            r is Ok ==> final(self).offset() == old(self).offset() + 4,
            r is Err ==> r == Err::<u32, DecodeError>(DecodeError::TruncatedStream),
            r is Err ==> final(self).offset() == old(self).offset(),
    {
        proof {
            use_type_invariant(&*self);
        }
        if 4 <= self.data.len() - self.pos {
            let v: u32 = u32_at(self.data, self.pos);
            self.pos = self.pos + 4;
            Ok(v)
        } else {
            Err(DecodeError::TruncatedStream)
        }
    }

    /// Reads a little-endian signed 32-bit number.
    pub fn read_i32(&mut self) -> (r: Result<i32, DecodeError>)
        ensures
            final(self).bytes() == old(self).bytes(),
            r is Ok <==> old(self).has(4),
            r matches Ok(v) ==> v == le_i32(old(self).bytes(), old(self).offset()),
            r is Ok ==> final(self).offset() == old(self).offset() + 4,
            r is Err ==> r == Err::<i32, DecodeError>(DecodeError::TruncatedStream),
            r is Err ==> final(self).offset() == old(self).offset(),
    {
        proof {
            use_type_invariant(&*self);
        }
        if 4 <= self.data.len() - self.pos {
            let v: i32 = i32_at(self.data, self.pos);
            self.pos = self.pos + 4;
            Ok(v)
        } else {
            Err(DecodeError::TruncatedStream)
        }
    }

    /// Reads a little-endian unsigned 64-bit number. A double-precision
    /// number of the stream is read this way, as its bit pattern.
    pub fn read_u64(&mut self) -> (r: Result<u64, DecodeError>)
        ensures
            final(self).bytes() == old(self).bytes(),
            r is Ok <==> old(self).has(8),
            r matches Ok(v) ==> v == le_u64(old(self).bytes(), old(self).offset()),
            r is Ok ==> final(self).offset() == old(self).offset() + 8,
            r is Err ==> r == Err::<u64, DecodeError>(DecodeError::TruncatedStream),
            r is Err ==> final(self).offset() == old(self).offset(),
    {
        proof {
            use_type_invariant(&*self);
        }
        if 8 <= self.data.len() - self.pos {
            let v: u64 = u64_at(self.data, self.pos);
            self.pos = self.pos + 8;
            Ok(v)
        } else {
            Err(DecodeError::TruncatedStream)
        }
    }
}

} // verus!
