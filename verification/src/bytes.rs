use vstd::prelude::*;

use crate::error::Error;

verus! {

/// A little-endian u16 read from positions `p` and `p + 1` of `b`.
pub open spec fn le16(b: Seq<u8>, p: int) -> u16
    recommends
        0 <= p,
        p + 2 <= b.len(),
{
    (b[p] + 0x100 * b[p + 1]) as u16
}

/// A little-endian u32 read from positions `p` .. `p + 4` of `b`.
pub open spec fn le32(b: Seq<u8>, p: int) -> u32
    recommends
        0 <= p,
        p + 4 <= b.len(),
{
    (b[p] + 0x100 * b[p + 1] + 0x1_0000 * b[p + 2] + 0x100_0000 * b[p + 3]) as u32
}

/// The two's-complement i16 carried by the same two bytes.
pub open spec fn le_i16(b: Seq<u8>, p: int) -> i16 {
    le16(b, p) as i16
}

/// The two's-complement i32 carried by the same four bytes.
pub open spec fn le_i32(b: Seq<u8>, p: int) -> i32 {
    le32(b, p) as i32
}

/// Three 32-bit IEEE-754 bit patterns, byte-exact as stored on the wire.
///
/// The decoder never does floating-point arithmetic, so vectors keep the
/// stored representation; consumers reinterpret the bits when they need
/// real numbers.
#[derive(Debug, Clone, Copy, PartialEq, Eq, Structural)]
pub struct Vec3Bits {
    pub x: u32,
    pub y: u32,
    pub z: u32,
}

/// The vector of three little-endian 32-bit values at positions
/// `p` .. `p + 12` of `b`.
pub open spec fn vec3_at(b: Seq<u8>, p: int) -> Vec3Bits {
    Vec3Bits { x: le32(b, p), y: le32(b, p + 4), z: le32(b, p + 8) }
}

/// A random-access byte source: an in-memory buffer and a cursor.
///
/// BSP and WAD files address their lumps by absolute offset, so decoding
/// needs seeking, not a forward stream. The caller reads the file (or any
/// other source) into memory and hands the bytes over; every read below is
/// then exact: it succeeds if and only if the requested bytes exist.
#[derive(Debug)]
pub struct ByteReader {
    data: Vec<u8>,
    pos: usize,
}

impl ByteReader {
    /// The underlying bytes.
    pub closed spec fn bytes(&self) -> Seq<u8> {
        self.data@
    }

    /// The cursor: the index of the next byte to be read.
    pub closed spec fn position(&self) -> int {
        self.pos as int
    }

    pub fn new(data: Vec<u8>) -> (r: ByteReader)
        ensures
            r.bytes() == data@,
            r.position() == 0,
    {
        ByteReader { data, pos: 0 }
    }

    /// Move the cursor to an absolute position. Seeking past the end is
    /// allowed, as on any random-access source; reads there fail.
    pub fn seek(&mut self, pos: usize)
        ensures
            final(self).bytes() == old(self).bytes(),
            final(self).position() == pos as int,
    {
        self.pos = pos;
    }

    pub fn read_u8(&mut self) -> (res: Result<u8, Error>)
        ensures
            final(self).bytes() == old(self).bytes(),
            old(self).position() + 1 <= old(self).bytes().len() ==> {
                &&& res matches Ok(v) && v == old(self).bytes()[old(self).position()]
                &&& final(self).position() == old(self).position() + 1
            },
            old(self).position() + 1 > old(self).bytes().len() ==> {
                &&& res matches Err(e) && e is Io
                &&& final(self).position() == old(self).position()
            },
    {
        if self.pos < self.data.len() {
            let v = self.data[self.pos];
            self.pos = self.pos + 1;
            Ok(v)
        } else {
            Err(Error::Io)
        }
    }

    pub fn read_u16_le(&mut self) -> (res: Result<u16, Error>)
        ensures
            final(self).bytes() == old(self).bytes(),
            old(self).position() + 2 <= old(self).bytes().len() ==> {
                &&& res matches Ok(v) && v == le16(old(self).bytes(), old(self).position())
                &&& final(self).position() == old(self).position() + 2
            },
            old(self).position() + 2 > old(self).bytes().len() ==> {
                &&& res matches Err(e) && e is Io
                &&& final(self).position() == old(self).position()
            },
    {
        if self.pos < self.data.len() && self.data.len() - self.pos >= 2 {
            let b0 = self.data[self.pos];
            let b1 = self.data[self.pos + 1];
            self.pos = self.pos + 2;
            Ok((b0 as u16) + 0x100 * (b1 as u16))
        } else {
            Err(Error::Io)
        }
    }

    pub fn read_i16_le(&mut self) -> (res: Result<i16, Error>)
        ensures
            final(self).bytes() == old(self).bytes(),
            old(self).position() + 2 <= old(self).bytes().len() ==> {
                &&& res matches Ok(v) && v == le_i16(old(self).bytes(), old(self).position())
                &&& final(self).position() == old(self).position() + 2
            },
            old(self).position() + 2 > old(self).bytes().len() ==> {
                &&& res matches Err(e) && e is Io
                &&& final(self).position() == old(self).position()
            },
    {
        match self.read_u16_le() {
            Ok(v) => Ok(v as i16),
            Err(e) => Err(e),
        }
    }

    pub fn read_u32_le(&mut self) -> (res: Result<u32, Error>)
        ensures
            final(self).bytes() == old(self).bytes(),
            old(self).position() + 4 <= old(self).bytes().len() ==> {
                &&& res matches Ok(v) && v == le32(old(self).bytes(), old(self).position())
                &&& final(self).position() == old(self).position() + 4
            },
            old(self).position() + 4 > old(self).bytes().len() ==> {
                &&& res matches Err(e) && e is Io
                &&& final(self).position() == old(self).position()
            },
    {
        if self.pos < self.data.len() && self.data.len() - self.pos >= 4 {
            let b0 = self.data[self.pos];
            let b1 = self.data[self.pos + 1];
            let b2 = self.data[self.pos + 2];
            let b3 = self.data[self.pos + 3];
            self.pos = self.pos + 4;
            Ok((b0 as u32) + 0x100 * (b1 as u32) + 0x1_0000 * (b2 as u32) + 0x100_0000 * (
            b3 as u32))
        } else {
            Err(Error::Io)
        }
    }

    /// Reads three consecutive 32-bit bit patterns as one vector.
    pub fn read_vec3(&mut self) -> (res: Result<Vec3Bits, Error>)
        ensures
            final(self).bytes() == old(self).bytes(),
            old(self).position() + 12 <= old(self).bytes().len() ==> {
                &&& res matches Ok(v) && v == vec3_at(old(self).bytes(), old(self).position())
                &&& final(self).position() == old(self).position() + 12
            },
            old(self).position() + 12 > old(self).bytes().len() ==> (res matches Err(e)
                && e is Io),
    {
        let x = self.read_u32_le()?;
        let y = self.read_u32_le()?;
        let z = self.read_u32_le()?;
        Ok(Vec3Bits { x, y, z })
    }

    pub fn read_i32_le(&mut self) -> (res: Result<i32, Error>)
        ensures
            final(self).bytes() == old(self).bytes(),
            old(self).position() + 4 <= old(self).bytes().len() ==> {
                &&& res matches Ok(v) && v == le_i32(old(self).bytes(), old(self).position())
                &&& final(self).position() == old(self).position() + 4
            },
            old(self).position() + 4 > old(self).bytes().len() ==> {
                &&& res matches Err(e) && e is Io
                &&& final(self).position() == old(self).position()
            },
    {
        match self.read_u32_le() {
            Ok(v) => Ok(v as i32),
            Err(e) => Err(e),
        }
    }
}

/// Reads `N` consecutive bytes into a fixed array.
pub fn read_array_u8<const N: usize>(r: &mut ByteReader) -> (res: Result<[u8; N], Error>)
    ensures
        final(r).bytes() == old(r).bytes(),
        (N == 0 || old(r).position() + N <= old(r).bytes().len()) ==> {
            &&& res matches Ok(a)
            &&& forall|j: int|
                0 <= j < N ==> (#[trigger] a@[j]) == old(r).bytes()[old(r).position() + j]
            &&& final(r).position() == old(r).position() + N
        },
        (0 < N && old(r).position() + N > old(r).bytes().len()) ==> (res matches Err(e)
            && e is Io),
{
    let mut a: [u8; N] = vstd::array::array_fill_for_copy_types::<u8, N>(0);
    let mut i: usize = 0;
    while i < N
        invariant
            r.bytes() == old(r).bytes(),
            i <= N,
            r.position() == old(r).position() + i,
            forall|j: int| 0 <= j < i ==> (#[trigger] a@[j]) == r.bytes()[old(r).position() + j],
            i > 0 ==> old(r).position() + i <= r.bytes().len(),
        decreases N - i,
    {
        let v = r.read_u8()?;
        a[i] = v;
        i = i + 1;
    }
    Ok(a)
}

/// Reads `N` consecutive little-endian i16 values into a fixed array.
pub fn read_array_i16<const N: usize>(r: &mut ByteReader) -> (res: Result<[i16; N], Error>)
    ensures
        final(r).bytes() == old(r).bytes(),
        (N == 0 || old(r).position() + 2 * N <= old(r).bytes().len()) ==> {
            &&& res matches Ok(a)
            &&& forall|j: int|
                0 <= j < N ==> (#[trigger] a@[j]) == le_i16(old(r).bytes(), old(r).position() + 2
                    * j)
            &&& final(r).position() == old(r).position() + 2 * N
        },
        (0 < N && old(r).position() + 2 * N > old(r).bytes().len()) ==> (res matches Err(e)
            && e is Io),
{
    let mut a: [i16; N] = vstd::array::array_fill_for_copy_types::<i16, N>(0);
    let mut i: usize = 0;
    while i < N
        invariant
            r.bytes() == old(r).bytes(),
            i <= N,
            r.position() == old(r).position() + 2 * i,
            forall|j: int|
                0 <= j < i ==> (#[trigger] a@[j]) == le_i16(r.bytes(), old(r).position() + 2 * j),
            i > 0 ==> old(r).position() + 2 * i <= r.bytes().len(),
        decreases N - i,
    {
        let v = r.read_i16_le()?;
        a[i] = v;
        i = i + 1;
    }
    Ok(a)
}

/// Reads `N` consecutive little-endian i32 values into a fixed array.
pub fn read_array_i32<const N: usize>(r: &mut ByteReader) -> (res: Result<[i32; N], Error>)
    ensures
        final(r).bytes() == old(r).bytes(),
        (N == 0 || old(r).position() + 4 * N <= old(r).bytes().len()) ==> {
            &&& res matches Ok(a)
            &&& forall|j: int|
                0 <= j < N ==> (#[trigger] a@[j]) == le_i32(old(r).bytes(), old(r).position() + 4
                    * j)
            &&& final(r).position() == old(r).position() + 4 * N
        },
        (0 < N && old(r).position() + 4 * N > old(r).bytes().len()) ==> (res matches Err(e)
            && e is Io),
{
    let mut a: [i32; N] = vstd::array::array_fill_for_copy_types::<i32, N>(0);
    let mut i: usize = 0;
    while i < N
        invariant
            r.bytes() == old(r).bytes(),
            i <= N,
            r.position() == old(r).position() + 4 * i,
            forall|j: int|
                0 <= j < i ==> (#[trigger] a@[j]) == le_i32(r.bytes(), old(r).position() + 4 * j),
            i > 0 ==> old(r).position() + 4 * i <= r.bytes().len(),
        decreases N - i,
    {
        let v = r.read_i32_le()?;
        a[i] = v;
        i = i + 1;
    }
    Ok(a)
}

/// Reads `N` consecutive little-endian u32 values into a fixed array.
pub fn read_array_u32<const N: usize>(r: &mut ByteReader) -> (res: Result<[u32; N], Error>)
    ensures
        final(r).bytes() == old(r).bytes(),
        (N == 0 || old(r).position() + 4 * N <= old(r).bytes().len()) ==> {
            &&& res matches Ok(a)
            &&& forall|j: int|
                0 <= j < N ==> (#[trigger] a@[j]) == le32(old(r).bytes(), old(r).position() + 4
                    * j)
            &&& final(r).position() == old(r).position() + 4 * N
        },
        (0 < N && old(r).position() + 4 * N > old(r).bytes().len()) ==> (res matches Err(e)
            && e is Io),
{
    let mut a: [u32; N] = vstd::array::array_fill_for_copy_types::<u32, N>(0);
    let mut i: usize = 0;
    while i < N
        invariant
            r.bytes() == old(r).bytes(),
            i <= N,
            r.position() == old(r).position() + 4 * i,
            forall|j: int|
                0 <= j < i ==> (#[trigger] a@[j]) == le32(r.bytes(), old(r).position() + 4 * j),
            i > 0 ==> old(r).position() + 4 * i <= r.bytes().len(),
        decreases N - i,
    {
        let v = r.read_u32_le()?;
        a[i] = v;
        i = i + 1;
    }
    Ok(a)
}

} // verus!
