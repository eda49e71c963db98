//! Reading integers and byte runs out of the bytes of an embroidery file.
//!
//! A `ByteReader` walks over a byte slice the way the format readers walk over
//! a file: each read takes the next bytes and fails at the end of the data.

use vstd::prelude::*;
use crate::error::Error;

verus! {

/// The unsigned value of two bytes, least significant first.
pub open spec fn le16(b0: u8, b1: u8) -> int {
    b0 + 256 * b1
}

/// The unsigned value of two bytes, most significant first.
pub open spec fn be16(b0: u8, b1: u8) -> int {
    256 * b0 + b1
}

/// The unsigned value of three bytes, least significant first.
pub open spec fn le24(b0: u8, b1: u8, b2: u8) -> int {
    b0 + 256 * b1 + 65536 * b2
}

/// The unsigned value of three bytes, most significant first.
pub open spec fn be24(b0: u8, b1: u8, b2: u8) -> int {
    65536 * b0 + 256 * b1 + b2
}

/// The unsigned value of four bytes, least significant first.
pub open spec fn le32(b0: u8, b1: u8, b2: u8, b3: u8) -> int {
    b0 + 256 * b1 + 65536 * b2 + 16777216 * b3
}

/// The unsigned value of four bytes, most significant first.
pub open spec fn be32(b0: u8, b1: u8, b2: u8, b3: u8) -> int {
    16777216 * b0 + 65536 * b1 + 256 * b2 + b3
}

/// A 16-bit two's complement value.
pub open spec fn signed16(u: int) -> int {
    if u >= 0x8000 {
        u - 0x10000
    } else {
        u
    }
}

/// A 24-bit two's complement value.
pub open spec fn signed24(u: int) -> int {
    if u >= 0x80_0000 {
        u - 0x100_0000
    } else {
        u
    }
}

/// A 32-bit two's complement value.
pub open spec fn signed32(u: int) -> int {
    if u >= 0x8000_0000 {
        u - 0x1_0000_0000
    } else {
        u
    }
}

/// An 8-bit two's complement value.
pub open spec fn signed8(u: int) -> int {
    if u >= 0x80 {
        u - 0x100
    } else {
        u
    }
}

/// The byte `b` read as a signed byte.
pub fn byte_as_i8(b: u8) -> (v: i8)
    ensures
        v == signed8(b as int),
{
    if b >= 0x80 {
        (b as i16 - 256) as i8
    } else {
        b as i8
    }
}

/// Two bytes read as a little-endian unsigned value.
pub fn u16_le(b0: u8, b1: u8) -> (v: u16)
    ensures
        v == le16(b0, b1),
{
    (b1 as u16) * 256 + (b0 as u16)
}

/// Two bytes read as a big-endian unsigned value.
pub fn u16_be(b0: u8, b1: u8) -> (v: u16)
    ensures
        v == be16(b0, b1),
{
    (b0 as u16) * 256 + (b1 as u16)
}

/// A 16-bit value read as two's complement.
pub fn i16_of(u: u16) -> (v: i16)
    ensures
        v == signed16(u as int),
{
    if u >= 0x8000 {
        (u as i32 - 0x10000) as i16
    } else {
        u as i16
    }
}

/// A 24-bit value read as two's complement.
pub fn i24_of(u: u32) -> (v: i32)
    requires
        u < 0x100_0000,
    ensures
        v == signed24(u as int),
{
    if u >= 0x80_0000 {
        u as i32 - 0x100_0000
    } else {
        u as i32
    }
}

/// A 32-bit value read as two's complement.
pub fn i32_of(u: u32) -> (v: i32)
    ensures
        v == signed32(u as int),
{
    if u >= 0x8000_0000 {
        (u as i64 - 0x1_0000_0000) as i32
    } else {
        u as i32
    }
}

/// A cursor over a byte slice.
pub struct ByteReader<'a> {
    data: &'a [u8],
    pos: usize,
}

/// The message of a read past the end of the data.
pub open spec fn eof_message() -> Seq<char> {
    "Unexpected EOF"@
}

impl<'a> ByteReader<'a> {
    /// The bytes being read.
    pub closed spec fn bytes(&self) -> Seq<u8> {
        self.data@
    }

    /// The position of the next byte to read.
    pub closed spec fn pos(&self) -> int {
        self.pos as int
    }

    /// Whether `n` more bytes can be read.
    pub open spec fn has(&self, n: int) -> bool {
        self.pos() + n <= self.bytes().len()
    }

    /// The byte `k` places after the position.
    pub open spec fn at(&self, k: int) -> u8 {
        self.bytes()[self.pos() + k]
    }

    /// The `n` bytes from the position on.
    pub open spec fn next_bytes(&self, n: int) -> Seq<u8> {
        self.bytes().subrange(self.pos(), self.pos() + n)
    }

    /// A reader at the start of `data`.
    pub fn new(data: &'a [u8]) -> (r: Self)
        ensures
            r.bytes() == data@,
            r.pos() == 0,
    {
        ByteReader { data, pos: 0 }
    }

    /// The position of the next byte to read.
    pub fn position(&self) -> (p: usize)
        ensures
            p == self.pos(),
    {
        self.pos
    }

    /// The number of bytes left to read.
    pub fn remaining(&self) -> (n: usize)
        ensures
            n == (if self.pos() <= self.bytes().len() {
                self.bytes().len() - self.pos()
            } else {
                0
            }),
    {
        if self.pos <= self.data.len() {
            self.data.len() - self.pos
        } else {
            0
        }
    }

    /// Moves to position `pos`; a position past the end makes every later
    /// read fail.
    pub fn seek(&mut self, pos: usize)
        ensures
            final(self).bytes() == old(self).bytes(),
            final(self).pos() == pos,
    {
        self.pos = pos;
    }

    /// Whether `n` bytes are left.
    fn available(&self, n: usize) -> (b: bool)
        ensures
            b == self.has(n as int),
            self.bytes().len() <= usize::MAX,
    {
        self.pos <= self.data.len() && n <= self.data.len() - self.pos
    }

    /// Reads the next `count` bytes; at the end of the data the read fails
    /// and the position moves to the end.
    pub fn read_bytes(&mut self, count: usize) -> (r: Result<Vec<u8>, Error>)
        ensures
            final(self).bytes() == old(self).bytes(),
            old(self).has(count as int) ==> (r matches Ok(v) && v@ == old(self).next_bytes(
                count as int,
            ) && final(self).pos() == old(self).pos() + count),
            !old(self).has(count as int) ==> (r matches Err(Error::Parse(m)) && m@ == eof_message()
                && final(self).pos() == (if old(self).pos() > old(self).bytes().len() {
                old(self).pos()
            } else {
                old(self).bytes().len() as int
            })),
    {
        if !self.available(count) {
            if self.pos < self.data.len() {
                self.pos = self.data.len();
            }
            return Err(Error::Parse("Unexpected EOF".to_owned()));
        }
        let mut v: Vec<u8> = Vec::new();
        let mut k: usize = 0;
        while k < count
            invariant
                k <= count,
                self.pos + count <= self.data@.len() <= usize::MAX,
                v@ == self.data@.subrange(self.pos as int, self.pos + k),
            decreases count - k,
        {
            v.push(self.data[self.pos + k]);
            k = k + 1;
            assert(v@ =~= self.data@.subrange(self.pos as int, self.pos + k));
        }
        self.pos = self.pos + count;
        Ok(v)
    }

    /// Reads the next `count` bytes, saying in the error what was being read.
    pub fn read_bytes_with_context(&mut self, count: usize, context: &str) -> (r: Result<
        Vec<u8>,
        Error,
    >)
        ensures
            final(self).bytes() == old(self).bytes(),
            old(self).has(count as int) ==> (r matches Ok(v) && v@ == old(self).next_bytes(
                count as int,
            ) && final(self).pos() == old(self).pos() + count),
            !old(self).has(count as int) ==> (r matches Err(Error::Parse(m)) && m@
                == "Unexpected EOF while "@ + context@),
    {
        match self.read_bytes(count) {
            Ok(v) => Ok(v),
            Err(_) => Err(Error::Parse(crate::text::concat("Unexpected EOF while ", context))),
        }
    }

    /// Reads as many bytes as `expected` holds and checks that they are those
    /// bytes.
    pub fn read_magic(&mut self, expected: &[u8]) -> (r: Result<Vec<u8>, Error>)
        ensures
            final(self).bytes() == old(self).bytes(),
            r is Ok <==> (old(self).has(expected@.len() as int) && old(self).next_bytes(
                expected@.len() as int,
            ) == expected@),
            r matches Ok(v) ==> v@ == expected@ && final(self).pos() == old(self).pos()
                + expected@.len(),
            r is Err ==> (r matches Err(Error::Parse(_))),
    {
        let actual = match self.read_bytes(expected.len()) {
            Ok(v) => v,
            Err(e) => return Err(e),
        };
        let mut k: usize = 0;
        while k < expected.len()
            invariant
                self.bytes() == old(self).bytes(),
                old(self).has(expected@.len() as int),
                actual@ == old(self).next_bytes(expected@.len() as int),
                actual@.len() == expected@.len(),
                k <= expected@.len(),
                forall|j: int| 0 <= j < k ==> actual@[j] == expected@[j],
            decreases expected@.len() - k,
        {
            if actual[k] != expected[k] {
                assert(actual@ != expected@);
                return Err(Error::Parse("Magic bytes mismatch".to_owned()));
            }
            k = k + 1;
        }
        assert(actual@ =~= expected@);
        Ok(actual)
    }

    /// Reads one byte.
    pub fn read_u8(&mut self) -> (r: Result<u8, Error>)
        ensures
            final(self).bytes() == old(self).bytes(),
            old(self).has(1) ==> r == Ok::<u8, Error>(old(self).at(0)) && final(self).pos()
                == old(self).pos() + 1,
            !old(self).has(1) ==> r is Err && final(self).pos() == old(self).pos(),
    {
        if !self.available(1) {
            return Err(Error::Parse("Unexpected EOF".to_owned()));
        }
        let b = self.data[self.pos];
        self.pos = self.pos + 1;
        Ok(b)
    }

    /// Reads one signed byte.
    pub fn read_i8(&mut self) -> (r: Result<i8, Error>)
        ensures
            final(self).bytes() == old(self).bytes(),
            old(self).has(1) ==> (r matches Ok(v) && v == signed8(old(self).at(0) as int)
                && final(self).pos() == old(self).pos() + 1),
            !old(self).has(1) ==> r is Err && final(self).pos() == old(self).pos(),
    {
        match self.read_u8() {
            Ok(b) => Ok(byte_as_i8(b)),
            Err(e) => Err(e),
        }
    }

    /// Takes the next `n` bytes, leaving the position alone when they are not there.
    fn take(&mut self, n: usize) -> (r: Option<usize>)
        ensures
            final(self).bytes() == old(self).bytes(),
            old(self).has(n as int) ==> r == Some(old(self).pos() as usize) && final(self).pos()
                == old(self).pos() + n,
            !old(self).has(n as int) ==> r is None && final(self).pos() == old(self).pos(),
    {
        if !self.available(n) {
            return None;
        }
        let p = self.pos;
        self.pos = self.pos + n;
        Some(p)
    }

    /// Reads an unsigned 16-bit little-endian value.
    pub fn read_u16_le(&mut self) -> (r: Result<u16, Error>)
        ensures
            final(self).bytes() == old(self).bytes(),
            old(self).has(2) ==> (r matches Ok(v) && v == le16(old(self).at(0), old(self).at(1))
                && final(self).pos() == old(self).pos() + 2),
            !old(self).has(2) ==> r is Err && final(self).pos() == old(self).pos(),
    {
        match self.take(2) {
            Some(p) => Ok(u16_le(self.data[p], self.data[p + 1])),
            None => Err(Error::Parse("Unexpected EOF".to_owned())),
        }
    }

    /// Reads an unsigned 16-bit big-endian value.
    pub fn read_u16_be(&mut self) -> (r: Result<u16, Error>)
        ensures
            final(self).bytes() == old(self).bytes(),
            old(self).has(2) ==> (r matches Ok(v) && v == be16(old(self).at(0), old(self).at(1))
                && final(self).pos() == old(self).pos() + 2),
            !old(self).has(2) ==> r is Err && final(self).pos() == old(self).pos(),
    {
        match self.take(2) {
            Some(p) => Ok(u16_be(self.data[p], self.data[p + 1])),
            None => Err(Error::Parse("Unexpected EOF".to_owned())),
        }
    }

    /// Reads a signed 16-bit little-endian value.
    pub fn read_i16_le(&mut self) -> (r: Result<i16, Error>)
        ensures
            final(self).bytes() == old(self).bytes(),
            old(self).has(2) ==> (r matches Ok(v) && v == signed16(
                le16(old(self).at(0), old(self).at(1)),
            ) && final(self).pos() == old(self).pos() + 2),
            !old(self).has(2) ==> r is Err && final(self).pos() == old(self).pos(),
    {
        match self.read_u16_le() {
            Ok(u) => Ok(i16_of(u)),
            Err(e) => Err(e),
        }
    }

    /// Reads a signed 16-bit big-endian value.
    pub fn read_i16_be(&mut self) -> (r: Result<i16, Error>)
        ensures
            final(self).bytes() == old(self).bytes(),
            old(self).has(2) ==> (r matches Ok(v) && v == signed16(
                be16(old(self).at(0), old(self).at(1)),
            ) && final(self).pos() == old(self).pos() + 2),
            !old(self).has(2) ==> r is Err && final(self).pos() == old(self).pos(),
    {
        match self.read_u16_be() {
            Ok(u) => Ok(i16_of(u)),
            Err(e) => Err(e),
        }
    }

    /// Reads an unsigned 24-bit little-endian value.
    pub fn read_u24_le(&mut self) -> (r: Result<u32, Error>)
        ensures
            final(self).bytes() == old(self).bytes(),
            old(self).has(3) ==> (r matches Ok(v) && v == le24(
                old(self).at(0),
                old(self).at(1),
                old(self).at(2),
            ) && final(self).pos() == old(self).pos() + 3),
            !old(self).has(3) ==> r is Err && final(self).pos() == old(self).pos(),
    {
        match self.take(3) {
            Some(p) => Ok((self.data[p + 2] as u32) * 65536 + (self.data[p + 1] as u32) * 256 + (
            self.data[p] as u32)),
            None => Err(Error::Parse("Unexpected EOF".to_owned())),
        }
    }

    /// Reads an unsigned 24-bit big-endian value.
    pub fn read_u24_be(&mut self) -> (r: Result<u32, Error>)
        ensures
            final(self).bytes() == old(self).bytes(),
            old(self).has(3) ==> (r matches Ok(v) && v == be24(
                old(self).at(0),
                old(self).at(1),
                old(self).at(2),
            ) && final(self).pos() == old(self).pos() + 3),
            !old(self).has(3) ==> r is Err && final(self).pos() == old(self).pos(),
    {
        match self.take(3) {
            Some(p) => Ok((self.data[p] as u32) * 65536 + (self.data[p + 1] as u32) * 256 + (
            self.data[p + 2] as u32)),
            None => Err(Error::Parse("Unexpected EOF".to_owned())),
        }
    }

    /// Reads a signed 24-bit little-endian value.
    pub fn read_i24_le(&mut self) -> (r: Result<i32, Error>)
        ensures
            final(self).bytes() == old(self).bytes(),
            old(self).has(3) ==> (r matches Ok(v) && v == signed24(
                le24(old(self).at(0), old(self).at(1), old(self).at(2)),
            ) && final(self).pos() == old(self).pos() + 3),
            !old(self).has(3) ==> r is Err && final(self).pos() == old(self).pos(),
    {
        match self.read_u24_le() {
            Ok(u) => Ok(i24_of(u)),
            Err(e) => Err(e),
        }
    }

    /// Reads a signed 24-bit big-endian value.
    pub fn read_i24_be(&mut self) -> (r: Result<i32, Error>)
        ensures
            final(self).bytes() == old(self).bytes(),
            old(self).has(3) ==> (r matches Ok(v) && v == signed24(
                be24(old(self).at(0), old(self).at(1), old(self).at(2)),
            ) && final(self).pos() == old(self).pos() + 3),
            !old(self).has(3) ==> r is Err && final(self).pos() == old(self).pos(),
    {
        match self.read_u24_be() {
            Ok(u) => Ok(i24_of(u)),
            Err(e) => Err(e),
        }
    }

    /// Reads an unsigned 32-bit little-endian value.
    pub fn read_u32_le(&mut self) -> (r: Result<u32, Error>)
        ensures
            final(self).bytes() == old(self).bytes(),
            old(self).has(4) ==> (r matches Ok(v) && v == le32(
                old(self).at(0),
                old(self).at(1),
                old(self).at(2),
                old(self).at(3),
            ) && final(self).pos() == old(self).pos() + 4),
            !old(self).has(4) ==> r is Err && final(self).pos() == old(self).pos(),
    {
        match self.take(4) {
            Some(p) => Ok((self.data[p + 3] as u32) * 16777216 + (self.data[p + 2] as u32) * 65536
                + (self.data[p + 1] as u32) * 256 + (self.data[p] as u32)),
            None => Err(Error::Parse("Unexpected EOF".to_owned())),
        }
    }

    /// Reads an unsigned 32-bit big-endian value.
    pub fn read_u32_be(&mut self) -> (r: Result<u32, Error>)
        ensures
            final(self).bytes() == old(self).bytes(),
            old(self).has(4) ==> (r matches Ok(v) && v == be32(
                old(self).at(0),
                old(self).at(1),
                old(self).at(2),
                old(self).at(3),
            ) && final(self).pos() == old(self).pos() + 4),
            !old(self).has(4) ==> r is Err && final(self).pos() == old(self).pos(),
    {
        match self.take(4) {
            Some(p) => Ok((self.data[p] as u32) * 16777216 + (self.data[p + 1] as u32) * 65536 + (
            self.data[p + 2] as u32) * 256 + (self.data[p + 3] as u32)),
            None => Err(Error::Parse("Unexpected EOF".to_owned())),
        }
    }

    /// Reads a signed 32-bit little-endian value.
    pub fn read_i32_le(&mut self) -> (r: Result<i32, Error>)
        ensures
            final(self).bytes() == old(self).bytes(),
            old(self).has(4) ==> (r matches Ok(v) && v == signed32(
                le32(old(self).at(0), old(self).at(1), old(self).at(2), old(self).at(3)),
            ) && final(self).pos() == old(self).pos() + 4),
            !old(self).has(4) ==> r is Err && final(self).pos() == old(self).pos(),
    {
        match self.read_u32_le() {
            Ok(u) => Ok(i32_of(u)),
            Err(e) => Err(e),
        }
    }

    /// Reads a signed 32-bit big-endian value.
    pub fn read_i32_be(&mut self) -> (r: Result<i32, Error>)
        ensures
            final(self).bytes() == old(self).bytes(),
            old(self).has(4) ==> (r matches Ok(v) && v == signed32(
                be32(old(self).at(0), old(self).at(1), old(self).at(2), old(self).at(3)),
            ) && final(self).pos() == old(self).pos() + 4),
            !old(self).has(4) ==> r is Err && final(self).pos() == old(self).pos(),
    {
        match self.read_u32_be() {
            Ok(u) => Ok(i32_of(u)),
            Err(e) => Err(e),
        }
    }
}

} // verus!
