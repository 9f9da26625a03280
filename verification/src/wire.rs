//! Big-endian primitives over a byte buffer.
//!
//! Reading is done through a [`Cursor`]: an immutable buffer and a position in
//! it. Writing appends to a `Vec<u8>`. Every multi-byte integer is in network
//! byte order.

use crate::error::Error;
use byteorder::{BigEndian, ByteOrder};
use vstd::prelude::*;

verus! {

/// The 16-bit integer whose big-endian bytes are `hi`, `lo`.
pub open spec fn spec_u16_from_be(hi: u8, lo: u8) -> int {
    hi as int * 256 + lo as int
}

/// The 32-bit integer whose big-endian bytes are `b0` to `b3`.
pub open spec fn spec_u32_from_be(b0: u8, b1: u8, b2: u8, b3: u8) -> int {
    b0 as int * 16777216 + b1 as int * 65536 + b2 as int * 256 + b3 as int
}

/// The two bytes of `v`, most significant first.
pub open spec fn spec_u16_be(v: u16) -> Seq<u8> {
    seq![(v / 256) as u8, (v % 256) as u8]
}

/// The four bytes of `v`, most significant first.
pub open spec fn spec_u32_be(v: u32) -> Seq<u8> {
    seq![
        (v / 16777216) as u8,
        (v / 65536 % 256) as u8,
        (v / 256 % 256) as u8,
        (v % 256) as u8,
    ]
}

/// Whether `n` bytes can be read from `buf` at `pos`.
pub open spec fn spec_has(buf: Seq<u8>, pos: int, n: int) -> bool {
    0 <= pos && pos + n <= buf.len()
}

/// The byte at `pos`, if there is one.
pub open spec fn spec_read_u8(buf: Seq<u8>, pos: int) -> Result<u8, Error> {
    if spec_has(buf, pos, 1) {
        Ok(buf[pos])
    } else {
        Err(Error::Truncated)
    }
}

/// The big-endian 16-bit integer at `pos`, if two bytes are there.
pub open spec fn spec_read_u16(buf: Seq<u8>, pos: int) -> Result<u16, Error> {
    if spec_has(buf, pos, 2) {
        Ok(spec_u16_from_be(buf[pos], buf[pos + 1]) as u16)
    } else {
        Err(Error::Truncated)
    }
}

/// The big-endian 32-bit integer at `pos`, if four bytes are there.
pub open spec fn spec_read_u32(buf: Seq<u8>, pos: int) -> Result<u32, Error> {
    if spec_has(buf, pos, 4) {
        Ok(spec_u32_from_be(buf[pos], buf[pos + 1], buf[pos + 2], buf[pos + 3]) as u32)
    } else {
        Err(Error::Truncated)
    }
}

/// `byteorder::BigEndian::read_u16` on the bytes of `buf` from `pos` on: the
/// first of the two bytes is the more significant one. The call panics on
/// fewer than two bytes, which `requires` leaves out.
#[verifier::external_body]
fn be_read_u16(buf: &[u8], pos: usize) -> (r: u16)
    requires
        pos + 2 <= buf@.len(),
    ensures
        r == spec_u16_from_be(buf@[pos as int], buf@[pos + 1]),
{
    BigEndian::read_u16(&buf[pos..])
}

/// `byteorder::BigEndian::read_u32` on the bytes of `buf` from `pos` on: the
/// first of the four bytes is the most significant one. The call panics on
/// fewer than four bytes, which `requires` leaves out.
#[verifier::external_body]
fn be_read_u32(buf: &[u8], pos: usize) -> (r: u32)
    requires
        pos + 4 <= buf@.len(),
    ensures
        r == spec_u32_from_be(buf@[pos as int], buf@[pos + 1], buf@[pos + 2], buf@[pos + 3]),
{
    BigEndian::read_u32(&buf[pos..])
}

/// `byteorder::BigEndian::write_u16` into a fresh array of two bytes: the more
/// significant byte comes first.
#[verifier::external_body]
fn be_write_u16(n: u16) -> (r: [u8; 2])
    ensures
        r@ == spec_u16_be(n),
{
    let mut bytes = [0u8; 2];
    BigEndian::write_u16(&mut bytes, n);
    bytes
}

/// `byteorder::BigEndian::write_u32` into a fresh array of four bytes: the
/// most significant byte comes first.
#[verifier::external_body]
fn be_write_u32(n: u32) -> (r: [u8; 4])
    ensures
        r@ == spec_u32_be(n),
{
    let mut bytes = [0u8; 4];
    BigEndian::write_u32(&mut bytes, n);
    bytes
}

/// Appends one byte to `buffer` and returns the number of bytes written.
pub fn write_u8(buffer: &mut Vec<u8>, v: u8) -> (n: usize)
    ensures
        final(buffer)@ == old(buffer)@.push(v),
        n == 1,
{
    buffer.push(v);
    1
}

/// Appends `v` to `buffer` in network byte order and returns the number of
/// bytes written.
pub fn write_u16(buffer: &mut Vec<u8>, v: u16) -> (n: usize)
    ensures
        final(buffer)@ == old(buffer)@ + spec_u16_be(v),
        n == 2,
{
    let bytes = be_write_u16(v);
    buffer.push(bytes[0]);
    buffer.push(bytes[1]);
    assert(buffer@ =~= old(buffer)@ + spec_u16_be(v));
    2
}

/// Appends `v` to `buffer` in network byte order and returns the number of
/// bytes written.
pub fn write_u32(buffer: &mut Vec<u8>, v: u32) -> (n: usize)
    ensures
        final(buffer)@ == old(buffer)@ + spec_u32_be(v),
        n == 4,
{
    let bytes = be_write_u32(v);
    buffer.push(bytes[0]);
    buffer.push(bytes[1]);
    buffer.push(bytes[2]);
    buffer.push(bytes[3]);
    assert(buffer@ =~= old(buffer)@ + spec_u32_be(v));
    4
}

/// Appends all of `bytes` to `buffer`.
pub fn write_bytes(buffer: &mut Vec<u8>, bytes: &[u8])
    ensures
        final(buffer)@ == old(buffer)@ + bytes@,
{
    let mut i: usize = 0;
    while i < bytes.len()
        invariant
            i <= bytes@.len(),
            buffer@ == old(buffer)@ + bytes@.subrange(0, i as int),
        decreases bytes@.len() - i,
    {
        buffer.push(bytes[i]);
        i += 1;
        assert(buffer@ =~= old(buffer)@ + bytes@.subrange(0, i as int));
    }
    assert(bytes@.subrange(0, i as int) =~= bytes@);
}

/// A copy of the `len` bytes of `buf` from `from` on.
pub fn copy_range(buf: &[u8], from: usize, len: usize) -> (v: Vec<u8>)
    requires
        from + len <= buf@.len(),
    ensures
        v@ == buf@.subrange(from as int, from + len),
{
    let n = buf.len();
    let mut v: Vec<u8> = Vec::new();
    let mut i: usize = 0;
    while i < len
        invariant
            i <= len,
            from + len <= buf@.len(),
            n == buf@.len(),
            v@ == buf@.subrange(from as int, from + i),
        decreases len - i,
    {
        v.push(buf[from + i]);
        i += 1;
        assert(v@ =~= buf@.subrange(from as int, from + i));
    }
    v
}

/// Reads the byte at `pos`.
pub fn read_u8_at(buf: &[u8], pos: usize) -> (r: Result<u8, Error>)
    ensures
        r == spec_read_u8(buf@, pos as int),
{
    if pos < buf.len() {
        Ok(buf[pos])
    } else {
        Err(Error::Truncated)
    }
}

/// Reads the big-endian 16-bit integer at `pos`.
pub fn read_u16_at(buf: &[u8], pos: usize) -> (r: Result<u16, Error>)
    ensures
        r == spec_read_u16(buf@, pos as int),
{
    if pos <= buf.len() && buf.len() - pos >= 2 {
        Ok(be_read_u16(buf, pos))
    } else {
        Err(Error::Truncated)
    }
}

/// Reads the big-endian 32-bit integer at `pos`.
pub fn read_u32_at(buf: &[u8], pos: usize) -> (r: Result<u32, Error>)
    ensures
        r == spec_read_u32(buf@, pos as int),
{
    if pos <= buf.len() && buf.len() - pos >= 4 {
        Ok(be_read_u32(buf, pos))
    } else {
        Err(Error::Truncated)
    }
}

/// An immutable buffer that holds a whole message, and a position in it.
///
/// Decoders read at the position and move it past exactly what they consumed.
/// The buffer stays whole, so that a compression pointer can reach any earlier
/// offset of the message.
#[derive(Debug, Clone, Copy)]
pub struct Cursor<'a> {
    pub buf: &'a [u8],
    pub pos: usize,
}

impl<'a> Cursor<'a> {
    /// A cursor at the start of `buf`.
    pub fn new(buf: &'a [u8]) -> (c: Self)
        ensures
            c.buf@ == buf@,
            c.pos == 0,
    {
        Cursor { buf, pos: 0 }
    }

    /// The bytes of the whole buffer.
    pub open spec fn bytes(&self) -> Seq<u8> {
        self.buf@
    }

    /// The offset of the next byte to read.
    pub fn position(&self) -> (p: usize)
        ensures
            p == self.pos,
    {
        self.pos
    }

    /// Moves the cursor to the offset `pos`.
    pub fn set_position(&mut self, pos: usize)
        ensures
            final(self).buf == old(self).buf,
            final(self).pos == pos,
    {
        self.pos = pos;
    }

    /// The number of bytes from the position to the end of the buffer.
    pub fn remaining(&self) -> (n: usize)
        ensures
            n == if self.pos <= self.buf@.len() {
                self.buf@.len() - self.pos
            } else {
                0
            },
    {
        if self.pos <= self.buf.len() {
            self.buf.len() - self.pos
        } else {
            0
        }
    }

    /// Reads one byte and moves past it. On an error the cursor stays.
    pub fn read_u8(&mut self) -> (r: Result<u8, Error>)
        ensures
            r == spec_read_u8(old(self).bytes(), old(self).pos as int),
            final(self).buf == old(self).buf,
            final(self).pos == if r.is_ok() {
                old(self).pos + 1
            } else {
                old(self).pos as int
            },
    {
        let len = self.buf.len();
        let r = read_u8_at(self.buf, self.pos);
        if r.is_ok() {
            assert(self.pos + 1 <= len);
            self.pos = self.pos + 1;
        }
        r
    }

    /// Reads a big-endian 16-bit integer and moves past it. On an error the
    /// cursor stays.
    pub fn read_u16(&mut self) -> (r: Result<u16, Error>)
        ensures
            r == spec_read_u16(old(self).bytes(), old(self).pos as int),
            final(self).buf == old(self).buf,
            final(self).pos == if r.is_ok() {
                old(self).pos + 2
            } else {
                old(self).pos as int
            },
    {
        let len = self.buf.len();
        let r = read_u16_at(self.buf, self.pos);
        if r.is_ok() {
            assert(self.pos + 2 <= len);
            self.pos = self.pos + 2;
        }
        r
    }

    /// Reads a big-endian 32-bit integer and moves past it. On an error the
    /// cursor stays.
    pub fn read_u32(&mut self) -> (r: Result<u32, Error>)
        ensures
            r == spec_read_u32(old(self).bytes(), old(self).pos as int),
            final(self).buf == old(self).buf,
            final(self).pos == if r.is_ok() {
                old(self).pos + 4
            } else {
                old(self).pos as int
            },
    {
        let len = self.buf.len();
        let r = read_u32_at(self.buf, self.pos);
        if r.is_ok() {
            assert(self.pos + 4 <= len);
            self.pos = self.pos + 4;
        }
        r
    }
}

/// Two bytes written in network order read back as the same integer.
pub proof fn lemma_u16_round_trip(v: u16)
    ensures
        spec_u16_be(v).len() == 2,
        spec_read_u16(spec_u16_be(v), 0) == Ok::<u16, Error>(v),
{
}

/// Four bytes written in network order read back as the same integer.
pub proof fn lemma_u32_round_trip(v: u32)
    ensures
        spec_u32_be(v).len() == 4,
        spec_read_u32(spec_u32_be(v), 0) == Ok::<u32, Error>(v),
{
}

} // verus!
