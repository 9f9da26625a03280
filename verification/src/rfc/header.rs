//! The header of a message: twelve bytes.
//!
//! ```text
//! +--+--+--+--+--+--+--+--+--+--+--+--+--+--+--+--+
//! |                      ID                       |
//! +--+--+--+--+--+--+--+--+--+--+--+--+--+--+--+--+
//! |QR|   Opcode  |AA|TC|RD|RA|Z |AD|CD|   RCODE   |
//! +--+--+--+--+--+--+--+--+--+--+--+--+--+--+--+--+
//! |                    QDCOUNT                    |
//! +--+--+--+--+--+--+--+--+--+--+--+--+--+--+--+--+
//! |                    ANCOUNT                    |
//! +--+--+--+--+--+--+--+--+--+--+--+--+--+--+--+--+
//! |                    NSCOUNT                    |
//! +--+--+--+--+--+--+--+--+--+--+--+--+--+--+--+--+
//! |                    ARCOUNT                    |
//! +--+--+--+--+--+--+--+--+--+--+--+--+--+--+--+--+
//! ```

use crate::error::Error;
use crate::rfc::flags::{BitFlags, Flags};
use crate::rfc::opcode::OpCode;
use crate::rfc::packet_type::PacketType;
use crate::rfc::response_code::ResponseCode;
use crate::wire::{
    lemma_u16_round_trip, read_u16_at, spec_read_u16, spec_u16_be, write_u16, Cursor,
};
use vstd::prelude::*;

verus! {

/// The number of bytes of a header.
pub const HEADER_LEN: usize = 12;

/// The header of a message.
#[derive(Debug, Clone, Copy, PartialEq, Eq, Structural)]
pub struct Header {
    /// The number by which a response is matched to its query.
    pub id: u16,
    pub flags: Flags,
    /// The number of entries in the question section.
    pub qd_count: u16,
    /// The number of records in the answer section.
    pub an_count: u16,
    /// The number of records in the authority section.
    pub ns_count: u16,
    /// The number of records in the additional section.
    pub ar_count: u16,
}

/// The twelve bytes of a header.
pub open spec fn spec_encode(h: Header) -> Seq<u8> {
    spec_u16_be(h.id) + h.flags.spec_wire() + spec_u16_be(h.qd_count) + spec_u16_be(h.an_count)
        + spec_u16_be(h.ns_count) + spec_u16_be(h.ar_count)
}

/// The header at `pos` in `buf`. The fields are read in their order, and the
/// first that fails gives the error.
pub open spec fn spec_decode(buf: Seq<u8>, pos: int) -> Result<Header, Error> {
    match spec_read_u16(buf, pos) {
        Err(e) => Err(e),
        Ok(id) => match Flags::spec_decode(buf, pos + 2) {
            Err(e) => Err(e),
            Ok(flags) => match spec_read_u16(buf, pos + 4) {
                Err(e) => Err(e),
                Ok(qd_count) => match spec_read_u16(buf, pos + 6) {
                    Err(e) => Err(e),
                    Ok(an_count) => match spec_read_u16(buf, pos + 8) {
                        Err(e) => Err(e),
                        Ok(ns_count) => match spec_read_u16(buf, pos + 10) {
                            Err(e) => Err(e),
                            Ok(ar_count) => Ok(
                                Header { id, flags, qd_count, an_count, ns_count, ar_count },
                            ),
                        },
                    },
                },
            },
        },
    }
}

impl Header {
    /// Appends the twelve bytes of the header to `buffer` and returns their
    /// number.
    pub fn serialize_to(&self, buffer: &mut Vec<u8>) -> (r: Result<usize, Error>)
        ensures
            r == Ok::<usize, Error>(12),
            spec_encode(*self).len() == 12,
            final(buffer)@ == old(buffer)@ + spec_encode(*self),
    {
        write_u16(buffer, self.id);
        write_u16(buffer, self.flags.word());
        write_u16(buffer, self.qd_count);
        write_u16(buffer, self.an_count);
        write_u16(buffer, self.ns_count);
        write_u16(buffer, self.ar_count);
        assert(buffer@ =~= old(buffer)@ + spec_encode(*self));
        Ok(HEADER_LEN)
    }

    /// Decodes the header at `pos` in `buf`.
    pub fn decode_at(buf: &[u8], pos: usize) -> (r: Result<Header, Error>)
        ensures
            r == spec_decode(buf@, pos as int),
            r is Ok ==> pos + 12 <= buf@.len(),
    {
        let len = buf.len();
        let id = match read_u16_at(buf, pos) {
            Ok(v) => v,
            Err(e) => {
                return Err(e);
            },
        };
        let flags = match read_u16_at(buf, pos + 2) {
            Ok(v) => match Flags::try_from(v) {
                Ok(flags) => flags,
                Err(e) => {
                    return Err(e);
                },
            },
            Err(e) => {
                return Err(e);
            },
        };
        let qd_count = match read_u16_at(buf, pos + 4) {
            Ok(v) => v,
            Err(e) => {
                return Err(e);
            },
        };
        let an_count = match read_u16_at(buf, pos + 6) {
            Ok(v) => v,
            Err(e) => {
                return Err(e);
            },
        };
        let ns_count = match read_u16_at(buf, pos + 8) {
            Ok(v) => v,
            Err(e) => {
                return Err(e);
            },
        };
        let ar_count = match read_u16_at(buf, pos + 10) {
            Ok(v) => v,
            Err(e) => {
                return Err(e);
            },
        };
        Ok(Header { id, flags, qd_count, an_count, ns_count, ar_count })
    }

    /// Reads a header at the cursor. On success the header replaces `self`
    /// and the cursor has moved past its twelve bytes; on an error both stay
    /// as they were.
    pub fn deserialize_from(&mut self, buffer: &mut Cursor) -> (r: Result<(), Error>)
        ensures
            final(buffer).buf == old(buffer).buf,
            match spec_decode(old(buffer).bytes(), old(buffer).pos as int) {
                Ok(header) => {
                    &&& r is Ok
                    &&& *final(self) == header
                    &&& final(buffer).pos == old(buffer).pos + 12
                },
                Err(e) => {
                    &&& r == Err::<(), Error>(e)
                    &&& *final(self) == *old(self)
                    &&& final(buffer).pos == old(buffer).pos
                },
            },
    {
        let len = buffer.buf.len();
        match Self::decode_at(buffer.buf, buffer.position()) {
            Ok(header) => {
                *self = header;
                buffer.set_position(buffer.position() + HEADER_LEN);
                Ok(())
            },
            Err(e) => Err(e),
        }
    }
}

impl Default for Header {
    /// The header of a standard query with no entries.
    fn default() -> (h: Self)
        ensures
            h == (Header {
                id: 0,
                flags: Flags {
                    qr: PacketType::Query,
                    op_code: OpCode::Query,
                    bitflags: BitFlags {
                        authorative_answer: false,
                        truncation: false,
                        recursion_desired: true,
                        recursion_available: false,
                        z: false,
                        authentic_data: false,
                        checking_disabled: false,
                    },
                    response_code: ResponseCode::NoError,
                },
                qd_count: 0,
                an_count: 0,
                ns_count: 0,
                ar_count: 0,
            }),
    {
        Header {
            id: 0,
            flags: Flags::default(),
            qd_count: 0,
            an_count: 0,
            ns_count: 0,
            ar_count: 0,
        }
    }
}

/// A header, encoded anywhere in a buffer, decodes to the same header.
pub proof fn lemma_round_trip(before: Seq<u8>, h: Header, after: Seq<u8>)
    ensures
        spec_encode(h).len() == 12,
        spec_decode(before + spec_encode(h) + after, before.len() as int) == Ok::<Header, Error>(
            h,
        ),
{
    let wire = spec_encode(h);
    let buf = before + wire + after;
    let at = before.len() as int;
    lemma_u16_round_trip(h.id);
    h.flags.lemma_round_trip();
    lemma_u16_round_trip(h.flags.spec_word());
    lemma_u16_round_trip(h.qd_count);
    lemma_u16_round_trip(h.an_count);
    lemma_u16_round_trip(h.ns_count);
    lemma_u16_round_trip(h.ar_count);
    assert(wire[0] == spec_u16_be(h.id)[0] && wire[1] == spec_u16_be(h.id)[1]);
    assert(wire[2] == h.flags.spec_wire()[0] && wire[3] == h.flags.spec_wire()[1]);
    assert(wire[4] == spec_u16_be(h.qd_count)[0] && wire[5] == spec_u16_be(h.qd_count)[1]);
    assert(wire[6] == spec_u16_be(h.an_count)[0] && wire[7] == spec_u16_be(h.an_count)[1]);
    assert(wire[8] == spec_u16_be(h.ns_count)[0] && wire[9] == spec_u16_be(h.ns_count)[1]);
    assert(wire[10] == spec_u16_be(h.ar_count)[0] && wire[11] == spec_u16_be(h.ar_count)[1]);
    assert(buf[at + 0] == wire[0]);
    assert(buf[at + 1] == wire[1]);
    assert(buf[at + 2] == wire[2]);
    assert(buf[at + 3] == wire[3]);
    assert(buf[at + 4] == wire[4]);
    assert(buf[at + 5] == wire[5]);
    assert(buf[at + 6] == wire[6]);
    assert(buf[at + 7] == wire[7]);
    assert(buf[at + 8] == wire[8]);
    assert(buf[at + 9] == wire[9]);
    assert(buf[at + 10] == wire[10]);
    assert(buf[at + 11] == wire[11]);
}

} // verus!
