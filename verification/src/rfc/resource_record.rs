//! Resource records: the entries of the answer, authority and additional
//! sections.
//!
//! ```text
//! +--+--+--+--+--+--+--+--+--+--+--+--+--+--+--+--+
//! /                      NAME                     /
//! +--+--+--+--+--+--+--+--+--+--+--+--+--+--+--+--+
//! |                      TYPE                     |
//! +--+--+--+--+--+--+--+--+--+--+--+--+--+--+--+--+
//! |                     CLASS                     |
//! +--+--+--+--+--+--+--+--+--+--+--+--+--+--+--+--+
//! |                      TTL                      |
//! |                                               |
//! +--+--+--+--+--+--+--+--+--+--+--+--+--+--+--+--+
//! |                   RDLENGTH                    |
//! +--+--+--+--+--+--+--+--+--+--+--+--+--+--+--+--|
//! /                     RDATA                     /
//! +--+--+--+--+--+--+--+--+--+--+--+--+--+--+--+--+
//! ```
//!
//! The length of the data is not kept in the record: on the wire it is the
//! length of the encoded data.

use crate::error::Error;
use crate::rfc::domain;
use crate::rfc::domain::DomainName;
use crate::rfc::rdata;
use crate::rfc::rdata::{RData, RDataView};
use crate::wire::{
    lemma_u16_round_trip, lemma_u32_round_trip, read_u16_at, read_u32_at, spec_read_u16,
    spec_read_u32, spec_u16_be, spec_u32_be, write_u16, write_u32, Cursor,
};
use vstd::prelude::*;

verus! {

/// One resource record.
#[derive(Debug, Clone, PartialEq, Eq)]
pub struct ResourceRecord {
    /// The name that the record belongs to.
    pub name: DomainName,
    /// The type code of the record, which says how its data is laid out.
    pub rtype: u16,
    /// The class code of the record.
    pub class: u16,
    /// The seconds for which the record may be kept.
    pub ttl: u32,
    /// The data of the record.
    pub rdata: RData,
}

/// A resource record as a mathematical value.
pub ghost struct RecordView {
    pub name: Seq<Seq<u8>>,
    pub rtype: u16,
    pub class: u16,
    pub ttl: u32,
    pub rdata: RDataView,
}

impl View for ResourceRecord {
    type V = RecordView;

    open spec fn view(&self) -> RecordView {
        RecordView {
            name: self.name@,
            rtype: self.rtype,
            class: self.class,
            ttl: self.ttl,
            rdata: self.rdata@,
        }
    }
}

/// What stops a record from being encoded, if anything: its name, else its
/// data.
pub open spec fn spec_check(r: RecordView) -> Result<(), Error> {
    match domain::spec_check(r.name) {
        Err(e) => Err(e),
        Ok(_) => rdata::spec_check(r.rdata),
    }
}

/// The wire form of a record, names uncompressed: name, type, class, time to
/// live, the length of the data and the data.
pub open spec fn spec_encode(r: RecordView) -> Seq<u8> {
    domain::spec_encode(r.name) + spec_u16_be(r.rtype) + spec_u16_be(r.class) + spec_u32_be(r.ttl)
        + spec_u16_be(rdata::spec_encode(r.rdata).len() as u16) + rdata::spec_encode(r.rdata)
}

/// The record at `pos` in the message `buf`, and the offset behind its data.
/// The fields are read in their order, and the first that fails gives the
/// error.
#[verifier::opaque]
pub open spec fn spec_decode(buf: Seq<u8>, pos: int) -> Result<(RecordView, int), Error> {
    match domain::spec_decode(buf, pos) {
        Err(e) => Err(e),
        Ok((name, at)) => match spec_read_u16(buf, at) {
            Err(e) => Err(e),
            Ok(rtype) => match spec_read_u16(buf, at + 2) {
                Err(e) => Err(e),
                Ok(class) => match spec_read_u32(buf, at + 4) {
                    Err(e) => Err(e),
                    Ok(ttl) => match spec_read_u16(buf, at + 8) {
                        Err(e) => Err(e),
                        Ok(rdlength) => match rdata::spec_decode(buf, at + 10, rtype, rdlength) {
                            Err(e) => Err(e),
                            Ok(data) => Ok(
                                (
                                    RecordView { name, rtype, class, ttl, rdata: data },
                                    at + 10 + rdlength,
                                ),
                            ),
                        },
                    },
                },
            },
        },
    }
}

impl ResourceRecord {
    /// Whether the record can be encoded and its data is what its type
    /// carries.
    pub open spec fn wf(&self) -> bool {
        &&& spec_check(self@) is Ok
        &&& rdata::spec_matches(self.rdata@, self.rtype)
    }

    /// Checks the record against the limits of the wire format.
    pub fn check(&self) -> (r: Result<(), Error>)
        ensures
            r == spec_check(self@),
    {
        match self.name.check() {
            Err(e) => Err(e),
            Ok(_) => self.rdata.check(),
        }
    }

    /// Appends the wire form of the record to `buffer` and returns the number
    /// of bytes written. A record that fails the check is refused and the
    /// buffer left as it was.
    pub fn serialize_to(&self, buffer: &mut Vec<u8>) -> (r: Result<usize, Error>)
        ensures
            match spec_check(self@) {
                Ok(_) => {
                    &&& r == Ok::<usize, Error>(spec_encode(self@).len() as usize)
                    &&& final(buffer)@ == old(buffer)@ + spec_encode(self@)
                },
                Err(e) => r == Err::<usize, Error>(e) && final(buffer)@ == old(buffer)@,
            },
    {
        match self.check() {
            Err(e) => {
                return Err(e);
            },
            Ok(_) => {},
        }
        let mut data: Vec<u8> = Vec::new();
        let size = match self.rdata.serialize_to(&mut data) {
            Ok(size) => size,
            Err(e) => {
                return Err(e);
            },
        };
        assert(data@ =~= rdata::spec_encode(self.rdata@));
        let n = match self.name.serialize_to(buffer) {
            Ok(n) => n,
            Err(e) => {
                return Err(e);
            },
        };
        write_u16(buffer, self.rtype);
        write_u16(buffer, self.class);
        write_u32(buffer, self.ttl);
        write_u16(buffer, size as u16);
        crate::wire::write_bytes(buffer, data.as_slice());
        assert(buffer@ =~= old(buffer)@ + spec_encode(self@));
        Ok(n + 10 + size)
    }

    /// Decodes the record at `pos` in the message `buf` and gives it with the
    /// offset behind its data.
    pub fn decode_at(buf: &[u8], pos: usize) -> (r: Result<(ResourceRecord, usize), Error>)
        ensures
            match spec_decode(buf@, pos as int) {
                Ok((record, next)) => {
                    &&& r is Ok
                    &&& r->Ok_0.0@ == record
                    &&& r->Ok_0.1 == next
                    &&& r->Ok_0.0.wf()
                    &&& pos < next <= buf@.len()
                },
                Err(e) => r is Err && r->Err_0 == e,
            },
    {
        proof {
            reveal(spec_decode);
        }
        let len = buf.len();
        let (name, at) = match DomainName::decode_at(buf, pos) {
            Ok(found) => found,
            Err(e) => {
                return Err(e);
            },
        };
        let rtype = match read_u16_at(buf, at) {
            Ok(v) => v,
            Err(e) => {
                return Err(e);
            },
        };
        let class = match read_u16_at(buf, at + 2) {
            Ok(v) => v,
            Err(e) => {
                return Err(e);
            },
        };
        let ttl = match read_u32_at(buf, at + 4) {
            Ok(v) => v,
            Err(e) => {
                return Err(e);
            },
        };
        let rdlength = match read_u16_at(buf, at + 8) {
            Ok(v) => v,
            Err(e) => {
                return Err(e);
            },
        };
        let data = match RData::decode_at(buf, at + 10, rtype, rdlength) {
            Ok(v) => v,
            Err(e) => {
                return Err(e);
            },
        };
        Ok((ResourceRecord { name, rtype, class, ttl, rdata: data }, at + 10 + rdlength as usize))
    }

    /// Reads a record at the cursor. On success the record replaces `self`
    /// and the cursor stands behind its data; on an error both stay as they
    /// were.
    pub fn deserialize_from(&mut self, buffer: &mut Cursor) -> (r: Result<(), Error>)
        ensures
            final(buffer).buf == old(buffer).buf,
            match spec_decode(old(buffer).bytes(), old(buffer).pos as int) {
                Ok((record, next)) => {
                    &&& r is Ok
                    &&& final(self)@ == record
                    &&& final(self).wf()
                    &&& final(buffer).pos == next
                },
                Err(e) => {
                    &&& r == Err::<(), Error>(e)
                    &&& *final(self) == *old(self)
                    &&& final(buffer).pos == old(buffer).pos
                },
            },
    {
        match Self::decode_at(buffer.buf, buffer.position()) {
            Ok((record, next)) => {
                *self = record;
                buffer.set_position(next);
                Ok(())
            },
            Err(e) => Err(e),
        }
    }
}

/// A record that passes the check and whose data suits its type, encoded
/// anywhere in a message, decodes to the same record, and decoding stops
/// right behind it.
pub proof fn lemma_round_trip(before: Seq<u8>, r: RecordView, after: Seq<u8>)
    requires
        spec_check(r) is Ok,
        rdata::spec_matches(r.rdata, r.rtype),
    ensures
        spec_decode(before + spec_encode(r) + after, before.len() as int) == Ok::<
            (RecordView, int),
            Error,
        >((r, (before.len() + spec_encode(r).len()) as int)),
{
    reveal(spec_decode);
    let buf = before + spec_encode(r) + after;
    let name = domain::spec_encode(r.name);
    let data = rdata::spec_encode(r.rdata);
    let t = spec_u16_be(r.rtype);
    let c = spec_u16_be(r.class);
    let l = spec_u32_be(r.ttl);
    let n = spec_u16_be(data.len() as u16);
    let fixed = t + c + l + n;
    let at = (before.len() + name.len()) as int;
    rdata::lemma_round_trip(before + name + fixed, r.rdata, r.rtype, after);
    assert(buf =~= before + name + (fixed + data + after));
    assert(buf =~= (before + name + fixed) + data + after);
    domain::lemma_round_trip(before, r.name, fixed + data + after);
    lemma_u16_round_trip(r.rtype);
    lemma_u16_round_trip(r.class);
    lemma_u32_round_trip(r.ttl);
    lemma_u16_round_trip(data.len() as u16);
    assert(buf[at] == t[0] && buf[at + 1] == t[1]);
    assert(buf[at + 2] == c[0] && buf[at + 3] == c[1]);
    assert(buf[at + 4] == l[0] && buf[at + 5] == l[1] && buf[at + 6] == l[2] && buf[at + 7]
        == l[3]);
    assert(buf[at + 8] == n[0] && buf[at + 9] == n[1]);
    assert((before + name + fixed).len() == at + 10);
}

} // verus!
