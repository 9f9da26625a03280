//! Record data: what a resource record carries behind its fixed fields.
//!
//! The type code of the record says how its data is laid out. Data of a type
//! that has no layout here is kept as the bytes it came in.

use crate::error::Error;
use crate::rfc::domain;
use crate::rfc::domain::{push_char, DomainName};
use crate::wire::{
    copy_range, lemma_u16_round_trip, spec_u16_from_be, lemma_u32_round_trip, read_u16_at, read_u32_at, spec_read_u16,
    spec_read_u32, spec_u16_be, spec_u32_be, write_bytes, write_u16, write_u32, Cursor,
};
use vstd::prelude::*;
use vstd::string::StringExecFns;

verus! {

/// The type code of an address record.
pub const TYPE_A: u16 = 1;

/// The type code of a name-server record.
pub const TYPE_NS: u16 = 2;

/// The type code of an AFS database record.
pub const TYPE_AFSDB: u16 = 18;

/// The most octets that the data of one record can hold.
pub const MAX_RDATA: usize = 65535;

/// The data of a name-server record: the name of the server.
#[derive(Debug, Clone, PartialEq, Eq)]
pub struct NS(pub DomainName);

impl View for NS {
    type V = Seq<Seq<u8>>;

    open spec fn view(&self) -> Seq<Seq<u8>> {
        self.0@
    }
}

impl NS {
    /// Decodes the name of the server at `pos` in the message `buf` and
    /// gives it with the offset behind it.
    pub fn decode_at(buf: &[u8], pos: usize) -> (r: Result<(NS, usize), Error>)
        ensures
            match domain::spec_decode(buf@, pos as int) {
                Ok((labels, next)) => {
                    &&& r is Ok
                    &&& r->Ok_0.0@ == labels
                    &&& r->Ok_0.1 == next
                    &&& r->Ok_0.0.0.wf()
                    &&& pos < next <= buf@.len()
                },
                Err(e) => r is Err && r->Err_0 == e,
            },
    {
        match DomainName::decode_at(buf, pos) {
            Ok((name, next)) => Ok((NS(name), next)),
            Err(e) => Err(e),
        }
    }

    /// Reads the name of the server at the cursor. On success it replaces
    /// `self` and the cursor stands behind it; on an error both stay as they
    /// were.
    pub fn deserialize_from(&mut self, buffer: &mut Cursor) -> (r: Result<(), Error>)
        ensures
            final(buffer).buf == old(buffer).buf,
            match domain::spec_decode(old(buffer).bytes(), old(buffer).pos as int) {
                Ok((labels, next)) => {
                    &&& r is Ok
                    &&& final(self)@ == labels
                    &&& final(self).0.wf()
                    &&& final(buffer).pos == next
                },
                Err(e) => {
                    &&& r == Err::<(), Error>(e)
                    &&& *final(self) == *old(self)
                    &&& final(buffer).pos == old(buffer).pos
                },
            },
    {
        match Self::decode_at(buffer.buf, buffer.position()) {
            Ok((ns, next)) => {
                *self = ns;
                buffer.set_position(next);
                Ok(())
            },
            Err(e) => Err(e),
        }
    }

    /// The name of the server as text.
    pub fn to_string(&self) -> (s: String)
        ensures
            s@ == domain::spec_text(self@),
    {
        self.0.to_string()
    }
}

impl Default for NS {
    /// The root as a name server.
    fn default() -> (ns: Self)
        ensures
            ns@ == Seq::<Seq<u8>>::empty(),
    {
        NS(DomainName::root())
    }
}

/// The data of an AFS database record: a subtype and the name of a host.
#[derive(Debug, Clone, PartialEq, Eq)]
pub struct AFSDB {
    pub subtype: u16,
    pub hostname: DomainName,
}

/// An AFS database record as a mathematical value.
pub ghost struct AfsdbView {
    pub subtype: u16,
    pub hostname: Seq<Seq<u8>>,
}

impl View for AFSDB {
    type V = AfsdbView;

    open spec fn view(&self) -> AfsdbView {
        AfsdbView { subtype: self.subtype, hostname: self.hostname@ }
    }
}

/// The AFS database data at `pos` in the message `buf`, and the offset
/// behind it: a 16-bit subtype and a name.
pub open spec fn spec_decode_afsdb(buf: Seq<u8>, pos: int) -> Result<(AfsdbView, int), Error> {
    match spec_read_u16(buf, pos) {
        Err(e) => Err(e),
        Ok(subtype) => match domain::spec_decode(buf, pos + 2) {
            Err(e) => Err(e),
            Ok((hostname, next)) => Ok((AfsdbView { subtype, hostname }, next)),
        },
    }
}

impl AFSDB {
    /// Decodes the subtype and the host name at `pos` in the message `buf`
    /// and gives them with the offset behind them.
    pub fn decode_at(buf: &[u8], pos: usize) -> (r: Result<(AFSDB, usize), Error>)
        ensures
            match spec_decode_afsdb(buf@, pos as int) {
                Ok((data, next)) => {
                    &&& r is Ok
                    &&& r->Ok_0.0@ == data
                    &&& r->Ok_0.1 == next
                    &&& r->Ok_0.0.hostname.wf()
                    &&& pos + 2 < next <= buf@.len()
                },
                Err(e) => r is Err && r->Err_0 == e,
            },
    {
        let len = buf.len();
        let subtype = match read_u16_at(buf, pos) {
            Ok(subtype) => subtype,
            Err(e) => {
                return Err(e);
            },
        };
        match DomainName::decode_at(buf, pos + 2) {
            Ok((hostname, next)) => Ok((AFSDB { subtype, hostname }, next)),
            Err(e) => Err(e),
        }
    }

    /// Reads the subtype and the host name at the cursor. On success they
    /// replace `self` and the cursor stands behind them; on an error both
    /// stay as they were.
    pub fn deserialize_from(&mut self, buffer: &mut Cursor) -> (r: Result<(), Error>)
        ensures
            final(buffer).buf == old(buffer).buf,
            match spec_decode_afsdb(old(buffer).bytes(), old(buffer).pos as int) {
                Ok((data, next)) => {
                    &&& r is Ok
                    &&& final(self)@ == data
                    &&& final(self).hostname.wf()
                    &&& final(buffer).pos == next
                },
                Err(e) => {
                    &&& r == Err::<(), Error>(e)
                    &&& *final(self) == *old(self)
                    &&& final(buffer).pos == old(buffer).pos
                },
            },
    {
        match Self::decode_at(buffer.buf, buffer.position()) {
            Ok((data, next)) => {
                *self = data;
                buffer.set_position(next);
                Ok(())
            },
            Err(e) => Err(e),
        }
    }
}

/// AFS database data whose host name is a pointer to an earlier offset that
/// holds the uncompressed wire form of a name within the limits decodes to
/// its subtype and that name, and decoding stops behind the pointer.
pub proof fn lemma_afsdb_with_pointer(buf: Seq<u8>, pos: int, target: int, labels: Seq<Seq<u8>>)
    requires
        0 <= pos,
        pos + 3 < buf.len(),
        0 <= target < pos + 2,
        buf[pos + 2] >= 192,
        domain::spec_pointer_target(buf[pos + 2], buf[pos + 3]) == target,
        target + domain::spec_wire_len(labels) <= buf.len(),
        buf.subrange(target, target + domain::spec_wire_len(labels)) == domain::spec_encode(
            labels,
        ),
        domain::spec_labels_wf(labels),
    ensures
        spec_decode_afsdb(buf, pos) == Ok::<(AfsdbView, int), Error>(
            (
                AfsdbView {
                    subtype: spec_u16_from_be(buf[pos], buf[pos + 1]) as u16,
                    hostname: labels,
                },
                pos + 4,
            ),
        ),
{
    domain::lemma_pointer_to_encoded(buf, pos + 2, target, labels);
}

/// The decimal digits of `n`, without leading zeros.
pub open spec fn spec_decimal(n: nat) -> Seq<char>
    decreases n,
{
    if n < 10 {
        seq![(48 + n) as char]
    } else {
        spec_decimal(n / 10).push((48 + n % 10) as char)
    }
}

/// The text of AFS database data: the subtype in decimal digits and the name
/// of the host, a space behind each.
pub open spec fn spec_text_afsdb(data: AfsdbView) -> Seq<char> {
    spec_decimal(data.subtype as nat) + seq![' '] + domain::spec_text(data.hostname) + seq![' ']
}

/// Appends the decimal digits of `n` to `s`.
fn push_decimal(s: &mut String, n: u16)
    ensures
        final(s)@ == old(s)@ + spec_decimal(n as nat),
    decreases n,
{
    if n >= 10 {
        push_decimal(s, n / 10);
    }
    let digit: u8 = 48 + (n % 10) as u8;
    push_char(s, digit as char);
    proof {
        if n >= 10 {
            assert(s@ =~= old(s)@ + spec_decimal(n as nat / 10).push((48 + n as nat % 10) as char));
        } else {
            assert(s@ =~= old(s)@ + seq![(48 + n as nat) as char]);
        }
    }
}

impl AFSDB {
    /// The data as text: the subtype, a space, the name of the host, a
    /// space.
    pub fn to_string(&self) -> (s: String)
        ensures
            s@ == spec_text_afsdb(self@),
    {
        let mut s = String::new();
        push_decimal(&mut s, self.subtype);
        push_char(&mut s, ' ');
        let host = self.hostname.to_string();
        s.append(host.as_str());
        push_char(&mut s, ' ');
        assert(s@ =~= spec_text_afsdb(self@));
        s
    }
}

impl Default for AFSDB {
    /// Subtype 0 and the root as host.
    fn default() -> (data: Self)
        ensures
            data@ == (AfsdbView { subtype: 0, hostname: Seq::<Seq<u8>>::empty() }),
    {
        AFSDB { subtype: 0, hostname: DomainName::root() }
    }
}

/// The data of a resource record, by the type of the record.
#[derive(Debug, Clone, PartialEq, Eq)]
pub enum RData {
    /// An IPv4 address, its first octet in the most significant byte.
    A(u32),
    /// The name of a name server.
    NS(NS),
    /// An AFS database location.
    AFSDB(AFSDB),
    /// The data of any other type of record, as it stood on the wire.
    Unknown(Vec<u8>),
}

/// Record data as a mathematical value.
pub ghost enum RDataView {
    A(u32),
    NS(Seq<Seq<u8>>),
    AFSDB(AfsdbView),
    Unknown(Seq<u8>),
}

impl View for RData {
    type V = RDataView;

    open spec fn view(&self) -> RDataView {
        match self {
            RData::A(address) => RDataView::A(*address),
            RData::NS(ns) => RDataView::NS(ns@),
            RData::AFSDB(data) => RDataView::AFSDB(data@),
            RData::Unknown(bytes) => RDataView::Unknown(bytes@),
        }
    }
}

/// Whether records of the type `rtype` have a layout of their own here.
pub open spec fn spec_known_type(rtype: u16) -> bool {
    rtype == TYPE_A || rtype == TYPE_NS || rtype == TYPE_AFSDB
}

/// Whether `data` is what a record of the type `rtype` carries.
pub open spec fn spec_matches(data: RDataView, rtype: u16) -> bool {
    match data {
        RDataView::A(_) => rtype == TYPE_A,
        RDataView::NS(_) => rtype == TYPE_NS,
        RDataView::AFSDB(_) => rtype == TYPE_AFSDB,
        RDataView::Unknown(_) => !spec_known_type(rtype),
    }
}

/// What stops record data from being encoded, if anything: a name outside
/// the limits, or more bytes than a 16-bit length can declare.
pub open spec fn spec_check(data: RDataView) -> Result<(), Error> {
    match data {
        RDataView::A(_) => Ok(()),
        RDataView::NS(name) => domain::spec_check(name),
        RDataView::AFSDB(afsdb) => domain::spec_check(afsdb.hostname),
        RDataView::Unknown(bytes) => if bytes.len() > MAX_RDATA {
            Err(Error::RDataLength)
        } else {
            Ok(())
        },
    }
}

/// The wire form of record data, names uncompressed.
pub open spec fn spec_encode(data: RDataView) -> Seq<u8> {
    match data {
        RDataView::A(address) => spec_u32_be(address),
        RDataView::NS(name) => domain::spec_encode(name),
        RDataView::AFSDB(afsdb) => spec_u16_be(afsdb.subtype) + domain::spec_encode(
            afsdb.hostname,
        ),
        RDataView::Unknown(bytes) => bytes,
    }
}

/// The data of a record of the type `rtype` whose `rdlength` bytes of data
/// begin at `pos` in the message `buf`.
///
/// The data must lie within the message and fill its length exactly: an
/// address has four bytes, and a name ends where the data ends. A type
/// without a layout of its own gives the bytes as they are.
pub open spec fn spec_decode(buf: Seq<u8>, pos: int, rtype: u16, rdlength: u16) -> Result<
    RDataView,
    Error,
> {
    if pos < 0 || pos + rdlength > buf.len() {
        Err(Error::Truncated)
    } else if rtype == TYPE_A {
        if rdlength != 4 {
            Err(Error::RDataLength)
        } else {
            match spec_read_u32(buf, pos) {
                Ok(address) => Ok(RDataView::A(address)),
                Err(e) => Err(e),
            }
        }
    } else if rtype == TYPE_NS {
        match domain::spec_decode(buf, pos) {
            Err(e) => Err(e),
            Ok((name, next)) => if next != pos + rdlength {
                Err(Error::RDataLength)
            } else {
                Ok(RDataView::NS(name))
            },
        }
    } else if rtype == TYPE_AFSDB {
        if rdlength < 2 {
            Err(Error::RDataLength)
        } else {
            match spec_decode_afsdb(buf, pos) {
                Err(e) => Err(e),
                Ok((afsdb, next)) => if next != pos + rdlength {
                    Err(Error::RDataLength)
                } else {
                    Ok(RDataView::AFSDB(afsdb))
                },
            }
        }
    } else {
        Ok(RDataView::Unknown(buf.subrange(pos, pos + rdlength)))
    }
}

impl RData {
    /// Whether the names in the data are within the limits of the wire
    /// format and the data fits a 16-bit length.
    pub open spec fn wf(&self) -> bool {
        spec_check(self@) is Ok
    }

    /// Checks the data against the limits of the wire format.
    pub fn check(&self) -> (r: Result<(), Error>)
        ensures
            r == spec_check(self@),
    {
        match self {
            RData::A(_) => Ok(()),
            RData::NS(ns) => ns.0.check(),
            RData::AFSDB(data) => data.hostname.check(),
            RData::Unknown(bytes) => if bytes.len() > MAX_RDATA {
                Err(Error::RDataLength)
            } else {
                Ok(())
            },
        }
    }

    /// Whether the data is what a record of the type `rtype` carries.
    pub fn matches(&self, rtype: u16) -> (b: bool)
        ensures
            b == spec_matches(self@, rtype),
    {
        match self {
            RData::A(_) => rtype == TYPE_A,
            RData::NS(_) => rtype == TYPE_NS,
            RData::AFSDB(_) => rtype == TYPE_AFSDB,
            RData::Unknown(_) => !(rtype == TYPE_A || rtype == TYPE_NS || rtype == TYPE_AFSDB),
        }
    }

    /// Appends the wire form of the data to `buffer` and returns the number
    /// of bytes written. Data that fails the check is refused and the buffer
    /// left as it was.
    pub fn serialize_to(&self, buffer: &mut Vec<u8>) -> (r: Result<usize, Error>)
        ensures
            match spec_check(self@) {
                Ok(_) => {
                    &&& r == Ok::<usize, Error>(spec_encode(self@).len() as usize)
                    &&& spec_encode(self@).len() <= MAX_RDATA
                    &&& final(buffer)@ == old(buffer)@ + spec_encode(self@)
                },
                Err(e) => r == Err::<usize, Error>(e) && final(buffer)@ == old(buffer)@,
            },
    {
        match self {
            RData::A(address) => {
                let n = write_u32(buffer, *address);
                Ok(n)
            },
            RData::NS(ns) => ns.0.serialize_to(buffer),
            RData::AFSDB(data) => {
                match data.hostname.check() {
                    Err(e) => {
                        return Err(e);
                    },
                    Ok(_) => {},
                }
                write_u16(buffer, data.subtype);
                match data.hostname.serialize_to(buffer) {
                    Ok(n) => {
                        assert(buffer@ =~= old(buffer)@ + spec_encode(self@));
                        Ok(n + 2)
                    },
                    Err(e) => Err(e),
                }
            },
            RData::Unknown(bytes) => {
                if bytes.len() > MAX_RDATA {
                    return Err(Error::RDataLength);
                }
                write_bytes(buffer, bytes.as_slice());
                Ok(bytes.len())
            },
        }
    }

    /// Decodes the data of a record of the type `rtype`, whose `rdlength`
    /// bytes of data begin at `pos` in the message `buf`.
    ///
    /// Fails where the data runs past the end of the message, where a field
    /// of it cannot be decoded, and where what was decoded does not fill
    /// `rdlength` bytes exactly. A type without a layout of its own never
    /// fails but on the first count: its bytes are kept as they are.
    pub fn decode_at(buf: &[u8], pos: usize, rtype: u16, rdlength: u16) -> (r: Result<
        RData,
        Error,
    >)
        ensures
            match spec_decode(buf@, pos as int, rtype, rdlength) {
                Ok(data) => {
                    &&& r is Ok
                    &&& r->Ok_0@ == data
                    &&& r->Ok_0.wf()
                    &&& spec_matches(data, rtype)
                },
                Err(e) => r is Err && r->Err_0 == e,
            },
    {
        let len = buf.len();
        let size = rdlength as usize;
        if pos > len || len - pos < size {
            return Err(Error::Truncated);
        }
        let end = pos + size;
        if rtype == TYPE_A {
            if rdlength != 4 {
                return Err(Error::RDataLength);
            }
            match read_u32_at(buf, pos) {
                Ok(address) => Ok(RData::A(address)),
                Err(e) => Err(e),
            }
        } else if rtype == TYPE_NS {
            match NS::decode_at(buf, pos) {
                Err(e) => Err(e),
                Ok((ns, next)) => if next != end {
                    Err(Error::RDataLength)
                } else {
                    Ok(RData::NS(ns))
                },
            }
        } else if rtype == TYPE_AFSDB {
            if rdlength < 2 {
                return Err(Error::RDataLength);
            }
            match AFSDB::decode_at(buf, pos) {
                Err(e) => Err(e),
                Ok((data, next)) => if next != end {
                    Err(Error::RDataLength)
                } else {
                    Ok(RData::AFSDB(data))
                },
            }
        } else {
            Ok(RData::Unknown(copy_range(buf, pos, size)))
        }
    }
}

/// Data that passes the check and suits the type of its record, encoded
/// anywhere in a message, decodes to the same data when the record declares
/// the length of the encoding.
pub proof fn lemma_round_trip(before: Seq<u8>, data: RDataView, rtype: u16, after: Seq<u8>)
    requires
        spec_check(data) is Ok,
        spec_matches(data, rtype),
    ensures
        spec_encode(data).len() <= MAX_RDATA,
        spec_decode(
            before + spec_encode(data) + after,
            before.len() as int,
            rtype,
            spec_encode(data).len() as u16,
        ) == Ok::<RDataView, Error>(data),
{
    let wire = spec_encode(data);
    let buf = before + wire + after;
    let pos = before.len() as int;
    match data {
        RDataView::A(address) => {
            lemma_u32_round_trip(address);
            assert(buf[pos] == wire[0] && buf[pos + 1] == wire[1] && buf[pos + 2] == wire[2]
                && buf[pos + 3] == wire[3]);
        },
        RDataView::NS(name) => {
            domain::lemma_round_trip(before, name, after);
        },
        RDataView::AFSDB(afsdb) => {
            let head = spec_u16_be(afsdb.subtype);
            lemma_u16_round_trip(afsdb.subtype);
            assert(buf[pos] == head[0] && buf[pos + 1] == head[1]);
            assert(buf =~= (before + head) + domain::spec_encode(afsdb.hostname) + after);
            domain::lemma_round_trip(before + head, afsdb.hostname, after);
        },
        RDataView::Unknown(bytes) => {
            assert(buf.subrange(pos, pos + bytes.len()) =~= bytes);
        },
    }
}

} // verus!
