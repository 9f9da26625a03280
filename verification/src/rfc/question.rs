//! The question section: a name, a query type and a query class.
//!
//! ```text
//! +--+--+--+--+--+--+--+--+--+--+--+--+--+--+--+--+
//! /                     QNAME                     /
//! +--+--+--+--+--+--+--+--+--+--+--+--+--+--+--+--+
//! |                     QTYPE                     |
//! +--+--+--+--+--+--+--+--+--+--+--+--+--+--+--+--+
//! |                     QCLASS                    |
//! +--+--+--+--+--+--+--+--+--+--+--+--+--+--+--+--+
//! ```

use crate::error::Error;
use crate::rfc::domain;
use crate::rfc::domain::{push_char, DomainName};
use crate::rfc::qclass::QClass;
use crate::rfc::qtype::QType;
use crate::wire::{
    lemma_u16_round_trip, read_u16_at, spec_read_u16, spec_u16_be, write_u16, Cursor,
};
use vstd::prelude::*;
use vstd::string::StringExecFns;

verus! {

/// One entry of the question section.
#[derive(Debug, Clone, PartialEq, Eq)]
pub struct Question {
    pub qname: DomainName,
    pub qtype: QType,
    pub qclass: QClass,
}

/// A question as a mathematical value.
pub ghost struct QuestionView {
    pub qname: Seq<Seq<u8>>,
    pub qtype: QType,
    pub qclass: QClass,
}

impl View for Question {
    type V = QuestionView;

    open spec fn view(&self) -> QuestionView {
        QuestionView { qname: self.qname@, qtype: self.qtype, qclass: self.qclass }
    }
}

/// The wire form of a question: the name uncompressed, then type and class.
pub open spec fn spec_encode(q: QuestionView) -> Seq<u8> {
    domain::spec_encode(q.qname) + spec_u16_be(q.qtype.spec_code()) + spec_u16_be(
        q.qclass.spec_code(),
    )
}

/// The question at `pos` in the message `buf`, and the offset behind it. The
/// fields are read in their order, and the first that fails gives the error.
#[verifier::opaque]
pub open spec fn spec_decode(buf: Seq<u8>, pos: int) -> Result<(QuestionView, int), Error> {
    match domain::spec_decode(buf, pos) {
        Err(e) => Err(e),
        Ok((qname, at)) => match spec_read_u16(buf, at) {
            Err(e) => Err(e),
            Ok(t) => match QType::spec_try_from(t) {
                Err(e) => Err(e),
                Ok(qtype) => match spec_read_u16(buf, at + 2) {
                    Err(e) => Err(e),
                    Ok(c) => match QClass::spec_try_from(c) {
                        Err(e) => Err(e),
                        Ok(qclass) => Ok((QuestionView { qname, qtype, qclass }, at + 4)),
                    },
                },
            },
        },
    }
}

/// The text of a question: the name, the type and the class, each behind
/// its title and a colon, with a space between the three.
pub open spec fn spec_text(
    q: QuestionView,
    qname_title: Seq<char>,
    qtype_title: Seq<char>,
    qclass_title: Seq<char>,
) -> Seq<char> {
    qname_title + seq![':'] + domain::spec_text(q.qname) + seq![' '] + qtype_title + seq![':']
        + q.qtype.spec_name() + seq![' '] + qclass_title + seq![':'] + q.qclass.spec_name()
}

impl Question {
    /// Whether the name of the question is within the limits of the wire
    /// format.
    pub open spec fn wf(&self) -> bool {
        self.qname.wf()
    }

    /// Appends the wire form of the question to `buffer` and returns the
    /// number of bytes written. A name outside the limits is refused and the
    /// buffer left as it was.
    pub fn serialize_to(&self, buffer: &mut Vec<u8>) -> (r: Result<usize, Error>)
        ensures
            match domain::spec_check(self.qname@) {
                Ok(_) => {
                    &&& r == Ok::<usize, Error>(spec_encode(self@).len() as usize)
                    &&& final(buffer)@ == old(buffer)@ + spec_encode(self@)
                },
                Err(e) => r == Err::<usize, Error>(e) && final(buffer)@ == old(buffer)@,
            },
    {
        let n = match self.qname.serialize_to(buffer) {
            Ok(n) => n,
            Err(e) => {
                return Err(e);
            },
        };
        write_u16(buffer, self.qtype.code());
        write_u16(buffer, self.qclass.code());
        assert(buffer@ =~= old(buffer)@ + spec_encode(self@));
        Ok(n + 4)
    }

    /// Decodes the question at `pos` in the message `buf` and gives it with
    /// the offset behind it.
    pub fn decode_at(buf: &[u8], pos: usize) -> (r: Result<(Question, usize), Error>)
        ensures
            match spec_decode(buf@, pos as int) {
                Ok((q, next)) => {
                    &&& r is Ok
                    &&& r->Ok_0.0@ == q
                    &&& r->Ok_0.1 == next
                    &&& r->Ok_0.0.wf()
                    &&& pos < next <= buf@.len()
                },
                Err(e) => r is Err && r->Err_0 == e,
            },
    {
        proof {
            reveal(spec_decode);
        }
        let len = buf.len();
        let (qname, at) = match DomainName::decode_at(buf, pos) {
            Ok(found) => found,
            Err(e) => {
                return Err(e);
            },
        };
        let qtype = match read_u16_at(buf, at) {
            Ok(t) => match QType::try_from(t) {
                Ok(qtype) => qtype,
                Err(e) => {
                    return Err(e);
                },
            },
            Err(e) => {
                return Err(e);
            },
        };
        let qclass = match read_u16_at(buf, at + 2) {
            Ok(c) => match QClass::try_from(c) {
                Ok(qclass) => qclass,
                Err(e) => {
                    return Err(e);
                },
            },
            Err(e) => {
                return Err(e);
            },
        };
        Ok((Question { qname, qtype, qclass }, at + 4))
    }

    /// Reads a question at the cursor. On success the question replaces
    /// `self` and the cursor stands behind it; on an error both stay as they
    /// were.
    pub fn deserialize_from(&mut self, buffer: &mut Cursor) -> (r: Result<(), Error>)
        ensures
            final(buffer).buf == old(buffer).buf,
            match spec_decode(old(buffer).bytes(), old(buffer).pos as int) {
                Ok((q, next)) => {
                    &&& r is Ok
                    &&& final(self)@ == q
                    &&& final(self).wf()
                    &&& final(buffer).pos == next
                },
                Err(e) => {
                    &&& r == Err::<(), Error>(e)
                    &&& *final(self) == *old(self)
                    &&& final(buffer).pos == old(buffer).pos
                },
            },
    {
        match Self::decode_at(buffer.buf, buffer.position()) {
            Ok((q, next)) => {
                *self = q;
                buffer.set_position(next);
                Ok(())
            },
            Err(e) => Err(e),
        }
    }

    /// The question as text: the name, the mnemonic of the type and that of
    /// the class, each behind the title that the caller gives it and a colon,
    /// with a space between the three and none at the end.
    pub fn to_string(&self, qname_title: &str, qtype_title: &str, qclass_title: &str) -> (s:
        String)
        ensures
            s@ == qname_title@ + seq![':'] + domain::spec_text(self.qname@) + seq![' ']
                + qtype_title@ + seq![':'] + self.qtype.spec_name() + seq![' '] + qclass_title@
                + seq![':'] + self.qclass.spec_name(),
            s@ == spec_text(self@, qname_title@, qtype_title@, qclass_title@),
    {
        let name = self.qname.to_string();
        let mut s = String::new();
        s.append(qname_title);
        push_char(&mut s, ':');
        s.append(name.as_str());
        push_char(&mut s, ' ');
        s.append(qtype_title);
        push_char(&mut s, ':');
        s.append(self.qtype.name());
        push_char(&mut s, ' ');
        s.append(qclass_title);
        push_char(&mut s, ':');
        s.append(self.qclass.name());
        assert(s@ =~= spec_text(self@, qname_title@, qtype_title@, qclass_title@));
        s
    }
}

impl Default for Question {
    /// A question for the addresses of the root.
    fn default() -> (q: Self)
        ensures
            q@ == (QuestionView {
                qname: Seq::<Seq<u8>>::empty(),
                qtype: QType::A,
                qclass: QClass::IN,
            }),
    {
        Question { qname: DomainName::root(), qtype: QType::A, qclass: QClass::IN }
    }
}

/// A question whose name is within the limits, encoded anywhere in a message,
/// decodes to the same question, and decoding stops right behind it.
pub proof fn lemma_round_trip(before: Seq<u8>, q: QuestionView, after: Seq<u8>)
    requires
        domain::spec_labels_wf(q.qname),
    ensures
        spec_decode(before + spec_encode(q) + after, before.len() as int) == Ok::<
            (QuestionView, int),
            Error,
        >((q, (before.len() + spec_encode(q).len()) as int)),
{
    reveal(spec_decode);
    let buf = before + spec_encode(q) + after;
    let name = domain::spec_encode(q.qname);
    let t = spec_u16_be(q.qtype.spec_code());
    let c = spec_u16_be(q.qclass.spec_code());
    let at = (before.len() + name.len()) as int;
    assert(buf =~= before + name + (t + c + after));
    domain::lemma_round_trip(before, q.qname, t + c + after);
    lemma_u16_round_trip(q.qtype.spec_code());
    lemma_u16_round_trip(q.qclass.spec_code());
    assert(buf[at] == t[0] && buf[at + 1] == t[1]);
    assert(buf[at + 2] == c[0] && buf[at + 3] == c[1]);
    q.qtype.lemma_code_round_trip(0);
    q.qclass.lemma_code_round_trip(0);
}

} // verus!
