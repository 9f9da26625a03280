//! Whole messages: a header, the questions and three lists of records.
//!
//! The header says how many entries each section holds. Decoding reads
//! exactly that many, section by section, and fails where the bytes end
//! before a section is complete.

use crate::error::{Error, Section};
use crate::rfc::header;
use crate::rfc::header::Header;
use crate::rfc::question;
use crate::rfc::question::{Question, QuestionView};
use crate::rfc::resource_record;
use crate::rfc::resource_record::{RecordView, ResourceRecord};
use crate::wire::write_bytes;
use vstd::prelude::*;

verus! {

/// A message.
#[derive(Debug, Clone, PartialEq, Eq)]
pub struct Message {
    pub header: Header,
    pub questions: Vec<Question>,
    pub answers: Vec<ResourceRecord>,
    pub authorities: Vec<ResourceRecord>,
    pub additionals: Vec<ResourceRecord>,
}

/// A message as a mathematical value.
pub ghost struct MessageView {
    pub header: Header,
    pub questions: Seq<QuestionView>,
    pub answers: Seq<RecordView>,
    pub authorities: Seq<RecordView>,
    pub additionals: Seq<RecordView>,
}

/// The questions of a list as mathematical values.
pub open spec fn spec_questions(list: Seq<Question>) -> Seq<QuestionView> {
    Seq::new(list.len(), |i: int| list[i]@)
}

/// The records of a list as mathematical values.
pub open spec fn spec_records(list: Seq<ResourceRecord>) -> Seq<RecordView> {
    Seq::new(list.len(), |i: int| list[i]@)
}

impl View for Message {
    type V = MessageView;

    open spec fn view(&self) -> MessageView {
        MessageView {
            header: self.header,
            questions: spec_questions(self.questions@),
            answers: spec_records(self.answers@),
            authorities: spec_records(self.authorities@),
            additionals: spec_records(self.additionals@),
        }
    }
}

/// The error `e` as it is reported for the section `section`: the end of the
/// bytes names the section, any other error stays what it is.
pub open spec fn spec_in_section(e: Error, section: Section) -> Error {
    if e == Error::Truncated {
        Error::TruncatedSection(section)
    } else {
        e
    }
}

/// The first `n` questions from `start` on in the message `buf`, and the
/// offset behind them.
#[verifier::opaque]
pub open spec fn spec_decode_questions(buf: Seq<u8>, start: int, n: nat) -> Result<
    (Seq<QuestionView>, int),
    Error,
>
    decreases n,
{
    if n == 0 {
        Ok((Seq::<QuestionView>::empty(), start))
    } else {
        match spec_decode_questions(buf, start, (n - 1) as nat) {
            Err(e) => Err(e),
            Ok((list, pos)) => match question::spec_decode(buf, pos) {
                Err(e) => Err(spec_in_section(e, Section::Question)),
                Ok((q, next)) => Ok((list.push(q), next)),
            },
        }
    }
}

/// The first `n` records of the section `section` from `start` on in the
/// message `buf`, and the offset behind them.
#[verifier::opaque]
pub open spec fn spec_decode_records(buf: Seq<u8>, start: int, n: nat, section: Section) -> Result<
    (Seq<RecordView>, int),
    Error,
>
    decreases n,
{
    if n == 0 {
        Ok((Seq::<RecordView>::empty(), start))
    } else {
        match spec_decode_records(buf, start, (n - 1) as nat, section) {
            Err(e) => Err(e),
            Ok((list, pos)) => match resource_record::spec_decode(buf, pos) {
                Err(e) => Err(spec_in_section(e, section)),
                Ok((r, next)) => Ok((list.push(r), next)),
            },
        }
    }
}

/// The message that `buf` holds: the header, then as many questions,
/// answers, authority records and additional records as the header declares.
/// Bytes behind the last entry are not looked at.
pub open spec fn spec_decode(buf: Seq<u8>) -> Result<MessageView, Error> {
    match header::spec_decode(buf, 0) {
        Err(e) => Err(spec_in_section(e, Section::Header)),
        Ok(h) => match spec_decode_questions(buf, 12, h.qd_count as nat) {
            Err(e) => Err(e),
            Ok((questions, at_answers)) => match spec_decode_records(
                buf,
                at_answers,
                h.an_count as nat,
                Section::Answer,
            ) {
                Err(e) => Err(e),
                Ok((answers, at_authorities)) => match spec_decode_records(
                    buf,
                    at_authorities,
                    h.ns_count as nat,
                    Section::Authority,
                ) {
                    Err(e) => Err(e),
                    Ok((authorities, at_additionals)) => match spec_decode_records(
                        buf,
                        at_additionals,
                        h.ar_count as nat,
                        Section::Additional,
                    ) {
                        Err(e) => Err(e),
                        Ok((additionals, _)) => Ok(
                            MessageView {
                                header: h,
                                questions,
                                answers,
                                authorities,
                                additionals,
                            },
                        ),
                    },
                },
            },
        },
    }
}

/// The questions of `list` encoded one after the other, or the error of the
/// first that cannot be encoded.
pub open spec fn spec_encode_questions(list: Seq<QuestionView>) -> Result<Seq<u8>, Error>
    decreases list.len(),
{
    if list.len() == 0 {
        Ok(Seq::<u8>::empty())
    } else {
        match spec_encode_questions(list.drop_last()) {
            Err(e) => Err(e),
            Ok(bytes) => match crate::rfc::domain::spec_check(list.last().qname) {
                Err(e) => Err(e),
                Ok(_) => Ok(bytes + question::spec_encode(list.last())),
            },
        }
    }
}

/// The records of `list` encoded one after the other, or the error of the
/// first that cannot be encoded.
pub open spec fn spec_encode_records(list: Seq<RecordView>) -> Result<Seq<u8>, Error>
    decreases list.len(),
{
    if list.len() == 0 {
        Ok(Seq::<u8>::empty())
    } else {
        match spec_encode_records(list.drop_last()) {
            Err(e) => Err(e),
            Ok(bytes) => match resource_record::spec_check(list.last()) {
                Err(e) => Err(e),
                Ok(_) => Ok(bytes + resource_record::spec_encode(list.last())),
            },
        }
    }
}

/// The first section whose count in the header is not the number of its
/// entries, if there is one.
pub open spec fn spec_check_counts(m: MessageView) -> Result<(), Error> {
    if m.header.qd_count != m.questions.len() {
        Err(Error::CountMismatch(Section::Question))
    } else if m.header.an_count != m.answers.len() {
        Err(Error::CountMismatch(Section::Answer))
    } else if m.header.ns_count != m.authorities.len() {
        Err(Error::CountMismatch(Section::Authority))
    } else if m.header.ar_count != m.additionals.len() {
        Err(Error::CountMismatch(Section::Additional))
    } else {
        Ok(())
    }
}

/// The wire form of a message: the header, the questions and the three lists
/// of records, names uncompressed. The counts of the header must be the
/// numbers of entries, and every entry must be fit to encode.
pub open spec fn spec_encode(m: MessageView) -> Result<Seq<u8>, Error> {
    match spec_check_counts(m) {
        Err(e) => Err(e),
        Ok(_) => match spec_encode_questions(m.questions) {
            Err(e) => Err(e),
            Ok(qd) => match spec_encode_records(m.answers) {
                Err(e) => Err(e),
                Ok(an) => match spec_encode_records(m.authorities) {
                    Err(e) => Err(e),
                    Ok(ns) => match spec_encode_records(m.additionals) {
                        Err(e) => Err(e),
                        Ok(ar) => Ok(header::spec_encode(m.header) + qd + an + ns + ar),
                    },
                },
            },
        },
    }
}

/// Once a question fails, asking for more questions fails in the same way.
pub proof fn lemma_questions_error_stays(buf: Seq<u8>, start: int, k: nat, n: nat)
    requires
        k <= n,
        spec_decode_questions(buf, start, k) is Err,
    ensures
        spec_decode_questions(buf, start, n) == spec_decode_questions(buf, start, k),
    decreases n,
{
    reveal(spec_decode_questions);
    if k < n {
        lemma_questions_error_stays(buf, start, k, (n - 1) as nat);
    }
}

/// Once a record fails, asking for more records fails in the same way.
pub proof fn lemma_records_error_stays(buf: Seq<u8>, start: int, k: nat, n: nat, section: Section)
    requires
        k <= n,
        spec_decode_records(buf, start, k, section) is Err,
    ensures
        spec_decode_records(buf, start, n, section) == spec_decode_records(buf, start, k, section),
    decreases n,
{
    reveal(spec_decode_records);
    if k < n {
        lemma_records_error_stays(buf, start, k, (n - 1) as nat, section);
    }
}

/// Once a question cannot be encoded, no longer list can.
pub proof fn lemma_encode_questions_error_stays(list: Seq<QuestionView>, k: int)
    requires
        0 <= k <= list.len(),
        spec_encode_questions(list.subrange(0, k)) is Err,
    ensures
        spec_encode_questions(list) == spec_encode_questions(list.subrange(0, k)),
    decreases list.len(),
{
    if k < list.len() {
        assert(list.drop_last().subrange(0, k) =~= list.subrange(0, k));
        lemma_encode_questions_error_stays(list.drop_last(), k);
    } else {
        assert(list.subrange(0, k) =~= list);
    }
}

/// Once a record cannot be encoded, no longer list can.
pub proof fn lemma_encode_records_error_stays(list: Seq<RecordView>, k: int)
    requires
        0 <= k <= list.len(),
        spec_encode_records(list.subrange(0, k)) is Err,
    ensures
        spec_encode_records(list) == spec_encode_records(list.subrange(0, k)),
    decreases list.len(),
{
    if k < list.len() {
        assert(list.drop_last().subrange(0, k) =~= list.subrange(0, k));
        lemma_encode_records_error_stays(list.drop_last(), k);
    } else {
        assert(list.subrange(0, k) =~= list);
    }
}

/// Decodes `count` questions from `start` on.
fn decode_questions(buf: &[u8], start: usize, count: u16) -> (r: Result<
    (Vec<Question>, usize),
    Error,
>)
    requires
        start <= buf@.len(),
    ensures
        match spec_decode_questions(buf@, start as int, count as nat) {
            Ok((list, next)) => {
                &&& r is Ok
                &&& spec_questions(r->Ok_0.0@) == list
                &&& r->Ok_0.1 == next
                &&& next <= buf@.len()
                &&& list.len() == count
                &&& forall|i: int| 0 <= i < count ==> (#[trigger] r->Ok_0.0@[i]).wf()
            },
            Err(e) => r is Err && r->Err_0 == e,
        },
{
    let mut list: Vec<Question> = Vec::new();
    let mut pos: usize = start;
    let mut i: u16 = 0;
    proof {
        reveal(spec_decode_questions);
        assert(spec_questions(list@) =~= Seq::<QuestionView>::empty());
    }
    while i < count
        invariant
            i <= count,
            pos <= buf@.len(),
            list@.len() == i,
            spec_decode_questions(buf@, start as int, i as nat) == Ok::<
                (Seq<QuestionView>, int),
                Error,
            >((spec_questions(list@), pos as int)),
            forall|k: int| 0 <= k < i ==> (#[trigger] list@[k]).wf(),
        decreases count - i,
    {
        proof {
            reveal(spec_decode_questions);
        }
        match Question::decode_at(buf, pos) {
            Err(e) => {
                proof {
                    lemma_questions_error_stays(buf@, start as int, (i + 1) as nat, count as nat);
                }
                return Err(
                    match e {
                        Error::Truncated => Error::TruncatedSection(Section::Question),
                        other => other,
                    },
                );
            },
            Ok((q, next)) => {
                assert(spec_questions(list@.push(q)) =~= spec_questions(list@).push(q@));
                list.push(q);
                pos = next;
                i += 1;
            },
        }
    }
    Ok((list, pos))
}

/// Decodes `count` records of the section `section` from `start` on.
fn decode_records(buf: &[u8], start: usize, count: u16, section: Section) -> (r: Result<
    (Vec<ResourceRecord>, usize),
    Error,
>)
    requires
        start <= buf@.len(),
    ensures
        match spec_decode_records(buf@, start as int, count as nat, section) {
            Ok((list, next)) => {
                &&& r is Ok
                &&& spec_records(r->Ok_0.0@) == list
                &&& r->Ok_0.1 == next
                &&& next <= buf@.len()
                &&& list.len() == count
                &&& forall|i: int| 0 <= i < count ==> (#[trigger] r->Ok_0.0@[i]).wf()
            },
            Err(e) => r is Err && r->Err_0 == e,
        },
{
    let mut list: Vec<ResourceRecord> = Vec::new();
    let mut pos: usize = start;
    let mut i: u16 = 0;
    proof {
        reveal(spec_decode_records);
        assert(spec_records(list@) =~= Seq::<RecordView>::empty());
    }
    while i < count
        invariant
            i <= count,
            pos <= buf@.len(),
            list@.len() == i,
            spec_decode_records(buf@, start as int, i as nat, section) == Ok::<
                (Seq<RecordView>, int),
                Error,
            >((spec_records(list@), pos as int)),
            forall|k: int| 0 <= k < i ==> (#[trigger] list@[k]).wf(),
        decreases count - i,
    {
        proof {
            reveal(spec_decode_records);
        }
        match ResourceRecord::decode_at(buf, pos) {
            Err(e) => {
                proof {
                    lemma_records_error_stays(
                        buf@,
                        start as int,
                        (i + 1) as nat,
                        count as nat,
                        section,
                    );
                }
                return Err(
                    match e {
                        Error::Truncated => Error::TruncatedSection(section),
                        other => other,
                    },
                );
            },
            Ok((record, next)) => {
                assert(spec_records(list@.push(record)) =~= spec_records(list@).push(record@));
                list.push(record);
                pos = next;
                i += 1;
            },
        }
    }
    Ok((list, pos))
}

/// Appends the questions of `list`, in their order, to `out`. Stops at the
/// first that cannot be encoded.
fn encode_questions(list: &Vec<Question>, out: &mut Vec<u8>) -> (r: Result<(), Error>)
    ensures
        match spec_encode_questions(spec_questions(list@)) {
            Ok(bytes) => r is Ok && final(out)@ == old(out)@ + bytes,
            Err(e) => r == Err::<(), Error>(e),
        },
{
    let ghost all = spec_questions(list@);
    let mut i: usize = 0;
    assert(old(out)@ + Seq::<u8>::empty() =~= old(out)@);
    assert(all.subrange(0, 0) =~= Seq::<QuestionView>::empty());
    while i < list.len()
        invariant
            i <= list@.len(),
            all == spec_questions(list@),
            spec_encode_questions(all.subrange(0, i as int)) is Ok,
            out@ == old(out)@ + spec_encode_questions(all.subrange(0, i as int))->Ok_0,
        decreases list@.len() - i,
    {
        let ghost before = out@;
        proof {
            assert(all.subrange(0, i + 1).drop_last() =~= all.subrange(0, i as int));
            assert(all.subrange(0, i + 1).last() == list@[i as int]@);
        }
        match list[i].serialize_to(out) {
            Err(e) => {
                proof {
                    lemma_encode_questions_error_stays(all, i + 1);
                }
                return Err(e);
            },
            Ok(_) => {
                assert(out@ =~= old(out)@ + spec_encode_questions(all.subrange(0, i + 1))->Ok_0);
            },
        }
        i += 1;
    }
    assert(all.subrange(0, i as int) =~= all);
    Ok(())
}

/// Appends the records of `list`, in their order, to `out`. Stops at the
/// first that cannot be encoded.
fn encode_records(list: &Vec<ResourceRecord>, out: &mut Vec<u8>) -> (r: Result<(), Error>)
    ensures
        match spec_encode_records(spec_records(list@)) {
            Ok(bytes) => r is Ok && final(out)@ == old(out)@ + bytes,
            Err(e) => r == Err::<(), Error>(e),
        },
{
    let ghost all = spec_records(list@);
    let mut i: usize = 0;
    assert(old(out)@ + Seq::<u8>::empty() =~= old(out)@);
    assert(all.subrange(0, 0) =~= Seq::<RecordView>::empty());
    while i < list.len()
        invariant
            i <= list@.len(),
            all == spec_records(list@),
            spec_encode_records(all.subrange(0, i as int)) is Ok,
            out@ == old(out)@ + spec_encode_records(all.subrange(0, i as int))->Ok_0,
        decreases list@.len() - i,
    {
        proof {
            assert(all.subrange(0, i + 1).drop_last() =~= all.subrange(0, i as int));
            assert(all.subrange(0, i + 1).last() == list@[i as int]@);
        }
        match list[i].serialize_to(out) {
            Err(e) => {
                proof {
                    lemma_encode_records_error_stays(all, i + 1);
                }
                return Err(e);
            },
            Ok(_) => {
                assert(out@ =~= old(out)@ + spec_encode_records(all.subrange(0, i + 1))->Ok_0);
            },
        }
        i += 1;
    }
    assert(all.subrange(0, i as int) =~= all);
    Ok(())
}

impl Message {
    /// Whether every count of the header is the number of entries of its
    /// section, and every entry is fit to encode and carries the data of its
    /// type.
    pub open spec fn wf(&self) -> bool {
        &&& spec_check_counts(self@) is Ok
        &&& forall|i: int| 0 <= i < self.questions@.len() ==> (#[trigger] self.questions@[i]).wf()
        &&& forall|i: int| 0 <= i < self.answers@.len() ==> (#[trigger] self.answers@[i]).wf()
        &&& forall|i: int|
            0 <= i < self.authorities@.len() ==> (#[trigger] self.authorities@[i]).wf()
        &&& forall|i: int|
            0 <= i < self.additionals@.len() ==> (#[trigger] self.additionals@[i]).wf()
    }

    /// Whether the message was cut short by the sender: its TC bit.
    pub fn is_truncated(&self) -> (b: bool)
        ensures
            b == self.header.flags.bitflags.truncation,
    {
        self.header.flags.bitflags.truncation
    }

    /// Decodes the message that `buf` holds.
    ///
    /// Fails with the error of the first field that cannot be decoded. Where
    /// the bytes end too early, the error names the section that was being
    /// read. A message that decodes holds in each section as many entries as
    /// its header declares.
    pub fn decode(buf: &[u8]) -> (r: Result<Message, Error>)
        ensures
            match spec_decode(buf@) {
                Ok(m) => r is Ok && r->Ok_0@ == m && r->Ok_0.wf(),
                Err(e) => r is Err && r->Err_0 == e,
            },
    {
        let header = match Header::decode_at(buf, 0) {
            Ok(header) => header,
            Err(e) => {
                return Err(
                    match e {
                        Error::Truncated => Error::TruncatedSection(Section::Header),
                        other => other,
                    },
                );
            },
        };
        let (questions, at_answers) = match decode_questions(buf, 12, header.qd_count) {
            Ok(found) => found,
            Err(e) => {
                return Err(e);
            },
        };
        let (answers, at_authorities) = match decode_records(buf, at_answers, header.an_count, Section::Answer) {
            Ok(found) => found,
            Err(e) => {
                return Err(e);
            },
        };
        let (authorities, at_additionals) = match decode_records(
            buf,
            at_authorities,
            header.ns_count,
            Section::Authority,
        ) {
            Ok(found) => found,
            Err(e) => {
                return Err(e);
            },
        };
        let (additionals, _) = match decode_records(
            buf,
            at_additionals,
            header.ar_count,
            Section::Additional,
        ) {
            Ok(found) => found,
            Err(e) => {
                return Err(e);
            },
        };
        Ok(Message { header, questions, answers, authorities, additionals })
    }

    /// Appends the wire form of the message to `buffer` and returns the
    /// number of bytes written.
    ///
    /// Fails where a count of the header is not the number of entries of its
    /// section, and with the error of the first entry that cannot be
    /// encoded. On an error the buffer is left as it was.
    pub fn serialize_to(&self, buffer: &mut Vec<u8>) -> (r: Result<usize, Error>)
        ensures
            match spec_encode(self@) {
                Ok(bytes) => {
                    &&& r == Ok::<usize, Error>(bytes.len() as usize)
                    &&& final(buffer)@ == old(buffer)@ + bytes
                },
                Err(e) => r == Err::<usize, Error>(e) && final(buffer)@ == old(buffer)@,
            },
    {
        if self.header.qd_count as usize != self.questions.len() {
            return Err(Error::CountMismatch(Section::Question));
        }
        if self.header.an_count as usize != self.answers.len() {
            return Err(Error::CountMismatch(Section::Answer));
        }
        if self.header.ns_count as usize != self.authorities.len() {
            return Err(Error::CountMismatch(Section::Authority));
        }
        if self.header.ar_count as usize != self.additionals.len() {
            return Err(Error::CountMismatch(Section::Additional));
        }
        let mut out: Vec<u8> = Vec::new();
        let _ = self.header.serialize_to(&mut out);
        match encode_questions(&self.questions, &mut out) {
            Err(e) => {
                return Err(e);
            },
            Ok(_) => {},
        }
        match encode_records(&self.answers, &mut out) {
            Err(e) => {
                return Err(e);
            },
            Ok(_) => {},
        }
        match encode_records(&self.authorities, &mut out) {
            Err(e) => {
                return Err(e);
            },
            Ok(_) => {},
        }
        match encode_records(&self.additionals, &mut out) {
            Err(e) => {
                return Err(e);
            },
            Ok(_) => {},
        }
        assert(out@ =~= spec_encode(self@)->Ok_0);
        write_bytes(buffer, out.as_slice());
        Ok(out.len())
    }
}

/// A section that decodes holds as many entries as were asked for.
pub proof fn lemma_decoded_questions_len(buf: Seq<u8>, start: int, n: nat)
    requires
        spec_decode_questions(buf, start, n) is Ok,
    ensures
        spec_decode_questions(buf, start, n)->Ok_0.0.len() == n,
    decreases n,
{
    reveal(spec_decode_questions);
    if n > 0 {
        lemma_decoded_questions_len(buf, start, (n - 1) as nat);
    }
}

/// A section that decodes holds as many records as were asked for.
pub proof fn lemma_decoded_records_len(buf: Seq<u8>, start: int, n: nat, section: Section)
    requires
        spec_decode_records(buf, start, n, section) is Ok,
    ensures
        spec_decode_records(buf, start, n, section)->Ok_0.0.len() == n,
    decreases n,
{
    reveal(spec_decode_records);
    if n > 0 {
        lemma_decoded_records_len(buf, start, (n - 1) as nat, section);
    }
}

/// In a message that decodes, every count of the header is the number of
/// entries that were decoded for its section.
pub proof fn lemma_counts_match(buf: Seq<u8>)
    requires
        spec_decode(buf) is Ok,
    ensures
        spec_check_counts(spec_decode(buf)->Ok_0) is Ok,
{
    let h = header::spec_decode(buf, 0)->Ok_0;
    lemma_decoded_questions_len(buf, 12, h.qd_count as nat);
    let at_answers = spec_decode_questions(buf, 12, h.qd_count as nat)->Ok_0.1;
    lemma_decoded_records_len(buf, at_answers, h.an_count as nat, Section::Answer);
    let at_authorities = spec_decode_records(buf, at_answers, h.an_count as nat, Section::Answer)->Ok_0.1;
    lemma_decoded_records_len(buf, at_authorities, h.ns_count as nat, Section::Authority);
    let at_additionals = spec_decode_records(buf, at_authorities, h.ns_count as nat, Section::Authority)->Ok_0.1;
    lemma_decoded_records_len(buf, at_additionals, h.ar_count as nat, Section::Additional);
}

/// Where the bytes end right behind the first `k` records of a section, a
/// header that declares more than `k` records for it is refused: the section
/// is reported as cut short.
pub proof fn lemma_missing_record(buf: Seq<u8>, start: int, k: nat, n: nat, section: Section)
    requires
        k < n,
        spec_decode_records(buf, start, k, section) is Ok,
        spec_decode_records(buf, start, k, section)->Ok_0.1 >= buf.len(),
    ensures
        spec_decode_records(buf, start, n, section) == Err::<(Seq<RecordView>, int), Error>(
            Error::TruncatedSection(section),
        ),
{
    reveal(spec_decode_records);
    reveal(resource_record::spec_decode);
    assert(spec_decode_records(buf, start, (k + 1) as nat, section) == Err::<
        (Seq<RecordView>, int),
        Error,
    >(Error::TruncatedSection(section)));
    lemma_records_error_stays(buf, start, (k + 1) as nat, n, section);
}

/// Where the bytes end right behind the first `k` questions, a header that
/// declares more than `k` questions is refused: the section is reported as
/// cut short.
pub proof fn lemma_missing_question(buf: Seq<u8>, start: int, k: nat, n: nat)
    requires
        k < n,
        spec_decode_questions(buf, start, k) is Ok,
        spec_decode_questions(buf, start, k)->Ok_0.1 >= buf.len(),
    ensures
        spec_decode_questions(buf, start, n) == Err::<(Seq<QuestionView>, int), Error>(
            Error::TruncatedSection(Section::Question),
        ),
{
    reveal(spec_decode_questions);
    reveal(question::spec_decode);
    assert(spec_decode_questions(buf, start, (k + 1) as nat) == Err::<
        (Seq<QuestionView>, int),
        Error,
    >(Error::TruncatedSection(Section::Question)));
    lemma_questions_error_stays(buf, start, (k + 1) as nat, n);
}

/// Whether every record of `list` carries the data of its type.
pub open spec fn spec_records_match(list: Seq<RecordView>) -> bool {
    forall|i: int|
        0 <= i < list.len() ==> crate::rfc::rdata::spec_matches(
            (#[trigger] list[i]).rdata,
            list[i].rtype,
        )
}

/// One more question behind those that decode is one more question decoded.
proof fn lemma_questions_step(
    buf: Seq<u8>,
    start: int,
    n: nat,
    init: Seq<QuestionView>,
    pos: int,
    last: QuestionView,
    next: int,
)
    requires
        n > 0,
        spec_decode_questions(buf, start, (n - 1) as nat) == Ok::<(Seq<QuestionView>, int), Error>(
            (init, pos),
        ),
        question::spec_decode(buf, pos) == Ok::<(QuestionView, int), Error>((last, next)),
    ensures
        spec_decode_questions(buf, start, n) == Ok::<(Seq<QuestionView>, int), Error>(
            (init.push(last), next),
        ),
{
    reveal(spec_decode_questions);
}

/// One more record behind those that decode is one more record decoded.
proof fn lemma_records_step(
    buf: Seq<u8>,
    start: int,
    n: nat,
    section: Section,
    init: Seq<RecordView>,
    pos: int,
    last: RecordView,
    next: int,
)
    requires
        n > 0,
        spec_decode_records(buf, start, (n - 1) as nat, section) == Ok::<
            (Seq<RecordView>, int),
            Error,
        >((init, pos)),
        resource_record::spec_decode(buf, pos) == Ok::<(RecordView, int), Error>((last, next)),
    ensures
        spec_decode_records(buf, start, n, section) == Ok::<(Seq<RecordView>, int), Error>(
            (init.push(last), next),
        ),
{
    reveal(spec_decode_records);
}

/// The encoding of a list of questions is that of all but the last, then
/// that of the last, which is fit to encode.
proof fn lemma_encode_questions_last(list: Seq<QuestionView>)
    requires
        list.len() > 0,
        spec_encode_questions(list) is Ok,
    ensures
        spec_encode_questions(list.drop_last()) is Ok,
        crate::rfc::domain::spec_labels_wf(list.last().qname),
        spec_encode_questions(list)->Ok_0 == spec_encode_questions(list.drop_last())->Ok_0
            + question::spec_encode(list.last()),
{
    assert(crate::rfc::domain::spec_check(list.last().qname) is Ok);
}

/// The encoding of a list of records is that of all but the last, then that
/// of the last, which is fit to encode.
proof fn lemma_encode_records_last(list: Seq<RecordView>)
    requires
        list.len() > 0,
        spec_encode_records(list) is Ok,
        spec_records_match(list),
    ensures
        spec_encode_records(list.drop_last()) is Ok,
        spec_records_match(list.drop_last()),
        resource_record::spec_check(list.last()) is Ok,
        crate::rfc::rdata::spec_matches(list.last().rdata, list.last().rtype),
        spec_encode_records(list)->Ok_0 == spec_encode_records(list.drop_last())->Ok_0
            + resource_record::spec_encode(list.last()),
{
    let init = list.drop_last();
    assert forall|i: int| 0 <= i < init.len() implies crate::rfc::rdata::spec_matches(
        (#[trigger] init[i]).rdata,
        init[i].rtype,
    ) by {
        assert(init[i] == list[i]);
    }
}

/// Two ways to group four runs of bytes.
proof fn lemma_regroup_four(before: Seq<u8>, head: Seq<u8>, tail: Seq<u8>, after: Seq<u8>)
    ensures
        before + (head + tail) + after == before + head + (tail + after),
        before + (head + tail) + after == (before + head) + tail + after,
        (before + head).len() == before.len() + head.len(),
{
    assert(before + (head + tail) + after =~= before + head + (tail + after));
    assert(before + (head + tail) + after =~= (before + head) + tail + after);
}

/// Questions that can be encoded, encoded one after the other anywhere in a
/// message, decode to the same questions, and decoding stops right behind
/// them.
#[verifier::rlimit(50)]
pub proof fn lemma_questions_round_trip(before: Seq<u8>, list: Seq<QuestionView>, after: Seq<u8>)
    requires
        spec_encode_questions(list) is Ok,
    ensures
        spec_decode_questions(
            before + spec_encode_questions(list)->Ok_0 + after,
            before.len() as int,
            list.len(),
        ) == Ok::<(Seq<QuestionView>, int), Error>(
            (list, (before.len() + spec_encode_questions(list)->Ok_0.len()) as int),
        ),
    decreases list.len(),
{
    if list.len() == 0 {
        reveal(spec_decode_questions);
        assert(list =~= Seq::<QuestionView>::empty());
        assert(spec_encode_questions(list)->Ok_0.len() == 0);
    } else {
        let init = list.drop_last();
        let last = list.last();
        let head = spec_encode_questions(init)->Ok_0;
        let tail = question::spec_encode(last);
        let buf = before + (head + tail) + after;
        let pos = (before.len() + head.len()) as int;
        lemma_encode_questions_last(list);
        lemma_regroup_four(before, head, tail, after);
        lemma_questions_round_trip(before, init, tail + after);
        question::lemma_round_trip(before + head, last, after);
        lemma_questions_step(
            buf,
            before.len() as int,
            list.len(),
            init,
            pos,
            last,
            pos + tail.len(),
        );
        assert(init.push(last) =~= list);
    }
}

/// Records that can be encoded and carry the data of their types, encoded
/// one after the other anywhere in a message, decode to the same records,
/// and decoding stops right behind them.
#[verifier::rlimit(50)]
pub proof fn lemma_records_round_trip(
    before: Seq<u8>,
    list: Seq<RecordView>,
    after: Seq<u8>,
    section: Section,
)
    requires
        spec_encode_records(list) is Ok,
        spec_records_match(list),
    ensures
        spec_decode_records(
            before + spec_encode_records(list)->Ok_0 + after,
            before.len() as int,
            list.len(),
            section,
        ) == Ok::<(Seq<RecordView>, int), Error>(
            (list, (before.len() + spec_encode_records(list)->Ok_0.len()) as int),
        ),
    decreases list.len(),
{
    if list.len() == 0 {
        reveal(spec_decode_records);
        assert(list =~= Seq::<RecordView>::empty());
        assert(spec_encode_records(list)->Ok_0.len() == 0);
    } else {
        let init = list.drop_last();
        let last = list.last();
        let head = spec_encode_records(init)->Ok_0;
        let tail = resource_record::spec_encode(last);
        let buf = before + (head + tail) + after;
        let pos = (before.len() + head.len()) as int;
        lemma_encode_records_last(list);
        lemma_regroup_four(before, head, tail, after);
        lemma_records_round_trip(before, init, tail + after, section);
        resource_record::lemma_round_trip(before + head, last, after);
        lemma_records_step(
            buf,
            before.len() as int,
            list.len(),
            section,
            init,
            pos,
            last,
            pos + tail.len(),
        );
        assert(init.push(last) =~= list);
    }
}

/// The ways in which the parts of an encoded message are grouped when each
/// is looked at in turn.
proof fn lemma_regroup(
    h: Seq<u8>,
    qd: Seq<u8>,
    an: Seq<u8>,
    ns: Seq<u8>,
    ar: Seq<u8>,
    after: Seq<u8>,
)
    ensures
        h + qd + an + ns + ar + after == Seq::<u8>::empty() + h + (qd + an + ns + ar + after),
        h + qd + an + ns + ar + after == h + qd + (an + ns + ar + after),
        h + qd + an + ns + ar + after == (h + qd) + an + (ns + ar + after),
        h + qd + an + ns + ar + after == (h + qd + an) + ns + (ar + after),
        (h + qd).len() == h.len() + qd.len(),
        (h + qd + an).len() == h.len() + qd.len() + an.len(),
        (h + qd + an + ns).len() == h.len() + qd.len() + an.len() + ns.len(),
{
    let all = h + qd + an + ns + ar + after;
    assert(all =~= Seq::<u8>::empty() + h + (qd + an + ns + ar + after));
    assert(all =~= h + qd + (an + ns + ar + after));
    assert(all =~= (h + qd) + an + (ns + ar + after));
    assert(all =~= (h + qd + an) + ns + (ar + after));
}

/// A message that can be encoded, and whose records carry the data of their
/// types, decodes from its encoding to the same message, whatever follows
/// the encoding.
#[verifier::rlimit(50)]
pub proof fn lemma_round_trip(m: MessageView, after: Seq<u8>)
    requires
        spec_encode(m) is Ok,
        spec_records_match(m.answers),
        spec_records_match(m.authorities),
        spec_records_match(m.additionals),
    ensures
        spec_decode(spec_encode(m)->Ok_0 + after) == Ok::<MessageView, Error>(m),
{
    let h = header::spec_encode(m.header);
    let qd = spec_encode_questions(m.questions)->Ok_0;
    let an = spec_encode_records(m.answers)->Ok_0;
    let ns = spec_encode_records(m.authorities)->Ok_0;
    let ar = spec_encode_records(m.additionals)->Ok_0;
    let buf = h + qd + an + ns + ar + after;
    assert(spec_check_counts(m) is Ok);
    assert(spec_encode(m)->Ok_0 + after == buf);
    lemma_regroup(h, qd, an, ns, ar, after);
    header::lemma_round_trip(Seq::<u8>::empty(), m.header, qd + an + ns + ar + after);
    lemma_questions_round_trip(h, m.questions, an + ns + ar + after);
    lemma_records_round_trip(h + qd, m.answers, ns + ar + after, Section::Answer);
    lemma_records_round_trip(h + qd + an, m.authorities, ar + after, Section::Authority);
    lemma_records_round_trip(h + qd + an + ns, m.additionals, after, Section::Additional);
}

} // verus!
