//! Domain names: labels on the wire, compression pointers, and text.
//!
//! On the wire a name is a run of labels, each a length byte below 64 and
//! that many octets, closed by a zero byte. In place of the closing byte a
//! name may end in a pointer: two bytes that start with the bits `11` and
//! hold in their other 14 bits an offset into the same message, at which the
//! rest of the name is found.

use crate::error::Error;
use crate::wire::{copy_range, write_bytes, write_u8, Cursor};
use vstd::prelude::*;
use vstd::string::StringSliceAdditionalSpecFns;

verus! {

/// The most octets that one label may hold.
pub const MAX_LABEL: usize = 63;

/// The most octets that a name may take once expanded, with its length bytes
/// and its closing byte.
pub const MAX_NAME: usize = 255;

/// The byte that separates the labels of a name in text.
pub const DOT: u8 = 46;

/// A domain name: its labels from the leftmost to the one below the root.
#[derive(Debug, Clone, PartialEq, Eq)]
pub struct DomainName {
    pub labels: Vec<Vec<u8>>,
}

impl View for DomainName {
    type V = Seq<Seq<u8>>;

    open spec fn view(&self) -> Seq<Seq<u8>> {
        Seq::new(self.labels@.len(), |i: int| self.labels@[i]@)
    }
}

/// The labels one after the other, each behind its length byte, without the
/// closing byte.
pub open spec fn spec_encode_labels(labels: Seq<Seq<u8>>) -> Seq<u8>
    decreases labels.len(),
{
    if labels.len() == 0 {
        Seq::<u8>::empty()
    } else {
        seq![labels[0].len() as u8] + labels[0] + spec_encode_labels(labels.drop_first())
    }
}

/// The uncompressed wire form of a name.
pub open spec fn spec_encode(labels: Seq<Seq<u8>>) -> Seq<u8> {
    spec_encode_labels(labels).push(0u8)
}

/// The octets that a name takes once expanded.
pub open spec fn spec_wire_len(labels: Seq<Seq<u8>>) -> int {
    spec_encode_labels(labels).len() as int + 1
}

/// What stops a name from being encoded, if anything: an empty label, else a
/// label of more than 63 octets, else an expanded length above 255.
pub open spec fn spec_check(labels: Seq<Seq<u8>>) -> Result<(), Error> {
    if exists|i: int| 0 <= i < labels.len() && #[trigger] labels[i].len() == 0 {
        Err(Error::EmptyLabel)
    } else if exists|i: int| 0 <= i < labels.len() && #[trigger] labels[i].len() > MAX_LABEL {
        Err(Error::LabelTooLong)
    } else if spec_wire_len(labels) > MAX_NAME {
        Err(Error::NameTooLong)
    } else {
        Ok(())
    }
}

/// A name within the limits: every label holds 1 to 63 octets, and the
/// expanded name at most 255.
pub open spec fn spec_labels_wf(labels: Seq<Seq<u8>>) -> bool {
    &&& forall|i: int| 0 <= i < labels.len() ==> 1 <= #[trigger] labels[i].len() <= MAX_LABEL
    &&& spec_wire_len(labels) <= MAX_NAME
}

/// The offset behind the 14 bits of the pointer whose bytes are `b0`, `b1`.
pub open spec fn spec_pointer_target(b0: u8, b1: u8) -> int {
    (b0 - 192) * 256 + b1
}

/// Reads labels at `pos` for a name, or a part of a name that a pointer led
/// to, that began at `origin`, with `budget` octets left of the 255.
///
/// Gives the labels and the offset behind the closing byte or behind the
/// pointer, whichever ends the labels that stand at `pos`. A pointer must
/// lead strictly before `origin`; what it leads to is read as a name that
/// begins at its target.
pub open spec fn spec_parse(buf: Seq<u8>, origin: int, pos: int, budget: int) -> Result<
    (Seq<Seq<u8>>, int),
    Error,
>
    decreases origin, buf.len() - pos,
{
    if pos < 0 || pos >= buf.len() {
        Err(Error::Truncated)
    } else {
        let b = buf[pos];
        if b == 0 {
            Ok((Seq::<Seq<u8>>::empty(), pos + 1))
        } else if b < 64 {
            if pos + 1 + b > buf.len() {
                Err(Error::Truncated)
            } else if b + 2 > budget {
                Err(Error::NameTooLong)
            } else {
                match spec_parse(buf, origin, pos + 1 + b, budget - 1 - b) {
                    Ok((rest, next)) => Ok(
                        (seq![buf.subrange(pos + 1, pos + 1 + b)] + rest, next),
                    ),
                    Err(e) => Err(e),
                }
            }
        } else if b >= 192 {
            if pos + 1 >= buf.len() {
                Err(Error::Truncated)
            } else {
                let target = spec_pointer_target(b, buf[pos + 1]);
                if target >= origin {
                    Err(Error::PointerNotEarlier)
                } else {
                    match spec_parse(buf, target, target, budget) {
                        Ok((rest, _)) => Ok((rest, pos + 2)),
                        Err(e) => Err(e),
                    }
                }
            }
        } else {
            Err(Error::ReservedLabelType)
        }
    }
}

/// The name that begins at `start` in the message `buf`, and the offset of
/// what follows it there.
pub open spec fn spec_decode(buf: Seq<u8>, start: int) -> Result<(Seq<Seq<u8>>, int), Error> {
    spec_parse(buf, start, start, MAX_NAME as int)
}

/// The labels read so far, put before what the rest of the bytes gives.
pub open spec fn spec_resume(
    acc: Seq<Seq<u8>>,
    next: Option<usize>,
    tail: Result<(Seq<Seq<u8>>, int), Error>,
) -> Result<(Seq<Seq<u8>>, int), Error> {
    match tail {
        Err(e) => Err(e),
        Ok((rest, n)) => Ok(
            (
                acc + rest,
                match next {
                    Some(m) => m as int,
                    None => n,
                },
            ),
        ),
    }
}

/// The index of the first dot in `text`, or its length where it holds none.
pub open spec fn spec_first_dot(text: Seq<u8>) -> int
    decreases text.len(),
{
    if text.len() == 0 {
        0
    } else if text[0] == DOT {
        0
    } else {
        1 + spec_first_dot(text.drop_first())
    }
}

/// The pieces of `text` between its dots; one more than it has dots.
pub open spec fn spec_pieces(text: Seq<u8>) -> Seq<Seq<u8>>
    decreases text.len(),
{
    let d = spec_first_dot(text);
    if 0 <= d < text.len() {
        seq![text.subrange(0, d)] + spec_pieces(text.subrange(d + 1, text.len() as int))
    } else {
        seq![text]
    }
}

/// The labels that `text` names. The empty text and a lone dot name the
/// root, which has no labels. One dot at the end closes the name and adds no
/// label.
pub open spec fn spec_text_labels(text: Seq<u8>) -> Seq<Seq<u8>> {
    if text.len() == 0 || (text.len() == 1 && text[0] == DOT) {
        Seq::<Seq<u8>>::empty()
    } else if text.last() == DOT {
        spec_pieces(text.drop_last())
    } else {
        spec_pieces(text)
    }
}

/// The name that `text` stands for, or why it stands for none.
pub open spec fn spec_from_text(text: Seq<u8>) -> Result<Seq<Seq<u8>>, Error> {
    match spec_check(spec_text_labels(text)) {
        Ok(_) => Ok(spec_text_labels(text)),
        Err(e) => Err(e),
    }
}

/// The labels as text, each followed by a dot, every octet as the character
/// with its code.
pub open spec fn spec_dotted(labels: Seq<Seq<u8>>) -> Seq<char>
    decreases labels.len(),
{
    if labels.len() == 0 {
        Seq::<char>::empty()
    } else {
        spec_dotted(labels.drop_last()) + labels.last().map_values(|b: u8| b as char).push('.')
    }
}

/// A name as text: a lone dot for the root, else the labels, each followed
/// by a dot.
pub open spec fn spec_text(labels: Seq<Seq<u8>>) -> Seq<char> {
    if labels.len() == 0 {
        seq!['.']
    } else {
        spec_dotted(labels)
    }
}

/// The labels of two runs, encoded, are the two encodings one after the
/// other.
pub proof fn lemma_encode_labels_concat(a: Seq<Seq<u8>>, b: Seq<Seq<u8>>)
    ensures
        spec_encode_labels(a + b) == spec_encode_labels(a) + spec_encode_labels(b),
    decreases a.len(),
{
    if a.len() == 0 {
        assert(a + b =~= b);
        assert(spec_encode_labels(a) + spec_encode_labels(b) =~= spec_encode_labels(b));
    } else {
        lemma_encode_labels_concat(a.drop_first(), b);
        assert((a + b).drop_first() =~= a.drop_first() + b);
        assert((a + b)[0] == a[0]);
        assert(spec_encode_labels(a + b) =~= spec_encode_labels(a) + spec_encode_labels(b));
    }
}

/// One more label at the end adds its length byte and its octets to the
/// encoding.
pub proof fn lemma_encode_labels_push(a: Seq<Seq<u8>>, label: Seq<u8>)
    ensures
        spec_encode_labels(a.push(label)) == spec_encode_labels(a) + seq![label.len() as u8]
            + label,
{
    let one = seq![label];
    lemma_encode_labels_concat(a, one);
    assert(a.push(label) =~= a + one);
    assert(one.drop_first() =~= Seq::<Seq<u8>>::empty());
    assert(spec_encode_labels(one.drop_first()) =~= Seq::<u8>::empty());
    assert(spec_encode_labels(one) =~= seq![label.len() as u8] + label);
    assert(spec_encode_labels(a) + (seq![label.len() as u8] + label) =~= spec_encode_labels(a)
        + seq![label.len() as u8] + label);
}

/// `String::push`: the character is added at the end of the string.
#[verifier::external_body]
pub(crate) fn push_char(s: &mut String, c: char)
    ensures
        final(s)@ == old(s)@.push(c),
{
    s.push(c)
}

impl DomainName {
    /// Whether the name is within the limits of the wire format.
    pub open spec fn wf(&self) -> bool {
        spec_labels_wf(self@)
    }

    /// The root name, which has no labels.
    pub fn root() -> (name: Self)
        ensures
            name@ == Seq::<Seq<u8>>::empty(),
            name.wf(),
    {
        let name = DomainName { labels: Vec::new() };
        assert(name@ =~= Seq::<Seq<u8>>::empty());
        name
    }

    /// Checks the name against the limits of the wire format.
    pub fn check(&self) -> (r: Result<(), Error>)
        ensures
            r == spec_check(self@),
            r is Ok <==> self.wf(),
    {
        let mut has_empty = false;
        let mut has_long = false;
        // The octets of the labels seen so far, or 256 for any number above 255.
        let mut total: usize = 0;
        let mut i: usize = 0;
        while i < self.labels.len()
            invariant
                i <= self.labels@.len(),
                has_empty <==> exists|j: int| 0 <= j < i && #[trigger] self@[j].len() == 0,
                has_long <==> exists|j: int| 0 <= j < i && #[trigger] self@[j].len() > MAX_LABEL,
                total <= 256,
                total == if spec_encode_labels(self@.subrange(0, i as int)).len() <= 255 {
                    spec_encode_labels(self@.subrange(0, i as int)).len() as int
                } else {
                    256
                },
            decreases self.labels@.len() - i,
        {
            let len = self.labels[i].len();
            assert(len == self@[i as int].len());
            if len == 0 {
                has_empty = true;
            }
            if len > MAX_LABEL {
                has_long = true;
            }
            proof {
                lemma_encode_labels_push(self@.subrange(0, i as int), self@[i as int]);
                assert(self@.subrange(0, i + 1) =~= self@.subrange(0, i as int).push(
                    self@[i as int],
                ));
            }
            if len >= 256 || total + 1 + len > 255 {
                total = 256;
            } else {
                total = total + 1 + len;
            }
            i += 1;
        }
        assert(self@.subrange(0, i as int) =~= self@);
        if has_empty {
            Err(Error::EmptyLabel)
        } else if has_long {
            Err(Error::LabelTooLong)
        } else if total + 1 > MAX_NAME {
            Err(Error::NameTooLong)
        } else {
            Ok(())
        }
    }

    /// The name that `text` stands for: its pieces between dots, where one
    /// dot at the end adds no label, and the empty text and a lone dot are
    /// the root. Fails on an empty label, on a label above 63 octets and on a
    /// name above 255 octets.
    pub fn from_text(text: &[u8]) -> (r: Result<DomainName, Error>)
        ensures
            match spec_from_text(text@) {
                Ok(labels) => r is Ok && r->Ok_0@ == labels && r->Ok_0.wf(),
                Err(e) => r is Err && r->Err_0 == e,
            },
    {
        let n = text.len();
        let mut labels: Vec<Vec<u8>> = Vec::new();
        if !(n == 0 || (n == 1 && text[0] == DOT)) {
            let end: usize = if text[n - 1] == DOT {
                n - 1
            } else {
                n
            };
            let ghost body = text@.subrange(0, end as int);
            assert(spec_text_labels(text@) == spec_pieces(body)) by {
                assert(text@.drop_last() =~= text@.subrange(0, n - 1));
                assert(text@.subrange(0, n as int) =~= text@);
            }
            let mut from: usize = 0;
            let mut i: usize = 0;
            proof {
                assert(body.subrange(0, end as int) =~= body);
                assert(Seq::new(labels@.len(), |k: int| labels@[k]@) + spec_pieces(body)
                    =~= spec_pieces(body));
            }
            while i < end
                invariant
                    from <= i <= end <= n,
                    n == text@.len(),
                    body == text@.subrange(0, end as int),
                    forall|j: int| from <= j < i ==> text@[j] != DOT,
                    spec_pieces(body) == Seq::new(labels@.len(), |k: int| labels@[k]@)
                        + spec_pieces(body.subrange(from as int, end as int)),
                decreases end - i,
            {
                if text[i] == DOT {
                    let piece = copy_range(text, from, i - from);
                    proof {
                        let rest = body.subrange(from as int, end as int);
                        lemma_first_dot(rest, i - from);
                        assert(rest.subrange(0, i - from) =~= piece@);
                        assert(rest.subrange(i - from + 1, rest.len() as int) =~= body.subrange(
                            i + 1,
                            end as int,
                        ));
                        let acc = Seq::new(labels@.len(), |k: int| labels@[k]@);
                        let acc2 = Seq::new(
                            labels@.push(piece).len(),
                            |k: int| labels@.push(piece)[k]@,
                        );
                        assert(acc2 =~= acc.push(piece@));
                        assert(acc + (seq![piece@] + spec_pieces(body.subrange(i + 1, end as int)))
                            =~= acc2 + spec_pieces(body.subrange(i + 1, end as int)));
                    }
                    labels.push(piece);
                    from = i + 1;
                }
                i += 1;
            }
            let piece = copy_range(text, from, end - from);
            proof {
                let rest = body.subrange(from as int, end as int);
                lemma_first_dot(rest, end - from);
                assert(piece@ =~= rest);
                let acc = Seq::new(labels@.len(), |k: int| labels@[k]@);
                let acc2 = Seq::new(labels@.push(piece).len(), |k: int| labels@.push(piece)[k]@);
                assert(acc2 =~= acc.push(piece@));
                assert(acc + seq![rest] =~= acc2);
            }
            labels.push(piece);
        }
        let name = DomainName { labels };
        assert(name@ == spec_text_labels(text@)) by {
            if n == 0 || (n == 1 && text@[0] == DOT) {
                assert(name@ =~= Seq::<Seq<u8>>::empty());
            }
        }
        match name.check() {
            Ok(_) => Ok(name),
            Err(e) => Err(e),
        }
    }

    /// The name that `name` stands for, read as the bytes of its text.
    pub fn try_from(name: &str) -> (r: Result<DomainName, Error>)
        ensures
            match spec_from_text(name.spec_bytes()) {
                Ok(labels) => r is Ok && r->Ok_0@ == labels && r->Ok_0.wf(),
                Err(e) => r is Err && r->Err_0 == e,
            },
    {
        Self::from_text(name.as_bytes())
    }

    /// Appends the uncompressed wire form of the name to `buffer` and returns
    /// the number of bytes written. A name outside the limits is refused and
    /// the buffer left as it was.
    pub fn serialize_to(&self, buffer: &mut Vec<u8>) -> (r: Result<usize, Error>)
        ensures
            match spec_check(self@) {
                Ok(_) => r == Ok::<usize, Error>(spec_wire_len(self@) as usize) && final(buffer)@
                    == old(buffer)@ + spec_encode(self@),
                Err(e) => r == Err::<usize, Error>(e) && final(buffer)@ == old(buffer)@,
            },
    {
        match self.check() {
            Err(e) => {
                return Err(e);
            },
            Ok(_) => {},
        }
        let mut written: usize = 0;
        let mut i: usize = 0;
        while i < self.labels.len()
            invariant
                i <= self.labels@.len(),
                self.wf(),
                written == spec_encode_labels(self@.subrange(0, i as int)).len(),
                written <= spec_encode_labels(self@).len(),
                buffer@ == old(buffer)@ + spec_encode_labels(self@.subrange(0, i as int)),
            decreases self.labels@.len() - i,
        {
            let label = &self.labels[i];
            assert(label@ == self@[i as int]);
            proof {
                let done = self@.subrange(0, i as int);
                let todo = self@.subrange(i + 1, self@.len() as int);
                lemma_encode_labels_push(done, label@);
                assert(self@.subrange(0, i + 1) =~= done.push(label@));
                lemma_encode_labels_concat(done.push(label@), todo);
                assert(done.push(label@) + todo =~= self@);
            }
            write_u8(buffer, label.len() as u8);
            write_bytes(buffer, label.as_slice());
            written = written + 1 + label.len();
            i += 1;
            assert(buffer@ =~= old(buffer)@ + spec_encode_labels(self@.subrange(0, i as int)));
        }
        assert(self@.subrange(0, i as int) =~= self@);
        write_u8(buffer, 0);
        assert(buffer@ =~= old(buffer)@ + spec_encode(self@));
        Ok(written + 1)
    }

    /// Decodes the name that begins at `start` in the message `buf`,
    /// following pointers, and gives it with the offset of what follows the
    /// name at `start`.
    ///
    /// Fails where the bytes end inside the name, on a length byte with the
    /// bits `01` or `10` in front, on a pointer that does not lead strictly
    /// before the start of the name or of the part it stands in, and on a
    /// name above 255 octets.
    pub fn decode_at(buf: &[u8], start: usize) -> (r: Result<(DomainName, usize), Error>)
        ensures
            match spec_decode(buf@, start as int) {
                Ok((labels, next)) => {
                    &&& r is Ok
                    &&& r->Ok_0.0@ == labels
                    &&& r->Ok_0.1 == next
                    &&& r->Ok_0.0.wf()
                    &&& start < next <= buf@.len()
                },
                Err(e) => r is Err && r->Err_0 == e,
            },
    {
        proof {
            if spec_decode(buf@, start as int) is Ok {
                lemma_parsed_is_wf(buf@, start as int, start as int, MAX_NAME as int);
            }
        }
        let mut labels: Vec<Vec<u8>> = Vec::new();
        let mut origin: usize = start;
        let mut pos: usize = start;
        let mut used: usize = 0;
        let mut next: Option<usize> = None;
        let ghost goal = spec_decode(buf@, start as int);
        assert(Seq::new(labels@.len(), |k: int| labels@[k]@) =~= Seq::<Seq<u8>>::empty());
        assert(goal == spec_resume(
            Seq::<Seq<u8>>::empty(),
            None,
            spec_parse(buf@, origin as int, pos as int, 255 - used),
        )) by {
            match goal {
                Ok((rest, n)) => {
                    assert(Seq::<Seq<u8>>::empty() + rest =~= rest);
                },
                Err(_) => {},
            }
        }
        loop
            invariant
                used <= 254,
                used == spec_encode_labels(Seq::new(labels@.len(), |k: int| labels@[k]@)).len(),
                forall|k: int|
                    0 <= k < labels@.len() ==> 1 <= (#[trigger] labels@[k])@.len() <= MAX_LABEL,
                goal == spec_decode(buf@, start as int),
                goal is Ok ==> start < goal->Ok_0.1 <= buf@.len(),
                goal == spec_resume(
                    Seq::new(labels@.len(), |k: int| labels@[k]@),
                    next,
                    spec_parse(buf@, origin as int, pos as int, 255 - used),
                ),
            decreases origin, buf@.len() - pos,
        {
            let ghost acc = Seq::new(labels@.len(), |k: int| labels@[k]@);
            if pos >= buf.len() {
                return Err(Error::Truncated);
            }
            let b = buf[pos];
            if b == 0 {
                let end = match next {
                    Some(n) => n,
                    None => pos + 1,
                };
                let name = DomainName { labels };
                proof {
                    assert(acc + Seq::<Seq<u8>>::empty() =~= acc);
                    assert(name@ =~= acc);
                }
                return Ok((name, end));
            } else if b < 64 {
                let len = b as usize;
                if buf.len() - pos - 1 < len {
                    return Err(Error::Truncated);
                }
                if len + 2 > 255 - used {
                    return Err(Error::NameTooLong);
                }
                let label = copy_range(buf, pos + 1, len);
                proof {
                    lemma_encode_labels_push(acc, label@);
                    let acc2 = Seq::new(
                        labels@.push(label).len(),
                        |k: int| labels@.push(label)[k]@,
                    );
                    assert(acc2 =~= acc.push(label@));
                    match spec_parse(buf@, origin as int, pos + 1 + b, 255 - used - 1 - b) {
                        Ok((rest, n)) => {
                            assert(acc + (seq![label@] + rest) =~= acc2 + rest);
                        },
                        Err(_) => {},
                    }
                }
                labels.push(label);
                used = used + 1 + len;
                pos = pos + 1 + len;
            } else if b >= 192 {
                if buf.len() - pos < 2 {
                    return Err(Error::Truncated);
                }
                let target: usize = (b - 192) as usize * 256 + buf[pos + 1] as usize;
                if target >= origin {
                    return Err(Error::PointerNotEarlier);
                }
                if next.is_none() {
                    next = Some(pos + 2);
                }
                origin = target;
                pos = target;
            } else {
                return Err(Error::ReservedLabelType);
            }
        }
    }

    /// The name as text: `.` for the root, else every label followed by a
    /// dot, each octet as the character with its code.
    pub fn to_string(&self) -> (s: String)
        ensures
            s@ == spec_text(self@),
    {
        let mut s = String::new();
        if self.labels.len() == 0 {
            push_char(&mut s, '.');
            assert(s@ =~= seq!['.']);
            return s;
        }
        let mut i: usize = 0;
        while i < self.labels.len()
            invariant
                i <= self.labels@.len(),
                s@ == spec_dotted(self@.subrange(0, i as int)),
            decreases self.labels@.len() - i,
        {
            let label = &self.labels[i];
            let ghost before = s@;
            let mut j: usize = 0;
            while j < label.len()
                invariant
                    j <= label@.len(),
                    s@ == before + label@.subrange(0, j as int).map_values(|b: u8| b as char),
                decreases label@.len() - j,
            {
                push_char(&mut s, label[j] as char);
                j += 1;
                assert(s@ =~= before + label@.subrange(0, j as int).map_values(
                    |b: u8| b as char,
                ));
            }
            push_char(&mut s, '.');
            i += 1;
            proof {
                let done = self@.subrange(0, i as int);
                assert(label@.subrange(0, j as int) =~= label@);
                assert(done.drop_last() =~= self@.subrange(0, i - 1));
                assert(done.last() == label@);
                assert(s@ =~= spec_dotted(done));
            }
        }
        assert(self@.subrange(0, i as int) =~= self@);
        s
    }

    /// Reads a name at the cursor. On success the name replaces `self` and
    /// the cursor stands behind the name; on an error both stay as they
    /// were.
    pub fn deserialize_from(&mut self, buffer: &mut Cursor) -> (r: Result<(), Error>)
        ensures
            final(buffer).buf == old(buffer).buf,
            match spec_decode(old(buffer).bytes(), old(buffer).pos as int) {
                Ok((labels, next)) => {
                    &&& r is Ok
                    &&& final(self)@ == labels
                    &&& final(self).wf()
                    &&& final(buffer).pos == next
                },
                Err(e) => {
                    &&& r == Err::<(), Error>(e)
                    &&& *final(self) == *old(self)
                    &&& final(buffer).pos == old(buffer).pos
                },
            },
    {
        match Self::decode_at(buffer.buf, buffer.position()) {
            Ok((name, next)) => {
                *self = name;
                buffer.set_position(next);
                Ok(())
            },
            Err(e) => Err(e),
        }
    }
}

impl Default for DomainName {
    /// The root name.
    fn default() -> (name: Self)
        ensures
            name@ == Seq::<Seq<u8>>::empty(),
    {
        DomainName::root()
    }
}

/// Where the first `k` bytes of `text` hold no dot, and the text ends there
/// or has a dot there, `k` is the index of its first dot.
pub proof fn lemma_first_dot(text: Seq<u8>, k: int)
    requires
        0 <= k <= text.len(),
        forall|j: int| 0 <= j < k ==> text[j] != DOT,
        k < text.len() ==> text[k] == DOT,
    ensures
        spec_first_dot(text) == k,
    decreases text.len(),
{
    if text.len() == 0 || k == 0 {
    } else {
        let rest = text.drop_first();
        assert forall|j: int| 0 <= j < k - 1 implies rest[j] != DOT by {
            assert(rest[j] == text[j + 1]);
        }
        lemma_first_dot(rest, k - 1);
    }
}


/// Where the bytes of `buf` from `pos` on are the uncompressed wire form of
/// labels within the limits, reading there gives those labels and the offset
/// behind their closing byte.
pub proof fn lemma_parse_encoded(
    buf: Seq<u8>,
    origin: int,
    pos: int,
    budget: int,
    labels: Seq<Seq<u8>>,
)
    requires
        0 <= pos,
        pos + spec_wire_len(labels) <= buf.len(),
        buf.subrange(pos, pos + spec_wire_len(labels)) == spec_encode(labels),
        forall|i: int| 0 <= i < labels.len() ==> 1 <= #[trigger] labels[i].len() <= MAX_LABEL,
        spec_wire_len(labels) <= budget,
    ensures
        spec_parse(buf, origin, pos, budget) == Ok::<(Seq<Seq<u8>>, int), Error>(
            (labels, pos + spec_wire_len(labels)),
        ),
    decreases labels.len(),
{
    let wire = spec_encode(labels);
    assert(buf[pos] == wire[0]) by {
        assert(buf.subrange(pos, pos + spec_wire_len(labels))[0] == buf[pos]);
    }
    if labels.len() == 0 {
        assert(spec_parse(buf, origin, pos, budget).unwrap().0 =~= labels);
    } else {
        let first = labels[0];
        let rest = labels.drop_first();
        let b = first.len() as u8;
        assert(1 <= first.len() <= MAX_LABEL);
        let tail = spec_encode_labels(rest);
        assert(spec_encode_labels(labels) == seq![b] + first + tail);
        assert(wire[0] == b);
        let at = pos + 1 + b;
        assert(buf.subrange(pos + 1, at) =~= first) by {
            assert forall|k: int| 0 <= k < first.len() implies buf[pos + 1 + k] == first[k] by {
                assert(buf.subrange(pos, pos + spec_wire_len(labels))[1 + k] == buf[pos + 1 + k]);
                assert(wire[1 + k] == first[k]);
            }
        }
        assert(buf.subrange(at, at + spec_wire_len(rest)) =~= spec_encode(rest)) by {
            assert forall|k: int| 0 <= k < spec_wire_len(rest) implies buf[at + k] == spec_encode(
                rest,
            )[k] by {
                assert(buf.subrange(pos, pos + spec_wire_len(labels))[1 + b + k] == buf[at + k]);
                assert(wire[1 + b + k] == spec_encode(rest)[k]);
            }
        }
        assert forall|i: int| 0 <= i < rest.len() implies 1 <= #[trigger] rest[i].len()
            <= MAX_LABEL by {
            assert(rest[i] == labels[i + 1]);
        }
        lemma_parse_encoded(buf, origin, at, budget - 1 - b, rest);
        assert(seq![first] + rest =~= labels);
    }
}

/// A name within the limits, encoded anywhere in a message, decodes to the
/// same name, and decoding stops right behind it.
pub proof fn lemma_round_trip(before: Seq<u8>, labels: Seq<Seq<u8>>, after: Seq<u8>)
    requires
        spec_labels_wf(labels),
    ensures
        spec_decode(before + spec_encode(labels) + after, before.len() as int) == Ok::<
            (Seq<Seq<u8>>, int),
            Error,
        >((labels, before.len() + spec_wire_len(labels))),
{
    let buf = before + spec_encode(labels) + after;
    let pos = before.len() as int;
    assert(buf.subrange(pos, pos + spec_wire_len(labels)) =~= spec_encode(labels));
    lemma_parse_encoded(buf, pos, pos, MAX_NAME as int, labels);
}

/// A pointer to an earlier offset that holds the uncompressed wire form of a
/// name within the limits decodes to that name, and decoding stops behind the
/// two bytes of the pointer.
pub proof fn lemma_pointer_to_encoded(buf: Seq<u8>, at: int, target: int, labels: Seq<Seq<u8>>)
    requires
        0 <= target < at,
        at + 1 < buf.len(),
        buf[at] >= 192,
        spec_pointer_target(buf[at], buf[at + 1]) == target,
        target + spec_wire_len(labels) <= buf.len(),
        buf.subrange(target, target + spec_wire_len(labels)) == spec_encode(labels),
        spec_labels_wf(labels),
    ensures
        spec_decode(buf, at) == Ok::<(Seq<Seq<u8>>, int), Error>((labels, at + 2)),
{
    lemma_parse_encoded(buf, target, target, MAX_NAME as int, labels);
}

/// A pointer that does not lead strictly before the start of the name it
/// stands in is refused, wherever in the name it stands.
pub proof fn lemma_pointer_not_earlier(buf: Seq<u8>, origin: int, pos: int, budget: int)
    requires
        0 <= pos,
        pos + 1 < buf.len(),
        buf[pos] >= 192,
        spec_pointer_target(buf[pos], buf[pos + 1]) >= origin,
    ensures
        spec_parse(buf, origin, pos, budget) == Err::<(Seq<Seq<u8>>, int), Error>(
            Error::PointerNotEarlier,
        ),
{
}

/// A length byte that starts with the bits `01` or `10` is refused.
pub proof fn lemma_reserved_bits(buf: Seq<u8>, origin: int, pos: int, budget: int)
    requires
        0 <= pos < buf.len(),
        64 <= buf[pos] < 192,
    ensures
        spec_parse(buf, origin, pos, budget) == Err::<(Seq<Seq<u8>>, int), Error>(
            Error::ReservedLabelType,
        ),
{
}

/// An error behind a label is the error of the whole name: no label hides
/// what follows it.
pub proof fn lemma_error_behind_label(buf: Seq<u8>, origin: int, pos: int, budget: int)
    requires
        0 <= pos < buf.len(),
        1 <= buf[pos] < 64,
        pos + 1 + buf[pos] <= buf.len(),
        buf[pos] + 2 <= budget,
        spec_parse(buf, origin, pos + 1 + buf[pos], budget - 1 - buf[pos]) is Err,
    ensures
        spec_parse(buf, origin, pos, budget) is Err,
        spec_parse(buf, origin, pos, budget)->Err_0 == spec_parse(
            buf,
            origin,
            pos + 1 + buf[pos],
            budget - 1 - buf[pos],
        )->Err_0,
{
}

/// Whatever decodes is within the limits, and decoding moved forward.
pub proof fn lemma_parsed_is_wf(buf: Seq<u8>, origin: int, pos: int, budget: int)
    requires
        budget >= 1,
        spec_parse(buf, origin, pos, budget) is Ok,
    ensures
        forall|i: int|
            0 <= i < spec_parse(buf, origin, pos, budget)->Ok_0.0.len() ==> 1 <= (
            #[trigger] spec_parse(buf, origin, pos, budget)->Ok_0.0[i]).len() <= MAX_LABEL,
        spec_wire_len(spec_parse(buf, origin, pos, budget)->Ok_0.0) <= budget,
        pos < spec_parse(buf, origin, pos, budget)->Ok_0.1 <= buf.len(),
    decreases origin, buf.len() - pos,
{
    let b = buf[pos];
    let labels = spec_parse(buf, origin, pos, budget)->Ok_0.0;
    if b == 0 {
    } else if b < 64 {
        let at = pos + 1 + b;
        lemma_parsed_is_wf(buf, origin, at, budget - 1 - b);
        let rest = spec_parse(buf, origin, at, budget - 1 - b)->Ok_0.0;
        let label = buf.subrange(pos + 1, at);
        assert(labels == seq![label] + rest);
        assert(labels.drop_first() =~= rest);
        assert forall|i: int| 0 <= i < labels.len() implies 1 <= #[trigger] labels[i].len()
            <= MAX_LABEL by {
            if i > 0 {
                assert(labels[i] == rest[i - 1]);
            }
        }
    } else {
        let target = spec_pointer_target(b, buf[pos + 1]);
        lemma_parsed_is_wf(buf, target, target, budget);
    }
}

} // verus!
