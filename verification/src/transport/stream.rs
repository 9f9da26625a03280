//! Framing on a stream.
//!
//! On a stream every message follows its length, a big-endian 16-bit
//! integer. A read from a stream may bring any part of what was sent, so the
//! receiver collects what the reads bring until the length and as many bytes
//! as it declares are there.
//!
//! [`StreamAssembler`] holds the decisions and none of the I/O: the caller
//! reads from the socket and hands over what each read brought.

use crate::error::Error;
use crate::transport::mode::TransportMode;
use crate::wire::{
    copy_range, lemma_u16_round_trip, read_u16_at, spec_u16_be, spec_u16_from_be, write_bytes,
    write_u16,
};
use vstd::prelude::*;

verus! {

/// The most bytes that a message on a stream can hold.
pub const MAX_MESSAGE: usize = 65535;

/// A message as it travels on a stream: its length, then the message.
pub open spec fn spec_frame(message: Seq<u8>) -> Seq<u8> {
    spec_u16_be(message.len() as u16) + message
}

/// The bytes of all chunks, in their order.
pub open spec fn spec_concat(chunks: Seq<Seq<u8>>) -> Seq<u8>
    decreases chunks.len(),
{
    if chunks.len() == 0 {
        Seq::<u8>::empty()
    } else {
        spec_concat(chunks.drop_last()) + chunks.last()
    }
}

/// The length that the first two bytes of `data` declare, once they are
/// there.
pub open spec fn spec_declared(data: Seq<u8>) -> Option<int> {
    if data.len() >= 2 {
        Some(spec_u16_from_be(data[0], data[1]))
    } else {
        None
    }
}

/// The message that `data` holds, once the length and all the bytes that it
/// declares are there.
pub open spec fn spec_message(data: Seq<u8>) -> Option<Seq<u8>> {
    match spec_declared(data) {
        Some(n) => if data.len() >= 2 + n {
            Some(data.subrange(2, 2 + n))
        } else {
            None
        },
        None => None,
    }
}

/// The number of bytes that `data` still lacks: of the length while that is
/// incomplete, then of the message.
pub open spec fn spec_missing(data: Seq<u8>) -> int {
    match spec_declared(data) {
        None => 2 - data.len(),
        Some(n) => if data.len() >= 2 + n {
            0
        } else {
            2 + n - data.len()
        },
    }
}

/// What the caller does next.
#[derive(Debug, Clone, PartialEq, Eq)]
pub enum StreamAction {
    /// Read from the stream again; this many bytes are still missing.
    Read(usize),
    /// The message is complete: here it is, without its length.
    Deliver(Vec<u8>),
    /// The stream ended before the message was complete.
    Fail(Error),
}

/// The bytes of a message as `mode` sends them: behind their length on a
/// stream, as they are in a datagram. A message of more than 65535 bytes
/// cannot be sent on a stream.
pub fn encode_for(mode: TransportMode, message: &[u8]) -> (r: Result<Vec<u8>, Error>)
    ensures
        match mode {
            TransportMode::Udp => r is Ok && r->Ok_0@ == message@,
            TransportMode::Tcp => if message@.len() <= MAX_MESSAGE {
                r is Ok && r->Ok_0@ == spec_frame(message@)
            } else {
                r is Err && r->Err_0 == Error::MessageTooLong
            },
        },
{
    let mut out: Vec<u8> = Vec::new();
    if mode.uses_leading_length() {
        if message.len() > MAX_MESSAGE {
            return Err(Error::MessageTooLong);
        }
        write_u16(&mut out, message.len() as u16);
    }
    write_bytes(&mut out, message);
    assert(Seq::<u8>::empty() + message@ =~= message@);
    assert(Seq::<u8>::empty() + spec_u16_be(message@.len() as u16) + message@ =~= spec_frame(
        message@,
    ));
    Ok(out)
}

/// Whether a send took all the `len` bytes that were handed to it: `sent`
/// is the number that the transport reports.
pub fn check_sent(sent: usize, len: usize) -> (r: Result<(), Error>)
    ensures
        r == if sent == len {
            Ok::<(), Error>(())
        } else {
            Err::<(), Error>(Error::PartialSend)
        },
{
    if sent == len {
        Ok(())
    } else {
        Err(Error::PartialSend)
    }
}

/// The number of bytes that delivering `message` into a buffer of
/// `capacity` bytes fills: the length of the message, which must not be
/// above the capacity.
pub fn delivered_len(message: &[u8], capacity: usize) -> (r: Result<usize, Error>)
    ensures
        r == if message@.len() <= capacity {
            Ok::<usize, Error>(message@.len() as usize)
        } else {
            Err::<usize, Error>(Error::BufferTooSmall)
        },
{
    if message.len() <= capacity {
        Ok(message.len())
    } else {
        Err(Error::BufferTooSmall)
    }
}

/// What has arrived of one message on a stream.
#[derive(Debug, Clone, PartialEq, Eq)]
pub struct StreamAssembler {
    pub received: Vec<u8>,
}

impl View for StreamAssembler {
    type V = Seq<u8>;

    open spec fn view(&self) -> Seq<u8> {
        self.received@
    }
}

impl StreamAssembler {
    /// An assembler that has received nothing.
    pub fn new() -> (a: Self)
        ensures
            a@ == Seq::<u8>::empty(),
    {
        StreamAssembler { received: Vec::new() }
    }

    /// The number of bytes that are still missing: of the length while that
    /// is incomplete, then of the message. Zero once the message is complete.
    pub fn missing(&self) -> (n: usize)
        ensures
            n == spec_missing(self@),
            n == 0 <==> spec_message(self@) is Some,
    {
        let len = self.received.len();
        match read_u16_at(self.received.as_slice(), 0) {
            Err(_) => 2 - len,
            Ok(declared) => {
                let declared = declared as usize;
                if len - 2 >= declared {
                    0
                } else {
                    declared - (len - 2)
                }
            },
        }
    }

    /// The message without its length, once it is complete.
    pub fn message(&self) -> (m: Option<Vec<u8>>)
        ensures
            match spec_message(self@) {
                Some(bytes) => m is Some && m->Some_0@ == bytes,
                None => m is None,
            },
    {
        let len = self.received.len();
        match read_u16_at(self.received.as_slice(), 0) {
            Err(_) => None,
            Ok(declared) => {
                let declared = declared as usize;
                if len - 2 >= declared {
                    Some(copy_range(self.received.as_slice(), 2, declared))
                } else {
                    None
                }
            },
        }
    }

    /// Takes in what one read brought and says what to do next.
    ///
    /// The bytes are added to what has arrived. Once the message is complete
    /// it is delivered. While it is not, a read that brought nothing means
    /// that the peer closed the stream, which fails; any other read is
    /// followed by another.
    pub fn on_read(&mut self, chunk: &[u8]) -> (action: StreamAction)
        ensures
            final(self)@ == old(self)@ + chunk@,
            match spec_message(old(self)@ + chunk@) {
                Some(bytes) => action matches StreamAction::Deliver(m) && m@ == bytes,
                None => if chunk@.len() == 0 {
                    action == StreamAction::Fail(Error::ConnectionClosed)
                } else {
                    action == StreamAction::Read(spec_missing(old(self)@ + chunk@) as usize)
                },
            },
    {
        write_bytes(&mut self.received, chunk);
        match self.message() {
            Some(m) => StreamAction::Deliver(m),
            None => if chunk.len() == 0 {
                StreamAction::Fail(Error::ConnectionClosed)
            } else {
                StreamAction::Read(self.missing())
            },
        }
    }
}

/// A framed message holds its message, and nothing shorter than the frame
/// holds any.
pub proof fn lemma_frame(message: Seq<u8>, k: int)
    requires
        message.len() <= MAX_MESSAGE,
        0 <= k < spec_frame(message).len(),
    ensures
        spec_frame(message).len() == message.len() + 2,
        spec_message(spec_frame(message)) == Some(message),
        spec_message(spec_frame(message).subrange(0, k)) is None,
        spec_missing(spec_frame(message).subrange(0, k)) > 0,
{
    let frame = spec_frame(message);
    lemma_u16_round_trip(message.len() as u16);
    assert(frame[0] == spec_u16_be(message.len() as u16)[0]);
    assert(frame[1] == spec_u16_be(message.len() as u16)[1]);
    assert(frame.subrange(2, 2 + message.len() as int) =~= message);
    let part = frame.subrange(0, k);
    if k >= 2 {
        assert(part[0] == frame[0] && part[1] == frame[1]);
    }
}

/// The bytes of more chunks are the bytes of the first of them, then those
/// of the others.
pub proof fn lemma_concat_split(chunks: Seq<Seq<u8>>, k: int)
    requires
        0 <= k <= chunks.len(),
    ensures
        spec_concat(chunks) == spec_concat(chunks.subrange(0, k)) + spec_concat(
            chunks.subrange(k, chunks.len() as int),
        ),
    decreases chunks.len() - k,
{
    let tail = chunks.subrange(k, chunks.len() as int);
    if k == chunks.len() {
        assert(chunks.subrange(0, k) =~= chunks);
        assert(spec_concat(chunks) + spec_concat(tail) =~= spec_concat(chunks));
    } else {
        lemma_concat_split(chunks.drop_last(), k);
        assert(chunks.drop_last().subrange(0, k) =~= chunks.subrange(0, k));
        assert(chunks.drop_last().subrange(k, chunks.len() - 1) =~= tail.drop_last());
        assert(tail.last() == chunks.last());
        assert(spec_concat(chunks.subrange(0, k)) + (spec_concat(tail.drop_last()) + tail.last())
            =~= (spec_concat(chunks.subrange(0, k)) + spec_concat(tail.drop_last()))
            + tail.last());
    }
}

/// A framed message that arrives in any number of chunks is delivered whole
/// with the last of them, and not before: while bytes are outstanding no
/// message is complete.
pub proof fn lemma_assembly(message: Seq<u8>, chunks: Seq<Seq<u8>>, k: int)
    requires
        message.len() <= MAX_MESSAGE,
        spec_concat(chunks) == spec_frame(message),
        0 <= k <= chunks.len(),
    ensures
        spec_message(spec_concat(chunks)) == Some(message),
        spec_concat(chunks.subrange(0, k)).len() < spec_frame(message).len() ==> spec_message(
            spec_concat(chunks.subrange(0, k)),
        ) is None,
{
    lemma_frame(message, 0);
    lemma_concat_split(chunks, k);
    let part = spec_concat(chunks.subrange(0, k));
    if part.len() < spec_frame(message).len() {
        assert(spec_frame(message).subrange(0, part.len() as int) =~= part);
        lemma_frame(message, part.len() as int);
    }
}

} // verus!
