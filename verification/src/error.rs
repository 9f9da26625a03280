//! The errors that encoding and decoding can report.

use vstd::prelude::*;

verus! {

/// The parts of a message, in the order in which they appear on the wire.
#[derive(Debug, Clone, Copy, PartialEq, Eq, Structural)]
pub enum Section {
    Header,
    Question,
    Answer,
    Authority,
    Additional,
}

/// Why a value could not be encoded or decoded.
#[derive(Debug, Clone, Copy, PartialEq, Eq, Structural)]
pub enum Error {
    /// The QR bit holds no known packet type.
    UnknownPacketType,
    /// The four opcode bits hold no known opcode.
    UnknownOpCode,
    /// The four response-code bits hold no known response code.
    UnknownResponseCode,
    /// The 16-bit type of a question is not a known query type.
    UnknownQType,
    /// The 16-bit class of a question is not a known query class.
    UnknownQClass,
    /// A label's length byte starts with the reserved bits `01` or `10`.
    ReservedLabelType,
    /// A compression pointer does not point strictly before the name it
    /// belongs to.
    PointerNotEarlier,
    /// A label is empty where a label must hold at least one octet.
    EmptyLabel,
    /// A label is longer than 63 octets.
    LabelTooLong,
    /// A name takes more than 255 octets once expanded.
    NameTooLong,
    /// Record data does not fill the length that its record declares, or is
    /// longer than a record can declare.
    RDataLength,
    /// The bytes ended inside a field.
    Truncated,
    /// The bytes ended before the named section held as many entries as the
    /// header declares.
    TruncatedSection(Section),
    /// A count of the header is not the number of entries of the named
    /// section.
    CountMismatch(Section),
    /// A message is too long for the two-byte length that precedes it on a
    /// stream.
    MessageTooLong,
    /// The peer closed the stream before a whole message had arrived.
    ConnectionClosed,
    /// The transport took fewer bytes than the message holds.
    PartialSend,
    /// The message that arrived is longer than the buffer it is meant for.
    BufferTooSmall,
}

} // verus!
