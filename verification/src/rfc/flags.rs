//! The 16-bit flag word of the header.
//!
//! ```text
//!   0  1  2  3  4  5  6  7  8  9 10 11 12 13 14 15
//! +--+--+--+--+--+--+--+--+--+--+--+--+--+--+--+--+
//! |QR|   Opcode  |AA|TC|RD|RA|Z |AD|CD|   RCODE   |
//! +--+--+--+--+--+--+--+--+--+--+--+--+--+--+--+--+
//! ```
//!
//! The diagram counts from the most significant bit: QR is bit 15 of the
//! word, RCODE its bits 3 to 0.

use crate::error::Error;
use crate::rfc::opcode::OpCode;
use crate::rfc::packet_type::PacketType;
use crate::rfc::response_code::ResponseCode;
use crate::wire::{spec_read_u16, spec_u16_be, write_u16, Cursor};
use vstd::prelude::*;
use vstd::string::StringExecFns;

verus! {

/// The seven one-bit flags of the header.
#[derive(Debug, Clone, Copy, PartialEq, Eq, Structural)]
pub struct BitFlags {
    /// AA: the responding server is an authority for the name.
    pub authorative_answer: bool,
    /// TC: the message was cut to fit the transmission channel.
    pub truncation: bool,
    /// RD: the server is asked to pursue the query recursively.
    pub recursion_desired: bool,
    /// RA: the server offers recursion.
    pub recursion_available: bool,
    /// Z: reserved.
    pub z: bool,
    /// AD: the data was authenticated.
    pub authentic_data: bool,
    /// CD: checking is disabled.
    pub checking_disabled: bool,
}

impl Default for BitFlags {
    /// All flags off but recursion desired.
    fn default() -> (b: Self)
        ensures
            b == (BitFlags {
                authorative_answer: false,
                truncation: false,
                recursion_desired: true,
                recursion_available: false,
                z: false,
                authentic_data: false,
                checking_disabled: false,
            }),
    {
        Self {
            authorative_answer: false,
            truncation: false,
            recursion_desired: true,
            recursion_available: false,
            z: false,
            authentic_data: false,
            checking_disabled: false,
        }
    }
}

/// The flag word of a header, field by field.
#[derive(Debug, Clone, Copy, PartialEq, Eq, Structural)]
pub struct Flags {
    pub qr: PacketType,
    pub op_code: OpCode,
    pub bitflags: BitFlags,
    pub response_code: ResponseCode,
}

impl Default for Flags {
    /// A standard query that asks for recursion.
    fn default() -> (f: Self)
        ensures
            f == (Flags {
                qr: PacketType::Query,
                op_code: OpCode::Query,
                bitflags: BitFlags {
                    authorative_answer: false,
                    truncation: false,
                    recursion_desired: true,
                    recursion_available: false,
                    z: false,
                    authentic_data: false,
                    checking_disabled: false,
                },
                response_code: ResponseCode::NoError,
            }),
    {
        Flags {
            qr: PacketType::Query,
            op_code: OpCode::Query,
            bitflags: BitFlags::default(),
            response_code: ResponseCode::NoError,
        }
    }
}

/// A flag as a bit of a 16-bit word.
pub open spec fn spec_bit(b: bool) -> u16 {
    if b {
        1u16
    } else {
        0u16
    }
}

/// The word that holds each field at its place.
pub open spec fn spec_pack(
    qr: u16,
    op: u16,
    aa: u16,
    tc: u16,
    rd: u16,
    ra: u16,
    z: u16,
    ad: u16,
    cd: u16,
    rc: u16,
) -> u16 {
    (qr << 15) | (op << 11) | (aa << 10) | (tc << 9) | (rd << 8) | (ra << 7) | (z << 6) | (ad
        << 5) | (cd << 4) | rc
}

/// The text `mark` where `set` holds, else no text.
pub open spec fn spec_mark(set: bool, mark: Seq<char>) -> Seq<char> {
    if set {
        mark
    } else {
        Seq::<char>::empty()
    }
}

/// Appends `mark` to `s` where `set` holds.
fn push_mark(s: &mut String, set: bool, mark: &str)
    ensures
        final(s)@ == old(s)@ + spec_mark(set, mark@),
{
    if set {
        s.append(mark);
    } else {
        assert(s@ =~= s@ + Seq::<char>::empty());
    }
}

/// Whether bit `n` of `value` is set.
pub open spec fn spec_bit_at(value: u16, n: u16) -> bool {
    (value >> n) & 1 == 1
}

proof fn lemma_pack_fields(
    qr: u16,
    op: u16,
    aa: u16,
    tc: u16,
    rd: u16,
    ra: u16,
    z: u16,
    ad: u16,
    cd: u16,
    rc: u16,
)
    by (bit_vector)
    requires
        qr <= 1,
        op <= 15,
        aa <= 1,
        tc <= 1,
        rd <= 1,
        ra <= 1,
        z <= 1,
        ad <= 1,
        cd <= 1,
        rc <= 15,
    ensures
        ({
            let w = (qr << 15) | (op << 11) | (aa << 10) | (tc << 9) | (rd << 8) | (ra << 7) | (z
                << 6) | (ad << 5) | (cd << 4) | rc;
            &&& w >> 15 == qr
            &&& (w >> 11) & 15 == op
            &&& (w >> 10) & 1 == aa
            &&& (w >> 9) & 1 == tc
            &&& (w >> 8) & 1 == rd
            &&& (w >> 7) & 1 == ra
            &&& (w >> 6) & 1 == z
            &&& (w >> 5) & 1 == ad
            &&& (w >> 4) & 1 == cd
            &&& w & 15 == rc
        }),
{
}

proof fn lemma_unpack_fields(w: u16)
    by (bit_vector)
    ensures
        w >> 15 <= 1,
        (w >> 11) & 15 <= 15,
        (w >> 10) & 1 <= 1,
        (w >> 9) & 1 <= 1,
        (w >> 8) & 1 <= 1,
        (w >> 7) & 1 <= 1,
        (w >> 6) & 1 <= 1,
        (w >> 5) & 1 <= 1,
        (w >> 4) & 1 <= 1,
        w & 15 <= 15,
        w == ((w >> 15) << 15) | (((w >> 11) & 15) << 11) | (((w >> 10) & 1) << 10) | (((w >> 9)
            & 1) << 9) | (((w >> 8) & 1) << 8) | (((w >> 7) & 1) << 7) | (((w >> 6) & 1) << 6) | (((w
            >> 5) & 1) << 5) | (((w >> 4) & 1) << 4) | (w & 15),
{
}

impl Flags {
    /// The flag word: every field shifted to its place and OR-ed together.
    pub open spec fn spec_word(self) -> u16 {
        spec_pack(
            self.qr.spec_code() as u16,
            self.op_code.spec_code() as u16,
            spec_bit(self.bitflags.authorative_answer),
            spec_bit(self.bitflags.truncation),
            spec_bit(self.bitflags.recursion_desired),
            spec_bit(self.bitflags.recursion_available),
            spec_bit(self.bitflags.z),
            spec_bit(self.bitflags.authentic_data),
            spec_bit(self.bitflags.checking_disabled),
            self.response_code.spec_code() as u16,
        )
    }

    /// The two bytes of the flag word on the wire.
    pub open spec fn spec_wire(self) -> Seq<u8> {
        spec_u16_be(self.spec_word())
    }

    /// The fields that `value` holds, or the first field, in the order packet
    /// type, opcode, response code, whose bits stand for nothing.
    pub open spec fn spec_try_from(value: u16) -> Result<Flags, Error> {
        match PacketType::spec_try_from((value >> 15) as u8) {
            Err(e) => Err(e),
            Ok(qr) => match OpCode::spec_try_from(((value >> 11) & 15) as u8) {
                Err(e) => Err(e),
                Ok(op_code) => match ResponseCode::spec_try_from((value & 15) as u8) {
                    Err(e) => Err(e),
                    Ok(response_code) => Ok(
                        Flags {
                            qr,
                            op_code,
                            bitflags: BitFlags {
                                authorative_answer: spec_bit_at(value, 10),
                                truncation: spec_bit_at(value, 9),
                                recursion_desired: spec_bit_at(value, 8),
                                recursion_available: spec_bit_at(value, 7),
                                z: spec_bit_at(value, 6),
                                authentic_data: spec_bit_at(value, 5),
                                checking_disabled: spec_bit_at(value, 4),
                            },
                            response_code,
                        },
                    ),
                },
            },
        }
    }

    /// The flags that the two bytes at `pos` hold.
    pub open spec fn spec_decode(buf: Seq<u8>, pos: int) -> Result<Flags, Error> {
        match spec_read_u16(buf, pos) {
            Err(e) => Err(e),
            Ok(value) => Self::spec_try_from(value),
        }
    }

    /// Replaces the response code and leaves the other fields.
    pub fn set_response_code(&mut self, rc: ResponseCode)
        ensures
            *final(self) == (Flags { response_code: rc, ..*old(self) }),
    {
        self.response_code = rc;
    }

    /// The flag word of these flags.
    pub fn word(&self) -> (w: u16)
        ensures
            w == self.spec_word(),
    {
        let mut flags: u16 = (self.qr.code() as u16) << 15;
        flags |= (self.op_code.code() as u16) << 11;
        flags |= (self.bitflags.authorative_answer as u16) << 10;
        flags |= (self.bitflags.truncation as u16) << 9;
        flags |= (self.bitflags.recursion_desired as u16) << 8;
        flags |= (self.bitflags.recursion_available as u16) << 7;
        flags |= (self.bitflags.z as u16) << 6;
        flags |= (self.bitflags.authentic_data as u16) << 5;
        flags |= (self.bitflags.checking_disabled as u16) << 4;
        flags |= self.response_code.code() as u16;
        flags
    }

    /// Splits a flag word into its fields. Fails on an opcode above 6 and, the
    /// opcode being known, on a response code above 11.
    pub fn try_from(value: u16) -> (r: Result<Flags, Error>)
        ensures
            r == Self::spec_try_from(value),
            r is Err <==> ((value >> 11) & 15) > 6 || (value & 15) > 11,
            r == Err::<Flags, Error>(Error::UnknownOpCode) <==> ((value >> 11) & 15) > 6,
            r is Ok ==> r->Ok_0.spec_word() == value,
    {
        proof {
            lemma_unpack_fields(value);
            Self::lemma_encode_of_decoded(value);
        }
        let qr = match PacketType::try_from((value >> 15) as u8) {
            Ok(qr) => qr,
            Err(e) => {
                return Err(e);
            },
        };
        let op_code = match OpCode::try_from(((value >> 11) & 0b1111) as u8) {
            Ok(op_code) => op_code,
            Err(e) => {
                return Err(e);
            },
        };
        let bitflags = BitFlags {
            authorative_answer: (value >> 10) & 1 == 1,
            truncation: (value >> 9) & 1 == 1,
            recursion_desired: (value >> 8) & 1 == 1,
            recursion_available: (value >> 7) & 1 == 1,
            z: (value >> 6) & 1 == 1,
            authentic_data: (value >> 5) & 1 == 1,
            checking_disabled: (value >> 4) & 1 == 1,
        };
        let response_code = match ResponseCode::try_from((value & 0b1111) as u8) {
            Ok(response_code) => response_code,
            Err(e) => {
                return Err(e);
            },
        };
        Ok(Flags { qr, op_code, bitflags, response_code })
    }

    /// Appends the two bytes of the flag word to `buffer` and returns their
    /// number.
    pub fn serialize_to(&self, buffer: &mut Vec<u8>) -> (r: Result<usize, Error>)
        ensures
            r == Ok::<usize, Error>(2),
            final(buffer)@ == old(buffer)@ + self.spec_wire(),
    {
        let n = write_u16(buffer, self.word());
        Ok(n)
    }

    /// Reads a flag word at the cursor. On success the flags replace `self`
    /// and the cursor has moved past the two bytes; on an error both stay as
    /// they were.
    pub fn deserialize_from(&mut self, buffer: &mut Cursor) -> (r: Result<(), Error>)
        ensures
            final(buffer).buf == old(buffer).buf,
            match Self::spec_decode(old(buffer).bytes(), old(buffer).pos as int) {
                Ok(flags) => {
                    &&& r is Ok
                    &&& *final(self) == flags
                    &&& final(buffer).pos == old(buffer).pos + 2
                },
                Err(e) => {
                    &&& r == Err::<(), Error>(e)
                    &&& *final(self) == *old(self)
                    &&& final(buffer).pos == old(buffer).pos
                },
            },
    {
        let start = buffer.position();
        let value = match buffer.read_u16() {
            Ok(value) => value,
            Err(e) => {
                return Err(e);
            },
        };
        match Flags::try_from(value) {
            Ok(flags) => {
                *self = flags;
                Ok(())
            },
            Err(e) => {
                buffer.set_position(start);
                Err(e)
            },
        }
    }

    /// The flags as text: `ad`, `aa`, `cd`, `ra`, `rd` and `tc` for each of
    /// these flags that is set, in this order, and for a response the
    /// mnemonic of its response code; a space behind each.
    pub open spec fn spec_text(self) -> Seq<char> {
        spec_mark(self.bitflags.authentic_data, "ad "@) + spec_mark(
            self.bitflags.authorative_answer,
            "aa "@,
        ) + spec_mark(self.bitflags.checking_disabled, "cd "@) + spec_mark(
            self.bitflags.recursion_available,
            "ra "@,
        ) + spec_mark(self.bitflags.recursion_desired, "rd "@) + spec_mark(
            self.bitflags.truncation,
            "tc "@,
        ) + spec_mark(self.qr == PacketType::Response, self.response_code.spec_name() + " "@)
    }

    /// The flags as text: the flags that are set, and for a response its
    /// response code.
    pub fn to_string(&self) -> (s: String)
        ensures
            s@ == self.spec_text(),
    {
        let mut s = String::new();
        push_mark(&mut s, self.bitflags.authentic_data, "ad ");
        assert(s@ =~= spec_mark(self.bitflags.authentic_data, "ad "@));
        push_mark(&mut s, self.bitflags.authorative_answer, "aa ");
        push_mark(&mut s, self.bitflags.checking_disabled, "cd ");
        push_mark(&mut s, self.bitflags.recursion_available, "ra ");
        push_mark(&mut s, self.bitflags.recursion_desired, "rd ");
        push_mark(&mut s, self.bitflags.truncation, "tc ");
        let ghost marks = s@;
        match self.qr {
            PacketType::Response => {
                s.append(self.response_code.name());
                s.append(" ");
                assert(s@ =~= marks + (self.response_code.spec_name() + " "@));
            },
            PacketType::Query => {
                assert(s@ =~= marks + Seq::<char>::empty());
            },
        }
        s
    }

    /// Encoding then decoding gives the same flags back, whatever they are.
    pub proof fn lemma_round_trip(self)
        ensures
            Self::spec_try_from(self.spec_word()) == Ok::<Flags, Error>(self),
            self.spec_wire().len() == 2,
            Self::spec_decode(self.spec_wire(), 0) == Ok::<Flags, Error>(self),
    {
        let w = self.spec_word();
        lemma_pack_fields(
            self.qr.spec_code() as u16,
            self.op_code.spec_code() as u16,
            spec_bit(self.bitflags.authorative_answer),
            spec_bit(self.bitflags.truncation),
            spec_bit(self.bitflags.recursion_desired),
            spec_bit(self.bitflags.recursion_available),
            spec_bit(self.bitflags.z),
            spec_bit(self.bitflags.authentic_data),
            spec_bit(self.bitflags.checking_disabled),
            self.response_code.spec_code() as u16,
        );
        crate::wire::lemma_u16_round_trip(w);
    }

    /// The encoded word holds each field at its documented place: QR in bit
    /// 15, the opcode in bits 14 to 11, AA, TC, RD, RA, Z, AD and CD in bits
    /// 10 down to 4, and the response code in bits 3 to 0.
    pub proof fn lemma_layout(self)
        ensures
            self.spec_word() >> 15 == self.qr.spec_code(),
            (self.spec_word() >> 11) & 15 == self.op_code.spec_code(),
            spec_bit_at(self.spec_word(), 10) == self.bitflags.authorative_answer,
            spec_bit_at(self.spec_word(), 9) == self.bitflags.truncation,
            spec_bit_at(self.spec_word(), 8) == self.bitflags.recursion_desired,
            spec_bit_at(self.spec_word(), 7) == self.bitflags.recursion_available,
            spec_bit_at(self.spec_word(), 6) == self.bitflags.z,
            spec_bit_at(self.spec_word(), 5) == self.bitflags.authentic_data,
            spec_bit_at(self.spec_word(), 4) == self.bitflags.checking_disabled,
            self.spec_word() & 15 == self.response_code.spec_code(),
    {
        lemma_pack_fields(
            self.qr.spec_code() as u16,
            self.op_code.spec_code() as u16,
            spec_bit(self.bitflags.authorative_answer),
            spec_bit(self.bitflags.truncation),
            spec_bit(self.bitflags.recursion_desired),
            spec_bit(self.bitflags.recursion_available),
            spec_bit(self.bitflags.z),
            spec_bit(self.bitflags.authentic_data),
            spec_bit(self.bitflags.checking_disabled),
            self.response_code.spec_code() as u16,
        );
    }

    /// A word that decodes is the word that its flags encode to.
    pub proof fn lemma_encode_of_decoded(value: u16)
        ensures
            Self::spec_try_from(value) matches Ok(flags) ==> flags.spec_word() == value,
            Self::spec_try_from(value) is Err <==> ((value >> 11) & 15) > 6 || (value & 15) > 11,
            Self::spec_try_from(value) == Err::<Flags, Error>(Error::UnknownOpCode) <==> ((value
                >> 11) & 15) > 6,
    {
        lemma_unpack_fields(value);
    }
}

} // verus!
