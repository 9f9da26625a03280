//! The QR bit of the header.

use crate::error::Error;
use vstd::prelude::*;

verus! {

/// Whether a message is a query or a response.
#[derive(Debug, Clone, Copy, PartialEq, Eq, Structural)]
pub enum PacketType {
    Query,
    Response,
}

impl PacketType {
    /// The value of the QR bit.
    pub open spec fn spec_code(self) -> u8 {
        match self {
            PacketType::Query => 0,
            PacketType::Response => 1,
        }
    }

    /// The packet type that `value` stands for.
    pub open spec fn spec_try_from(value: u8) -> Result<PacketType, Error> {
        if value == 0 {
            Ok(PacketType::Query)
        } else if value == 1 {
            Ok(PacketType::Response)
        } else {
            Err(Error::UnknownPacketType)
        }
    }

    /// The value of the QR bit.
    pub fn code(self) -> (c: u8)
        ensures
            c == self.spec_code(),
            c <= 1,
    {
        match self {
            PacketType::Query => 0,
            PacketType::Response => 1,
        }
    }

    /// The packet type that `value` stands for; any value but 0 and 1 is
    /// unknown.
    pub fn try_from(value: u8) -> (r: Result<PacketType, Error>)
        ensures
            r == Self::spec_try_from(value),
    {
        if value == 0 {
            Ok(PacketType::Query)
        } else if value == 1 {
            Ok(PacketType::Response)
        } else {
            Err(Error::UnknownPacketType)
        }
    }

    /// A packet type is found again from its code, and only the codes of
    /// packet types are known.
    pub proof fn lemma_code_round_trip(self, value: u8)
        ensures
            Self::spec_try_from(self.spec_code()) == Ok::<PacketType, Error>(self),
            Self::spec_try_from(value) matches Ok(p) ==> p.spec_code() == value,
            Self::spec_try_from(value) is Ok <==> value <= 1,
    {
    }
}

impl Default for PacketType {
    fn default() -> (p: Self)
        ensures
            p == PacketType::Query,
    {
        PacketType::Query
    }
}

} // verus!
