//! The four opcode bits of the header.

use crate::error::Error;
use vstd::prelude::*;

verus! {

/// The kind of query that a message carries.
#[derive(Debug, Clone, Copy, PartialEq, Eq, Structural)]
pub enum OpCode {
    Query,
    IQuery,
    Status,
    Unassigned,
    Notify,
    Update,
    DOS,
}

impl OpCode {
    /// The value of the opcode bits.
    pub open spec fn spec_code(self) -> u8 {
        match self {
            OpCode::Query => 0,
            OpCode::IQuery => 1,
            OpCode::Status => 2,
            OpCode::Unassigned => 3,
            OpCode::Notify => 4,
            OpCode::Update => 5,
            OpCode::DOS => 6,
        }
    }

    /// The opcode that `value` stands for.
    pub open spec fn spec_try_from(value: u8) -> Result<OpCode, Error> {
        if value == 0 {
            Ok(OpCode::Query)
        } else if value == 1 {
            Ok(OpCode::IQuery)
        } else if value == 2 {
            Ok(OpCode::Status)
        } else if value == 3 {
            Ok(OpCode::Unassigned)
        } else if value == 4 {
            Ok(OpCode::Notify)
        } else if value == 5 {
            Ok(OpCode::Update)
        } else if value == 6 {
            Ok(OpCode::DOS)
        } else {
            Err(Error::UnknownOpCode)
        }
    }

    /// The value of the opcode bits.
    pub fn code(self) -> (c: u8)
        ensures
            c == self.spec_code(),
            c <= 6,
    {
        match self {
            OpCode::Query => 0,
            OpCode::IQuery => 1,
            OpCode::Status => 2,
            OpCode::Unassigned => 3,
            OpCode::Notify => 4,
            OpCode::Update => 5,
            OpCode::DOS => 6,
        }
    }

    /// The opcode that `value` stands for; a value above 6 is unknown.
    pub fn try_from(value: u8) -> (r: Result<OpCode, Error>)
        ensures
            r == Self::spec_try_from(value),
    {
        match value {
            0 => Ok(OpCode::Query),
            1 => Ok(OpCode::IQuery),
            2 => Ok(OpCode::Status),
            3 => Ok(OpCode::Unassigned),
            4 => Ok(OpCode::Notify),
            5 => Ok(OpCode::Update),
            6 => Ok(OpCode::DOS),
            _ => Err(Error::UnknownOpCode),
        }
    }

    /// An opcode is found again from its code, and only the codes of opcodes
    /// are known.
    pub proof fn lemma_code_round_trip(self, value: u8)
        ensures
            Self::spec_try_from(self.spec_code()) == Ok::<OpCode, Error>(self),
            Self::spec_try_from(value) matches Ok(p) ==> p.spec_code() == value,
            Self::spec_try_from(value) is Ok <==> value <= 6,
    {
    }
}

impl Default for OpCode {
    fn default() -> (p: Self)
        ensures
            p == OpCode::Query,
    {
        OpCode::Query
    }
}

} // verus!
