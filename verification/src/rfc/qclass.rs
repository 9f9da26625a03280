//! The class of records that a question asks for.

use crate::error::Error;
use vstd::prelude::*;

verus! {

/// The class of records that a question asks for.
#[derive(Debug, Clone, Copy, PartialEq, Eq, Structural)]
pub enum QClass {
    IN,
    CS,
    CH,
    HS,
    ANY,
}

impl QClass {
    /// The 16-bit code of the query class.
    pub open spec fn spec_code(self) -> u16 {
        match self {
            QClass::IN => 1,
            QClass::CS => 2,
            QClass::CH => 3,
            QClass::HS => 4,
            QClass::ANY => 255,
        }
    }

    /// The query class that `value` stands for.
    pub open spec fn spec_try_from(value: u16) -> Result<QClass, Error> {
        if value == 1 {
            Ok(QClass::IN)
        } else if value == 2 {
            Ok(QClass::CS)
        } else if value == 3 {
            Ok(QClass::CH)
        } else if value == 4 {
            Ok(QClass::HS)
        } else if value == 255 {
            Ok(QClass::ANY)
        } else {
            Err(Error::UnknownQClass)
        }
    }

    /// The mnemonic of the query class.
    pub open spec fn spec_name(self) -> Seq<char> {
        match self {
            QClass::IN => "IN"@,
            QClass::CS => "CS"@,
            QClass::CH => "CH"@,
            QClass::HS => "HS"@,
            QClass::ANY => "ANY"@,
        }
    }

    /// The 16-bit code of the query class.
    pub fn code(self) -> (c: u16)
        ensures
            c == self.spec_code(),
    {
        match self {
            QClass::IN => 1,
            QClass::CS => 2,
            QClass::CH => 3,
            QClass::HS => 4,
            QClass::ANY => 255,
        }
    }

    /// The query class that `value` stands for; a code that is not listed is
    /// unknown.
    pub fn try_from(value: u16) -> (r: Result<QClass, Error>)
        ensures
            r == Self::spec_try_from(value),
    {
        match value {
            1 => Ok(QClass::IN),
            2 => Ok(QClass::CS),
            3 => Ok(QClass::CH),
            4 => Ok(QClass::HS),
            255 => Ok(QClass::ANY),
            _ => Err(Error::UnknownQClass),
        }
    }

    /// The mnemonic of the query class.
    pub fn name(self) -> (s: &'static str)
        ensures
            s@ == self.spec_name(),
    {
        match self {
            QClass::IN => "IN",
            QClass::CS => "CS",
            QClass::CH => "CH",
            QClass::HS => "HS",
            QClass::ANY => "ANY",
        }
    }

    /// A query class is found again from its code, and a code that is known is
    /// the code of what it stands for.
    pub proof fn lemma_code_round_trip(self, value: u16)
        ensures
            Self::spec_try_from(self.spec_code()) == Ok::<QClass, Error>(self),
            Self::spec_try_from(value) matches Ok(p) ==> p.spec_code() == value,
    {
    }
}

impl Default for QClass {
    fn default() -> (p: Self)
        ensures
            p == QClass::IN,
    {
        QClass::IN
    }
}

} // verus!
