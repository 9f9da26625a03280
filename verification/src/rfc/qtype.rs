//! The type of records that a question asks for.

use crate::error::Error;
use vstd::prelude::*;

verus! {

/// The type of records that a question asks for.
#[derive(Debug, Clone, Copy, PartialEq, Eq, Structural)]
pub enum QType {
    A,
    NS,
    CNAME,
    SOA,
    PTR,
    HINFO,
    MX,
    TXT,
    AFSDB,
    AAAA,
    SRV,
    OPT,
    AXFR,
    ANY,
}

impl QType {
    /// The 16-bit code of the query type.
    pub open spec fn spec_code(self) -> u16 {
        match self {
            QType::A => 1,
            QType::NS => 2,
            QType::CNAME => 5,
            QType::SOA => 6,
            QType::PTR => 12,
            QType::HINFO => 13,
            QType::MX => 15,
            QType::TXT => 16,
            QType::AFSDB => 18,
            QType::AAAA => 28,
            QType::SRV => 33,
            QType::OPT => 41,
            QType::AXFR => 252,
            QType::ANY => 255,
        }
    }

    /// The query type that `value` stands for.
    pub open spec fn spec_try_from(value: u16) -> Result<QType, Error> {
        if value == 1 {
            Ok(QType::A)
        } else if value == 2 {
            Ok(QType::NS)
        } else if value == 5 {
            Ok(QType::CNAME)
        } else if value == 6 {
            Ok(QType::SOA)
        } else if value == 12 {
            Ok(QType::PTR)
        } else if value == 13 {
            Ok(QType::HINFO)
        } else if value == 15 {
            Ok(QType::MX)
        } else if value == 16 {
            Ok(QType::TXT)
        } else if value == 18 {
            Ok(QType::AFSDB)
        } else if value == 28 {
            Ok(QType::AAAA)
        } else if value == 33 {
            Ok(QType::SRV)
        } else if value == 41 {
            Ok(QType::OPT)
        } else if value == 252 {
            Ok(QType::AXFR)
        } else if value == 255 {
            Ok(QType::ANY)
        } else {
            Err(Error::UnknownQType)
        }
    }

    /// The mnemonic of the query type.
    pub open spec fn spec_name(self) -> Seq<char> {
        match self {
            QType::A => "A"@,
            QType::NS => "NS"@,
            QType::CNAME => "CNAME"@,
            QType::SOA => "SOA"@,
            QType::PTR => "PTR"@,
            QType::HINFO => "HINFO"@,
            QType::MX => "MX"@,
            QType::TXT => "TXT"@,
            QType::AFSDB => "AFSDB"@,
            QType::AAAA => "AAAA"@,
            QType::SRV => "SRV"@,
            QType::OPT => "OPT"@,
            QType::AXFR => "AXFR"@,
            QType::ANY => "ANY"@,
        }
    }

    /// The 16-bit code of the query type.
    pub fn code(self) -> (c: u16)
        ensures
            c == self.spec_code(),
    {
        match self {
            QType::A => 1,
            QType::NS => 2,
            QType::CNAME => 5,
            QType::SOA => 6,
            QType::PTR => 12,
            QType::HINFO => 13,
            QType::MX => 15,
            QType::TXT => 16,
            QType::AFSDB => 18,
            QType::AAAA => 28,
            QType::SRV => 33,
            QType::OPT => 41,
            QType::AXFR => 252,
            QType::ANY => 255,
        }
    }

    /// The query type that `value` stands for; a code that is not listed is
    /// unknown.
    pub fn try_from(value: u16) -> (r: Result<QType, Error>)
        ensures
            r == Self::spec_try_from(value),
    {
        match value {
            1 => Ok(QType::A),
            2 => Ok(QType::NS),
            5 => Ok(QType::CNAME),
            6 => Ok(QType::SOA),
            12 => Ok(QType::PTR),
            13 => Ok(QType::HINFO),
            15 => Ok(QType::MX),
            16 => Ok(QType::TXT),
            18 => Ok(QType::AFSDB),
            28 => Ok(QType::AAAA),
            33 => Ok(QType::SRV),
            41 => Ok(QType::OPT),
            252 => Ok(QType::AXFR),
            255 => Ok(QType::ANY),
            _ => Err(Error::UnknownQType),
        }
    }

    /// The mnemonic of the query type.
    pub fn name(self) -> (s: &'static str)
        ensures
            s@ == self.spec_name(),
    {
        match self {
            QType::A => "A",
            QType::NS => "NS",
            QType::CNAME => "CNAME",
            QType::SOA => "SOA",
            QType::PTR => "PTR",
            QType::HINFO => "HINFO",
            QType::MX => "MX",
            QType::TXT => "TXT",
            QType::AFSDB => "AFSDB",
            QType::AAAA => "AAAA",
            QType::SRV => "SRV",
            QType::OPT => "OPT",
            QType::AXFR => "AXFR",
            QType::ANY => "ANY",
        }
    }

    /// Whether a query of this type is only answered over a stream: a zone
    /// transfer.
    pub open spec fn spec_requires_stream(self) -> bool {
        self == QType::AXFR
    }

    /// Whether a query of this type is only answered over a stream: a zone
    /// transfer.
    pub fn requires_stream(self) -> (b: bool)
        ensures
            b == self.spec_requires_stream(),
    {
        match self {
            QType::AXFR => true,
            _ => false,
        }
    }

    /// A query type is found again from its code, and a code that is known is
    /// the code of what it stands for.
    pub proof fn lemma_code_round_trip(self, value: u16)
        ensures
            Self::spec_try_from(self.spec_code()) == Ok::<QType, Error>(self),
            Self::spec_try_from(value) matches Ok(p) ==> p.spec_code() == value,
    {
    }
}

impl Default for QType {
    fn default() -> (p: Self)
        ensures
            p == QType::A,
    {
        QType::A
    }
}

} // verus!
