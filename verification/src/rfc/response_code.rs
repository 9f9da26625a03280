//! The four response-code bits of the header.

use crate::error::Error;
use vstd::prelude::*;

verus! {

/// How a server answered a query.
#[derive(Debug, Clone, Copy, PartialEq, Eq, Structural)]
pub enum ResponseCode {
    NoError,
    FormErr,
    ServFail,
    NXDomain,
    NotImp,
    Refused,
    YXDomain,
    YXRRSet,
    NXRRSet,
    NotAuth,
    NotZone,
    DSOTYPENI,
}

impl ResponseCode {
    /// The value of the response-code bits.
    pub open spec fn spec_code(self) -> u8 {
        match self {
            ResponseCode::NoError => 0,
            ResponseCode::FormErr => 1,
            ResponseCode::ServFail => 2,
            ResponseCode::NXDomain => 3,
            ResponseCode::NotImp => 4,
            ResponseCode::Refused => 5,
            ResponseCode::YXDomain => 6,
            ResponseCode::YXRRSet => 7,
            ResponseCode::NXRRSet => 8,
            ResponseCode::NotAuth => 9,
            ResponseCode::NotZone => 10,
            ResponseCode::DSOTYPENI => 11,
        }
    }

    /// The response code that `value` stands for.
    pub open spec fn spec_try_from(value: u8) -> Result<ResponseCode, Error> {
        if value == 0 {
            Ok(ResponseCode::NoError)
        } else if value == 1 {
            Ok(ResponseCode::FormErr)
        } else if value == 2 {
            Ok(ResponseCode::ServFail)
        } else if value == 3 {
            Ok(ResponseCode::NXDomain)
        } else if value == 4 {
            Ok(ResponseCode::NotImp)
        } else if value == 5 {
            Ok(ResponseCode::Refused)
        } else if value == 6 {
            Ok(ResponseCode::YXDomain)
        } else if value == 7 {
            Ok(ResponseCode::YXRRSet)
        } else if value == 8 {
            Ok(ResponseCode::NXRRSet)
        } else if value == 9 {
            Ok(ResponseCode::NotAuth)
        } else if value == 10 {
            Ok(ResponseCode::NotZone)
        } else if value == 11 {
            Ok(ResponseCode::DSOTYPENI)
        } else {
            Err(Error::UnknownResponseCode)
        }
    }

    /// The mnemonic of the response code.
    pub open spec fn spec_name(self) -> Seq<char> {
        match self {
            ResponseCode::NoError => "NoError"@,
            ResponseCode::FormErr => "FormErr"@,
            ResponseCode::ServFail => "ServFail"@,
            ResponseCode::NXDomain => "NXDomain"@,
            ResponseCode::NotImp => "NotImp"@,
            ResponseCode::Refused => "Refused"@,
            ResponseCode::YXDomain => "YXDomain"@,
            ResponseCode::YXRRSet => "YXRRSet"@,
            ResponseCode::NXRRSet => "NXRRSet"@,
            ResponseCode::NotAuth => "NotAuth"@,
            ResponseCode::NotZone => "NotZone"@,
            ResponseCode::DSOTYPENI => "DSOTYPENI"@,
        }
    }

    /// The value of the response-code bits.
    pub fn code(self) -> (c: u8)
        ensures
            c == self.spec_code(),
            c <= 11,
    {
        match self {
            ResponseCode::NoError => 0,
            ResponseCode::FormErr => 1,
            ResponseCode::ServFail => 2,
            ResponseCode::NXDomain => 3,
            ResponseCode::NotImp => 4,
            ResponseCode::Refused => 5,
            ResponseCode::YXDomain => 6,
            ResponseCode::YXRRSet => 7,
            ResponseCode::NXRRSet => 8,
            ResponseCode::NotAuth => 9,
            ResponseCode::NotZone => 10,
            ResponseCode::DSOTYPENI => 11,
        }
    }

    /// The response code that `value` stands for; a value above 11 is
    /// unknown.
    pub fn try_from(value: u8) -> (r: Result<ResponseCode, Error>)
        ensures
            r == Self::spec_try_from(value),
    {
        match value {
            0 => Ok(ResponseCode::NoError),
            1 => Ok(ResponseCode::FormErr),
            2 => Ok(ResponseCode::ServFail),
            3 => Ok(ResponseCode::NXDomain),
            4 => Ok(ResponseCode::NotImp),
            5 => Ok(ResponseCode::Refused),
            6 => Ok(ResponseCode::YXDomain),
            7 => Ok(ResponseCode::YXRRSet),
            8 => Ok(ResponseCode::NXRRSet),
            9 => Ok(ResponseCode::NotAuth),
            10 => Ok(ResponseCode::NotZone),
            11 => Ok(ResponseCode::DSOTYPENI),
            _ => Err(Error::UnknownResponseCode),
        }
    }

    /// The mnemonic of the response code.
    pub fn name(self) -> (s: &'static str)
        ensures
            s@ == self.spec_name(),
    {
        match self {
            ResponseCode::NoError => "NoError",
            ResponseCode::FormErr => "FormErr",
            ResponseCode::ServFail => "ServFail",
            ResponseCode::NXDomain => "NXDomain",
            ResponseCode::NotImp => "NotImp",
            ResponseCode::Refused => "Refused",
            ResponseCode::YXDomain => "YXDomain",
            ResponseCode::YXRRSet => "YXRRSet",
            ResponseCode::NXRRSet => "NXRRSet",
            ResponseCode::NotAuth => "NotAuth",
            ResponseCode::NotZone => "NotZone",
            ResponseCode::DSOTYPENI => "DSOTYPENI",
        }
    }

    /// A response code is found again from its code, and only the codes of
    /// response codes are known.
    pub proof fn lemma_code_round_trip(self, value: u8)
        ensures
            Self::spec_try_from(self.spec_code()) == Ok::<ResponseCode, Error>(self),
            Self::spec_try_from(value) matches Ok(p) ==> p.spec_code() == value,
            Self::spec_try_from(value) is Ok <==> value <= 11,
    {
    }
}

impl Default for ResponseCode {
    fn default() -> (p: Self)
        ensures
            p == ResponseCode::NoError,
    {
        ResponseCode::NoError
    }
}

} // verus!
