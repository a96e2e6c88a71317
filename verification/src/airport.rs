use vstd::prelude::*;
use vstd::string::StringSliceAdditionalSpecFns;
use crate::text::{parse_u16, parse_u16_spec};

verus! {

/// Why a raw airport field value was rejected by a smart constructor.
#[derive(Debug, Clone, Copy, PartialEq, Eq, Structural)]
pub enum AirportError {
    InvalidID,
    InvalidName,
    InvalidIata,
    InvalidIcao,
}

/// Validated airport identifier: a value that parses as a 16-bit
/// unsigned integer. Only `from_str` can construct one.
#[derive(Debug, Clone, Copy, PartialEq, Eq, Structural)]
pub struct Id {
    v: u16,
}

impl View for Id {
    type V = u16;

    closed spec fn view(&self) -> u16 {
        self.v
    }
}

impl Id {
    /// Accepts exactly the all-digit tokens denoting a value below 2^16.
    pub fn from_str(s: &str) -> (r: Result<Id, AirportError>)
        ensures
            (match parse_u16_spec(s@) {
                Some(v) => r matches Ok(id) && id@ == v,
                None => r == Err::<Id, AirportError>(AirportError::InvalidID),
            }),
    {
        match parse_u16(s) {
            Some(v) => Ok(Id { v }),
            None => Err(AirportError::InvalidID),
        }
    }

    pub fn get(&self) -> (r: u16)
        ensures
            r == self@,
    {
        self.v
    }
}

/// Validated airport display name: 1 to 40 bytes of UTF-8.
#[derive(Debug, Clone)]
pub struct Name {
    v: String,
}

impl View for Name {
    type V = Seq<char>;

    closed spec fn view(&self) -> Seq<char> {
        self.v@
    }
}

impl Name {
    /// Accepts exactly the strings of 1 to 40 bytes, kept verbatim.
    pub fn from_str(s: &str) -> (r: Result<Name, AirportError>)
        ensures
            1 <= s.spec_bytes().len() <= 40 ==> (r matches Ok(n) && n@ == s@),
            !(1 <= s.spec_bytes().len() <= 40) ==> r == Err::<Name, AirportError>(
                AirportError::InvalidName,
            ),
    {
        let n = s.as_bytes().len();
        if 1 <= n && n <= 40 {
            Ok(Name { v: s.to_owned() })
        } else {
            Err(AirportError::InvalidName)
        }
    }

    pub fn as_str(&self) -> (r: &str)
        ensures
            r@ == self@,
    {
        self.v.as_str()
    }
}

/// Validated IATA code: exactly 3 bytes.
#[derive(Debug, Clone)]
pub struct Iata {
    v: String,
}

impl View for Iata {
    type V = Seq<char>;

    closed spec fn view(&self) -> Seq<char> {
        self.v@
    }
}

impl Iata {
    /// Accepts exactly the strings of 3 bytes, kept verbatim.
    pub fn from_str(s: &str) -> (r: Result<Iata, AirportError>)
        ensures
            s.spec_bytes().len() == 3 ==> (r matches Ok(c) && c@ == s@),
            s.spec_bytes().len() != 3 ==> r == Err::<Iata, AirportError>(
                AirportError::InvalidIata,
            ),
    {
        if s.as_bytes().len() == 3 {
            Ok(Iata { v: s.to_owned() })
        } else {
            Err(AirportError::InvalidIata)
        }
    }

    pub fn as_str(&self) -> (r: &str)
        ensures
            r@ == self@,
    {
        self.v.as_str()
    }
}

/// Validated ICAO code: exactly 4 bytes.
#[derive(Debug, Clone)]
pub struct Icao {
    v: String,
}

impl View for Icao {
    type V = Seq<char>;

    closed spec fn view(&self) -> Seq<char> {
        self.v@
    }
}

impl Icao {
    /// Accepts exactly the strings of 4 bytes, kept verbatim.
    pub fn from_str(s: &str) -> (r: Result<Icao, AirportError>)
        ensures
            s.spec_bytes().len() == 4 ==> (r matches Ok(c) && c@ == s@),
            s.spec_bytes().len() != 4 ==> r == Err::<Icao, AirportError>(
                AirportError::InvalidIcao,
            ),
    {
        if s.as_bytes().len() == 4 {
            Ok(Icao { v: s.to_owned() })
        } else {
            Err(AirportError::InvalidIcao)
        }
    }

    pub fn as_str(&self) -> (r: &str)
        ensures
            r@ == self@,
    {
        self.v.as_str()
    }
}

} // verus!
