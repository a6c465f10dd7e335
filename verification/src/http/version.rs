//! Protocol version: a major and a minor number, written `major.minor`.

use vstd::prelude::*;
use crate::bytes::{find_index, lemma_find_index, parse_u8, parse_u8_spec, ParseIntError};
use crate::bytes;

verus! {

#[derive(Debug, Clone, Copy, PartialEq, Eq, Structural)]
pub struct Version(pub u8, pub u8);

impl Version {
    pub fn new(major: u8, minor: u8) -> (r: Self)
        ensures
            r == Version(major, minor),
    {
        Version(major, minor)
    }
}

#[derive(Debug, Clone, Copy, PartialEq, Eq, Structural)]
pub enum ParseVersionError {
    ParseInt(ParseIntError),
    Format,
}

/// What parsing `major.minor` from `s` yields: the text up to the first dot
/// must read as a `u8`, the rest up to a second dot likewise, and a second
/// dot or a missing one is a format error.
pub open spec fn spec_parse_version(s: Seq<u8>) -> Result<Version, ParseVersionError> {
    match find_index(s, 0x2e, 0) {
        Option::None => match parse_u8_spec(s) {
            Result::Err(e) => Err(ParseVersionError::ParseInt(e)),
            Result::Ok(_) => Err(ParseVersionError::Format),
        },
        Option::Some(p1) => {
            let rest = s.subrange(p1 + 1, s.len() as int);
            match parse_u8_spec(s.subrange(0, p1)) {
                Result::Err(e) => Err(ParseVersionError::ParseInt(e)),
                Result::Ok(major) => match find_index(rest, 0x2e, 0) {
                    Option::None => match parse_u8_spec(rest) {
                        Result::Err(e) => Err(ParseVersionError::ParseInt(e)),
                        Result::Ok(minor) => Ok(Version(major, minor)),
                    },
                    Option::Some(p2) => match parse_u8_spec(rest.subrange(0, p2)) {
                        Result::Err(e) => Err(ParseVersionError::ParseInt(e)),
                        Result::Ok(_) => Err(ParseVersionError::Format),
                    },
                },
            }
        },
    }
}

impl Version {
    /// Reads a version of the form `major.minor`.
    pub fn parse(s: &[u8]) -> (r: Result<Version, ParseVersionError>)
        ensures
            r == spec_parse_version(s@),
    {
        proof {
            lemma_find_index(s@, 0x2e, 0);
        }
        match bytes::find_byte(s, 0, s.len(), 0x2e) {
            Option::None => {
                proof {
                    match find_index(s@, 0x2e, 0) {
                        Option::None => {},
                        Option::Some(i) => {
                            assert(s@[i] == 0x2e);
                        },
                    }
                }
                match parse_u8(s) {
                    Result::Err(e) => Err(ParseVersionError::ParseInt(e)),
                    Result::Ok(_) => Err(ParseVersionError::Format),
                }
            },
            Option::Some(p1) => {
                proof {
                    match find_index(s@, 0x2e, 0) {
                        Option::None => {
                            assert(false);
                        },
                        Option::Some(i) => {
                            assert(s@[p1 as int] == 0x2e);
                            assert(i == p1);
                        },
                    }
                }
                let major_tok = vstd::slice::slice_subrange(s, 0, p1);
                let rest = vstd::slice::slice_subrange(s, p1 + 1, s.len());
                proof {
                    lemma_find_index(rest@, 0x2e, 0);
                }
                match parse_u8(major_tok) {
                    Result::Err(e) => Err(ParseVersionError::ParseInt(e)),
                    Result::Ok(major) => {
                        match bytes::find_byte(rest, 0, rest.len(), 0x2e) {
                            Option::None => {
                                proof {
                                    match find_index(rest@, 0x2e, 0) {
                                        Option::None => {},
                                        Option::Some(i) => {
                                            assert(rest@[i] == 0x2e);
                                        },
                                    }
                                }
                                match parse_u8(rest) {
                                    Result::Err(e) => Err(ParseVersionError::ParseInt(e)),
                                    Result::Ok(minor) => Ok(Version(major, minor)),
                                }
                            },
                            Option::Some(p2) => {
                                proof {
                                    match find_index(rest@, 0x2e, 0) {
                                        Option::None => {
                                            assert(false);
                                        },
                                        Option::Some(i) => {
                                            assert(i == p2);
                                        },
                                    }
                                }
                                let minor_tok = vstd::slice::slice_subrange(rest, 0, p2);
                                match parse_u8(minor_tok) {
                                    Result::Err(e) => Err(ParseVersionError::ParseInt(e)),
                                    Result::Ok(_) => Err(ParseVersionError::Format),
                                }
                            },
                        }
                    },
                }
            },
        }
    }
}

} // verus!
