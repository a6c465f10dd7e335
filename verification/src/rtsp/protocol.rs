//! The protocol token of a status line: `RTSP/<major>.<minor>`.

use vstd::prelude::*;
use crate::bytes::{find_index, lemma_find_index};
use crate::bytes;
use crate::http::version::{spec_parse_version, ParseVersionError, Version};

verus! {

#[derive(Debug, Clone, Copy, PartialEq, Eq, Structural)]
pub struct Protocol {
    pub version: Version,
}

impl Protocol {
    pub fn new(version: Version) -> (r: Self)
        ensures
            r == (Protocol { version }),
    {
        Protocol { version }
    }
}

#[derive(Debug, Clone, Copy, PartialEq, Eq, Structural)]
pub enum ParseProtocolError {
    UnexpectedToken,
    ParseVersion(ParseVersionError),
}

/// The scheme name `RTSP`.
pub open spec fn rtsp_token() -> Seq<u8> {
    seq![0x52u8, 0x54, 0x53, 0x50]
}

/// What parsing a protocol token yields: the text before the first slash
/// must be `RTSP`, and the text up to a second slash or the end a version.
/// A missing slash is an unexpected token.
pub open spec fn spec_parse_protocol(s: Seq<u8>) -> Result<Protocol, ParseProtocolError> {
    match find_index(s, 0x2f, 0) {
        Option::None => Err(ParseProtocolError::UnexpectedToken),
        Option::Some(p1) => {
            if s.subrange(0, p1) != rtsp_token() {
                Err(ParseProtocolError::UnexpectedToken)
            } else {
                let rest = s.subrange(p1 + 1, s.len() as int);
                let tok = match find_index(rest, 0x2f, 0) {
                    Option::None => rest,
                    Option::Some(p2) => rest.subrange(0, p2),
                };
                match spec_parse_version(tok) {
                    Result::Err(e) => Err(ParseProtocolError::ParseVersion(e)),
                    Result::Ok(v) => Ok(Protocol { version: v }),
                }
            }
        },
    }
}

impl Protocol {
    /// Reads a protocol token such as `RTSP/1.0`.
    pub fn parse(s: &[u8]) -> (r: Result<Protocol, ParseProtocolError>)
        ensures
            r == spec_parse_protocol(s@),
    {
        proof {
            lemma_find_index(s@, 0x2f, 0);
        }
        match bytes::find_byte(s, 0, s.len(), 0x2f) {
            Option::None => {
                proof {
                    match find_index(s@, 0x2f, 0) {
                        Option::None => {},
                        Option::Some(i) => {
                            assert(s@[i] == 0x2f);
                        },
                    }
                }
                Err(ParseProtocolError::UnexpectedToken)
            },
            Option::Some(p1) => {
                proof {
                    match find_index(s@, 0x2f, 0) {
                        Option::None => {
                            assert(false);
                        },
                        Option::Some(i) => {
                            assert(i == p1);
                        },
                    }
                }
                let scheme = vstd::slice::slice_subrange(s, 0, p1);
                let expected: Vec<u8> = vec![0x52u8, 0x54, 0x53, 0x50];
                proof {
                    assert(expected@ =~= rtsp_token());
                }
                if !crate::rtsp::method::bytes_eq(scheme, expected.as_slice()) {
                    return Err(ParseProtocolError::UnexpectedToken);
                }
                let rest = vstd::slice::slice_subrange(s, p1 + 1, s.len());
                proof {
                    lemma_find_index(rest@, 0x2f, 0);
                }
                let tok: &[u8] = match bytes::find_byte(rest, 0, rest.len(), 0x2f) {
                    Option::None => {
                        proof {
                            match find_index(rest@, 0x2f, 0) {
                                Option::None => {},
                                Option::Some(i) => {
                                    assert(rest@[i] == 0x2f);
                                },
                            }
                        }
                        rest
                    },
                    Option::Some(p2) => {
                        proof {
                            match find_index(rest@, 0x2f, 0) {
                                Option::None => {
                                    assert(false);
                                },
                                Option::Some(i) => {
                                    assert(i == p2);
                                },
                            }
                        }
                        vstd::slice::slice_subrange(rest, 0, p2)
                    },
                };
                match Version::parse(tok) {
                    Result::Err(e) => Err(ParseProtocolError::ParseVersion(e)),
                    Result::Ok(v) => Ok(Protocol { version: v }),
                }
            },
        }
    }
}

} // verus!
