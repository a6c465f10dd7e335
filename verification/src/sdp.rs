//! The session description a `DESCRIBE` reply carries: an opaque blob to
//! this client, kept as it came.

use vstd::prelude::*;
use crate::bytes;

verus! {

#[derive(Debug, Clone, Copy, PartialEq, Eq, Structural)]
pub enum ParseError {
    InvalidFormat,
}

pub struct Sdp {
    description: Vec<u8>,
}

impl Sdp {
    pub closed spec fn spec_description(&self) -> Seq<u8> {
        self.description@
    }

    /// Takes a `DESCRIBE` body as a session description; every body is
    /// accepted as it came.
    pub fn parse(body: &[u8]) -> (r: Result<Sdp, ParseError>)
        ensures
            r matches Ok(s) && s.spec_description() == body@,
    {
        Ok(Sdp { description: bytes::copy_to_vec(body) })
    }

    /// The description text.
    pub fn as_bytes(&self) -> (r: &[u8])
        ensures
            r@ == self.spec_description(),
    {
        self.description.as_slice()
    }
}

} // verus!
