//! Reading big-endian integers off a byte cursor.

use vstd::prelude::*;
use crate::rtp::packet::{spec_be16, spec_be32};

verus! {

#[derive(Debug, Clone, Copy, PartialEq, Eq, Structural)]
pub enum CursorError {
    UnexpectedEnd,
}

/// A source of big-endian integers with a known remainder.
pub trait ReadBytes {
    /// The bytes not yet read.
    spec fn remaining(&self) -> Seq<u8>;

    fn read_u8(&mut self) -> (r: Result<u8, CursorError>)
        ensures
            old(self).remaining().len() >= 1 ==> (r matches Ok(v) && v == old(self).remaining()[0]
                && final(self).remaining() == old(self).remaining().skip(1)),
            old(self).remaining().len() < 1 ==> r == Err::<u8, CursorError>(
                CursorError::UnexpectedEnd,
            ) && final(self).remaining() == old(self).remaining(),
    ;

    fn read_u16(&mut self) -> (r: Result<u16, CursorError>)
        ensures
            old(self).remaining().len() >= 2 ==> (r matches Ok(v) && v == spec_be16(
                old(self).remaining(),
                0,
            ) && final(self).remaining() == old(self).remaining().skip(2)),
            old(self).remaining().len() < 2 ==> r == Err::<u16, CursorError>(
                CursorError::UnexpectedEnd,
            ) && final(self).remaining() == old(self).remaining(),
    ;

    fn read_u32(&mut self) -> (r: Result<u32, CursorError>)
        ensures
            old(self).remaining().len() >= 4 ==> (r matches Ok(v) && v == spec_be32(
                old(self).remaining(),
                0,
            ) && final(self).remaining() == old(self).remaining().skip(4)),
            old(self).remaining().len() < 4 ==> r == Err::<u32, CursorError>(
                CursorError::UnexpectedEnd,
            ) && final(self).remaining() == old(self).remaining(),
    ;
}

/// A cursor over owned bytes.
pub struct ByteCursor {
    data: Vec<u8>,
    position: usize,
}

impl ByteCursor {
    pub closed spec fn spec_position(&self) -> int {
        self.position as int
    }

    pub closed spec fn spec_data(&self) -> Seq<u8> {
        self.data@
    }

    pub open spec fn wf(&self) -> bool {
        self.spec_position() <= self.spec_data().len()
    }

    pub fn new(data: Vec<u8>) -> (r: Self)
        ensures
            r.wf(),
            r.spec_data() == data@,
            r.spec_position() == 0,
    {
        ByteCursor { data, position: 0 }
    }

    /// How many bytes have been read.
    pub fn position(&self) -> (r: usize)
        ensures
            r == self.spec_position(),
    {
        self.position
    }
}

impl ReadBytes for ByteCursor {
    closed spec fn remaining(&self) -> Seq<u8> {
        if self.position <= self.data@.len() {
            self.data@.skip(self.position as int)
        } else {
            Seq::empty()
        }
    }

    fn read_u8(&mut self) -> (r: Result<u8, CursorError>) {
        if self.position >= self.data.len() {
            return Err(CursorError::UnexpectedEnd);
        }
        let v = self.data[self.position];
        self.position = self.position + 1;
        proof {
            assert(self.remaining() =~= old(self).remaining().skip(1));
        }
        Ok(v)
    }

    fn read_u16(&mut self) -> (r: Result<u16, CursorError>) {
        if self.data.len() < 2 || self.position > self.data.len() - 2 {
            return Err(CursorError::UnexpectedEnd);
        }
        let p = self.position;
        let v = (self.data[p] as u16) * 0x100 + (self.data[p + 1] as u16);
        self.position = p + 2;
        proof {
            assert(self.remaining() =~= old(self).remaining().skip(2));
        }
        Ok(v)
    }

    fn read_u32(&mut self) -> (r: Result<u32, CursorError>) {
        if self.data.len() < 4 || self.position > self.data.len() - 4 {
            return Err(CursorError::UnexpectedEnd);
        }
        let p = self.position;
        let v = (self.data[p] as u32) * 0x1000000 + (self.data[p + 1] as u32) * 0x10000 + (self.data[p
            + 2] as u32) * 0x100 + (self.data[p + 3] as u32);
        self.position = p + 4;
        proof {
            assert(self.remaining() =~= old(self).remaining().skip(4));
        }
        Ok(v)
    }
}

} // verus!
