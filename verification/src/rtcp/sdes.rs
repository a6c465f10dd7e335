//! One source-description item: a type byte, a length byte, and the text.

use vstd::prelude::*;
use crate::bytes;

verus! {

pub struct SDESItem {
    buf: Vec<u8>,
}

impl View for SDESItem {
    type V = Seq<u8>;

    closed spec fn view(&self) -> Seq<u8> {
        self.buf@
    }
}

impl SDESItem {
    pub fn new(buf: Vec<u8>) -> (r: Self)
        ensures
            r@ == buf@,
    {
        SDESItem { buf }
    }

    /// The item's text, as many bytes as its length byte counts.
    pub fn str(&self) -> (r: Vec<u8>)
        requires
            self@.len() >= 2,
            2 + self@[1] <= self@.len(),
        ensures
            r@ == self@.subrange(2, 2 + self@[1]),
    {
        let length = self.buf[1] as usize;
        bytes::copy_range(self.buf.as_slice(), 2, 2 + length)
    }
}

} // verus!
