//! One report block of a sender or receiver report.

use vstd::prelude::*;
use crate::rtp::packet::spec_be32;

verus! {

pub struct ReportBlock {
    buf: Vec<u8>,
}

impl View for ReportBlock {
    type V = Seq<u8>;

    closed spec fn view(&self) -> Seq<u8> {
        self.buf@
    }
}

impl ReportBlock {
    pub open spec fn wf(&self) -> bool {
        self@.len() >= 25
    }

    pub fn new(buf: Vec<u8>) -> (r: Self)
        ensures
            r@ == buf@,
    {
        ReportBlock { buf }
    }

    pub fn ssrc(&self) -> (r: u32)
        requires
            self.wf(),
        ensures
            r == spec_be32(self@, 0),
    {
        (self.buf[0] as u32) * 0x1000000 + (self.buf[1] as u32) * 0x10000 + (self.buf[2] as u32)
            * 0x100 + (self.buf[3] as u32)
    }

    pub fn fraction_lost(&self) -> (r: u8)
        requires
            self.wf(),
        ensures
            r == self@[4],
    {
        self.buf[4]
    }

    pub fn packets_lost(&self) -> (r: u32)
        requires
            self.wf(),
        ensures
            r == spec_be32(self@, 5),
    {
        (self.buf[5] as u32) * 0x1000000 + (self.buf[6] as u32) * 0x10000 + (self.buf[7] as u32)
            * 0x100 + (self.buf[8] as u32)
    }

    pub fn highest_sequence(&self) -> (r: u32)
        requires
            self.wf(),
        ensures
            r == spec_be32(self@, 9),
    {
        (self.buf[9] as u32) * 0x1000000 + (self.buf[10] as u32) * 0x10000 + (self.buf[11] as u32)
            * 0x100 + (self.buf[12] as u32)
    }

    pub fn jitter(&self) -> (r: u32)
        requires
            self.wf(),
        ensures
            r == spec_be32(self@, 13),
    {
        (self.buf[13] as u32) * 0x1000000 + (self.buf[14] as u32) * 0x10000 + (self.buf[15] as u32)
            * 0x100 + (self.buf[16] as u32)
    }

    pub fn lsr(&self) -> (r: u32)
        requires
            self.wf(),
        ensures
            r == spec_be32(self@, 17),
    {
        (self.buf[17] as u32) * 0x1000000 + (self.buf[18] as u32) * 0x10000 + (self.buf[19] as u32)
            * 0x100 + (self.buf[20] as u32)
    }

    pub fn dlsr(&self) -> (r: u32)
        requires
            self.wf(),
        ensures
            r == spec_be32(self@, 21),
    {
        (self.buf[21] as u32) * 0x1000000 + (self.buf[22] as u32) * 0x10000 + (self.buf[23] as u32)
            * 0x100 + (self.buf[24] as u32)
    }
}

} // verus!
