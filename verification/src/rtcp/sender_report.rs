//! The sender report: sender identity and counts, then report blocks.

use vstd::prelude::*;
use crate::bytes;
use crate::rtcp::header::{Header, RtcpError};
use crate::rtcp::report_block::ReportBlock;
use crate::rtp::packet::spec_be32;

verus! {

/// Eight bytes of `s` from `i`, read big-endian.
pub open spec fn spec_be64(s: Seq<u8>, i: int) -> u64 {
    (spec_be32(s, i) * 0x100000000 + spec_be32(s, i + 4)) as u64
}

pub struct SenderReport {
    buf: Vec<u8>,
}

impl View for SenderReport {
    type V = Seq<u8>;

    closed spec fn view(&self) -> Seq<u8> {
        self.buf@
    }
}

impl SenderReport {
    pub open spec fn wf(&self) -> bool {
        self@.len() >= 24
    }

    /// Takes the bytes as a sender report; fewer than 24 are refused.
    pub fn new(buf: Vec<u8>) -> (r: Result<Self, RtcpError>)
        ensures
            buf@.len() >= 24 ==> (r matches Ok(s) && s@ == buf@ && s.wf()),
            buf@.len() < 24 ==> r == Err::<SenderReport, RtcpError>(RtcpError::InvalidData),
    {
        if buf.len() < 24 {
            return Err(RtcpError::InvalidData);
        }
        Ok(SenderReport { buf })
    }

    /// The common header at the front.
    pub fn header(&self) -> (r: Header)
        requires
            self.wf(),
        ensures
            r@ == self@.subrange(0, 4),
            r.wf(),
    {
        let head = bytes::copy_range(self.buf.as_slice(), 0, 4);
        match Header::new(head) {
            Result::Ok(h) => h,
            Result::Err(e) => {
                proof {
                    assert(false);
                }
                vstd::pervasive::unreached()
            },
        }
    }

    pub fn ssrc(&self) -> (r: u32)
        requires
            self.wf(),
        ensures
            r == spec_be32(self@, 4),
    {
        (self.buf[4] as u32) * 0x1000000 + (self.buf[5] as u32) * 0x10000 + (self.buf[6] as u32)
            * 0x100 + (self.buf[7] as u32)
    }

    pub fn ntp_timestamp(&self) -> (r: u64)
        requires
            self.wf(),
        ensures
            r == spec_be64(self@, 8),
    {
        let hi = (self.buf[8] as u64) * 0x1000000 + (self.buf[9] as u64) * 0x10000 + (self.buf[10]
            as u64) * 0x100 + (self.buf[11] as u64);
        let lo = (self.buf[12] as u64) * 0x1000000 + (self.buf[13] as u64) * 0x10000 + (self.buf[14]
            as u64) * 0x100 + (self.buf[15] as u64);
        hi * 0x100000000 + lo
    }

    pub fn rtp_ts(&self) -> (r: u32)
        requires
            self.wf(),
        ensures
            r == spec_be32(self@, 16),
    {
        (self.buf[16] as u32) * 0x1000000 + (self.buf[17] as u32) * 0x10000 + (self.buf[18] as u32)
            * 0x100 + (self.buf[19] as u32)
    }

    pub fn packets_sent(&self) -> (r: u32)
        requires
            self.wf(),
        ensures
            r == spec_be32(self@, 20),
    {
        (self.buf[20] as u32) * 0x1000000 + (self.buf[21] as u32) * 0x10000 + (self.buf[22] as u32)
            * 0x100 + (self.buf[23] as u32)
    }

    pub fn octets_sent(&self) -> (r: u32)
        requires
            self@.len() >= 28,
        ensures
            r == spec_be32(self@, 24),
    {
        (self.buf[24] as u32) * 0x1000000 + (self.buf[25] as u32) * 0x10000 + (self.buf[26] as u32)
            * 0x100 + (self.buf[27] as u32)
    }

    /// The report blocks, one per counted report.
    pub fn report_blocks(&self) -> (r: Vec<ReportBlock>)
        requires
            self.wf(),
            28 + (self@[0] & 0x1f) * 24 <= self@.len(),
        ensures
            r@.len() == self@[0] & 0x1f,
            forall|i: int| 0 <= i < r@.len() ==> (#[trigger] r@[i])@ == self@.subrange(
                28 + i * 24,
                28 + i * 24 + 24,
            ),
    {
        let b0 = self.buf[0];
        let count = (b0 & 0x1f) as usize;
        proof {
            assert(b0 & 0x1f <= 31) by (bit_vector);
        }
        let mut blocks: Vec<ReportBlock> = Vec::new();
        let mut i: usize = 0;
        while i < count
            invariant
                self.wf(),
                count == self@[0] & 0x1f,
                28 + count * 24 <= self@.len(),
                0 <= i <= count,
                blocks@.len() == i,
                forall|k: int| 0 <= k < i ==> (#[trigger] blocks@[k])@ == self@.subrange(
                    28 + k * 24,
                    28 + k * 24 + 24,
                ),
            decreases count - i,
        {
            let offset = 28 + i * 24;
            let block = ReportBlock::new(bytes::copy_range(self.buf.as_slice(), offset, offset + 24));
            blocks.push(block);
            i = i + 1;
        }
        blocks
    }

    /// The sender report's span: the fixed part and its report blocks.
    pub fn size(&self) -> (r: usize)
        requires
            self.wf(),
        ensures
            r == 28 + (self@[0] & 0x1f) * 24,
    {
        let b0 = self.buf[0];
        let count = (b0 & 0x1f) as usize;
        proof {
            assert(b0 & 0x1f <= 31) by (bit_vector);
        }
        28 + count * 24
    }
}

} // verus!
