//! An RTCP packet over its bytes, and the compound packet that strings
//! several together, each spanning `(length + 1) * 4` bytes.

use vstd::prelude::*;
use crate::bytes;
use crate::rtcp::header::{Header, RtcpError};
use crate::rtcp::sender_report::SenderReport;
use crate::rtp::packet::spec_be16;

verus! {

pub struct Packet {
    buf: Vec<u8>,
}

impl View for Packet {
    type V = Seq<u8>;

    closed spec fn view(&self) -> Seq<u8> {
        self.buf@
    }
}

impl Packet {
    pub open spec fn wf(&self) -> bool {
        self@.len() >= 4
    }

    /// Takes the bytes as one RTCP packet; fewer than four are refused.
    pub fn new(buf: Vec<u8>) -> (r: Result<Self, RtcpError>)
        ensures
            buf@.len() >= 4 ==> (r matches Ok(p) && p@ == buf@ && p.wf()),
            buf@.len() < 4 ==> r == Err::<Packet, RtcpError>(RtcpError::InvalidData),
    {
        if buf.len() < 4 {
            return Err(RtcpError::InvalidData);
        }
        Ok(Packet { buf })
    }

    /// The common header at the front.
    pub fn header(&self) -> (r: Header)
        requires
            self.wf(),
        ensures
            r@ == self@.subrange(0, 4),
            r.wf(),
    {
        let head = bytes::copy_range(self.buf.as_slice(), 0, 4);
        match Header::new(head) {
            Result::Ok(h) => h,
            Result::Err(e) => {
                proof {
                    assert(false);
                }
                vstd::pervasive::unreached()
            },
        }
    }

    /// The same bytes read as a sender report.
    pub fn to_sender_report(&self) -> (r: Result<SenderReport, RtcpError>)
        requires
            self.wf(),
        ensures
            self@.len() >= 24 ==> (r matches Ok(s) && s@ == self@),
            self@.len() < 24 ==> r == Err::<SenderReport, RtcpError>(RtcpError::InvalidData),
    {
        SenderReport::new(bytes::copy_to_vec(self.buf.as_slice()))
    }
}

pub struct CompoundPacket {
    pub payload: Vec<u8>,
}

/// Walks the sub-packets of a compound payload by their length fields.
pub struct CompoundPacketIterator {
    payload: Vec<u8>,
    offset: usize,
}

impl CompoundPacket {
    pub fn new(payload: Vec<u8>) -> (r: Self)
        ensures
            r.payload@ == payload@,
    {
        CompoundPacket { payload }
    }

    /// A walker over the sub-packets, starting at the front.
    pub fn iter(&self) -> (r: CompoundPacketIterator)
        ensures
            r.spec_payload() == self.payload@,
            r.spec_offset() == 0,
    {
        CompoundPacketIterator { payload: bytes::copy_to_vec(self.payload.as_slice()), offset: 0 }
    }
}

impl CompoundPacketIterator {
    pub closed spec fn spec_payload(&self) -> Seq<u8> {
        self.payload@
    }

    pub closed spec fn spec_offset(&self) -> int {
        self.offset as int
    }

    /// The next sub-packet: the rest of the payload from the cursor, which
    /// advances by the packet's own span. Too few bytes for a header end
    /// the walk.
    pub fn next(&mut self) -> (r: Option<Packet>)
        requires
            old(self).spec_offset() <= old(self).spec_payload().len(),
        ensures
            final(self).spec_payload() == old(self).spec_payload(),
            final(self).spec_offset() <= final(self).spec_payload().len(),
            match r {
                Some(p) => {
                    let rest = old(self).spec_payload().len() - old(self).spec_offset();
                    &&& rest >= 4
                    &&& p@ == old(self).spec_payload().subrange(
                        old(self).spec_offset(),
                        old(self).spec_payload().len() as int,
                    )
                    &&& p.wf()
                    &&& final(self).spec_offset() == (if old(self).spec_offset() + (1 + spec_be16(
                        p@,
                        2,
                    )) * 4 <= old(self).spec_payload().len() {
                        old(self).spec_offset() + (1 + spec_be16(p@, 2)) * 4
                    } else {
                        old(self).spec_payload().len() as int
                    })
                },
                None => old(self).spec_payload().len() - old(self).spec_offset() < 4
                    && final(self).spec_offset() == final(self).spec_payload().len(),
            },
    {
        if self.payload.len() - self.offset < 4 {
            self.offset = self.payload.len();
            return None;
        }
        let rest = bytes::copy_range(self.payload.as_slice(), self.offset, self.payload.len());
        let length: usize = (rest[2] as usize) * 0x100 + (rest[3] as usize);
        let span = (1 + length) * 4;
        let packet = match Packet::new(rest) {
            Result::Ok(p) => p,
            Result::Err(e) => {
                proof {
                    assert(false);
                }
                vstd::pervasive::unreached()
            },
        };
        if span <= self.payload.len() - self.offset {
            self.offset = self.offset + span;
        } else {
            self.offset = self.payload.len();
        }
        Some(packet)
    }
}

} // verus!
