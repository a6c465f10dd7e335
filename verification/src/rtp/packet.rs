//! An RTP packet over its raw bytes, with accessors for the fixed header
//! fields laid out by RFC 3550.

use vstd::prelude::*;
use crate::bytes;

verus! {

#[derive(Debug, Clone, Copy, PartialEq, Eq, Structural)]
pub enum PacketError {
    BufferTooShort,
}

pub struct Packet {
    buf: Vec<u8>,
}

impl View for Packet {
    type V = Seq<u8>;

    closed spec fn view(&self) -> Seq<u8> {
        self.buf@
    }
}

/// `s[i], s[i+1]` read big-endian.
pub open spec fn spec_be16(s: Seq<u8>, i: int) -> u16 {
    (s[i] * 0x100 + s[i + 1]) as u16
}

/// `s[i] .. s[i+3]` read big-endian.
pub open spec fn spec_be32(s: Seq<u8>, i: int) -> u32 {
    (s[i] * 0x1000000 + s[i + 1] * 0x10000 + s[i + 2] * 0x100 + s[i + 3]) as u32
}

pub open spec fn spec_version(s: Seq<u8>) -> u8 {
    s[0] >> 6
}

pub open spec fn spec_padding(s: Seq<u8>) -> bool {
    (s[0] >> 5) & 0x01 == 1
}

pub open spec fn spec_extension(s: Seq<u8>) -> bool {
    (s[0] >> 4) & 0x01 == 1
}

pub open spec fn spec_csrc_count(s: Seq<u8>) -> u8 {
    s[0] & 0x0f
}

pub open spec fn spec_marker(s: Seq<u8>) -> bool {
    s[1] >> 7 == 1
}

pub open spec fn spec_payload_type(s: Seq<u8>) -> u8 {
    s[1] & 0x7f
}

pub open spec fn spec_seq_number(s: Seq<u8>) -> u16 {
    spec_be16(s, 2)
}

pub open spec fn spec_timestamp(s: Seq<u8>) -> u32 {
    spec_be32(s, 4)
}

pub open spec fn spec_ssrc(s: Seq<u8>) -> u32 {
    spec_be32(s, 8)
}

/// Where the payload begins: after the fixed header and the CSRC words.
pub open spec fn spec_data_offset(s: Seq<u8>) -> int {
    12 + 4 * spec_csrc_count(s)
}

/// The payload: from the data offset, with trailing padding stripped when
/// the padding flag is set.
pub open spec fn spec_data(s: Seq<u8>) -> Seq<u8> {
    if spec_padding(s) {
        s.subrange(spec_data_offset(s), s.len() - s[s.len() - 1])
    } else {
        s.subrange(spec_data_offset(s), s.len() as int)
    }
}

impl Packet {
    /// A buffer long enough for its own CSRC count.
    pub open spec fn wf(&self) -> bool {
        self@.len() >= 12 && self@.len() >= spec_data_offset(self@)
    }

    /// Takes the buffer as a packet; too short a buffer, for the fixed
    /// header or for its own CSRC count, is refused.
    pub fn new(buf: Vec<u8>) -> (r: Result<Packet, PacketError>)
        ensures
            buf@.len() >= 12 && buf@.len() >= spec_data_offset(buf@) ==> (r matches Ok(p) && p@
                == buf@ && p.wf()),
            buf@.len() < 12 || buf@.len() < spec_data_offset(buf@) ==> r == Err::<Packet, PacketError>(
                PacketError::BufferTooShort,
            ),
    {
        if buf.len() < 12 {
            return Err(PacketError::BufferTooShort);
        }
        let b0 = buf[0];
        let cc = b0 & 0x0f;
        proof {
            assert(cc <= 15) by (bit_vector)
                requires
                    cc == b0 & 0x0f,
            ;
        }
        let offset: usize = 12 + (cc as usize) * 4;
        if buf.len() < offset {
            return Err(PacketError::BufferTooShort);
        }
        Ok(Packet { buf })
    }

    pub fn version(&self) -> (r: u8)
        requires
            self.wf(),
        ensures
            r == spec_version(self@),
    {
        self.buf[0] >> 6
    }

    pub fn padding(&self) -> (r: bool)
        requires
            self.wf(),
        ensures
            r == spec_padding(self@),
    {
        (self.buf[0] >> 5) & 0x01 == 1
    }

    pub fn extension(&self) -> (r: bool)
        requires
            self.wf(),
        ensures
            r == spec_extension(self@),
    {
        (self.buf[0] >> 4) & 0x01 == 1
    }

    pub fn csrc_count(&self) -> (r: u8)
        requires
            self.wf(),
        ensures
            r == spec_csrc_count(self@),
    {
        self.buf[0] & 0x0f
    }

    pub fn marker(&self) -> (r: bool)
        requires
            self.wf(),
        ensures
            r == spec_marker(self@),
    {
        self.buf[1] >> 7 == 1
    }

    pub fn payload_type(&self) -> (r: u8)
        requires
            self.wf(),
        ensures
            r == spec_payload_type(self@),
    {
        self.buf[1] & 0x7f
    }

    pub fn sequence_number(&self) -> (r: u16)
        requires
            self.wf(),
        ensures
            r == spec_seq_number(self@),
    {
        (self.buf[2] as u16) * 0x100 + (self.buf[3] as u16)
    }

    pub fn timestamp(&self) -> (r: u32)
        requires
            self.wf(),
        ensures
            r == spec_timestamp(self@),
    {
        (self.buf[4] as u32) * 0x1000000 + (self.buf[5] as u32) * 0x10000 + (self.buf[6] as u32)
            * 0x100 + (self.buf[7] as u32)
    }

    pub fn ssrc(&self) -> (r: u32)
        requires
            self.wf(),
        ensures
            r == spec_ssrc(self@),
    {
        (self.buf[8] as u32) * 0x1000000 + (self.buf[9] as u32) * 0x10000 + (self.buf[10] as u32)
            * 0x100 + (self.buf[11] as u32)
    }

    pub fn len(&self) -> (r: usize)
        ensures
            r == self@.len(),
    {
        self.buf.len()
    }

    /// Hands the raw bytes back.
    pub fn into_bytes(self) -> (r: Vec<u8>)
        ensures
            r@ == self@,
    {
        self.buf
    }

    fn data_offset(&self) -> (r: usize)
        requires
            self.wf(),
        ensures
            r == spec_data_offset(self@),
    {
        let b0 = self.buf[0];
        let cc = b0 & 0x0f;
        proof {
            assert(cc <= 15) by (bit_vector)
                requires
                    cc == b0 & 0x0f,
            ;
        }
        12 + (cc as usize) * 4
    }

    /// The payload slice; a padded packet must carry a padding count that
    /// fits in its payload.
    pub fn data(&self) -> (r: Vec<u8>)
        requires
            self.wf(),
            spec_padding(self@) ==> spec_data_offset(self@) + self@[self@.len() - 1] <= self@.len(),
        ensures
            r@ == spec_data(self@),
    {
        let offset = self.data_offset();
        if self.padding() {
            let padding_len = self.buf[self.buf.len() - 1] as usize;
            bytes::copy_range(self.buf.as_slice(), offset, self.buf.len() - padding_len)
        } else {
            bytes::copy_range(self.buf.as_slice(), offset, self.buf.len())
        }
    }

    /// The CSRC identifiers, one 32-bit word each.
    pub fn csrc(&self) -> (r: Vec<u32>)
        requires
            self.wf(),
        ensures
            r@.len() == spec_csrc_count(self@),
            forall|i: int| 0 <= i < r@.len() ==> r@[i] == spec_be32(self@, 12 + 4 * i),
    {
        let b0 = self.buf[0];
        let cc = b0 & 0x0f;
        let mut r: Vec<u32> = Vec::new();
        let mut i: usize = 0;
        proof {
            assert(cc <= 15) by (bit_vector)
                requires
                    cc == b0 & 0x0f,
            ;
        }
        while i < cc as usize
            invariant
                self.wf(),
                cc == spec_csrc_count(self@),
                self@.len() >= 12 + 4 * cc,
                0 <= i <= cc,
                r@.len() == i,
                forall|k: int| 0 <= k < i ==> r@[k] == spec_be32(self@, 12 + 4 * k),
            decreases cc - i,
    {
            let offset = 12 + i * 4;
            let w = (self.buf[offset] as u32) * 0x1000000 + (self.buf[offset + 1] as u32) * 0x10000
                + (self.buf[offset + 2] as u32) * 0x100 + (self.buf[offset + 3] as u32);
            r.push(w);
            i = i + 1;
        }
        r
    }
}

} // verus!
