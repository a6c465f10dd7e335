//! The fixed header every RTCP packet starts with: version, padding,
//! report count, packet type, and length in 32-bit words minus one.

use vstd::prelude::*;
use crate::rtp::packet::spec_be16;

verus! {

#[derive(Debug, Clone, Copy, PartialEq, Eq, Structural)]
pub enum RtcpError {
    InvalidData,
}

#[derive(Debug, Clone, Copy, PartialEq, Eq, Structural)]
pub enum PacketType {
    Unknown,
    SenderReport,
    ReceiverReport,
    SourceDescription,
    Goodbye,
    ApplicationDefined,
    TransportLayerFeedback,
    PayloadSpecificFeedback,
    ExtendedReport,
}

/// The packet type a type byte names; 200 through 207 are known.
pub open spec fn spec_packet_type(b: u8) -> PacketType {
    if b == 200 {
        PacketType::SenderReport
    } else if b == 201 {
        PacketType::ReceiverReport
    } else if b == 202 {
        PacketType::SourceDescription
    } else if b == 203 {
        PacketType::Goodbye
    } else if b == 204 {
        PacketType::ApplicationDefined
    } else if b == 205 {
        PacketType::TransportLayerFeedback
    } else if b == 206 {
        PacketType::PayloadSpecificFeedback
    } else if b == 207 {
        PacketType::ExtendedReport
    } else {
        PacketType::Unknown
    }
}

pub struct Header {
    buf: Vec<u8>,
}

impl View for Header {
    type V = Seq<u8>;

    closed spec fn view(&self) -> Seq<u8> {
        self.buf@
    }
}

impl Header {
    pub open spec fn wf(&self) -> bool {
        self@.len() >= 4
    }

    /// Takes the bytes as an RTCP header; fewer than four are refused.
    pub fn new(buf: Vec<u8>) -> (r: Result<Self, RtcpError>)
        ensures
            buf@.len() >= 4 ==> (r matches Ok(h) && h@ == buf@ && h.wf()),
            buf@.len() < 4 ==> r == Err::<Header, RtcpError>(RtcpError::InvalidData),
    {
        if buf.len() < 4 {
            return Err(RtcpError::InvalidData);
        }
        Ok(Header { buf })
    }

    pub fn version(&self) -> (r: u8)
        requires
            self.wf(),
        ensures
            r == self@[0] >> 6,
    {
        self.buf[0] >> 6
    }

    pub fn padding(&self) -> (r: bool)
        requires
            self.wf(),
        ensures
            r == (self@[0] & 0x20 != 0),
    {
        self.buf[0] & 0x20 != 0
    }

    pub fn count(&self) -> (r: usize)
        requires
            self.wf(),
        ensures
            r == self@[0] & 0x1f,
    {
        (self.buf[0] & 0x1f) as usize
    }

    pub fn packet_type(&self) -> (r: PacketType)
        requires
            self.wf(),
        ensures
            r == spec_packet_type(self@[1]),
    {
        let b = self.buf[1];
        if b == 200 {
            PacketType::SenderReport
        } else if b == 201 {
            PacketType::ReceiverReport
        } else if b == 202 {
            PacketType::SourceDescription
        } else if b == 203 {
            PacketType::Goodbye
        } else if b == 204 {
            PacketType::ApplicationDefined
        } else if b == 205 {
            PacketType::TransportLayerFeedback
        } else if b == 206 {
            PacketType::PayloadSpecificFeedback
        } else if b == 207 {
            PacketType::ExtendedReport
        } else {
            PacketType::Unknown
        }
    }

    /// The length field: the packet's span in 32-bit words, minus one.
    pub fn length(&self) -> (r: usize)
        requires
            self.wf(),
        ensures
            r == spec_be16(self@, 2),
    {
        (self.buf[2] as usize) * 0x100 + (self.buf[3] as usize)
    }
}

} // verus!
