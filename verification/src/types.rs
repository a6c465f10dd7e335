//! Media frame types handed to downstream consumers.

use vstd::prelude::*;

verus! {

#[derive(Debug, Clone, Copy, PartialEq, Eq, Structural)]
pub enum MediaType {
    Video,
    Audio,
}

#[derive(Debug, Clone, Copy, PartialEq, Eq, Structural)]
pub enum FrameType {
    H264,
    H265,
    AAC,
    Opus,
    G711,
    G722,
    G729,
    PCMU,
    PCMA,
    VP8,
    VP9,
    AV1,
    JPEG,
}

pub struct Frame {
    pub media_type: MediaType,
    pub frame_type: FrameType,
    pub data: Vec<u8>,
}

} // verus!
