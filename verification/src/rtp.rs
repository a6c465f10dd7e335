//! RTP: the media packet layout and the reorder queue.

pub mod packet;
pub mod queue;
pub mod reader;
