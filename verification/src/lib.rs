//! An RTSP client core: wire codec, authenticator, ring buffer, RTP reorder
//! queue and the session channel state machine, with verified contracts.

pub mod bytes;
pub mod http;
pub mod io;
pub mod rtcp;
pub mod rtp;
pub mod rtsp;
pub mod sdp;
pub mod types;
