//! The RTSP control protocol: methods, status codes, request serialisation,
//! the streaming response parser, buffering, authentication and the session
//! channel.

pub mod method;
pub mod protocol;
pub mod status;
pub mod buffer;
pub mod response;
pub mod uri;
pub mod request;
pub mod auth;
pub mod command;
pub mod channel;
