//! Header and version types shared by the text protocol.

pub mod header;
pub mod version;
