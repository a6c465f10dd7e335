//! RTCP: the common header, compound packet framing, and the sender report
//! layout. Framed and measured here; the contents are not interpreted.

pub mod header;
pub mod packet;
pub mod report_block;
pub mod sdes;
pub mod sender_report;
