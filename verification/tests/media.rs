use rtsp_client::io::{ByteCursor, ReadBytes};
use rtsp_client::rtp::packet::Packet;
use rtsp_client::rtp::queue::ReorderQueue;
use rtsp_client::rtp::reader;
use rtsp_client::rtcp::header::PacketType;
use rtsp_client::rtcp::packet::CompoundPacket;

#[test]
fn packet_test_packet_new() {
    // version 2, no padding, no extension, csrc count 0
    // marker 0, payload type 96, sequence number 23, timestamp 0, ssrc 0
    let packet = vec![
        0x80, 0x60, 0x00, 0x17, // version 2, payload type 96, sequence number 23
        0x00, 0x00, 0x00, 0x00, // timestamp 0
        0x00, 0x00, 0x00, 0x00, // ssrc 0
    ];
    let packet = Packet::new(packet).unwrap();
    assert_eq!(packet.version(), 2);
    assert_eq!(packet.padding(), false);
    assert_eq!(packet.extension(), false);
    assert_eq!(packet.csrc_count(), 0);
    assert_eq!(packet.marker(), false);
    assert_eq!(packet.payload_type(), 96);
    assert_eq!(packet.sequence_number(), 23);
    assert_eq!(packet.timestamp(), 0);
    assert_eq!(packet.ssrc(), 0);
    assert_eq!(packet.len(), 12);
    assert_eq!(packet.data().len(), 0);
}

#[test]
fn reader_test_packet_new() {
    let packet = vec![
        0x80, 0x60, 0x00, 0x17, // version 2, payload type 96, sequence number 23
        0x00, 0x00, 0x00, 0x00, // timestamp 0
        0x00, 0x00, 0x00, 0x00, // ssrc 0
    ];
    let packet = reader::Packet::new(packet);
    assert_eq!(packet.version, 2);
    assert_eq!(packet.padding, false);
    assert_eq!(packet.extension, false);
    assert_eq!(packet.csrc_count, 0);
    assert_eq!(packet.marker, false);
    assert_eq!(packet.payload_type, 96);
    assert_eq!(packet.sequence_number, 23);
    assert_eq!(packet.timestamp, 0);
    assert_eq!(packet.ssrc, 0);
}

#[test]
fn test_reorder_queue() {
    // sequence numbers 23, 25, 27, 24, 26; ts and ssrc zero
    let mut packet_bufs = vec![
        vec![0x80, 0x60, 0x00, 0x17, 0x00, 0x00, 0x00, 0x00, 0x00, 0x00, 0x00, 0x00], // seq 23
        vec![0x80, 0x60, 0x00, 0x19, 0x00, 0x00, 0x00, 0x00, 0x00, 0x00, 0x00, 0x00], // seq 25
        vec![0x80, 0x60, 0x00, 0x1B, 0x00, 0x00, 0x00, 0x00, 0x00, 0x00, 0x00, 0x00], // seq 27
        vec![0x80, 0x60, 0x00, 0x18, 0x00, 0x00, 0x00, 0x00, 0x00, 0x00, 0x00, 0x00], // seq 24
        vec![0x80, 0x60, 0x00, 0x1A, 0x00, 0x00, 0x00, 0x00, 0x00, 0x00, 0x00, 0x00], // seq 26
    ];
    let mut reorder_queue = ReorderQueue::new(5);
    assert_eq!(
        reorder_queue
            .push_or_return(Packet::new(packet_bufs.remove(0)).unwrap())
            .unwrap()
            .sequence_number(),
        23
    );
    assert!(reorder_queue
        .push_or_return(Packet::new(packet_bufs.remove(0)).unwrap())
        .is_none());
    assert!(reorder_queue
        .push_or_return(Packet::new(packet_bufs.remove(0)).unwrap())
        .is_none());
    assert_eq!(
        reorder_queue
            .push_or_return(Packet::new(packet_bufs.remove(0)).unwrap())
            .unwrap()
            .sequence_number(),
        24
    );
    assert!(reorder_queue
        .push_or_return(Packet::new(packet_bufs.remove(0)).unwrap())
        .is_none());
    assert_eq!(reorder_queue.pop().unwrap().sequence_number(), 25);
    assert_eq!(reorder_queue.pop().unwrap().sequence_number(), 26);
    assert_eq!(reorder_queue.pop().unwrap().sequence_number(), 27);
    assert!(reorder_queue.pop().is_none());
}

fn rtp_buf(seq: u16) -> Vec<u8> {
    let mut buf = vec![0x80, 0x60, 0, 0, 0, 0, 0, 0, 0, 0, 0, 0];
    buf[2] = (seq >> 8) as u8;
    buf[3] = (seq & 0xff) as u8;
    buf
}

#[test]
fn reorder_queue_overflow_releases_minimum() {
    // sequence 11 is lost; the sixth arrival forces 12 out
    let mut queue = ReorderQueue::new(5);
    let mut delivered: Vec<u16> = Vec::new();
    for seq in [10u16, 12, 13, 14, 15, 16] {
        if let Some(p) = queue.push_or_return(Packet::new(rtp_buf(seq)).unwrap()) {
            delivered.push(p.sequence_number());
        }
        while let Some(p) = queue.pop() {
            delivered.push(p.sequence_number());
        }
    }
    assert_eq!(delivered, vec![10, 12, 13, 14, 15, 16]);
}

#[test]
fn reorder_queue_discards_older_and_duplicate() {
    let mut queue = ReorderQueue::new(5);
    assert_eq!(
        queue
            .push_or_return(Packet::new(rtp_buf(100)).unwrap())
            .unwrap()
            .sequence_number(),
        100
    );
    // older than the last delivery
    assert!(queue.push_or_return(Packet::new(rtp_buf(99)).unwrap()).is_none());
    assert!(queue.pop().is_none());
    // queued once, the duplicate dropped
    assert!(queue.push_or_return(Packet::new(rtp_buf(102)).unwrap()).is_none());
    assert!(queue.push_or_return(Packet::new(rtp_buf(102)).unwrap()).is_none());
    assert_eq!(
        queue
            .push_or_return(Packet::new(rtp_buf(101)).unwrap())
            .unwrap()
            .sequence_number(),
        101
    );
    assert_eq!(queue.pop().unwrap().sequence_number(), 102);
    assert!(queue.pop().is_none());
}

#[test]
fn reorder_queue_wraps_around_u16() {
    let mut queue = ReorderQueue::new(5);
    assert_eq!(
        queue
            .push_or_return(Packet::new(rtp_buf(65534)).unwrap())
            .unwrap()
            .sequence_number(),
        65534
    );
    // 0 is two ahead of 65534 on the circle: queued
    assert!(queue.push_or_return(Packet::new(rtp_buf(0)).unwrap()).is_none());
    assert_eq!(
        queue
            .push_or_return(Packet::new(rtp_buf(65535)).unwrap())
            .unwrap()
            .sequence_number(),
        65535
    );
    assert_eq!(queue.pop().unwrap().sequence_number(), 0);
}

#[test]
fn packet_reader_reorders_frames() {
    let mut reader = reader::PacketReader::new(5);
    let mut delivered: Vec<u16> = Vec::new();
    for seq in [23u16, 25, 27, 24, 26] {
        if let Some(p) = reader.parse_buf_packet(rtp_buf(seq)) {
            delivered.push(p.sequence_number);
        }
        while let Some(p) = reader.pop_reorder_queue() {
            delivered.push(p.sequence_number);
        }
    }
    assert_eq!(delivered, vec![23, 24, 25, 26, 27]);
}

#[test]
fn rtcp_header_fields() {
    // version 2, no padding, count 1, sender report, length 6 words
    let buf = vec![0x81, 200, 0x00, 0x06];
    let header = rtsp_client::rtcp::header::Header::new(buf).unwrap();
    assert_eq!(header.version(), 2);
    assert_eq!(header.padding(), false);
    assert_eq!(header.count(), 1);
    assert!(matches!(header.packet_type(), PacketType::SenderReport));
    assert_eq!(header.length(), 6);
}

#[test]
fn rtcp_compound_packet_walks_lengths() {
    // two sub-packets: a 1-word receiver report and a 1-word goodbye
    let mut payload = vec![0x80, 201, 0x00, 0x01, 0, 0, 0, 0];
    payload.extend_from_slice(&[0x80, 203, 0x00, 0x00]);
    let compound = CompoundPacket::new(payload);
    let mut it = compound.iter();
    let first = it.next().unwrap();
    assert!(matches!(first.header().packet_type(), PacketType::ReceiverReport));
    let second = it.next().unwrap();
    assert!(matches!(second.header().packet_type(), PacketType::Goodbye));
    assert!(it.next().is_none());
}

#[test]
fn rtcp_sender_report_fields() {
    let mut buf = vec![0x80, 200, 0x00, 0x06];
    buf.extend_from_slice(&[0, 0, 0, 9]); // ssrc
    buf.extend_from_slice(&[0, 0, 0, 0, 0, 0, 0, 7]); // ntp
    buf.extend_from_slice(&[0, 0, 0, 5]); // rtp ts
    buf.extend_from_slice(&[0, 0, 0, 3]); // packets sent
    buf.extend_from_slice(&[0, 0, 0, 2]); // octets sent
    let sr = rtsp_client::rtcp::sender_report::SenderReport::new(buf).unwrap();
    assert_eq!(sr.ssrc(), 9);
    assert_eq!(sr.ntp_timestamp(), 7);
    assert_eq!(sr.rtp_ts(), 5);
    assert_eq!(sr.packets_sent(), 3);
    assert_eq!(sr.octets_sent(), 2);
    assert_eq!(sr.size(), 28);
}

#[test]
fn byte_cursor_reads_big_endian() {
    let mut cursor = ByteCursor::new(vec![1, 0x01, 0x02, 0x00, 0x00, 0x00, 0x07]);
    assert_eq!(cursor.read_u8().unwrap(), 1);
    assert_eq!(cursor.read_u16().unwrap(), 0x0102);
    assert_eq!(cursor.read_u32().unwrap(), 7);
    assert_eq!(cursor.position(), 7);
    assert!(cursor.read_u8().is_err());
}
