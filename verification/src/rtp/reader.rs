//! A standalone packet reader: parses length-prefixed RTP buffers and
//! reorders them with a plain sequence-number queue. The surrounding
//! process reads frames off its stream and feeds them in.

use vstd::prelude::*;
use crate::rtp::packet::{
    spec_csrc_count, spec_data_offset, spec_extension, spec_marker, spec_padding,
    spec_payload_type, spec_seq_number, spec_ssrc, spec_timestamp, spec_version, spec_be32,
};
use crate::rtp::queue::{spec_insert_pos, spec_newer, spec_seq_dist};
use crate::bytes;

verus! {

/// An RTP packet with its header fields broken out.
pub struct Packet {
    buf: Vec<u8>,
    pub padding: bool,
    pub extension: bool,
    pub marker: bool,
    pub version: u8,
    pub csrc_count: u8,
    pub payload_type: u8,
    pub sequence_number: u16,
    pub timestamp: u32,
    pub ssrc: u32,
    pub data_offset: u32,
}

impl View for Packet {
    type V = Seq<u8>;

    closed spec fn view(&self) -> Seq<u8> {
        self.buf@
    }
}

impl Packet {
    /// The broken-out fields agree with the buffer.
    pub closed spec fn wf(&self) -> bool {
        &&& self@.len() >= 12
        &&& self.version == spec_version(self@)
        &&& self.padding == spec_padding(self@)
        &&& self.extension == spec_extension(self@)
        &&& self.csrc_count == spec_csrc_count(self@)
        &&& self.marker == spec_marker(self@)
        &&& self.payload_type == spec_payload_type(self@)
        &&& self.sequence_number == spec_seq_number(self@)
        &&& self.timestamp == spec_timestamp(self@)
        &&& self.ssrc == spec_ssrc(self@)
        &&& self.data_offset == spec_data_offset(self@)
    }

    /// Breaks the fixed header out of the buffer.
    pub fn new(buf: Vec<u8>) -> (r: Packet)
        requires
            buf@.len() >= 12,
        ensures
            r@ == buf@,
            r.wf(),
    {
        let first_byte = buf[0];
        let version = first_byte >> 6;
        let padding = (first_byte >> 5) & 0x01 == 1;
        let extension = (first_byte >> 4) & 0x01 == 1;
        let csrc_count = first_byte & 0x0f;
        let second_byte = buf[1];
        let marker = second_byte >> 7 == 1;
        let payload_type = second_byte & 0x7f;
        let sequence_number = (buf[2] as u16) * 0x100 + (buf[3] as u16);
        let timestamp = (buf[4] as u32) * 0x1000000 + (buf[5] as u32) * 0x10000 + (buf[6] as u32)
            * 0x100 + (buf[7] as u32);
        let ssrc = (buf[8] as u32) * 0x1000000 + (buf[9] as u32) * 0x10000 + (buf[10] as u32) * 0x100
            + (buf[11] as u32);
        proof {
            assert(csrc_count <= 15) by (bit_vector)
                requires
                    csrc_count == first_byte & 0x0f,
            ;
        }
        let data_offset: u32 = 12 + (csrc_count as u32) * 4;
        Packet {
            buf,
            version,
            padding,
            extension,
            csrc_count,
            marker,
            payload_type,
            sequence_number,
            timestamp,
            ssrc,
            data_offset,
        }
    }

    /// The payload: from the data offset, with trailing padding stripped
    /// when the padding flag is set. The buffer must reach the offset, and
    /// a padded packet must carry a padding count that fits.
    pub fn data(&self) -> (r: Vec<u8>)
        requires
            self.wf(),
            self@.len() >= spec_data_offset(self@),
            spec_padding(self@) ==> spec_data_offset(self@) + self@[self@.len() - 1] <= self@.len(),
    ensures
            spec_padding(self@) ==> r@ == self@.subrange(
                spec_data_offset(self@),
                self@.len() - self@[self@.len() - 1],
            ),
            !spec_padding(self@) ==> r@ == self@.subrange(spec_data_offset(self@), self@.len() as int),
    {
        if self.padding {
            let padding_len = self.buf[self.buf.len() - 1] as usize;
            bytes::copy_range(self.buf.as_slice(), self.data_offset as usize, self.buf.len() - padding_len)
        } else {
            bytes::copy_range(self.buf.as_slice(), self.data_offset as usize, self.buf.len())
        }
    }

    /// Hands the raw bytes back.
    pub fn into_bytes(self) -> (r: Vec<u8>)
        ensures
            r@ == self@,
    {
        self.buf
    }

    /// The CSRC identifiers, one 32-bit word each.
    pub fn csrc(&self) -> (r: Vec<u32>)
        requires
            self.wf(),
            self@.len() >= spec_data_offset(self@),
        ensures
            r@.len() == spec_csrc_count(self@),
            forall|i: int| 0 <= i < r@.len() ==> r@[i] == spec_be32(self@, 12 + 4 * i),
    {
        let cc = self.csrc_count;
        let mut r: Vec<u32> = Vec::new();
        let mut i: usize = 0;
        while i < cc as usize
            invariant
                self.wf(),
                cc == spec_csrc_count(self@),
                self@.len() >= 12 + 4 * cc,
                0 <= i <= cc,
                r@.len() == i,
                forall|k: int| 0 <= k < i ==> r@[k] == spec_be32(self@, 12 + 4 * k),
            decreases cc - i,
        {
            let offset = 12 + i * 4;
            let w = (self.buf[offset] as u32) * 0x1000000 + (self.buf[offset + 1] as u32) * 0x10000
                + (self.buf[offset + 2] as u32) * 0x100 + (self.buf[offset + 3] as u32);
            r.push(w);
            i = i + 1;
        }
        r
    }
}

/// An unbounded queue ordered by raw sequence number, smallest first.
pub struct ReorderQueue {
    queue: Vec<Packet>,
    len: usize,
}

impl ReorderQueue {
    /// The queued sequence numbers, smallest first.
    pub closed spec fn spec_seqs(&self) -> Seq<u16> {
        self.queue@.map_values(|p: Packet| p.sequence_number)
    }

    /// Sorted ascending, with well-formed packets, and the count in step.
    pub closed spec fn wf(&self) -> bool {
        &&& self.len == self.queue@.len()
        &&& forall|i: int| 0 <= i < self.queue@.len() ==> (#[trigger] self.queue@[i]).wf()
        &&& forall|i: int, j: int| 0 <= i < j < self.spec_seqs().len()
            ==> #[trigger] self.spec_seqs()[i] <= #[trigger] self.spec_seqs()[j]
    }

    /// Public face of the invariant.
    pub open spec fn inv(&self) -> bool {
        self.wf()
    }

    pub fn new() -> (r: Self)
        ensures
            r.inv(),
            r.spec_seqs() == Seq::<u16>::empty(),
    {
        let r = ReorderQueue { queue: Vec::new(), len: 0 };
        proof {
            assert(r.spec_seqs() =~= Seq::<u16>::empty());
        }
        r
    }

    /// Queues a packet at its place in sequence order.
    pub fn push(&mut self, packet: Packet)
        requires
            old(self).inv(),
            packet.wf(),
        ensures
            final(self).inv(),
            exists|k: int|
                0 <= k <= old(self).spec_seqs().len() && final(self).spec_seqs() == old(self).spec_seqs().insert(k, spec_seq_number(packet@)),
    {
        let sp = packet.sequence_number;
        let mut i: usize = 0;
        loop
            invariant
                self == old(self),
                old(self).inv(),
                sp == spec_seq_number(packet@),
                0 <= i <= self.spec_seqs().len(),
                forall|k: int| 0 <= k < i ==> #[trigger] self.spec_seqs()[k] < sp,
            ensures
                self == old(self),
                0 <= i <= self.spec_seqs().len(),
                forall|k: int| 0 <= k < i ==> #[trigger] self.spec_seqs()[k] < sp,
                i < self.spec_seqs().len() ==> self.spec_seqs()[i as int] >= sp,
            decreases self.queue@.len() - i,
        {
            if i >= self.queue.len() {
                break;
            }
            if self.queue[i].sequence_number >= sp {
                break;
            }
            i = i + 1;
        }
        let ghost olds = self.spec_seqs();
        self.queue.insert(i, packet);
        self.len = self.queue.len();
        proof {
            assert(self.spec_seqs() =~= olds.insert(i as int, sp));
        }
    }

    /// Removes and returns the smallest queued sequence number's packet.
    pub fn pop(&mut self) -> (r: Option<Packet>)
        requires
            old(self).inv(),
        ensures
            final(self).inv(),
            old(self).spec_seqs().len() == 0 ==> r is None && *final(self) == *old(self),
            old(self).spec_seqs().len() > 0 ==> (r matches Some(p) && p.wf() && spec_seq_number(p@)
                == old(self).spec_seqs()[0] && final(self).spec_seqs() == old(self).spec_seqs().drop_first()),
    {
        if self.len > 0 {
            self.len = self.len - 1;
            let p = self.queue.remove(0);
            proof {
                assert(self.spec_seqs() =~= old(self).spec_seqs().drop_first());
            }
            Some(p)
        } else {
            None
        }
    }

    pub fn len(&self) -> (r: usize)
        requires
            self.inv(),
        ensures
            r == self.spec_seqs().len(),
    {
        self.len
    }

    pub fn is_empty(&self) -> (r: bool)
        requires
            self.inv(),
        ensures
            r <==> self.spec_seqs().len() == 0,
    {
        self.len == 0
    }

    /// Borrows the smallest queued sequence number's packet.
    pub fn peek(&self) -> (r: Option<&Packet>)
        requires
            self.inv(),
        ensures
            self.spec_seqs().len() == 0 ==> r is None,
            self.spec_seqs().len() > 0 ==> (r matches Some(p) && p.wf() && spec_seq_number(p@)
                == self.spec_seqs()[0]),
    {
        if self.queue.len() > 0 {
            Some(&self.queue[0])
        } else {
            None
        }
    }
}

/// The reorder stage of the reader: the bounded modular-distance queue
/// behind a frame classifier. Sequence numbers are compared by signed
/// 16-bit delta, rolling over at the top of the range.
pub struct PacketReader {
    reorder_queue: crate::rtp::queue::ReorderQueue,
    max_reorder_queue_len: usize,
}

impl PacketReader {
    /// The last delivered sequence number, none before the first delivery.
    pub closed spec fn spec_last(&self) -> Option<u16> {
        self.reorder_queue.spec_last()
    }

    /// The buffered sequence numbers, nearest first.
    pub closed spec fn spec_seqs(&self) -> Seq<u16> {
        self.reorder_queue.spec_seqs()
    }

    pub closed spec fn spec_max_len(&self) -> usize {
        self.max_reorder_queue_len
    }

    pub closed spec fn inv(&self) -> bool {
        self.reorder_queue.inv() && self.reorder_queue.spec_max_len() == self.max_reorder_queue_len
    }

    pub fn new(max_reorder_queue_len: usize) -> (r: Self)
        ensures
            r.inv(),
            r.spec_seqs() == Seq::<u16>::empty(),
            r.spec_last() is None,
            r.spec_max_len() == max_reorder_queue_len,
    {
        PacketReader {
            reorder_queue: crate::rtp::queue::ReorderQueue::new(max_reorder_queue_len),
            max_reorder_queue_len,
        }
    }

    /// RTCP frames are acknowledged and dropped.
    pub fn parse_rtcp(&mut self, packet: Vec<u8>)
        ensures
            *final(self) == *old(self),
    {
    }

    /// Hands the packet straight back when it is the next in line (or
    /// nothing was delivered yet), discards one not ahead of the last
    /// delivery or already buffered, and queues the rest at its place in
    /// distance order.
    pub fn push_to_reorder_queue_or_return(&mut self, packet: Packet) -> (r: Option<Packet>)
        requires
            old(self).inv(),
            packet.wf(),
            spec_data_offset(packet@) <= packet@.len(),
        ensures
            final(self).inv(),
            final(self).spec_max_len() == old(self).spec_max_len(),
            match old(self).spec_last() {
                Option::None => (r matches Some(p) && p@ == packet@) && final(self).spec_last()
                    == Some(spec_seq_number(packet@)) && final(self).spec_seqs() == old(self).spec_seqs(),
                Option::Some(l) => {
                    let sp = spec_seq_number(packet@);
                    let d = spec_seq_dist(sp, l);
                    if d == 1 {
                        (r matches Some(p) && p@ == packet@) && final(self).spec_last() == Some(sp)
                            && final(self).spec_seqs() == (if old(self).spec_seqs().len() > 0 && old(self).spec_seqs()[0] == sp {
                            old(self).spec_seqs().drop_first()
                        } else {
                            old(self).spec_seqs()
                        })
                    } else if !spec_newer(sp, l) || old(self).spec_seqs().contains(sp) {
                        r is None && final(self).spec_last() == old(self).spec_last() && final(self).spec_seqs() == old(self).spec_seqs()
                    } else {
                        r is None && final(self).spec_last() == old(self).spec_last() && final(self).spec_seqs() == old(self).spec_seqs().insert(
                            spec_insert_pos(old(self).spec_seqs(), l, d),
                            sp,
                        )
                    }
                },
            },
            r matches Some(p) ==> (p@ == packet@ && (old(self).spec_last() matches Some(l)
                ==> spec_newer(spec_seq_number(packet@), l))),
    {
        let buf = packet.into_bytes();
        let core_packet = match crate::rtp::packet::Packet::new(buf) {
            Result::Ok(p) => p,
            Result::Err(e) => {
                proof {
                    assert(false);
                }
                vstd::pervasive::unreached()
            },
        };
        match self.reorder_queue.push_or_return(core_packet) {
            Option::Some(p) => Some(Packet::new(p.into_bytes())),
            Option::None => None,
        }
    }

    /// Parses a frame as RTP and offers it for reordering; a frame too
    /// short for its own header is dropped unchanged.
    pub fn parse_rtp(&mut self, packet_buf: Vec<u8>) -> (r: Option<Packet>)
        requires
            old(self).inv(),
        ensures
            final(self).inv(),
            final(self).spec_max_len() == old(self).spec_max_len(),
            (packet_buf@.len() < 12 || packet_buf@.len() < spec_data_offset(packet_buf@)) ==> (
            r is None && *final(self) == *old(self)),
            r matches Some(p) ==> (p@ == packet_buf@ && (old(self).spec_last() matches Some(l)
                ==> spec_newer(spec_seq_number(packet_buf@), l))),
            (packet_buf@.len() >= 12 && packet_buf@.len() >= spec_data_offset(packet_buf@)) ==> (
            match old(self).spec_last() {
                Option::None => (r matches Some(p) && p@ == packet_buf@) && final(self).spec_last()
                    == Some(spec_seq_number(packet_buf@)),
                Option::Some(l) => {
                    let sp = spec_seq_number(packet_buf@);
                    let d = spec_seq_dist(sp, l);
                    if d == 1 {
                        (r matches Some(p) && p@ == packet_buf@) && final(self).spec_last() == Some(
                            sp,
                        )
                    } else if !spec_newer(sp, l) || old(self).spec_seqs().contains(sp) {
                        r is None && final(self).spec_last() == old(self).spec_last() && final(self).spec_seqs() == old(self).spec_seqs()
                    } else {
                        r is None && final(self).spec_last() == old(self).spec_last() && final(self).spec_seqs() == old(self).spec_seqs().insert(
                            spec_insert_pos(old(self).spec_seqs(), l, d),
                            sp,
                        )
                    }
                },
            }),
    {
        match crate::rtp::packet::Packet::new(packet_buf) {
            Result::Ok(p) => {
                match self.reorder_queue.push_or_return(p) {
                    Option::Some(out) => Some(Packet::new(out.into_bytes())),
                    Option::None => None,
                }
            },
            Result::Err(e) => None,
        }
    }

    /// Releases the nearest buffered packet when it is next in line or the
    /// queue has reached its bound; else nothing.
    pub fn pop_reorder_queue(&mut self) -> (r: Option<Packet>)
        requires
            old(self).inv(),
        ensures
            final(self).inv(),
            final(self).spec_max_len() == old(self).spec_max_len(),
            old(self).spec_seqs().len() == 0 ==> r is None && *final(self) == *old(self),
            old(self).spec_seqs().len() > 0 ==> ({
                let l = old(self).spec_last()->Some_0;
                let d0 = spec_seq_dist(old(self).spec_seqs()[0], l);
                if d0 == 1 || old(self).spec_seqs().len() >= old(self).spec_max_len() {
                    (r matches Some(p) && spec_seq_number(p@) == old(self).spec_seqs()[0]) && final(self).spec_seqs() == old(self).spec_seqs().drop_first() && final(self).spec_last()
                        == Some(old(self).spec_seqs()[0])
                } else {
                    r is None && *final(self) == *old(self)
                }
            }),
            r matches Some(p) ==> (old(self).spec_last() matches Some(l) && spec_newer(
                spec_seq_number(p@),
                l,
            )),
    {
        match self.reorder_queue.pop() {
            Option::Some(p) => Some(Packet::new(p.into_bytes())),
            Option::None => None,
        }
    }

    /// Classifies a raw frame by its second byte: 200 through 207 are
    /// RTCP and dropped unchanged; anything else is offered as RTP. A
    /// frame of less than two bytes is dropped unchanged.
    pub fn parse_buf_packet(&mut self, packet_buf: Vec<u8>) -> (r: Option<Packet>)
        requires
            old(self).inv(),
        ensures
            final(self).inv(),
            final(self).spec_max_len() == old(self).spec_max_len(),
            packet_buf@.len() < 2 ==> r is None && *final(self) == *old(self),
            (packet_buf@.len() >= 2 && 200 <= packet_buf@[1] <= 207) ==> (r is None && *final(self)
                == *old(self)),
            r matches Some(p) ==> p@ == packet_buf@,
    {
        if packet_buf.len() < 2 {
            return None;
        }
        let second_byte = packet_buf[1];
        if second_byte >= 200 && second_byte <= 207 {
            self.parse_rtcp(packet_buf);
            None
        } else {
            self.parse_rtp(packet_buf)
        }
    }
}

} // verus!
