//! Minimal RTP framing for PCMU (G.711 mu-law) audio.
//!
//! Only what a single point-to-point stream needs: the 12-byte fixed header,
//! payload type 0, no contributing sources and no extensions on the way out;
//! both are skipped on the way in.

use vstd::prelude::*;
use vstd::slice::slice_subrange;

verus! {

/// Size of the fixed RTP header in bytes.
pub const RTP_HEADER_SIZE: usize = 12;

/// RTP payload type of PCMU.
pub const PT_PCMU: u8 = 0;

/// Timestamp increment per 20 ms frame at 8 kHz.
pub const TIMESTAMP_INCREMENT: u32 = 160;

/// Largest RTP packet that is sent or received.
pub const MAX_RTP_PACKET_SIZE: usize = 1500;

/// Smallest valid RTP packet: the header and one byte of payload.
pub const MIN_RTP_PACKET_SIZE: usize = 13;

/// The two bytes of `v`, most significant first.
pub open spec fn be16(v: int) -> Seq<u8> {
    seq![(v / 256) as u8, (v % 256) as u8]
}

/// The four bytes of `v`, most significant first.
pub open spec fn be32(v: int) -> Seq<u8> {
    seq![
        (v / 16777216) as u8,
        ((v / 65536) % 256) as u8,
        ((v / 256) % 256) as u8,
        (v % 256) as u8,
    ]
}

/// An RTP packet of version 2 without padding, extension, contributing sources
/// or marker, with a PCMU payload.
pub open spec fn packet_bytes(seq: u16, timestamp: u32, ssrc: u32, payload: Seq<u8>) -> Seq<u8> {
    seq![0x80u8, PT_PCMU] + be16(seq as int) + be32(timestamp as int) + be32(ssrc as int) + payload
}

/// The numbering of an RTP stream. One per stream.
pub struct RtpSender {
    /// Synchronization source of the stream.
    pub ssrc: u32,
    /// Sequence number of the next packet.
    pub seq: u16,
    /// Timestamp of the next packet.
    pub timestamp: u32,
}

/// The receiving side of an RTP stream.
pub struct RtpReceiver {}

/// Creates the two sides of a stream; numbering starts at zero.
pub fn create_rtp_pair(ssrc: u32) -> (r: (RtpSender, RtpReceiver))
    ensures
        r.0.ssrc == ssrc,
        r.0.seq == 0,
        r.0.timestamp == 0,
{
    (RtpSender { ssrc, seq: 0, timestamp: 0 }, RtpReceiver {  })
}

/// Appends the four bytes of `v`, most significant first.
fn push_be32(packet: &mut Vec<u8>, v: u32)
    ensures
        final(packet)@ == old(packet)@ + be32(v as int),
{
    packet.push((v / 16777216) as u8);
    packet.push(((v / 65536) % 256) as u8);
    packet.push(((v / 256) % 256) as u8);
    packet.push((v % 256) as u8);
    assert(packet@ =~= old(packet)@ + be32(v as int));
}

/// Whether a payload may be sent: not empty, and the packet is not too large.
pub open spec fn sendable(len: int) -> bool {
    0 < len <= MAX_RTP_PACKET_SIZE - RTP_HEADER_SIZE
}

/// Whether a payload of `len` bytes may be sent.
pub fn is_sendable(len: usize) -> (r: bool)
    ensures
        r == sendable(len as int),
{
    0 < len && len <= MAX_RTP_PACKET_SIZE - RTP_HEADER_SIZE
}

impl RtpSender {
    /// The state after `n` more packets: both numbers wrap around.
    pub open spec fn after(self, n: nat) -> RtpSender {
        RtpSender {
            ssrc: self.ssrc,
            seq: ((self.seq + n) % 0x10000) as u16,
            timestamp: ((self.timestamp + TIMESTAMP_INCREMENT * n) % 0x1_0000_0000) as u32,
        }
    }

    /// Builds the packet to send for a payload that may be sent.
    pub fn send_packet(&mut self, payload: &[u8]) -> (packet: Vec<u8>)
        requires
            sendable(payload@.len() as int),
        ensures
            packet@ == packet_bytes(old(self).seq, old(self).timestamp, old(self).ssrc, payload@),
            packet@.len() <= MAX_RTP_PACKET_SIZE,
            *final(self) == old(self).after(1),
    {
        self.build_packet(payload)
    }

    /// Builds an RTP packet and advances sequence number and timestamp.
    pub fn build_packet(&mut self, payload: &[u8]) -> (packet: Vec<u8>)
        ensures
            packet@ == packet_bytes(old(self).seq, old(self).timestamp, old(self).ssrc, payload@),
            packet@.len() == RTP_HEADER_SIZE + payload@.len(),
            *final(self) == old(self).after(1),
    {
        let mut packet: Vec<u8> = Vec::new();
        packet.push(0x80);
        packet.push(PT_PCMU);
        packet.push((self.seq / 256) as u8);
        packet.push((self.seq % 256) as u8);
        assert(packet@ =~= seq![0x80u8, PT_PCMU] + be16(self.seq as int));
        push_be32(&mut packet, self.timestamp);
        push_be32(&mut packet, self.ssrc);
        packet.extend_from_slice(payload);
        assert(packet@ =~= packet_bytes(self.seq, self.timestamp, self.ssrc, payload@));
        self.seq = self.seq.wrapping_add(1);
        self.timestamp = self.timestamp.wrapping_add(TIMESTAMP_INCREMENT);
        packet
    }
}

/// Length of the header of `data` with its contributing sources and extension,
/// if the header ends inside `data`.
pub open spec fn header_len(data: Seq<u8>) -> Option<int> {
    let fixed = RTP_HEADER_SIZE + 4 * (data[0] % 16);
    if data.len() < fixed {
        None
    } else if (data[0] / 16) % 2 == 0 {
        Some(fixed)
    } else if data.len() < fixed + 4 {
        None
    } else {
        Some(fixed + 4 + 4 * (256 * data[fixed + 2] + data[fixed + 3]))
    }
}

/// The payload of an RTP packet of version 2: what follows the header, if
/// there is anything.
pub open spec fn payload_of(data: Seq<u8>) -> Option<Seq<u8>> {
    if data.len() < MIN_RTP_PACKET_SIZE || data[0] / 64 != 2 {
        None
    } else {
        match header_len(data) {
            Some(n) if n < data.len() => Some(data.skip(n)),
            _ => None,
        }
    }
}

/// Finds the payload of an RTP packet. Packets of another version, and those
/// too short to hold a header and a payload, are rejected.
pub fn parse_packet<'a>(data: &'a [u8]) -> (r: Option<&'a [u8]>)
    ensures
        match r {
            Some(payload) => payload_of(data@) == Some(payload@),
            None => payload_of(data@) is None,
        },
{
    let len: usize = data.len();
    if len < MIN_RTP_PACKET_SIZE {
        return None;
    }
    if data[0] / 64 != 2 {
        return None;
    }
    let cc: usize = (data[0] % 16) as usize;
    let header_len: usize = RTP_HEADER_SIZE + cc * 4;
    if len < header_len {
        return None;
    }
    let mut offset: usize = header_len;
    if (data[0] / 16) % 2 != 0 {
        if len - header_len < 4 {
            return None;
        }
        let ext_len: usize = 256 * (data[header_len + 2] as usize) + data[header_len + 3] as usize;
        offset = header_len + 4 + ext_len * 4;
    }
    if offset >= len {
        return None;
    }
    Some(slice_subrange(data, offset, len))
}

impl RtpReceiver {
    /// The payload of a received datagram, if it is a valid packet.
    pub fn recv_packet(&self, datagram: &[u8]) -> (r: Option<Vec<u8>>)
        ensures
            match r {
                Some(payload) => payload_of(datagram@) == Some(payload@) && payload@.len() > 0,
                None => payload_of(datagram@) is None,
            },
    {
        match parse_packet(datagram) {
            Some(payload) => {
                let mut copy: Vec<u8> = Vec::new();
                copy.extend_from_slice(payload);
                assert(copy@ =~= payload@);
                Some(copy)
            },
            None => None,
        }
    }
}

/// A packet that was built is parsed as the payload that was put in.
pub proof fn law_packet_round_trip(seq: u16, timestamp: u32, ssrc: u32, payload: Seq<u8>)
    requires
        payload.len() > 0,
    ensures
        payload_of(packet_bytes(seq, timestamp, ssrc, payload)) == Some(payload),
{
    let data = packet_bytes(seq, timestamp, ssrc, payload);
    assert(data.skip(12) =~= payload);
}

/// Numbering is additive: `a` packets and then `b` more number the stream as
/// `a + b` packets do. Every 65536 packets the sequence number comes round.
pub proof fn law_numbering(sender: RtpSender, a: nat, b: nat)
    ensures
        sender.after(a).after(b) == sender.after(a + b),
        sender.after(65536).seq == sender.seq,
{
    let (seq, timestamp) = (sender.seq as int, sender.timestamp as int);
    assert(((seq + a) % 0x10000 + b) % 0x10000 == (seq + (a + b)) % 0x10000);
    lemma_add_mod_noop_left(timestamp + 160 * a, (160 * b) as int, 0x1_0000_0000);
}

/// Adding before or after taking the remainder gives the same remainder.
proof fn lemma_add_mod_noop_left(x: int, y: int, m: int)
    requires
        m > 0,
    ensures
        (x % m + y) % m == (x + y) % m,
{
    vstd::arithmetic::div_mod::lemma_add_mod_noop(x, y, m);
    vstd::arithmetic::div_mod::lemma_add_mod_noop(x % m, y, m);
    vstd::arithmetic::div_mod::lemma_mod_twice(x, m);
}

/// What stands in a packet: version 2 without padding, extension, contributing
/// sources or marker, payload type 0, then the sequence number, the timestamp and
/// the source, each with the most significant byte first, and the payload.
pub proof fn law_packet_layout(seq: u16, timestamp: u32, ssrc: u32, payload: Seq<u8>)
    ensures
        ({
            let p = packet_bytes(seq, timestamp, ssrc, payload);
            &&& p.len() == 12 + payload.len()
            &&& p[0] == 128
            &&& p[1] == 0
            &&& 256 * p[2] + p[3] == seq
            &&& 16777216 * p[4] + 65536 * p[5] + 256 * p[6] + p[7] == timestamp
            &&& 16777216 * p[8] + 65536 * p[9] + 256 * p[10] + p[11] == ssrc
            &&& p.skip(12) == payload
        }),
{
    let p = packet_bytes(seq, timestamp, ssrc, payload);
    assert(p.skip(12) =~= payload);
}

/// Packets are numbered one by one, and 160 samples apart in time, as long as the
/// numbers do not come round; the source stays the same.
pub proof fn law_next_packet(sender: RtpSender)
    ensures
        ({
            let next = sender.after(1);
            &&& next.ssrc == sender.ssrc
            &&& next.seq == (if sender.seq == 65535 {
                0int
            } else {
                sender.seq + 1
            })
            &&& next.timestamp == (if sender.timestamp + 160 < 4294967296 {
                sender.timestamp + 160
            } else {
                sender.timestamp + 160 - 4294967296
            })
        }),
{
}

/// The payload of a packet is what follows its header: twelve bytes, and four for
/// each contributing source. Padding is not looked at.
pub proof fn law_payload_after_sources(
    header: Seq<u8>,
    sources: Seq<u8>,
    payload: Seq<u8>,
    padding: bool,
    count: int,
)
    requires
        header.len() == 12,
        0 <= count < 16,
        header[0] == 128 + (if padding {
            32int
        } else {
            0
        }) + count,
        sources.len() == 4 * count,
        payload.len() > 0,
    ensures
        payload_of(header + sources + payload) == Some(payload),
        payload_of(header + sources) is None,
{
    let data = header + sources + payload;
    assert(data[0] == header[0]);
    assert(data.skip(12 + 4 * count) =~= payload);
    assert((header + sources)[0] == header[0]);
}

/// A header extension is passed over: four bytes, the last two of which count the
/// words of four bytes that follow, the more significant first.
pub proof fn law_payload_after_extension(
    header: Seq<u8>,
    sources: Seq<u8>,
    extension: Seq<u8>,
    payload: Seq<u8>,
    padding: bool,
    count: int,
)
    requires
        header.len() == 12,
        0 <= count < 16,
        header[0] == 144 + (if padding {
            32int
        } else {
            0
        }) + count,
        sources.len() == 4 * count,
        extension.len() >= 4,
        extension.len() == 4 + 4 * (256 * extension[2] + extension[3]),
        payload.len() > 0,
    ensures
        payload_of(header + sources + extension + payload) == Some(payload),
        payload_of(header + sources + extension) is None,
{
    let n = 12 + 4 * count;
    let data = header + sources + extension + payload;
    assert(data[0] == header[0]);
    assert(data[n + 2] == extension[2] && data[n + 3] == extension[3]);
    assert(data.skip(n + extension.len()) =~= payload);
    let short = header + sources + extension;
    assert(short[0] == header[0]);
    assert(short[n + 2] == extension[2] && short[n + 3] == extension[3]);
}

/// Only packets of version 2 that hold more than a header are taken, and what is
/// taken is the end of the packet, after at least twelve bytes.
pub proof fn law_payload_is_end(data: Seq<u8>)
    ensures
        data.len() < 13 ==> payload_of(data) is None,
        data.len() > 0 && !(128 <= data[0] < 192) ==> payload_of(data) is None,
        payload_of(data) matches Some(payload) ==> {
            &&& 0 < payload.len() <= data.len() - 12
            &&& payload == data.skip(data.len() - payload.len())
        },
{
    if let Some(n) = header_len(data) {
        if n < data.len() {
            assert(data.skip(n) =~= data.skip(data.len() - data.skip(n).len()));
        }
    }
}

/// A packet is sent for anything from one byte of payload up to what fits into
/// 1500 bytes with the header.
pub proof fn law_sendable(len: int)
    ensures
        sendable(len) <==> 1 <= len && 12 + len <= 1500,
{
}

} // verus!
