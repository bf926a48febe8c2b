//! The media relay between the modem and the remote RTP endpoint.
//!
//! The modem speaks 16-bit linear samples, the remote endpoint mu-law over RTP.
//! Each direction is an object that is handed what was read and says what to
//! write.

use crate::codec::{
    align_slin_buffer, decode_ulaw, encode_ulaw, le_sample, left_over, pending, slin_bytes, slin_of,
    ulaw_bytes, ulaw_of, whole_samples,
};
use crate::rtp::{packet_bytes, payload_of, RtpReceiver, RtpSender};
use vstd::prelude::*;

verus! {

/// How many bytes are read from the modem at once.
pub const READ_SIZE: usize = 2048;

/// How often throughput is reported, in milliseconds.
pub const RELAY_STATS_INTERVAL_MS: u64 = 2000;

// --- From the modem to the remote endpoint ---

/// The direction from the modem to the remote endpoint.
pub struct Uplink {
    pub sender: RtpSender,
    /// The first byte of a sample whose second byte has not been read yet.
    pub residual: Option<u8>,
    /// Payload bytes sent so far.
    pub total: u64,
    /// Payload bytes sent since the last report.
    pub interval_bytes: u64,
    /// Packets sent since the last report.
    pub frames: u64,
}

/// What to do after a read from the modem.
pub enum UplinkAction {
    /// The modem has closed the stream.
    Stop,
    /// Read on.
    Wait,
    /// Send this packet, and read on.
    Send(Vec<u8>),
}

/// What passed in one direction since the last report.
#[derive(Debug, Clone, Copy, PartialEq, Eq)]
pub struct Throughput {
    pub interval_bytes: u64,
    pub frames: u64,
    pub total: u64,
}

/// The payload that goes out after a read.
pub open spec fn uplink_payload(residual: Option<u8>, data: Seq<u8>) -> Seq<u8> {
    ulaw_bytes(whole_samples(pending(residual, data)))
}

/// What to do after a read from the modem, with packets as sequences.
pub enum UplinkMove {
    Stop,
    Wait,
    Send(Seq<u8>),
}

impl View for UplinkAction {
    type V = UplinkMove;

    open spec fn view(&self) -> UplinkMove {
        match self {
            UplinkAction::Stop => UplinkMove::Stop,
            UplinkAction::Wait => UplinkMove::Wait,
            UplinkAction::Send(packet) => UplinkMove::Send(packet@),
        }
    }
}

/// What a read from the modem makes of the direction, and what to do then.
pub open spec fn uplink_step(link: Uplink, data: Seq<u8>) -> (Uplink, UplinkMove) {
    let payload = uplink_payload(link.residual, data);
    if data.len() == 0 {
        (link, UplinkMove::Stop)
    } else if payload.len() == 0 {
        (
            Uplink { residual: left_over(pending(link.residual, data)), ..link },
            UplinkMove::Wait,
        )
    } else {
        (
            link.sent(data),
            UplinkMove::Send(
                packet_bytes(link.sender.seq, link.sender.timestamp, link.sender.ssrc, payload),
            ),
        )
    }
}

impl Uplink {
    /// Whether the counters agree.
    pub open spec fn well_formed(self) -> bool {
        self.interval_bytes <= self.total && self.frames <= self.total
    }

    /// The state after a read that completes at least one sample.
    pub open spec fn sent(self, data: Seq<u8>) -> Uplink {
        let len = uplink_payload(self.residual, data).len();
        Uplink {
            sender: self.sender.after(1),
            residual: left_over(pending(self.residual, data)),
            total: (self.total + len) as u64,
            interval_bytes: (self.interval_bytes + len) as u64,
            frames: (self.frames + 1) as u64,
        }
    }

    /// The direction at the beginning of a relay.
    pub fn new(sender: RtpSender) -> (r: Uplink)
        ensures
            r == (Uplink { sender, residual: None, total: 0, interval_bytes: 0, frames: 0 }),
            r.well_formed(),
    {
        Uplink { sender, residual: None, total: 0, interval_bytes: 0, frames: 0 }
    }

    /// Handles a read from the modem. An empty read is the end of the stream.
    pub fn on_read(&mut self, data: &[u8]) -> (action: UplinkAction)
        requires
            old(self).well_formed(),
            data@.len() <= READ_SIZE,
            old(self).total + READ_SIZE <= u64::MAX,
        ensures
            final(self).well_formed(),
            ({
                let payload = uplink_payload(old(self).residual, data@);
                if data@.len() == 0 {
                    action is Stop && *final(self) == *old(self)
                } else if payload.len() == 0 {
                    &&& action is Wait
                    &&& *final(self) == (Uplink {
                        residual: left_over(pending(old(self).residual, data@)),
                        ..*old(self)
                    })
                } else {
                    &&& action is Send
                    &&& action->Send_0@ == packet_bytes(
                        old(self).sender.seq,
                        old(self).sender.timestamp,
                        old(self).sender.ssrc,
                        payload,
                    )
                    &&& *final(self) == old(self).sent(data@)
                }
            }),
            (*final(self), action@) == uplink_step(*old(self), data@),
    {
        if data.len() == 0 {
            return UplinkAction::Stop;
        }
        let slin = align_slin_buffer(&mut self.residual, data);
        if slin.len() == 0 {
            return UplinkAction::Wait;
        }
        let ulaw = encode_ulaw(slin.as_slice());
        let packet = self.sender.send_packet(ulaw.as_slice());
        self.total = self.total + ulaw.len() as u64;
        self.interval_bytes = self.interval_bytes + ulaw.len() as u64;
        self.frames = self.frames + 1;
        UplinkAction::Send(packet)
    }

    /// The report that is due `elapsed_ms` after the last one, if one is.
    pub fn report(&mut self, elapsed_ms: u64) -> (r: Option<Throughput>)
        requires
            old(self).well_formed(),
        ensures
            final(self).well_formed(),
            if elapsed_ms >= RELAY_STATS_INTERVAL_MS {
                &&& r == Some(
                    Throughput {
                        interval_bytes: old(self).interval_bytes,
                        frames: old(self).frames,
                        total: old(self).total,
                    },
                )
                &&& *final(self) == (Uplink { interval_bytes: 0, frames: 0, ..*old(self) })
            } else {
                r is None && *final(self) == *old(self)
            },
            (*final(self), r) == uplink_report(*old(self), elapsed_ms as nat),
    {
        if elapsed_ms < RELAY_STATS_INTERVAL_MS {
            return None;
        }
        let r = Throughput {
            interval_bytes: self.interval_bytes,
            frames: self.frames,
            total: self.total,
        };
        self.interval_bytes = 0;
        self.frames = 0;
        Some(r)
    }
}

// --- From the remote endpoint to the modem ---

/// The direction from the remote endpoint to the modem.
pub struct Downlink {
    /// Payload bytes received so far.
    pub total: u64,
    /// Payload bytes received since the last report.
    pub interval_bytes: u64,
    /// Packets received since the last report.
    pub frames: u64,
    /// The smallest payload since the last report, or the largest number.
    pub min_frame: usize,
    /// The largest payload since the last report, or zero.
    pub max_frame: usize,
}

/// What came from the remote endpoint since the last report.
#[derive(Debug, Clone, Copy, PartialEq, Eq)]
pub struct FrameReport {
    pub throughput: Throughput,
    pub min_frame: usize,
    pub max_frame: usize,
}

/// The report of the one direction that is due after some time, if one is, and
/// what is left of the counters.
pub open spec fn uplink_report(link: Uplink, elapsed_ms: nat) -> (Uplink, Option<Throughput>) {
    if elapsed_ms >= RELAY_STATS_INTERVAL_MS {
        (
            Uplink { interval_bytes: 0, frames: 0, ..link },
            Some(
                Throughput {
                    interval_bytes: link.interval_bytes,
                    frames: link.frames,
                    total: link.total,
                },
            ),
        )
    } else {
        (link, None)
    }
}

/// The report of the other direction that is due after some time, if one is, and
/// what is left of the counters.
pub open spec fn downlink_report(link: Downlink, elapsed_ms: nat) -> (
    Downlink,
    Option<FrameReport>,
) {
    if elapsed_ms >= RELAY_STATS_INTERVAL_MS {
        (
            Downlink {
                interval_bytes: 0,
                frames: 0,
                min_frame: usize::MAX,
                max_frame: 0,
                ..link
            },
            Some(
                FrameReport {
                    throughput: Throughput {
                        interval_bytes: link.interval_bytes,
                        frames: link.frames,
                        total: link.total,
                    },
                    min_frame: link.min_frame,
                    max_frame: link.max_frame,
                },
            ),
        )
    } else {
        (link, None)
    }
}

/// What a datagram makes of the other direction, and the samples to write to the
/// modem.
pub open spec fn downlink_step(link: Downlink, datagram: Seq<u8>) -> (Downlink, Option<Seq<u8>>) {
    match payload_of(datagram) {
        Some(payload) => (link.received(payload.len()), Some(slin_bytes(payload))),
        None => (link, None),
    }
}

impl Downlink {
    /// Whether the counters agree.
    pub open spec fn well_formed(self) -> bool {
        self.interval_bytes <= self.total && self.frames <= self.total
    }

    /// The state after a payload of `len` bytes.
    pub open spec fn received(self, len: nat) -> Downlink {
        Downlink {
            total: (self.total + len) as u64,
            interval_bytes: (self.interval_bytes + len) as u64,
            frames: (self.frames + 1) as u64,
            min_frame: if len < self.min_frame {
                len as usize
            } else {
                self.min_frame
            },
            max_frame: if len > self.max_frame {
                len as usize
            } else {
                self.max_frame
            },
        }
    }

    /// The direction at the beginning of a relay.
    pub fn new() -> (r: Downlink)
        ensures
            r == (Downlink {
                total: 0,
                interval_bytes: 0,
                frames: 0,
                min_frame: usize::MAX,
                max_frame: 0,
            }),
            r.well_formed(),
    {
        Downlink { total: 0, interval_bytes: 0, frames: 0, min_frame: usize::MAX, max_frame: 0 }
    }

    /// Handles a datagram from the remote endpoint: the samples to write to the
    /// modem, or nothing where the datagram is no RTP packet.
    pub fn on_datagram(&mut self, receiver: &RtpReceiver, datagram: &[u8]) -> (r: Option<Vec<u8>>)
        requires
            old(self).well_formed(),
            old(self).total + datagram@.len() <= u64::MAX,
        ensures
            final(self).well_formed(),
            match payload_of(datagram@) {
                Some(payload) => {
                    &&& r is Some
                    &&& r->0@ == slin_bytes(payload)
                    &&& *final(self) == old(self).received(payload.len())
                },
                None => r is None && *final(self) == *old(self),
            },
            *final(self) == downlink_step(*old(self), datagram@).0,
            downlink_step(*old(self), datagram@).1 == (match r {
                Some(slin) => Some(slin@),
                None => None,
            }),
    {
        let payload = match receiver.recv_packet(datagram) {
            Some(payload) => payload,
            None => {
                return None;
            },
        };
        let len: usize = payload.len();
        self.total = self.total + len as u64;
        self.interval_bytes = self.interval_bytes + len as u64;
        self.frames = self.frames + 1;
        if len < self.min_frame {
            self.min_frame = len;
        }
        if len > self.max_frame {
            self.max_frame = len;
        }
        Some(decode_ulaw(payload.as_slice()))
    }

    /// The report that is due `elapsed_ms` after the last one, if one is.
    pub fn report(&mut self, elapsed_ms: u64) -> (r: Option<FrameReport>)
        requires
            old(self).well_formed(),
        ensures
            final(self).well_formed(),
            if elapsed_ms >= RELAY_STATS_INTERVAL_MS {
                &&& r == Some(
                    FrameReport {
                        throughput: Throughput {
                            interval_bytes: old(self).interval_bytes,
                            frames: old(self).frames,
                            total: old(self).total,
                        },
                        min_frame: old(self).min_frame,
                        max_frame: old(self).max_frame,
                    },
                )
                &&& *final(self) == (Downlink {
                    interval_bytes: 0,
                    frames: 0,
                    min_frame: usize::MAX,
                    max_frame: 0,
                    ..*old(self)
                })
            } else {
                r is None && *final(self) == *old(self)
            },
            (*final(self), r) == downlink_report(*old(self), elapsed_ms as nat),
    {
        if elapsed_ms < RELAY_STATS_INTERVAL_MS {
            return None;
        }
        let r = FrameReport {
            throughput: Throughput {
                interval_bytes: self.interval_bytes,
                frames: self.frames,
                total: self.total,
            },
            min_frame: self.min_frame,
            max_frame: self.max_frame,
        };
        self.interval_bytes = 0;
        self.frames = 0;
        self.min_frame = usize::MAX;
        self.max_frame = 0;
        Some(r)
    }
}

// --- Laws ---

/// The sample at index `i` of a buffer of samples.
pub open spec fn sample_at(slin: Seq<u8>, i: int) -> int {
    le_sample(slin[2 * i], slin[2 * i + 1])
}

/// The payloads that go out for a series of reads, one after another.
pub open spec fn uplink_stream(residual: Option<u8>, reads: Seq<Seq<u8>>) -> Seq<u8>
    decreases reads.len(),
{
    if reads.len() == 0 {
        Seq::empty()
    } else {
        uplink_payload(residual, reads[0]) + uplink_stream(
            left_over(pending(residual, reads[0])),
            reads.skip(1),
        )
    }
}

/// Encoding whole samples is additive.
proof fn lemma_encode_parts(a: Seq<u8>, b: Seq<u8>)
    requires
        a.len() % 2 == 0,
    ensures
        ulaw_bytes(a + b) == ulaw_bytes(a) + ulaw_bytes(b),
{
    assert(ulaw_bytes(a + b) =~= ulaw_bytes(a) + ulaw_bytes(b));
}

/// The audio that is sent does not depend on how the modem's stream is split
/// into reads: it is the encoding of all whole samples of the stream.
pub proof fn law_stream_independent_of_reads(residual: Option<u8>, reads: Seq<Seq<u8>>)
    ensures
        uplink_stream(residual, reads) == uplink_payload(residual, reads.flatten()),
    decreases reads.len(),
{
    reveal_with_fuel(Seq::flatten, 2);
    let all = reads.flatten();
    if reads.len() == 0 {
        let bytes = pending(residual, all);
        assert(whole_samples(bytes) =~= Seq::empty());
        assert(uplink_payload(residual, all) =~= Seq::empty());
    } else {
        let rest = reads.skip(1);
        assert(reads.drop_first() =~= rest);
        assert(all =~= reads[0] + rest.flatten());
        let after = left_over(pending(residual, reads[0]));
        law_stream_independent_of_reads(after, rest);
        crate::codec::law_align_across_reads(residual, reads[0], rest.flatten());
        lemma_encode_parts(
            whole_samples(pending(residual, reads[0])),
            whole_samples(pending(after, rest.flatten())),
        );
    }
}

/// What one bridge sends, another hears: the packet for a read is decoded to as
/// many samples as the read completed, each off by less than 700.
pub proof fn law_relayed_audio(sender: RtpSender, residual: Option<u8>, data: Seq<u8>)
    requires
        uplink_payload(residual, data).len() > 0,
    ensures
        ({
            let slin = whole_samples(pending(residual, data));
            let payload = uplink_payload(residual, data);
            let packet = packet_bytes(sender.seq, sender.timestamp, sender.ssrc, payload);
            let heard = slin_bytes(payload);
            &&& payload_of(packet) == Some(payload)
            &&& heard.len() == slin.len()
            &&& forall|i: int|
                0 <= i < payload.len() ==> -700 < #[trigger] sample_at(heard, i) - sample_at(
                    slin,
                    i,
                ) < 700
        }),
{
    let slin = whole_samples(pending(residual, data));
    let payload = uplink_payload(residual, data);
    let heard = slin_bytes(payload);
    crate::rtp::law_packet_round_trip(sender.seq, sender.timestamp, sender.ssrc, payload);
    assert forall|i: int| 0 <= i < payload.len() implies -700 < #[trigger] sample_at(heard, i)
        - sample_at(slin, i) < 700 by {
        let v = slin_of(payload[i] as int);
        assert((2 * i) % 2 == 0 && (2 * i) / 2 == i && (2 * i + 1) % 2 == 1 && (2 * i + 1) / 2
            == i);
        assert(-32768 <= v <= 32767);
        crate::codec::law_decoded_bytes(payload, i);
        assert(sample_at(heard, i) == v);
        let sample = sample_at(slin, i);
        assert(-32768 <= sample <= 32767);
        assert(0 <= ulaw_of(sample) <= 255);
        assert(payload[i] == ulaw_of(sample) as u8);
        crate::codec::law_round_trip_tolerance(sample);
    }
}

/// All that the modem sends goes out: a read sends one packet with one mu-law byte
/// for each sample that it completes, in order, numbered by the stream. A byte
/// that completes none is kept for the next read. Only an empty read ends the
/// direction.
pub proof fn law_uplink(link: Uplink, left: Seq<u8>, data: Seq<u8>)
    requires
        left.len() <= 1,
        link.residual == (if left.len() == 1 {
            Some(left[0])
        } else {
            None
        }),
        link.total + data.len() <= u64::MAX,
        link.well_formed(),
    ensures
        ({
            let bytes = left + data;
            let n = bytes.len() / 2;
            let (after, action) = uplink_step(link, data);
            &&& action is Stop <==> data.len() == 0
            &&& data.len() == 0 ==> after == link
            &&& data.len() > 0 && n == 0 ==> action is Wait && after == (Uplink {
                residual: Some(bytes[0]),
                ..link
            })
            &&& data.len() > 0 && n > 0 ==> {
                let packet = action->Send_0;
                &&& action is Send
                &&& packet.len() == 12 + n
                &&& 256 * packet[2] + packet[3] == link.sender.seq
                &&& 16777216 * packet[4] + 65536 * packet[5] + 256 * packet[6] + packet[7]
                    == link.sender.timestamp
                &&& forall|i: int|
                    0 <= i < n ==> #[trigger] packet.skip(12)[i] == ulaw_of(
                        if bytes[2 * i + 1] < 128 {
                            bytes[2 * i] + 256 * bytes[2 * i + 1]
                        } else {
                            bytes[2 * i] + 256 * bytes[2 * i + 1] - 65536
                        },
                    )
                &&& after.sender == link.sender.after(1)
                &&& after.residual == (if bytes.len() % 2 == 1 {
                    Some(bytes.last())
                } else {
                    None
                })
                &&& after.total == link.total + n
                &&& after.interval_bytes == link.interval_bytes + n
                &&& after.frames == link.frames + 1
            }
        }),
{
    let bytes = left + data;
    let n = bytes.len() / 2;
    crate::codec::law_align_order(left, data);
    let slin = whole_samples(pending(link.residual, data));
    let payload = uplink_payload(link.residual, data);
    assert(payload.len() == n);
    if data.len() > 0 && n > 0 {
        crate::rtp::law_packet_layout(
            link.sender.seq,
            link.sender.timestamp,
            link.sender.ssrc,
            payload,
        );
        let packet = packet_bytes(
            link.sender.seq,
            link.sender.timestamp,
            link.sender.ssrc,
            payload,
        );
        assert forall|i: int| 0 <= i < n implies #[trigger] packet.skip(12)[i] == ulaw_of(
            if bytes[2 * i + 1] < 128 {
                bytes[2 * i] + 256 * bytes[2 * i + 1]
            } else {
                bytes[2 * i] + 256 * bytes[2 * i + 1] - 65536
            },
        ) by {
            let v = if bytes[2 * i + 1] < 128 {
                bytes[2 * i] + 256 * bytes[2 * i + 1]
            } else {
                bytes[2 * i] + 256 * bytes[2 * i + 1] - 65536
            };
            assert(slin[2 * i] == bytes[2 * i] && slin[2 * i + 1] == bytes[2 * i + 1]);
            crate::codec::law_encoded_bytes(slin, i, v);
        }
    }
}

/// All that comes goes to the modem: each byte of a packet's payload becomes one
/// sample, in order. What is no packet is dropped, and changes nothing.
pub proof fn law_downlink(link: Downlink, datagram: Seq<u8>)
    requires
        link.total + datagram.len() <= u64::MAX,
        datagram.len() <= usize::MAX,
        link.well_formed(),
    ensures
        payload_of(datagram) is None ==> downlink_step(link, datagram) == (link, None::<Seq<u8>>),
        payload_of(datagram) matches Some(payload) ==> {
            let (after, slin) = downlink_step(link, datagram);
            &&& slin is Some
            &&& slin->0.len() == 2 * payload.len()
            &&& forall|i: int|
                0 <= i < payload.len() ==> slin_of(#[trigger] payload[i] as int) == slin->0[2 * i]
                    + 256 * slin->0[2 * i + 1] - (if slin->0[2 * i + 1] < 128 {
                    0int
                } else {
                    65536
                })
            &&& after.total == link.total + payload.len()
            &&& after.interval_bytes == link.interval_bytes + payload.len()
            &&& after.frames == link.frames + 1
            &&& after.min_frame <= link.min_frame && after.min_frame <= payload.len()
            &&& after.min_frame == link.min_frame || after.min_frame == payload.len()
            &&& after.max_frame >= link.max_frame && after.max_frame >= payload.len()
            &&& after.max_frame == link.max_frame || after.max_frame == payload.len()
        },
{
    crate::rtp::law_payload_is_end(datagram);
    if let Some(payload) = payload_of(datagram) {
        let slin = slin_bytes(payload);
        assert forall|i: int| 0 <= i < payload.len() implies slin_of(
            #[trigger] payload[i] as int,
        ) == slin[2 * i] + 256 * slin[2 * i + 1] - (if slin[2 * i + 1] < 128 {
            0int
        } else {
            65536
        }) by {
            let v = slin_of(payload[i] as int);
            crate::codec::law_decoded_bytes(payload, i);
            assert(-32768 <= v <= 32767);
        }
    }
}

/// A report comes every two seconds, tells what was counted since the last, and
/// begins the count again.
pub proof fn law_uplink_report(link: Uplink, elapsed_ms: nat)
    ensures
        ({
            let (after, report) = uplink_report(link, elapsed_ms);
            &&& report is Some <==> elapsed_ms >= 2000
            &&& report is None ==> after == link
            &&& report matches Some(r) ==> {
                &&& r.interval_bytes == link.interval_bytes
                &&& r.frames == link.frames
                &&& r.total == link.total
                &&& after == (Uplink { interval_bytes: 0, frames: 0, ..link })
            }
        }),
{
}

/// The report of the other direction also tells the smallest and the largest
/// payload since the last.
pub proof fn law_downlink_report(link: Downlink, elapsed_ms: nat)
    ensures
        ({
            let (after, report) = downlink_report(link, elapsed_ms);
            &&& report is Some <==> elapsed_ms >= 2000
            &&& report is None ==> after == link
            &&& report matches Some(r) ==> {
                &&& r.throughput.interval_bytes == link.interval_bytes
                &&& r.throughput.frames == link.frames
                &&& r.throughput.total == link.total
                &&& r.min_frame == link.min_frame
                &&& r.max_frame == link.max_frame
                &&& after == (Downlink {
                    interval_bytes: 0,
                    frames: 0,
                    min_frame: usize::MAX,
                    max_frame: 0,
                    ..link
                })
            }
        }),
{
}

} // verus!
