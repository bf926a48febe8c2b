use slmodem_sip_bridge::codec::{decode_ulaw, encode_ulaw};
use slmodem_sip_bridge::relay::{Downlink, Throughput, Uplink, UplinkAction};
use slmodem_sip_bridge::rtp::{create_rtp_pair, parse_packet};

fn relay(reads: &[&[u8]]) -> (Vec<u8>, Uplink) {
    let mut uplink = Uplink::new(create_rtp_pair(7).0);
    let mut sent = Vec::new();
    for read in reads {
        if let UplinkAction::Send(packet) = uplink.on_read(read) {
            sent.extend_from_slice(parse_packet(&packet).unwrap());
        }
    }
    (sent, uplink)
}

#[test]
fn audio_does_not_depend_on_reads() {
    let stream: Vec<u8> = (0..101u8).collect();
    let expected = encode_ulaw(&stream[..100]);
    for cut in 1..stream.len() {
        let (sent, uplink) = relay(&[&stream[..cut], &stream[cut..]]);
        assert_eq!(sent, expected);
        assert_eq!(uplink.residual, Some(100));
        assert_eq!(uplink.total, 50);
    }
}

#[test]
fn reads_of_half_a_sample_wait() {
    let mut uplink = Uplink::new(create_rtp_pair(7).0);
    assert!(matches!(uplink.on_read(&[1]), UplinkAction::Wait));
    assert_eq!((uplink.total, uplink.sender.seq), (0, 0));
    assert!(matches!(uplink.on_read(&[2]), UplinkAction::Send(_)));
    assert_eq!((uplink.total, uplink.sender.seq), (1, 1));
    assert!(matches!(uplink.on_read(&[]), UplinkAction::Stop));
}

#[test]
fn a_full_read_fits_into_a_packet() {
    let (sent, uplink) = relay(&[&[0x11; 2048]]);
    assert_eq!(sent.len(), 1024);
    assert_eq!(uplink.frames, 1);
}

#[test]
fn uplink_reports() {
    let (_, mut uplink) = relay(&[&[0; 320], &[0; 320]]);
    assert_eq!(uplink.report(1999), None);
    assert_eq!(
        uplink.report(2000),
        Some(Throughput { interval_bytes: 320, frames: 2, total: 320 })
    );
    assert_eq!((uplink.interval_bytes, uplink.frames, uplink.total), (0, 0, 320));
}

#[test]
fn what_one_bridge_sends_another_hears() {
    let slin: Vec<u8> = vec![0xE8, 0x03, 0x18, 0xFC, 0xFF, 0x7F];
    let mut uplink = Uplink::new(create_rtp_pair(7).0);
    let (_, receiver) = create_rtp_pair(8);
    let mut downlink = Downlink::new();
    let packet = match uplink.on_read(&slin) {
        UplinkAction::Send(packet) => packet,
        _ => unreachable!(),
    };
    let heard = downlink.on_datagram(&receiver, &packet).unwrap();
    assert_eq!(heard, decode_ulaw(&encode_ulaw(&slin)));
    for (a, b) in heard.chunks(2).zip(slin.chunks(2)) {
        let a = i16::from_le_bytes([a[0], a[1]]) as i32;
        let b = i16::from_le_bytes([b[0], b[1]]) as i32;
        assert!((a - b).abs() < 700);
    }
}

#[test]
fn downlink_counts_packets() {
    let (mut sender, receiver) = create_rtp_pair(8);
    let mut downlink = Downlink::new();
    assert_eq!(downlink.on_datagram(&receiver, b"no packet"), None);
    assert_eq!((downlink.min_frame, downlink.max_frame), (usize::MAX, 0));
    for len in [160usize, 80, 240] {
        let packet = sender.build_packet(&vec![0xFF; len]);
        assert_eq!(downlink.on_datagram(&receiver, &packet), Some(vec![0; 2 * len]));
    }
    assert_eq!(downlink.report(0), None);
    let report = downlink.report(2500).unwrap();
    assert_eq!((report.min_frame, report.max_frame), (80, 240));
    assert_eq!(report.throughput, Throughput { interval_bytes: 480, frames: 3, total: 480 });
    assert_eq!((downlink.min_frame, downlink.max_frame, downlink.total), (usize::MAX, 0, 480));
}
