use slmodem_sip_bridge::rtp::{
    create_rtp_pair, is_sendable, parse_packet, RtpReceiver, RtpSender, PT_PCMU, RTP_HEADER_SIZE,
};

fn make_sender() -> RtpSender {
    let (sender, _receiver) = create_rtp_pair(0xDEADBEEF);
    sender
}

fn make_receiver() -> RtpReceiver {
    create_rtp_pair(1).1
}

#[test]
fn build_packet_header_layout() {
    let mut sender = make_sender();
    let payload = [0xFF; 160]; // 160 bytes = 20ms of PCMU
    let packet = sender.build_packet(&payload);

    assert_eq!(packet.len(), RTP_HEADER_SIZE + 160);
    // V=2, P=0, X=0, CC=0
    assert_eq!(packet[0], 0x80);
    // M=0, PT=0
    assert_eq!(packet[1], PT_PCMU);
    // Seq = 0 (first packet)
    assert_eq!(&packet[2..4], &0u16.to_be_bytes());
    // Timestamp = 0 (first packet)
    assert_eq!(&packet[4..8], &0u32.to_be_bytes());
    // SSRC
    assert_eq!(&packet[8..12], &0xDEADBEEFu32.to_be_bytes());
    // Payload starts at offset 12
    assert_eq!(&packet[12..], &payload[..]);
}

#[test]
fn seq_wraps_at_u16_max() {
    let mut sender = make_sender();
    sender.seq = u16::MAX;

    let packet = sender.build_packet(&[0xFF]);
    let seq_in_packet = u16::from_be_bytes([packet[2], packet[3]]);
    assert_eq!(seq_in_packet, u16::MAX);
    assert_eq!(sender.seq, 0);
}

#[test]
fn timestamp_increments_by_160() {
    let mut sender = make_sender();

    let p1 = sender.build_packet(&[0xFF]);
    let ts1 = u32::from_be_bytes([p1[4], p1[5], p1[6], p1[7]]);
    assert_eq!(ts1, 0);

    let p2 = sender.build_packet(&[0xFF]);
    let ts2 = u32::from_be_bytes([p2[4], p2[5], p2[6], p2[7]]);
    assert_eq!(ts2, 160);

    let p3 = sender.build_packet(&[0xFF]);
    let ts3 = u32::from_be_bytes([p3[4], p3[5], p3[6], p3[7]]);
    assert_eq!(ts3, 320);
}

#[test]
fn timestamp_wraps_at_u32_max() {
    let mut sender = make_sender();
    sender.timestamp = u32::MAX - 100;

    let _ = sender.build_packet(&[0xFF]);
    // Should wrap: (u32::MAX - 100) + 160 = 59
    assert_eq!(sender.timestamp, 59);
}

#[test]
fn parse_valid_packet() {
    let mut packet = vec![0x80, PT_PCMU, 0x00, 0x01]; // V=2, seq=1
    packet.extend_from_slice(&100u32.to_be_bytes()); // timestamp
    packet.extend_from_slice(&42u32.to_be_bytes()); // SSRC
    packet.extend_from_slice(&[0xAA, 0xBB, 0xCC]); // payload

    let payload = parse_packet(&packet).expect("valid packet should parse");
    assert_eq!(payload, &[0xAA, 0xBB, 0xCC]);
}

#[test]
fn parse_rejects_too_short() {
    // 12-byte header with no payload
    let packet = vec![0x80, 0x00, 0x00, 0x00, 0x00, 0x00, 0x00, 0x00, 0x00, 0x00, 0x00, 0x00];
    assert!(parse_packet(&packet).is_none());
}

#[test]
fn parse_rejects_wrong_version() {
    // Version 1 instead of 2
    let mut packet = vec![0x40, PT_PCMU, 0x00, 0x01];
    packet.extend_from_slice(&0u32.to_be_bytes());
    packet.extend_from_slice(&0u32.to_be_bytes());
    packet.push(0xFF);

    assert!(parse_packet(&packet).is_none());
}

#[test]
fn parse_handles_csrc() {
    // CC=1 (one CSRC entry = 4 extra bytes in header)
    let mut packet = vec![0x81, PT_PCMU, 0x00, 0x01];
    packet.extend_from_slice(&0u32.to_be_bytes()); // timestamp
    packet.extend_from_slice(&0u32.to_be_bytes()); // SSRC
    packet.extend_from_slice(&0u32.to_be_bytes()); // CSRC[0]
    packet.extend_from_slice(&[0xDD, 0xEE]); // payload

    let payload = parse_packet(&packet).expect("packet with CSRC should parse");
    assert_eq!(payload, &[0xDD, 0xEE]);
}

#[test]
fn parse_handles_extension() {
    // X=1: four bytes of extension header, then one word
    let mut packet = vec![0x90, PT_PCMU, 0x00, 0x01];
    packet.extend_from_slice(&[0; 8]);
    packet.extend_from_slice(&[0xBE, 0xDE, 0x00, 0x01]);
    packet.extend_from_slice(&[1, 2, 3, 4]);
    assert!(parse_packet(&packet).is_none(), "nothing is left for a payload");
    packet.push(0x77);
    assert_eq!(parse_packet(&packet), Some(&[0x77][..]));
    packet[15] = 0xFF;
    assert!(parse_packet(&packet).is_none(), "the extension runs past the end");
    assert!(parse_packet(&packet[..14]).is_none(), "the extension header is cut off");
}

#[test]
fn parse_rejects_missing_csrc() {
    let mut packet = vec![0x8F, PT_PCMU, 0x00, 0x01];
    packet.extend_from_slice(&[0; 30]);
    assert!(parse_packet(&packet).is_none());
}

#[test]
fn sent_packets_are_received() {
    let mut sender = make_sender();
    let receiver = make_receiver();
    for len in [1usize, 160, 1488] {
        assert!(is_sendable(len));
        let payload = vec![0x5A; len];
        let packet = sender.send_packet(&payload);
        assert_eq!(receiver.recv_packet(&packet), Some(payload));
    }
    assert_eq!((sender.seq, sender.timestamp), (3, 480));
    assert!(!is_sendable(0));
    assert!(!is_sendable(1489));
    assert_eq!(receiver.recv_packet(&[0x80; 12]), None);
}

#[test]
fn numbering_comes_round() {
    let mut sender = make_sender();
    for _ in 0..65536u32 {
        sender.build_packet(&[1]);
    }
    assert_eq!(sender.seq, 0);
    assert_eq!(sender.timestamp, 65536 * 160);
}
