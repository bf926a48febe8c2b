use slmodem_sip_bridge::net::IpAddr;
use slmodem_sip_bridge::numeral::NumberFault;
use slmodem_sip_bridge::sdp::{build_offer, parse_answer, SdpError};

#[test]
fn offer_format_contains_required_lines() {
    let offer = build_offer(IpAddr::V4([10, 0, 0, 1]), 20000, 12345);

    assert!(offer.contains("v=0\r\n"), "must have SDP version");
    assert!(offer.contains("o=slmodem-sip-bridge 12345 12345 IN IP4 10.0.0.1\r\n"));
    assert!(offer.contains("c=IN IP4 10.0.0.1\r\n"));
    assert!(offer.contains("m=audio 20000 RTP/AVP 0\r\n"));
    assert!(offer.contains("a=rtpmap:0 PCMU/8000\r\n"));
    assert!(offer.contains("a=ptime:20\r\n"));
    assert!(offer.contains("a=sendrecv\r\n"));
}

#[test]
fn offer_uses_ip6_when_given_v6_addr() {
    let offer = build_offer(IpAddr::parse("::1").unwrap(), 30000, 1);
    assert!(offer.contains("IN IP6 ::1"));
}

#[test]
fn parse_answer_extracts_ip_and_port() {
    let sdp = "\
        v=0\r\n\
        o=telnyx 1 1 IN IP4 192.168.1.100\r\n\
        s=session\r\n\
        c=IN IP4 192.168.1.100\r\n\
        t=0 0\r\n\
        m=audio 30000 RTP/AVP 0\r\n\
        a=rtpmap:0 PCMU/8000\r\n";

    let answer = parse_answer(sdp).unwrap();
    assert_eq!(answer.addr, IpAddr::V4([192, 168, 1, 100]));
    assert_eq!(answer.port, 30000);
}

#[test]
fn parse_answer_rejects_no_ulaw() {
    let sdp = "\
        v=0\r\n\
        c=IN IP4 10.0.0.1\r\n\
        m=audio 20000 RTP/AVP 8\r\n"; // PT 8 = PCMA (alaw), no ulaw

    let err = parse_answer(sdp).expect_err("must reject non-ulaw answer");
    assert!(err.message().contains("PCMU"));
}

#[test]
fn parse_answer_accepts_multiple_codecs_including_ulaw() {
    let sdp = "\
        v=0\r\n\
        c=IN IP4 10.0.0.1\r\n\
        m=audio 20000 RTP/AVP 0 8 101\r\n";

    let answer = parse_answer(sdp).unwrap();
    assert_eq!(answer.port, 20000);
}

#[test]
fn parse_answer_rejects_missing_audio_line() {
    let sdp = "\
        v=0\r\n\
        c=IN IP4 10.0.0.1\r\n\
        t=0 0\r\n";

    let err = parse_answer(sdp).expect_err("must reject SDP without m=audio");
    assert!(err.message().contains("m=audio"));
}

#[test]
fn parse_answer_rejects_missing_connection_line() {
    let sdp = "\
        v=0\r\n\
        m=audio 20000 RTP/AVP 0\r\n";

    let err = parse_answer(sdp).expect_err("must reject SDP without c= line");
    assert!(err.message().contains("connection"));
}

#[test]
fn offer_is_exact() {
    assert_eq!(
        build_offer(IpAddr::V4([10, 0, 0, 1]), 20000, 12345),
        "v=0\r\n\
         o=slmodem-sip-bridge 12345 12345 IN IP4 10.0.0.1\r\n\
         s=slmodem-sip-bridge\r\n\
         c=IN IP4 10.0.0.1\r\n\
         t=0 0\r\n\
         m=audio 20000 RTP/AVP 0\r\n\
         a=rtpmap:0 PCMU/8000\r\n\
         a=ptime:20\r\n\
         a=sendrecv\r\n"
    );
}

#[test]
fn offers_are_read_back() {
    for text in ["10.1.2.3", "::1", "2001:db8::7", "::ffff:1.2.3.4", "0.0.0.0"] {
        let addr = IpAddr::parse(text).unwrap();
        for port in [1u16, 20000, 65535] {
            let answer = parse_answer(&build_offer(addr, port, u64::MAX)).unwrap();
            assert_eq!((answer.addr, answer.port), (addr, port));
        }
    }
}

#[test]
fn the_last_lines_count() {
    let sdp = "c=IN IP4 10.0.0.1\nc=IN IP4 bad\nm=audio 1 RTP/AVP 0\n\
               c=IN IP4 10.0.0.2\nm=audio 2 RTP/AVP 0\n";
    let answer = parse_answer(sdp).unwrap();
    assert_eq!(answer.addr, IpAddr::V4([10, 0, 0, 2]));
    assert_eq!(answer.port, 2);
}

#[test]
fn every_answer_error() {
    let connection = "c=IN IP4 10.0.0.1\r\n";
    let error = |media: &str| parse_answer(&format!("{connection}{media}\r\n")).unwrap_err();

    assert_eq!(error("m=audio x RTP/AVP 0"), SdpError::InvalidPort(NumberFault::InvalidDigit));
    assert_eq!(
        error("m=audio x RTP/AVP 0").message(),
        "invalid port in SDP m=audio line: invalid digit found in string"
    );
    assert_eq!(
        error("m=audio 65536 RTP/AVP 0").message(),
        "invalid port in SDP m=audio line: number too large to fit in target type"
    );
    assert_eq!(error("m=audio 5000 RTP/AVP"), SdpError::NoPayloadTypes);
    assert_eq!(
        error("m=audio 5000 RTP/AVP").message(),
        "SDP m=audio line has no payload types"
    );
    assert_eq!(
        error("m=audio 5000 RTP/AVP 8 101").message(),
        "SDP answer does not include PCMU (PT 0), offered: [\"8\", \"101\"]"
    );
    assert_eq!(error("a=sendrecv"), SdpError::NoAudioLine);
    assert_eq!(parse_answer("m=audio 5000 RTP/AVP 0").unwrap_err(), SdpError::NoConnection);
}
