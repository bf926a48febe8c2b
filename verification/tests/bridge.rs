use slmodem_sip_bridge::bridge::{
    bind_address, read_dial_request, server_address, Bridge, BridgeAction, BridgeEvent, DialAction,
    DialEvent, DialWait, Drain, DrainAction, DrainError, DrainEvent, Stage, CALLS_LIMIT,
    DRAIN_ITERATIONS_LIMIT, LINE_BUF_LIMIT, READY_BYTE, SILENCE_FRAME_BYTES,
    SILENCE_INTERVAL_MS,
};
use slmodem_sip_bridge::dial_string::DialError;
use slmodem_sip_bridge::net::{IpAddr, SocketAddr};
use slmodem_sip_bridge::sip::{Call, CallState};

#[test]
fn silence_frame_size_matches_codec_frame() {
    // 160 samples * 2 bytes/sample (S16_LE) = 320 bytes per 20ms frame at 8000 Hz.
    assert_eq!(SILENCE_FRAME_BYTES, 320);
}

#[test]
fn calls_limit_is_reasonable() {
    assert!(CALLS_LIMIT >= 100, "calls limit too low for realistic use");
    assert!(CALLS_LIMIT <= 10_000, "calls limit unreasonably high");
}

#[test]
fn drain_iterations_limit_covers_setup_window() {
    // At 20ms per iteration, the limit should cover at least 5 seconds
    // of SIP setup time.
    let coverage_ms = DRAIN_ITERATIONS_LIMIT as u64 * SILENCE_INTERVAL_MS;
    assert!(
        coverage_ms >= 5000,
        "drain limit only covers {coverage_ms}ms, need at least 5000ms"
    );
}

#[test]
fn dial_requests() {
    assert_eq!(read_dial_request("DIAL: T123 \r"), Some("T123".to_string()));
    assert_eq!(read_dial_request("DIAL:   "), None);
    assert_eq!(read_dial_request("dial:123"), None);
    assert_eq!(read_dial_request("DIAL"), None);
}

#[test]
fn dial_line_is_recognized_however_it_is_read() {
    let bytes = b"hello\nDIAL:\nDIAL:T5551212\nDIAL:9\n";
    for cut in 0..bytes.len() {
        let mut wait = DialWait::new();
        let first = wait.scan(&bytes[..cut]);
        let number = first.or_else(|| wait.scan(&bytes[cut..]));
        assert_eq!(number, Some("T5551212".to_string()));
    }
}

#[test]
fn long_lines_are_discarded() {
    let mut wait = DialWait::new();
    let mut stream = vec![b'x'; LINE_BUF_LIMIT + 1];
    stream.extend_from_slice(b"DIAL:5551212\n");
    assert_eq!(wait.scan(&stream), None, "the rest of a long line is no line");
    assert!(wait.line_buf.is_empty() && !wait.garbled);
    assert_eq!(wait.scan(b"DIAL:7\n"), Some("7".to_string()));
    for cut in 0..stream.len() {
        let mut wait = DialWait::new();
        assert_eq!(wait.scan(&stream[..cut]), None);
        assert_eq!(wait.scan(&stream[cut..]), None);
    }
    let mut wait = DialWait::new();
    for _ in 0..10_000 {
        assert_eq!(wait.scan(b"garbled DIAL:1 "), None);
        assert!(wait.line_buf.len() <= LINE_BUF_LIMIT);
    }
    assert!(wait.garbled);
}

#[test]
fn lines_up_to_the_limit_are_kept() {
    let number = "1".repeat(LINE_BUF_LIMIT - 5);
    let mut wait = DialWait::new();
    assert_eq!(wait.scan(format!("DIAL:{number}").as_bytes()), None);
    assert_eq!((wait.line_buf.len(), wait.garbled), (LINE_BUF_LIMIT, false));
    assert_eq!(wait.scan(b"\n"), Some(number.clone()));
    let mut wait = DialWait::new();
    assert_eq!(wait.scan(format!("DIAL:{number}1\n").as_bytes()), None);
}

#[test]
fn invalid_utf8_is_mended() {
    let mut wait = DialWait::new();
    assert_eq!(wait.scan(b"DIAL:12\xFF\n"), Some("12\u{FFFD}".to_string()));
}

#[test]
fn waiting_for_a_number() {
    let mut wait = DialWait::new();
    assert!(matches!(wait.on_event(DialEvent::SilenceDue), DialAction::WriteSilence));
    assert!(matches!(wait.on_event(DialEvent::HeartbeatDue), DialAction::Heartbeat));
    assert!(matches!(wait.on_event(DialEvent::Read(b"DIAL:")), DialAction::Wait));
    match wait.on_event(DialEvent::Read(b"42\n")) {
        DialAction::Dial(number) => assert_eq!(number, "42"),
        other => panic!("{other:?}"),
    }
    assert!(matches!(wait.on_event(DialEvent::Read(b"")), DialAction::Closed));
    assert!(matches!(wait.on_event(DialEvent::ReadFailed), DialAction::Closed));
    assert!(matches!(wait.on_event(DialEvent::SilenceFailed), DialAction::Closed));
}

#[test]
fn draining() {
    let mut drain = Drain::new();
    assert_eq!(drain.on_event(DrainEvent::Read(2048)), DrainAction::Wait);
    assert_eq!(drain.on_event(DrainEvent::SilenceDue), DrainAction::WriteSilence);
    assert_eq!(drain.on_event(DrainEvent::Read(2)), DrainAction::Wait);
    assert_eq!(drain.on_event(DrainEvent::SetupDone), DrainAction::Finish);
    assert_eq!((drain.drained_bytes, drain.iterations), (2050, 4));
    assert_eq!(drain.on_event(DrainEvent::Read(0)), DrainAction::Fail(DrainError::Closed));
    assert_eq!(drain.on_event(DrainEvent::ReadFailed), DrainAction::Fail(DrainError::ReadFailed));
    assert_eq!(drain.on_event(DrainEvent::SilenceDue), DrainAction::WriteSilence);
    assert_eq!(drain.iterations, 7);
    assert_eq!(
        drain.on_event(DrainEvent::SilenceFailed),
        DrainAction::Fail(DrainError::SilenceFailed)
    );
    assert_eq!((drain.drained_bytes, drain.iterations), (2050, 7));
    assert_eq!(
        DrainError::Closed.message("x"),
        "slmodemd closed socket during SIP setup"
    );
    assert_eq!(
        DrainError::ReadFailed.message("x"),
        "slmodemd read error during SIP setup: x"
    );
    assert_eq!(
        DrainError::SilenceFailed.message("x"),
        "failed to write silence during SIP setup: x"
    );
}

fn call(state: CallState, remote_rtp: Option<SocketAddr>) -> Call {
    Call {
        call_id: "1-2".to_string(),
        cseq: 1,
        local_tag: "a".to_string(),
        remote_tag: None,
        remote_rtp,
        state,
        invite_uri: "sip:1@x".to_string(),
        via_branch: "z9hG4bK1".to_string(),
    }
}

#[test]
fn a_session() {
    let addr = SocketAddr { ip: IpAddr::V4([10, 0, 0, 9]), port: 4000 };
    let mut bridge = Bridge::new();
    assert_eq!(bridge.stage, Stage::Registering);
    assert!(matches!(bridge.on_event(BridgeEvent::Registered), BridgeAction::SignalReady));
    assert!(matches!(
        bridge.on_event(BridgeEvent::Dialed("Tp")),
        BridgeAction::Refuse(DialError::Empty)
    ));
    assert_eq!(bridge.stage, Stage::Waiting);
    match bridge.on_event(BridgeEvent::Dialed("T18005551212")) {
        BridgeAction::Originate(dial) => assert_eq!(dial.as_str(), "18005551212"),
        other => panic!("{other:?}"),
    }
    assert!(matches!(bridge.on_event(BridgeEvent::SetupFailed), BridgeAction::Wait));
    bridge.on_event(BridgeEvent::Dialed("1"));
    let silent = call(CallState::Answered, None);
    assert!(matches!(bridge.on_event(BridgeEvent::CallReady(&silent)), BridgeAction::HangUp));
    assert_eq!(bridge.stage, Stage::Waiting);
    bridge.on_event(BridgeEvent::Dialed("1"));
    let early = call(CallState::EarlyMedia, Some(addr));
    assert!(matches!(
        bridge.on_event(BridgeEvent::CallReady(&early)),
        BridgeAction::Relay { remote_rtp, ack: false } if remote_rtp == addr
    ));
    assert!(matches!(bridge.on_event(BridgeEvent::RelayDone), BridgeAction::HangUp));
    bridge.on_event(BridgeEvent::Dialed("1"));
    let answered = call(CallState::Answered, Some(addr));
    assert!(matches!(
        bridge.on_event(BridgeEvent::CallReady(&answered)),
        BridgeAction::Relay { ack: true, .. }
    ));
    assert!(matches!(bridge.on_event(BridgeEvent::RelayFailed), BridgeAction::Abort));
    assert_eq!(bridge.stage, Stage::Finished);
    assert_eq!(bridge.calls_count, 5);
    let mut closed = Bridge::new();
    closed.on_event(BridgeEvent::Registered);
    assert!(matches!(closed.on_event(BridgeEvent::ModemClosed), BridgeAction::Stop));
}

#[test]
fn ready_is_signalled_once_registered() {
    assert_eq!(READY_BYTE, b'R');
    let mut bridge = Bridge::new();
    assert!(matches!(bridge.on_event(BridgeEvent::Registered), BridgeAction::SignalReady));
    assert_eq!((bridge.stage, bridge.calls_count), (Stage::Waiting, 0));
    let mut bridge = Bridge::new();
    assert!(matches!(bridge.on_event(BridgeEvent::RegistrationFailed), BridgeAction::Fail));
    assert_eq!((bridge.stage, bridge.calls_count), (Stage::Finished, 0));
}

#[test]
fn addresses() {
    assert_eq!(server_address("sip.telnyx.com"), "sip.telnyx.com:5060");
    assert_eq!(bind_address("0.0.0.0", 0), "0.0.0.0:0");
    assert_eq!(bind_address("10.0.0.1", 20000), "10.0.0.1:20000");
}
