use slmodem_sip_bridge::invitation::{
    after_poll, can_poll, media_endpoint, poll_failure, InviteAction, InviteError, Invitation, Poll,
    RoundAction,
};
use slmodem_sip_bridge::digest::{parse_digest_challenge, DigestError};
use slmodem_sip_bridge::message::{extract_cseq_num, extract_header, extract_sdp_body};
use slmodem_sip_bridge::net::{IpAddr, SocketAddr};
use slmodem_sip_bridge::registration::{
    RegisterAction, RegisterError, RegisterStage, Registration,
};
use slmodem_sip_bridge::sdp::{build_offer, parse_answer};
use slmodem_sip_bridge::sip::{Call, CallState, SipClient, RESPONSE_LOOP_LIMIT};

fn client() -> SipClient {
    SipClient::new(
        SocketAddr { ip: IpAddr::V4([0, 0, 0, 0]), port: 5070 },
        Some(IpAddr::V4([10, 0, 0, 1])),
        SocketAddr { ip: IpAddr::V4([192, 0, 2, 1]), port: 5060 },
        "example.com".to_string(),
        "user".to_string(),
        "secret".to_string(),
        "+15550001".to_string(),
        "Modem".to_string(),
    )
}

fn call() -> Call {
    Call {
        call_id: "100-7".to_string(),
        cseq: 2,
        local_tag: "beef".to_string(),
        remote_tag: Some("cafe".to_string()),
        remote_rtp: None,
        state: CallState::EarlyMedia,
        invite_uri: "sip:123@example.com".to_string(),
        via_branch: "z9hG4bKx".to_string(),
    }
}

const SDP: &str = "v=0\r\nc=IN IP4 10.9.8.7\r\nm=audio 4002 RTP/AVP 0\r\n";

fn with_sdp(status: &str, cseq: u32) -> String {
    format!(
        "SIP/2.0 {status}\r\nTo: <sip:123@example.com>;tag=cafe\r\nCSeq: {cseq} INVITE\r\n\
         Content-Type: application/sdp\r\n\r\n{SDP}"
    )
}

fn bare(status: &str, cseq: u32) -> String {
    format!("SIP/2.0 {status}\r\nTo: <sip:123@example.com>\r\nCSeq: {cseq} INVITE\r\n\r\n")
}

fn challenge(status: u16, cseq: u32) -> String {
    let name = if status == 401 { "WWW-Authenticate" } else { "Proxy-Authenticate" };
    format!(
        "SIP/2.0 {status} Auth\r\nTo: <sip:123@example.com>;tag=first\r\nCSeq: {cseq} INVITE\r\n\
         {name}: Digest realm=\"r\", nonce=\"n\"\r\n\r\n"
    )
}

#[test]
fn header_address_comes_from_the_route() {
    assert_eq!(client().local_ip(), IpAddr::V4([10, 0, 0, 1]));
    let mut bound = client().local_addr;
    bound.ip = IpAddr::V4([10, 0, 0, 2]);
    let server = client().sip_server;
    let text = |s: &str| s.to_string();
    let fixed =
        SipClient::new(bound, None, server, text("d"), text("u"), text("p"), text(""), text(""));
    assert_eq!(fixed.local_ip(), IpAddr::V4([10, 0, 0, 2]));
    assert_eq!(fixed.local_addr, bound);
}

#[test]
fn register_requests() {
    assert_eq!(
        client().build_register("7-1", "tag", "z9hG4bKa", 1, None),
        "REGISTER sip:example.com SIP/2.0\r\n\
         Via: SIP/2.0/UDP 10.0.0.1:5070;branch=z9hG4bKa;rport\r\n\
         From: <sip:user@example.com>;tag=tag\r\n\
         To: <sip:user@example.com>\r\n\
         Call-ID: 7-1\r\n\
         CSeq: 1 REGISTER\r\n\
         Contact: <sip:user@10.0.0.1:5070>\r\n\
         Expires: 180\r\n\
         Max-Forwards: 70\r\n\
         User-Agent: slmodem-sip-bridge\r\n\
         Content-Length: 0\r\n\
         \r\n"
    );
    let authenticated = client().build_register("7-1", "tag", "b", 2, Some("Digest x".to_string()));
    assert!(authenticated.contains(
        "User-Agent: slmodem-sip-bridge\r\nAuthorization: Digest x\r\nContent-Length: 0\r\n\r\n"
    ));
    assert!(authenticated.contains("CSeq: 2 REGISTER\r\n"));
}

#[test]
fn invite_requests() {
    assert_eq!(
        client().build_invite(
            "sip:123@example.com",
            "7-1",
            "tag",
            "z9hG4bKa",
            1,
            "v=\u{e9}\r\n",
            Some(("Authorization", "Digest x")),
        ),
        "INVITE sip:123@example.com SIP/2.0\r\n\
         Via: SIP/2.0/UDP 10.0.0.1:5070;branch=z9hG4bKa;rport\r\n\
         From: \"Modem\" <sip:+15550001@example.com>;tag=tag\r\n\
         To: <sip:123@example.com>\r\n\
         Call-ID: 7-1\r\n\
         CSeq: 1 INVITE\r\n\
         Contact: <sip:user@10.0.0.1:5070>\r\n\
         Max-Forwards: 70\r\n\
         User-Agent: slmodem-sip-bridge\r\n\
         Allow: INVITE, ACK, BYE, CANCEL\r\n\
         Authorization: Digest x\r\n\
         Content-Type: application/sdp\r\n\
         Content-Length: 6\r\n\
         \r\n\
         v=\u{e9}\r\n"
    );
}

#[test]
fn ack_and_bye_requests() {
    let mut call = call();
    assert_eq!(
        client().ack(&call),
        "ACK sip:123@example.com SIP/2.0\r\n\
         Via: SIP/2.0/UDP 10.0.0.1:5070;branch=z9hG4bKx;rport\r\n\
         From: \"Modem\" <sip:+15550001@example.com>;tag=beef\r\n\
         To: <sip:123@example.com>;tag=cafe\r\n\
         Call-ID: 100-7\r\n\
         CSeq: 2 ACK\r\n\
         Max-Forwards: 70\r\n\
         User-Agent: slmodem-sip-bridge\r\n\
         Content-Length: 0\r\n\
         \r\n"
    );
    assert_eq!(
        client().bye_with(&call, "z9hG4bKy"),
        "BYE sip:123@example.com SIP/2.0\r\n\
         Via: SIP/2.0/UDP 10.0.0.1:5070;branch=z9hG4bKy;rport\r\n\
         From: \"Modem\" <sip:+15550001@example.com>;tag=beef\r\n\
         To: <sip:123@example.com>;tag=cafe\r\n\
         Call-ID: 100-7\r\n\
         CSeq: 3 BYE\r\n\
         Max-Forwards: 70\r\n\
         User-Agent: slmodem-sip-bridge\r\n\
         Content-Length: 0\r\n\
         \r\n"
    );
    call.remote_tag = None;
    call.invite_uri = "sip:sip:9".to_string();
    let bye = client().bye(&call);
    assert!(bye.contains("To: <sip:9>\r\n"));
    assert!(bye.contains(";branch=z9hG4bK"));
    assert!(client().build_ack(&call).contains("To: <sip:sip:9>\r\n"));
}

#[test]
fn requests_are_read_back() {
    let call = call();
    let ack = client().ack(&call);
    assert_eq!(extract_header(&ack, "Call-ID"), Some("100-7".to_string()));
    assert_eq!(extract_cseq_num(&ack), Some(2));
    assert_eq!(extract_cseq_num(&client().bye(&call)), Some(3));
    let offer = build_offer(client().local_ip(), 20000, 1);
    let invite = client().invite_with(
        "123",
        &offer,
        "100-7".to_string(),
        "beef".to_string(),
        "z9hG4bKx".to_string(),
    );
    assert_eq!(extract_cseq_num(&invite.invite), Some(1));
    assert_eq!(extract_sdp_body(&invite.invite), Some(offer.clone()));
    let answer = parse_answer(&offer).unwrap();
    assert_eq!(answer.addr, client().local_ip());
    assert_eq!(
        media_endpoint(&invite.invite),
        Some(SocketAddr { ip: client().local_ip(), port: 20000 })
    );
}

fn registration() -> Registration {
    client().register_with("7-1".to_string(), "t".to_string(), "z9hG4bKa").0
}

#[test]
fn registering_without_a_challenge() {
    let (mut registration, request) = client().register(4242);
    assert!(request.starts_with("REGISTER sip:example.com SIP/2.0\r\n"));
    assert!(registration.call_id.ends_with("-4242"));
    assert!(request.contains(&format!("Call-ID: {}\r\n", registration.call_id)));
    let action = client().register_response(&mut registration, "SIP/2.0 200 OK\r\n\r\n");
    assert!(matches!(action, RegisterAction::Done));
}

#[test]
fn registering_with_a_challenge() {
    let mut registration = registration();
    let resp = "SIP/2.0 401 Unauthorized\r\nWWW-Authenticate: Digest realm=\"r\", nonce=\"n\"\r\n\r\n";
    assert!(registration.can_read(resp));
    let action = client().register_response_with(
        &mut registration,
        resp,
        "z9hG4bKb",
        "c".to_string(),
    );
    let value = parse_digest_challenge("realm=\"r\", nonce=\"n\"").unwrap().auth_header_value_with(
        "user",
        "secret",
        "REGISTER",
        "sip:example.com",
        "c".to_string(),
    );
    match action {
        RegisterAction::Send(request) => {
            assert_eq!(request, client().build_register("7-1", "t", "z9hG4bKb", 2, Some(value)));
        }
        other => panic!("{other:?}"),
    }
    assert_eq!(registration.stage, RegisterStage::Authenticated);
    assert_eq!(registration.iterations, 0);
    let stale = "SIP/2.0 401 Unauthorized\r\nCSeq: 1 REGISTER\r\n\r\n";
    assert!(matches!(
        client().register_response(&mut registration, stale),
        RegisterAction::Wait
    ));
    let rejected = "SIP/2.0 403 Forbidden\r\nCSeq: 2 REGISTER\r\n\r\n";
    match client().register_response(&mut registration, rejected) {
        RegisterAction::Fail(e) => {
            assert_eq!(e, RegisterError::Rejected(403));
            assert_eq!(e.message(), "authenticated REGISTER failed with status 403");
        }
        other => panic!("{other:?}"),
    }
    assert!(matches!(
        client().register_response(&mut registration, "SIP/2.0 200 OK\r\nCSeq: 2 REGISTER\r\n\r\n"),
        RegisterAction::Done
    ));
    assert!(matches!(
        client().register_response(&mut registration, "garbage"),
        RegisterAction::Fail(RegisterError::Rejected(0))
    ));
}

#[test]
fn registration_rounds_are_counted() {
    let mut registration = registration();
    for round in 0..RESPONSE_LOOP_LIMIT {
        assert_eq!(registration.iterations, round);
        assert_eq!(registration.begin_round(0), None);
    }
    assert_eq!(registration.iterations, 1000);
    client().register_response(&mut registration, "SIP/2.0 200 OK\r\n\r\n");
    assert_eq!(registration.iterations, 1000, "a response is no round");
}

#[test]
fn registration_errors() {
    let fail = |resp: &str| match client().register_response(&mut registration(), resp) {
        RegisterAction::Fail(e) => e,
        other => panic!("{other:?}"),
    };
    assert_eq!(fail("SIP/2.0 503 Busy\r\n\r\n"), RegisterError::Refused(503));
    assert_eq!(fail("garbage"), RegisterError::Refused(0));
    assert_eq!(
        RegisterError::Refused(503).message(),
        "REGISTER failed with status 503, expected 200 or 401"
    );
    assert_eq!(fail("SIP/2.0 401 U\r\n\r\n"), RegisterError::MissingChallenge);
    assert_eq!(
        RegisterError::MissingChallenge.message(),
        "401 response missing WWW-Authenticate header"
    );
    assert_eq!(
        fail("SIP/2.0 401 U\r\nWWW-Authenticate: Digest nonce=\"n\"\r\n\r\n"),
        RegisterError::Challenge(DigestError::MissingRealm)
    );
    assert_eq!(
        RegisterError::Challenge(DigestError::MissingRealm).message(),
        "digest challenge missing realm"
    );
    let mut plain = registration();
    assert_eq!(plain.begin_round(9999), None);
    assert_eq!(plain.begin_round(10000), Some(RegisterError::NoResponse));
    plain.stage = RegisterStage::Authenticated;
    assert_eq!(plain.begin_round(10000), Some(RegisterError::TimedOut));
    assert_eq!(plain.iterations, 3);
    assert_eq!(RegisterError::TimedOut.message(), "authenticated REGISTER timed out");
    assert_eq!(RegisterError::NoResponse.message(), "SIP response timeout");
    assert!(!plain.can_read("CSeq\u{e9}: 1"));
}

fn invitation() -> Invitation {
    client().invite_with(
        "123",
        SDP,
        "100-7".to_string(),
        "beef".to_string(),
        "z9hG4bKx".to_string(),
    )
}

#[test]
fn inviting() {
    let invitation = client().invite("123", SDP, 77);
    assert_eq!(invitation.call.invite_uri, "sip:123@example.com");
    assert_eq!(invitation.call.cseq, 1);
    assert_eq!(invitation.call.state, CallState::Trying);
    assert!(invitation.call.call_id.ends_with("-77"));
    assert!(invitation.invite.starts_with("INVITE sip:123@example.com SIP/2.0\r\n"));
}

#[test]
fn retransmission_timer() {
    let mut invitation = invitation();
    let mut waits = Vec::new();
    for _ in 0..7 {
        let timer = invitation.timer_ms;
        assert_eq!(invitation.begin_round(0, timer - 1, 60_000), RoundAction::Listen);
        assert_eq!(invitation.begin_round(0, timer, 60_000), RoundAction::Resend);
        waits.push(timer);
    }
    assert_eq!(waits, [500, 1000, 2000, 4000, 4000, 4000, 4000]);
    assert_eq!(invitation.begin_round(0, u64::MAX, 60_000), RoundAction::Listen);
    assert_eq!(invitation.begin_round(60_000, 0, 60_000), RoundAction::TimedOut);
    assert_eq!(invitation.iterations, 16);
}

#[test]
fn every_provisional_response_stops_retransmission() {
    for (status, stops) in [
        ("100 Trying", true),
        ("181 Call Is Being Forwarded", true),
        ("182 Queued", true),
        ("199 Early Dialog Terminated", true),
        ("302 Moved Temporarily", false),
        ("202 Accepted", false),
    ] {
        let mut invitation = invitation();
        let action = client().invite_response(&mut invitation, &bare(status, 1));
        assert!(matches!(action, InviteAction::Wait), "{status}");
        assert_eq!(invitation.got_provisional, stops, "{status}");
        let expected = if stops { RoundAction::Listen } else { RoundAction::Resend };
        assert_eq!(invitation.begin_round(0, 500, 60_000), expected, "{status}");
    }
    let mut invitation = invitation();
    client().invite_response(&mut invitation, &bare("181 Forwarded", 2));
    assert!(!invitation.got_provisional, "it belongs to another INVITE");
}

#[test]
fn provisional_responses_stop_retransmission() {
    let mut invitation = invitation();
    let action = client().invite_response(&mut invitation, &bare("100 Trying", 1));
    assert!(matches!(action, InviteAction::Wait));
    assert_eq!(invitation.begin_round(0, 10_000, 60_000), RoundAction::Listen);
    let action = client().invite_response(&mut invitation, &bare("180 Ringing", 1));
    assert!(matches!(action, InviteAction::Wait));
    assert_eq!(invitation.call.state, CallState::Trying);
}

#[test]
fn early_media_and_answer() {
    let mut invitation = invitation();
    let action = client().invite_response(&mut invitation, &with_sdp("183 Session Progress", 1));
    assert!(matches!(action, InviteAction::Ready));
    let mut call = invitation.call;
    assert_eq!(call.state, CallState::EarlyMedia);
    assert_eq!(call.remote_tag.as_deref(), Some("cafe"));
    let addr = SocketAddr { ip: IpAddr::V4([10, 9, 8, 7]), port: 4002 };
    assert_eq!(call.remote_rtp, Some(addr));
    assert!(matches!(client().poll_answer(&mut call, None), Poll::Pending));
    assert!(matches!(client().poll_answer(&mut call, Some("noise")), Poll::Pending));
    assert!(matches!(client().poll_answer(&mut call, Some(&bare("180 R", 1))), Poll::Pending));
    assert!(matches!(client().poll_answer(&mut call, Some(&bare("486 Busy", 1))), Poll::Failed(486)));
    assert!(after_poll(&Poll::Pending));
    assert!(!after_poll(&Poll::Failed(486)) && !after_poll(&Poll::Answered(String::new())));
    assert_eq!(poll_failure(486), "call failed with status 486 during early media");
    assert_eq!(call.state, CallState::EarlyMedia);
    let answer = bare("200 OK", 1);
    assert!(can_poll(&call, Some(&answer)));
    match client().poll_answer(&mut call, Some(&answer)) {
        Poll::Answered(ack) => assert_eq!(ack, client().ack(&call)),
        other => panic!("{other:?}"),
    }
    assert_eq!(call.state, CallState::Answered);
    assert_eq!(call.remote_rtp, Some(addr));
}

#[test]
fn answer_moves_the_media() {
    let mut call = call();
    call.remote_tag = None;
    let answer = with_sdp("200 OK", 2);
    assert!(matches!(client().poll_answer(&mut call, Some(&answer)), Poll::Answered(_)));
    assert_eq!(call.remote_tag.as_deref(), Some("cafe"));
    assert_eq!(call.remote_rtp.unwrap().port, 4002);
}

#[test]
fn immediate_answers() {
    let mut with_media = invitation();
    let action = client().invite_response(&mut with_media, &with_sdp("200 OK", 1));
    assert!(matches!(action, InviteAction::Ready));
    assert_eq!(with_media.call.state, CallState::Answered);
    assert!(with_media.call.remote_rtp.is_some());
    let mut without = invitation();
    let action = client().invite_response(&mut without, &bare("200 OK", 1));
    assert!(matches!(action, InviteAction::Ready));
    assert_eq!(without.call.remote_rtp, None);
}

#[test]
fn challenges_are_answered_once() {
    for (status, name) in [(401u16, "Authorization"), (407, "Proxy-Authorization")] {
        let mut invitation = invitation();
        invitation.begin_round(0, 500, 60_000);
        let unauthorized_ack = {
            let mut call = invitation_call(&invitation);
            call.remote_tag = Some("first".to_string());
            client().ack(&call)
        };
        let action = client().invite_response_with(
            &mut invitation,
            &challenge(status, 1),
            "z9hG4bKnew",
            "c".to_string(),
        );
        let value = parse_digest_challenge("realm=\"r\", nonce=\"n\"")
            .unwrap()
            .auth_header_value_with(
                "user",
                "secret",
                "INVITE",
                "sip:123@example.com",
                "c".to_string(),
            );
        match action {
            InviteAction::Retry { ack, invite } => {
                assert_eq!(ack, unauthorized_ack);
                let expected = client().build_invite(
                    "sip:123@example.com",
                    "100-7",
                    "beef",
                    "z9hG4bKnew",
                    2,
                    SDP,
                    Some((name, value.as_str())),
                );
                assert_eq!(invite, expected);
                assert_eq!(invitation.invite, expected, "the new INVITE is sent again");
            }
            other => panic!("{other:?}"),
        }
        assert_eq!((invitation.call.cseq, invitation.timer_ms), (2, 500));
        assert_eq!((invitation.retransmit_count, invitation.got_provisional), (0, false));
        // The challenge comes again: it belongs to the first INVITE.
        let action = client().invite_response(&mut invitation, &challenge(status, 1));
        assert!(matches!(action, InviteAction::Wait));
        match client().invite_response(&mut invitation, &challenge(status, 2)) {
            InviteAction::Fail(e) => {
                assert_eq!(e, InviteError::AuthenticationFailed(status));
                assert_eq!(
                    e.message(),
                    format!("INVITE authentication failed after retry (status {status})")
                );
            }
            other => panic!("{other:?}"),
        }
    }
}

fn invitation_call(invitation: &Invitation) -> Call {
    let call = &invitation.call;
    Call {
        call_id: call.call_id.clone(),
        cseq: call.cseq,
        local_tag: call.local_tag.clone(),
        remote_tag: call.remote_tag.clone(),
        remote_rtp: call.remote_rtp,
        state: call.state,
        invite_uri: call.invite_uri.clone(),
        via_branch: call.via_branch.clone(),
    }
}

#[test]
fn refusals_are_acknowledged() {
    let mut invitation = invitation();
    match client().invite_response(&mut invitation, &bare("486 Busy Here", 1)) {
        InviteAction::Reject { ack, status } => {
            assert_eq!(status, 486);
            assert_eq!(ack, client().ack(&invitation.call));
        }
        other => panic!("{other:?}"),
    }
    assert_eq!(InviteError::Rejected(486).message(), "INVITE rejected with status 486");
}

#[test]
fn other_responses_are_passed_over() {
    for resp in [
        "garbage".to_string(),
        bare("302 Moved", 1),
        bare("700 Odd", 1),
        bare("200 OK", 9),
        bare("183 Progress", 1),
    ] {
        let mut invitation = invitation();
        let action = client().invite_response(&mut invitation, &resp);
        assert!(matches!(action, InviteAction::Wait), "{resp}");
        assert_eq!(invitation.call.state, CallState::Trying);
    }
}

#[test]
fn invitation_errors() {
    let fail = |resp: &str| match client().invite_response(&mut invitation(), resp) {
        InviteAction::Fail(e) => e,
        other => panic!("{other:?}"),
    };
    assert_eq!(fail("SIP/2.0 401 U\r\n\r\n"), InviteError::MissingChallenge(401));
    assert_eq!(
        InviteError::MissingChallenge(401).message(),
        "401 missing WWW-Authenticate"
    );
    assert_eq!(
        InviteError::MissingChallenge(407).message(),
        "407 missing Proxy-Authenticate"
    );
    let resp = "SIP/2.0 407 P\r\nProxy-Authenticate: Digest realm=\"r\"\r\n\r\n";
    assert_eq!(fail(resp), InviteError::Challenge(DigestError::MissingNonce));
    assert_eq!(fail(resp).message(), "digest challenge missing nonce");
    assert_eq!(InviteError::TimedOut(30_000).message(), "INVITE timed out after 30s");
    assert_eq!(InviteError::TimedOut(1500).message(), "INVITE timed out after 1.5s");
    let unreadable = "SIP/2.0 200 OK\r\nabcd\u{e9}\u{e9}\r\n\r\n";
    assert!(!invitation().can_read(unreadable));
    assert!(invitation().can_read("abcd\u{e9}\u{e9}"));
}
