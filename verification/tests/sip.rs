use slmodem_sip_bridge::digest::{
    cnonce_at, compute_digest_response, generate_cnonce, join_response, md5_hex,
    parse_digest_challenge, respond_with, to_little_endian, DigestError, DigestResponse,
};
use slmodem_sip_bridge::ids::{
    branch_of, call_id_at, generate_branch, generate_call_id, generate_tag, micros_since,
    nanos_since, unique_id, unique_id_at,
};
use slmodem_sip_bridge::message::{
    extract_cseq_num, extract_header, extract_quoted_param, extract_sdp_body, extract_tag_param,
    is_searchable, parse_status_code,
};

#[test]
fn digest_auth_rfc2617_calculation() {
    let result = compute_digest_response(
        "Mufasa",
        "Circle Of Life",
        "testrealm@host.com",
        "dcd98b7102dd2f0e8b11d0f600bfb0c093",
        "GET",
        "/dir/index.html",
        None,
    );
    // Verify HA1 and HA2 individually to confirm algorithm structure
    let ha1 = format!("{:x}", md5::compute("Mufasa:testrealm@host.com:Circle Of Life"));
    let ha2 = format!("{:x}", md5::compute("GET:/dir/index.html"));
    let expected = format!(
        "{:x}",
        md5::compute(format!("{ha1}:dcd98b7102dd2f0e8b11d0f600bfb0c093:{ha2}"))
    );
    assert_eq!(result.response, expected);
}

#[test]
fn parse_status_code_200() {
    let msg = "SIP/2.0 200 OK\r\nVia: SIP/2.0/UDP 10.0.0.1\r\n\r\n";
    assert_eq!(parse_status_code(msg), Some(200));
}

#[test]
fn parse_status_code_401() {
    let msg = "SIP/2.0 401 Unauthorized\r\n\r\n";
    assert_eq!(parse_status_code(msg), Some(401));
}

#[test]
fn parse_status_code_100() {
    let msg = "SIP/2.0 100 Trying\r\n\r\n";
    assert_eq!(parse_status_code(msg), Some(100));
}

#[test]
fn parse_status_code_not_sip() {
    assert_eq!(parse_status_code("HTTP/1.1 200 OK\r\n\r\n"), None);
}

#[test]
fn extract_header_case_insensitive() {
    let msg = "SIP/2.0 401 Unauthorized\r\n\
               www-authenticate: Digest realm=\"test\", nonce=\"abc\"\r\n\r\n";
    let val = extract_header(msg, "WWW-Authenticate");
    assert!(val.is_some());
    assert!(val.unwrap().contains("Digest"));
}

#[test]
fn extract_cseq_num_from_response() {
    let msg = "SIP/2.0 407 Proxy Authentication Required\r\n\
               CSeq: 1 INVITE\r\n\r\n";
    assert_eq!(extract_cseq_num(msg), Some(1));

    let msg2 = "SIP/2.0 200 OK\r\n\
                CSeq: 2 INVITE\r\n\r\n";
    assert_eq!(extract_cseq_num(msg2), Some(2));
}

#[test]
fn extract_quoted_param_realm() {
    let header = "Digest realm=\"telnyx.com\", nonce=\"abc123\"";
    assert_eq!(extract_quoted_param(header, "realm"), Some("telnyx.com".to_string()));
    assert_eq!(extract_quoted_param(header, "nonce"), Some("abc123".to_string()));
}

#[test]
fn extract_tag_from_to_header() {
    let header = "<sip:user@domain.com>;tag=abc123";
    assert_eq!(extract_tag_param(header), Some("abc123".to_string()));
}

#[test]
fn extract_tag_missing() {
    let header = "<sip:user@domain.com>";
    assert_eq!(extract_tag_param(header), None);
}

#[test]
fn extract_sdp_body_present() {
    let msg = "SIP/2.0 200 OK\r\n\
               Content-Type: application/sdp\r\n\
               Content-Length: 100\r\n\
               \r\n\
               v=0\r\n\
               o=test 1 1 IN IP4 10.0.0.1\r\n\
               c=IN IP4 10.0.0.1\r\n\
               m=audio 20000 RTP/AVP 0\r\n";
    let sdp = extract_sdp_body(msg).expect("should extract SDP");
    assert!(sdp.contains("v=0"));
    assert!(sdp.contains("m=audio"));
}

#[test]
fn extract_sdp_body_absent() {
    let msg = "SIP/2.0 100 Trying\r\n\r\n";
    assert!(extract_sdp_body(msg).is_none());
}

#[test]
fn register_message_structure() {
    // Verify the generated branch format
    let branch = generate_branch();
    assert!(
        branch.starts_with("z9hG4bK"),
        "branch must start with magic cookie per RFC 3261"
    );
}

#[test]
fn parse_digest_challenge_extracts_fields() {
    let header = "Digest realm=\"telnyx.com\", nonce=\"aef321\", algorithm=MD5, qop=\"auth\", opaque=\"abc/123\"";
    let digest = parse_digest_challenge(header).unwrap();
    assert_eq!(digest.realm, "telnyx.com");
    assert_eq!(digest.nonce, "aef321");
    assert_eq!(digest.qop.as_deref(), Some("auth"));
    assert_eq!(digest.opaque.as_deref(), Some("abc/123"));
}

#[test]
fn parse_digest_challenge_rejects_missing_realm() {
    let header = "Digest nonce=\"abc\"";
    assert!(parse_digest_challenge(header).is_err());
    assert_eq!(parse_digest_challenge(header).unwrap_err(), DigestError::MissingRealm);
    assert_eq!(DigestError::MissingRealm.message(), "digest challenge missing realm");
}

#[test]
fn parse_digest_challenge_rejects_missing_nonce() {
    let header = "Digest realm=\"test\"";
    assert!(parse_digest_challenge(header).is_err());
    assert_eq!(parse_digest_challenge(header).unwrap_err(), DigestError::MissingNonce);
    assert_eq!(DigestError::MissingNonce.message(), "digest challenge missing nonce");
}

#[test]
fn status_edge_cases() {
    assert_eq!(parse_status_code("SIP/2.0 183"), Some(183));
    assert_eq!(parse_status_code("SIP/2.0  200 OK"), None);
    assert_eq!(parse_status_code("SIP/2.0 65536 Far"), None);
    assert_eq!(parse_status_code("SIP/2.0 +200 OK"), Some(200));
    assert_eq!(parse_status_code("\r\nSIP/2.0 200 OK"), None);
    assert_eq!(parse_status_code(""), None);
}

#[test]
fn header_edge_cases() {
    let msg = "To: <sip:a@b>\r\n  TO:second\r\nEmpty:\r\nX-\u{e9}: v\r\n";
    assert_eq!(extract_header(msg, "to"), Some("<sip:a@b>".to_string()));
    assert_eq!(extract_header(msg, "Empty"), None);
    assert_eq!(extract_header(msg, "X-\u{e9}"), Some("v".to_string()));
    assert_eq!(extract_header("To :x", "To"), None);
    assert_eq!(extract_header("  Via  : x", "Via  "), Some("x".to_string()));
    assert_eq!(extract_header("", "To"), None);
}

#[test]
fn headers_that_cannot_be_looked_up() {
    // The third byte of the line is inside a character.
    let msg = "ab\u{e9}: x\r\nTo: y\r\n";
    assert!(!is_searchable(msg, "To"));
    assert!(is_searchable(msg, "Via"));
    assert!(is_searchable("To: y\r\nab\u{e9}: x\r\n", "To"));
    assert!(is_searchable("plain: text\r\n", "To"));
}

#[test]
fn cseq_edge_cases() {
    assert_eq!(extract_cseq_num("CSeq:\t 7\tINVITE"), Some(7));
    assert_eq!(extract_cseq_num("CSeq: 4294967295 ACK"), Some(u32::MAX));
    assert_eq!(extract_cseq_num("CSeq: 4294967296 ACK"), None);
    assert_eq!(extract_cseq_num("CSeq: INVITE 1"), None);
    assert_eq!(extract_cseq_num("Via: x"), None);
}

#[test]
fn parameter_edge_cases() {
    assert_eq!(extract_quoted_param("nonce=\"", "nonce"), None);
    assert_eq!(extract_quoted_param("nonce=\"\"", "nonce"), Some(String::new()));
    assert_eq!(extract_quoted_param("cnonce=\"a\", nonce=\"b\"", "nonce"), Some("a".to_string()));
    assert_eq!(extract_quoted_param("nonce=abc", "nonce"), None);
    assert_eq!(extract_tag_param("<sip:a@b;tag=x>;tag=y"), Some("x".to_string()));
    assert_eq!(extract_tag_param("a;tag=q,b"), Some("q".to_string()));
    assert_eq!(extract_tag_param("a;tag= q"), None);
    assert_eq!(extract_tag_param("a;tag="), None);
    assert_eq!(extract_tag_param("a;tag=t;x=1"), Some("t".to_string()));
}

#[test]
fn sdp_body_edge_cases() {
    let announced = "A: b\nContent-TYPE:  Application/SDP; x\n";
    assert_eq!(extract_sdp_body(&format!("{announced}\nv=0\n")), Some("v=0\n".to_string()));
    assert_eq!(extract_sdp_body(&format!("{announced}\n \r\n")), None);
    assert_eq!(extract_sdp_body(announced), None);
    assert_eq!(extract_sdp_body("Content-Type: text/plain\n\nv=0"), None);
    assert_eq!(
        extract_sdp_body("Content-Type: application/sdp\r\nA: b\n\nc\r\n\r\nv=0"),
        Some("v=0".to_string())
    );
}

#[test]
fn md5_known_values() {
    assert_eq!(md5_hex(""), "d41d8cd98f00b204e9800998ecf8427e");
    assert_eq!(md5_hex("abc"), "900150983cd24fb0d6963f7d28e17f72");
    assert_eq!(md5_hex("\u{e9}"), format!("{:x}", md5::compute("\u{e9}")));
}

#[test]
fn extended_response_of_rfc2617() {
    let answer = respond_with(
        "Mufasa",
        "Circle Of Life",
        "testrealm@host.com",
        "dcd98b7102dd2f0e8b11d0f600bfb0c093",
        "GET",
        "/dir/index.html",
        Some("auth"),
        "0a4f113b".to_string(),
    );
    assert_eq!(answer.response, "6629fae49393a05397450978507c4ef1");
    assert_eq!(answer.text(), answer.response);
    assert_eq!(answer.cnonce, "0a4f113b");
}

#[test]
fn client_nonce_counts_only_with_auth() {
    let respond = |qop: Option<&str>, cnonce: &str| {
        respond_with("u", "p", "r", "n", "INVITE", "sip:x", qop, cnonce.to_string()).response
    };
    assert_eq!(respond(None, "a"), respond(None, "b"));
    assert_eq!(respond(Some("auth-int"), "a"), respond(None, "b"));
    assert_ne!(respond(Some("auth"), "a"), respond(Some("auth"), "b"));
}

#[test]
fn response_parts() {
    assert_eq!(join_response("1", "2", "n", "c", None), "1:n:2");
    assert_eq!(join_response("1", "2", "n", "c", Some("Auth")), "1:n:2");
    assert_eq!(join_response("1", "2", "n", "c", Some("auth")), "1:n:00000001:c:auth:2");
}

#[test]
fn authorization_header() {
    let header = "Digest realm=\"r\", nonce=\"n\", qop=\"auth,auth-int\", opaque=\"o\"";
    let challenge = parse_digest_challenge(header).unwrap();
    let answer = DigestResponse { response: "beef".to_string(), cnonce: "c0".to_string() };
    assert_eq!(
        challenge.header_with("u", "sip:x", &answer),
        "Digest username=\"u\", realm=\"r\", nonce=\"n\", uri=\"sip:x\", response=\"beef\", \
         algorithm=MD5, opaque=\"o\", qop=auth, nc=00000001, cnonce=\"c0\""
    );
    let plain = parse_digest_challenge("Digest realm=\"r\", nonce=\"n\"").unwrap();
    assert_eq!(
        plain.header_with("u", "sip:x", &answer),
        "Digest username=\"u\", realm=\"r\", nonce=\"n\", uri=\"sip:x\", response=\"beef\", \
         algorithm=MD5"
    );
    let expected = respond_with("u", "p", "r", "n", "M", "sip:x", None, "c".to_string()).response;
    assert!(plain.auth_header_value("u", "p", "M", "sip:x").contains(&expected));
    assert_eq!(
        plain.auth_header_value("u", "p", "M", "sip:x"),
        plain.auth_header_value_with("u", "p", "M", "sip:x", String::new())
    );
}

#[test]
fn client_nonces() {
    assert_eq!(to_little_endian(0x0102), [2, 1, 0, 0, 0, 0, 0, 0, 0, 0, 0, 0, 0, 0, 0, 0]);
    for nanos in [0u128, 1, 1_700_000_000_123_456_789, u128::MAX] {
        assert_eq!(to_little_endian(nanos), nanos.to_le_bytes());
        assert_eq!(cnonce_at(nanos), format!("{:x}", md5::compute(nanos.to_le_bytes())));
    }
    let cnonce = generate_cnonce();
    assert_eq!(cnonce.len(), 32);
    assert!(cnonce.chars().all(|c| c.is_ascii_hexdigit()));
}

#[test]
fn identifiers() {
    assert_eq!(call_id_at(1_700_000_000_000_001, 42), "1700000000000001-42");
    assert_eq!(branch_of(0xDEAD), "z9hG4bKdead");
    assert_eq!(unique_id_at("slmodem-out", 7, 9), "slmodem-out-7-9");
    let id = generate_call_id(99);
    let micros: u128 = id.strip_suffix("-99").unwrap().parse().unwrap();
    assert!(micros > 1_600_000_000_000_000, "the clock is past 2020");
    assert!(u64::from_str_radix(&generate_tag(), 16).is_ok());
    assert_ne!(generate_tag(), generate_tag());
    assert!(unique_id("slmodem-media", 5).starts_with("slmodem-media-"));
    assert!(unique_id("slmodem-media", 5).ends_with("-5"));
}

#[test]
fn clock_readings() {
    let reading = std::time::Duration::new(1_700_000_000, 123_456_789);
    let since = Some((reading.as_secs(), reading.subsec_nanos()));
    assert_eq!(nanos_since(since), reading.as_nanos());
    assert_eq!(micros_since(since), reading.as_micros());
    assert_eq!(nanos_since(since), 1_700_000_000_123_456_789);
    assert_eq!(micros_since(since), 1_700_000_000_123_456);
    assert_eq!((nanos_since(None), micros_since(None)), (0, 0));
    let last = std::time::Duration::MAX;
    assert_eq!(nanos_since(Some((last.as_secs(), last.subsec_nanos()))), last.as_nanos());
    assert_eq!(micros_since(Some((last.as_secs(), last.subsec_nanos()))), last.as_micros());
}
