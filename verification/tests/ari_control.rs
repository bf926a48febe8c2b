use slmodem_sip_bridge::ari_control::{
    channel_overdue, events_retry_delay_ms, is_cleaned_up, lookup, socket_headers,
    variable_overdue, variable_value, wait_channel_up, ActiveCall, AriController, AriError,
    ChannelWait, Lookup, MediaSetup, Method, RestRequest,
};
use slmodem_sip_bridge::ari_external_media::{Encapsulation, ExternalMediaRequest, Transport};
use slmodem_sip_bridge::ari_session::{
    Cleanup, OutboundStage, OutboundStep, MediaAction, MediaEvent, MediaStage,
};
use slmodem_sip_bridge::ari_url::{basic_auth, events_url, media_url, to_websocket, UrlError};
use slmodem_sip_bridge::config::{Cli, Config, Timeout};
use url::Url;

fn cfg() -> Config {
    Config {
        dial_string: "15551234567".to_string(),
        socket_fd: 3,
        media_addr: "127.0.0.1:21000".to_string(),
        connect_timeout: Timeout::from_secs(3),
        ari_base_url: "http://127.0.0.1:8088/ari".to_string(),
        ari_username: "u".to_string(),
        ari_password: "p".to_string(),
        ari_dial_endpoint_template: "PJSIP/{dial}@telnyx-out".to_string(),
        originate_timeout: Timeout::from_secs(60),
        caller_id: String::new(),
    }
}

fn controller() -> AriController {
    AriController::from_config(&cfg()).unwrap()
}

fn texts(pairs: &[(String, String)]) -> Vec<(&str, &str)> {
    pairs.iter().map(|p| (p.0.as_str(), p.1.as_str())).collect()
}

#[test]
fn endpoint_template_replaces_dial_placeholder() {
    let ctl = AriController::from_config(&cfg()).unwrap();
    assert_eq!(
        ctl.endpoint_from_dial("18005551212"),
        "PJSIP/18005551212@telnyx-out"
    );
}

#[test]
fn path_url_preserves_ari_prefix() {
    let ctl = AriController::from_config(&cfg()).unwrap();
    let url = Url::parse(&ctl.path_url("/bridges").unwrap()).unwrap();
    assert_eq!(url.path(), "/ari/bridges");
}

#[test]
fn builds_media_websocket_url_without_ari_prefix() {
    // Media WebSocket is served at /media/{id} on the HTTP root,
    // NOT under the /ari REST prefix.
    let ctl = AriController::from_config(&cfg()).unwrap();
    let url = ctl.media_websocket_url("media-conn-1").unwrap();
    assert_eq!(url, "ws://127.0.0.1:8088/media/media-conn-1");
}

#[test]
fn base_urls() {
    assert_eq!(controller().base_url, "http://127.0.0.1:8088/ari/");
    let mut other = cfg();
    other.ari_base_url = "HTTPS://Pbx.Example/".to_string();
    let ctl = AriController::from_config(&other).unwrap();
    assert_eq!(ctl.base_url, "https://pbx.example/");
    assert_eq!(ctl.media_websocket_url("x").unwrap(), "wss://pbx.example:443/media/x");
    other.ari_base_url = "no url".to_string();
    let error = AriController::from_config(&other).unwrap_err();
    assert_eq!(error, AriError::InvalidBaseUrl("no url".to_string()));
    assert_eq!(error.message(), "invalid ARI URL no url");
}

#[test]
fn media_websocket_is_on_the_port_of_the_server() {
    for (base, url) in [
        ("http://127.0.0.1:80/ari", "ws://127.0.0.1:80/media/media-conn-1"),
        ("http://127.0.0.1/ari", "ws://127.0.0.1:80/media/media-conn-1"),
        ("https://127.0.0.1:443/ari", "wss://127.0.0.1:443/media/media-conn-1"),
        ("https://127.0.0.1:8089/ari", "wss://127.0.0.1:8089/media/media-conn-1"),
        ("http://127.0.0.1:443/ari", "ws://127.0.0.1:443/media/media-conn-1"),
    ] {
        let mut other = cfg();
        other.ari_base_url = base.to_string();
        let ctl = AriController::from_config(&other).unwrap();
        assert_eq!(ctl.media_websocket_url("media-conn-1").unwrap(), url);
    }
}

#[test]
fn path_errors() {
    let error = controller().path_url("//http://[").unwrap_err();
    assert_eq!(error.message(), "failed to build ARI URL for path //http://[");
}

#[test]
fn endpoint_templates() {
    let mut ctl = controller();
    ctl.dial_endpoint_template = "{dial}-{dial}{dial}".to_string();
    assert_eq!(ctl.endpoint_from_dial("{d"), "{d-{d{d");
    ctl.dial_endpoint_template = "Local/all{dia}".to_string();
    assert_eq!(ctl.endpoint_from_dial("1"), "Local/all{dia}");
}

#[test]
fn media_modes() {
    let mut req = ExternalMediaRequest::recommended_websocket("app", "host");
    req.connection_type = "SERVER".to_string();
    assert_eq!(controller().validate_media_mode(&req), Ok(()));
    req.connection_type = "client".to_string();
    assert!(controller().validate_media_mode(&req).is_err());
    req.transport = Transport::Udp;
    req.encapsulation = Encapsulation::Rtp;
    assert_eq!(
        controller().validate_media_mode(&req).unwrap_err().message(),
        "unsupported media mode: expected websocket/none/server, got udp/rtp/client"
    );
}

#[test]
fn websocket_urls() {
    assert_eq!(to_websocket("http"), Some("ws"));
    assert_eq!(to_websocket("https"), Some("wss"));
    assert_eq!(to_websocket("ws"), None);
    assert_eq!(
        events_url("https://pbx.example/ari/events?x=1", "a b&c"),
        Ok("wss://pbx.example/ari/events?app=a+b%26c".to_string())
    );
    assert_eq!(
        events_url("http://pbx:80/a \"b\"#part", "x"),
        Ok("ws://pbx/a%20%22b%22?app=x#part".to_string())
    );
    assert_eq!(events_url("ftp://x/", "a"), Err(UrlError::Scheme("ftp".to_string())));
    let text = |s: &str| s.to_string();
    assert_eq!(
        media_url(text("http"), Some(text("h")), None, "7"),
        Ok(text("ws://h:80/media/7"))
    );
    assert_eq!(
        media_url(text("https"), Some(text("h")), None, "7"),
        Ok(text("wss://h:443/media/7"))
    );
    assert_eq!(media_url(text("https"), Some(text("h")), Some(1), "7"), Ok(text("wss://h:1/media/7")));
    assert_eq!(media_url(text("http"), None, None, "7"), Err(UrlError::NoHost));
    assert_eq!(
        AriError::Media(UrlError::NoHost).message(),
        "ARI base URL has no host"
    );
    assert_eq!(
        AriError::Media(UrlError::Scheme(text("ftp"))).message(),
        "unsupported ARI URL scheme for media websocket: ftp"
    );
    assert_eq!(
        AriError::Events(UrlError::Scheme(text("ftp"))).message(),
        "unsupported ARI URL scheme for events websocket: ftp"
    );
    assert_eq!(
        AriError::Events(UrlError::NotConverted).message(),
        "failed to convert ARI URL scheme to websocket"
    );
    assert_eq!(AriError::Events(UrlError::TooLong).message(), "ARI URL is too long");
}

#[test]
fn basic_credentials() {
    assert_eq!(basic_auth("u", "p"), "Basic dTpw");
    assert_eq!(basic_auth("Aladdin", "open sesame"), "Basic QWxhZGRpbjpvcGVuIHNlc2FtZQ==");
    assert_eq!(basic_auth("", ""), "Basic Og==");
    assert_eq!(basic_auth("ab", "\u{ff}?>~"), "Basic YWI6w78/Pn4=");
}

#[test]
fn events_request() {
    let request = controller().connect_events("slmodem", "KEY").unwrap();
    assert_eq!(request.uri, "ws://127.0.0.1:8088/ari/events?app=slmodem");
    assert_eq!(
        texts(&request.headers),
        [
            ("Authorization", "Basic dTpw"),
            ("Host", "127.0.0.1"),
            ("Connection", "Upgrade"),
            ("Upgrade", "websocket"),
            ("Sec-WebSocket-Key", "KEY"),
            ("Sec-WebSocket-Version", "13"),
        ]
    );
    let mut other = controller();
    other.base_url = "ftp://x/".to_string();
    assert_eq!(
        other.connect_events("a", "k").unwrap_err(),
        AriError::Events(UrlError::Scheme("ftp".to_string()))
    );
    other.base_url = "data:x".to_string();
    assert_eq!(
        other.connect_events("a", "k").unwrap_err(),
        AriError::InvalidPath("/events".to_string())
    );
    assert_eq!(
        other.media_websocket_url("x").unwrap_err(),
        AriError::Media(UrlError::Scheme("data".to_string()))
    );
}

#[test]
fn media_socket_request() {
    let request = controller().connect_media_websocket("ws://PBX:8088/media/1", "KEY").unwrap();
    assert_eq!(request.uri, "ws://pbx:8088/media/1");
    assert_eq!(texts(&request.headers)[1], ("Host", "pbx"));
    assert_eq!(texts(&request.headers)[4], ("Sec-WebSocket-Protocol", "media"));
    assert_eq!(request.headers.len(), 7);
    assert_eq!(
        controller().connect_media_websocket("nowhere", "k").unwrap_err().message(),
        "invalid media websocket URL: nowhere"
    );
    assert_eq!(texts(&socket_headers("a", None, None, "k"))[1], ("Host", "localhost"));
}

#[test]
fn backoff() {
    assert_eq!(events_retry_delay_ms(0), Some(500));
    assert_eq!(events_retry_delay_ms(1), Some(1000));
    assert_eq!(events_retry_delay_ms(3), Some(4000));
    assert_eq!(events_retry_delay_ms(4), Some(5000));
    assert_eq!(events_retry_delay_ms(19), Some(5000));
    assert_eq!(events_retry_delay_ms(20), None);
}

fn check(request: Result<RestRequest, AriError>, method: Method, path: &str, query: &[(&str, &str)]) {
    let request = request.unwrap();
    assert_eq!(request.method, method);
    assert_eq!(request.url, format!("http://127.0.0.1:8088/ari{path}"));
    assert_eq!(texts(&request.query), query);
}

#[test]
fn rest_requests() {
    let ctl = controller();
    check(
        ctl.create_bridge("b"),
        Method::Post,
        "/bridges",
        &[("type", "mixing,proxy_media"), ("bridgeId", "b")],
    );
    check(
        ctl.create_outbound("18", "c", "app"),
        Method::Post,
        "/channels/create",
        &[("endpoint", "PJSIP/18@telnyx-out"), ("app", "app"), ("channelId", "c"), ("appArgs", "18")],
    );
    check(ctl.dial_outbound("c"), Method::Post, "/channels/c/dial", &[("timeout", "60")]);
    check(
        ctl.add_channels_to_bridge("b", "c", "m"),
        Method::Post,
        "/bridges/b/addChannel",
        &[("channel", "c,m")],
    );
    check(ctl.get_channel_state("c"), Method::Get, "/channels/c", &[]);
    check(
        ctl.get_channel_variable("c", "V"),
        Method::Get,
        "/channels/c/variable",
        &[("variable", "V")],
    );
    check(ctl.hangup_channel("c"), Method::Delete, "/channels/c", &[]);
    check(ctl.destroy_bridge("b"), Method::Delete, "/bridges/b", &[]);
    let req = ExternalMediaRequest::recommended_websocket("app", "host");
    let request = ctl.create_external_media("m", &req).unwrap();
    assert_eq!(request.url, "http://127.0.0.1:8088/ari/channels/externalMedia");
    assert_eq!(texts(&request.query)[8..], [("transport_data", "f(json)"), ("channelId", "m")]);
}

#[test]
fn replies() {
    assert_eq!(lookup(200), Lookup::Found);
    assert_eq!(lookup(404), Lookup::Missing);
    assert_eq!(lookup(400), Lookup::Failed);
    assert_eq!(lookup(599), Lookup::Failed);
    assert_eq!(lookup(302), Lookup::Found);
    assert!(is_cleaned_up(204) && is_cleaned_up(404));
    assert!(!is_cleaned_up(500) && !is_cleaned_up(301));
    assert_eq!(variable_value(Some("x".to_string())), Some("x".to_string()));
    assert_eq!(variable_value(Some(String::new())), None);
    assert_eq!(variable_value(None), None);
}

#[test]
fn waiting_for_a_channel() {
    assert!(matches!(wait_channel_up("c", Some("UP")), ChannelWait::Up));
    assert!(matches!(wait_channel_up("c", Some("Ringing")), ChannelWait::Again));
    match wait_channel_up("c", None) {
        ChannelWait::Fail(e) => {
            assert_eq!(e.message(), "outbound channel c disappeared before answer")
        }
        other => panic!("{other:?}"),
    }
    let timeout = Timeout::from_millis(1500);
    assert_eq!(channel_overdue("c", 1_500_000_000, &timeout), None);
    assert_eq!(
        channel_overdue("c", 1_500_000_001, &timeout).unwrap().message(),
        "timed out waiting for outbound channel c to reach Up state"
    );
    assert_eq!(variable_overdue("c", "V", 0, &timeout), None);
    assert_eq!(
        variable_overdue("c", "V", u128::MAX, &timeout).unwrap().message(),
        "timed out waiting for variable V on channel c"
    );
}

fn steps(cleanups: &[Cleanup]) -> Vec<String> {
    cleanups
        .iter()
        .map(|step| {
            let request = controller().cleanup_request(step).unwrap();
            assert_eq!(request.method, Method::Delete);
            request.url.strip_prefix("http://127.0.0.1:8088/ari").unwrap().to_string()
        })
        .collect()
}

#[test]
fn setting_up_media() {
    let ctl = controller();
    let req = ExternalMediaRequest::recommended_websocket("app", "host");
    let plan = ctl.setup_media(&req, 9).unwrap();
    assert!(plan.bridge_id.starts_with("slmodem-bridge-") && plan.bridge_id.ends_with("-9"));
    assert!(plan.media_channel_id.starts_with("slmodem-media-"));
    let begin = || ctl.setup_media_with(&req, "b".to_string(), "m".to_string()).unwrap();
    let mut plan = begin();
    match ctl.media_event(&mut plan, MediaEvent::Failed) {
        MediaAction::Abort(cleanups) => assert!(steps(&cleanups).is_empty()),
        other => panic!("{other:?}"),
    }
    let mut plan = begin();
    check(
        ctl.media_request(&plan, &req),
        Method::Post,
        "/bridges",
        &[("type", "mixing,proxy_media"), ("bridgeId", "b")],
    );
    assert!(matches!(ctl.media_event(&mut plan, MediaEvent::Created), MediaAction::CreateChannel));
    assert_eq!(plan.stage, MediaStage::CreatingChannel);
    let request = ctl.media_request(&plan, &req).unwrap();
    assert_eq!(request.url, ctl.create_external_media("m", &req).unwrap().url);
    assert_eq!(texts(&request.query)[9], ("channelId", "m"));
    match ctl.media_event(&mut plan, MediaEvent::Failed) {
        MediaAction::Abort(cleanups) => assert_eq!(steps(&cleanups), ["/bridges/b"]),
        other => panic!("{other:?}"),
    }
    assert!(matches!(ctl.media_event(&mut plan, MediaEvent::Created), MediaAction::AwaitConnection));
    check(
        ctl.media_request(&plan, &req),
        Method::Get,
        "/channels/m/variable",
        &[("variable", "MEDIA_WEBSOCKET_CONNECTION_ID")],
    );
    match ctl.media_event(&mut plan, MediaEvent::Failed) {
        MediaAction::Abort(cleanups) => assert_eq!(steps(&cleanups), ["/channels/m", "/bridges/b"]),
        other => panic!("{other:?}"),
    }
    match ctl.media_event(&mut plan, MediaEvent::Connected("id")) {
        MediaAction::Ready(setup) => {
            assert_eq!(setup.media_websocket_url, "ws://127.0.0.1:8088/media/id");
            assert_eq!((setup.bridge_id.as_str(), setup.media_channel_id.as_str()), ("b", "m"));
            assert_eq!(steps(&ctl.cleanup_media(&setup)), ["/channels/m", "/bridges/b"]);
        }
        other => panic!("{other:?}"),
    }
    let mut odd = req.clone();
    odd.transport = Transport::Udp;
    assert!(ctl.setup_media(&odd, 9).is_err());
}

#[test]
fn media_url_failure_is_reported() {
    let mut ctl = controller();
    ctl.base_url = "ftp://x/".to_string();
    let req = ExternalMediaRequest::recommended_websocket("app", "host");
    let mut plan = ctl.setup_media_with(&req, "b".to_string(), "m".to_string()).unwrap();
    ctl.media_event(&mut plan, MediaEvent::Created);
    ctl.media_event(&mut plan, MediaEvent::Created);
    assert!(matches!(
        ctl.media_event(&mut plan, MediaEvent::Connected("id")),
        MediaAction::Fail(AriError::Media(UrlError::Scheme(_)))
    ));
}

#[test]
fn dialling() {
    let ctl = controller();
    let setup = MediaSetup {
        bridge_id: "b".to_string(),
        media_channel_id: "m".to_string(),
        media_websocket_url: "ws://x/".to_string(),
    };
    let plan = ctl.dial_and_bridge("1", "app", &setup, 9);
    assert!(plan.outbound_channel_id.starts_with("slmodem-out-"));
    assert_eq!((plan.dial.as_str(), plan.app.as_str()), ("1", "app"));
    let begin = || ctl.dial_and_bridge_with("18", "app", &setup, "o".to_string());
    let failed = |succeeded: u32| {
        let mut plan = begin();
        for _ in 0..succeeded {
            plan.on_step(true);
        }
        match plan.on_step(false) {
            OutboundStep::Abort(cleanups) => steps(&cleanups),
            other => panic!("{other:?}"),
        }
    };
    assert_eq!(failed(0), ["/channels/m", "/bridges/b"]);
    assert_eq!(failed(1), ["/channels/m", "/bridges/b"]);
    assert_eq!(failed(2), ["/channels/o", "/channels/m", "/bridges/b"]);
    assert_eq!(failed(3), ["/channels/o", "/channels/m", "/bridges/b"]);
    let mut plan = begin();
    check(
        ctl.outbound_request(&plan),
        Method::Post,
        "/channels/create",
        &[("endpoint", "PJSIP/18@telnyx-out"), ("app", "app"), ("channelId", "o"), ("appArgs", "18")],
    );
    assert!(matches!(plan.on_step(true), OutboundStep::Proceed));
    check(
        ctl.outbound_request(&plan),
        Method::Post,
        "/channels/o/dial",
        &[("timeout", "60")],
    );
    assert!(matches!(plan.on_step(true), OutboundStep::Proceed));
    check(
        ctl.outbound_request(&plan),
        Method::Post,
        "/bridges/b/addChannel",
        &[("channel", "o,m")],
    );
    assert!(matches!(plan.on_step(true), OutboundStep::Proceed));
    assert_eq!(plan.stage, OutboundStage::Answering);
    check(ctl.outbound_request(&plan), Method::Get, "/channels/o", &[]);
    match plan.on_step(true) {
        OutboundStep::Ready(call) => {
            let ActiveCall { bridge_id, outbound_channel_id, media_channel_id } = &call;
            assert_eq!((bridge_id.as_str(), outbound_channel_id.as_str()), ("b", "o"));
            assert_eq!(media_channel_id, "m");
            assert_eq!(steps(&ctl.teardown(&call)), ["/channels/o", "/channels/m", "/bridges/b"]);
        }
        other => panic!("{other:?}"),
    }
}

#[test]
fn configuration() {
    let cli = Cli {
        dial_string: "d".to_string(),
        socket_fd: 4,
        media_addr: "m".to_string(),
        ari_base_url: "b".to_string(),
        ari_username: "u".to_string(),
        ari_password: "p".to_string(),
        ari_dial_endpoint_template: "t".to_string(),
        caller_id: "c".to_string(),
        originate_timeout_secs: u64::MAX,
        connect_timeout_ms: 3001,
    };
    let config: Config = cli.into();
    assert_eq!(config.socket_fd, 4);
    assert_eq!((config.connect_timeout.secs, config.connect_timeout.millis), (3, 1));
    assert_eq!(config.originate_timeout.as_secs(), u64::MAX);
    assert_eq!(config.dial_string + &config.media_addr + &config.caller_id, "dmc");
    assert!(config.connect_timeout.covers(3_001_000_000));
    assert!(!config.connect_timeout.covers(3_001_000_001));
    assert!(config.originate_timeout.covers(u64::MAX as u128 * 1_000_000_000));
}
