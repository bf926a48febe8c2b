use slmodem_sip_bridge::ari_external_media::{
    Encapsulation, ExternalMediaRequest, MediaEnv, Transport,
};

#[test]
fn websocket_recommendation_matches_project_default() {
    let req = ExternalMediaRequest::recommended_websocket("slmodem", "media_conn");
    assert_eq!(req.transport, Transport::WebSocket);
    assert_eq!(req.encapsulation, Encapsulation::Raw);
    assert_eq!(req.format, "ulaw");
    assert_eq!(req.connection_type, "server");
    assert_eq!(req.transport_data.as_deref(), Some("f(json)"));
}

#[test]
fn renders_expected_query_pairs() {
    let req = ExternalMediaRequest::recommended_websocket("slmodem", "media_conn");
    let pairs = req.query_pairs();

    assert!(pairs.contains(&("app".to_string(), "slmodem".to_string())));
    assert!(pairs.contains(&("external_host".to_string(), "media_conn".to_string())));
    assert!(pairs.contains(&("format".to_string(), "ulaw".to_string())));
    assert!(pairs.contains(&("transport".to_string(), "websocket".to_string())));
    assert!(pairs.contains(&("encapsulation".to_string(), "none".to_string())));
    assert!(pairs.contains(&("transport_data".to_string(), "f(json)".to_string())));
}

#[test]
fn parse_transport_variants() {
    assert_eq!(Transport::parse("websocket"), Some(Transport::WebSocket));
    assert_eq!(Transport::parse("audiosocket"), Some(Transport::AudioSocket));
    assert_eq!(Transport::parse("rtp"), Some(Transport::Udp));
}

#[test]
fn parse_encapsulation_variants() {
    assert_eq!(Encapsulation::parse("none"), Some(Encapsulation::Raw));
    assert_eq!(Encapsulation::parse("audiosocket"), Some(Encapsulation::AudioSocket));
    assert_eq!(Encapsulation::parse("rtp"), Some(Encapsulation::Rtp));
}

#[test]
fn names_are_read_back() {
    for transport in [Transport::WebSocket, Transport::AudioSocket, Transport::Udp] {
        assert_eq!(Transport::parse(transport.as_str()), Some(transport));
    }
    for encapsulation in [Encapsulation::Raw, Encapsulation::AudioSocket, Encapsulation::Rtp] {
        assert_eq!(Encapsulation::parse(encapsulation.as_str()), Some(encapsulation));
    }
    assert_eq!(Transport::parse(" WS\t"), Some(Transport::WebSocket));
    assert_eq!(Transport::parse("TCP"), Some(Transport::AudioSocket));
    assert_eq!(Transport::parse("web socket"), None);
    assert_eq!(Encapsulation::parse("Udp "), Some(Encapsulation::Rtp));
    assert_eq!(Encapsulation::parse(""), None);
}

fn unset() -> MediaEnv {
    MediaEnv {
        app: None,
        external_host: None,
        format: None,
        transport: None,
        encapsulation: None,
        connection_type: None,
        transport_data: None,
        direction: None,
        data: None,
    }
}

#[test]
fn environment_defaults() {
    let req = ExternalMediaRequest::from_env_defaults(unset());
    let recommended = ExternalMediaRequest::recommended_websocket("slmodem", "INCOMING");
    assert_eq!(req, recommended);
}

#[test]
fn environment_settings() {
    let mut env = unset();
    env.transport = Some("udp".to_string());
    env.app = Some("other".to_string());
    let req = ExternalMediaRequest::from_env_defaults(env.clone());
    assert_eq!(req.app, "other");
    assert_eq!(req.transport, Transport::Udp);
    assert_eq!(req.encapsulation, Encapsulation::Rtp);
    env.encapsulation = Some("none".to_string());
    env.transport = Some("carrier pigeon".to_string());
    let req = ExternalMediaRequest::from_env_defaults(env.clone());
    assert_eq!(req.transport, Transport::WebSocket);
    assert_eq!(req.encapsulation, Encapsulation::Raw);
    env.encapsulation = Some("?".to_string());
    env.transport = Some("tcp".to_string());
    let req = ExternalMediaRequest::from_env_defaults(env);
    assert_eq!(req.encapsulation, Encapsulation::AudioSocket);
}

#[test]
fn query_pairs_in_order() {
    let mut req = ExternalMediaRequest::recommended_websocket("a", "h");
    req.transport_data = None;
    let keys: Vec<String> = req.query_pairs().into_iter().map(|p| p.0).collect();
    assert_eq!(
        keys,
        [
            "app",
            "external_host",
            "format",
            "transport",
            "encapsulation",
            "connection_type",
            "direction",
            "data"
        ]
    );
    assert_eq!(ExternalMediaRequest::endpoint_path(), "/channels/externalMedia");
}
