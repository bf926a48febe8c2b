//! Control of an Asterisk server through its REST interface (ARI).
//!
//! The controller says which requests to send, and decides on what comes back.
//! Sending them is left to the caller.

use crate::ari_external_media::{
    pair, pair_texts, request_query, Encapsulation, ExternalMediaRequest, RequestModel, Transport,
};
use crate::ari_url::{
    basic_auth, basic_auth_value, events_url, events_url_of, host_of, join_url, joined_url,
    media_url, media_url_of, parse_url, parsed_url, port_of, scheme_of, url_host, url_port,
    url_scheme, UrlError, UrlFault,
};
use crate::config::{Config, Timeout};
use crate::numeral::{decimal, decimal_string};
use crate::text::{
    after_leading, chars_of, lowercase, lowered, option_text, replace, replaced, same_chars,
    same_text, string_of, strip_leading,
};
use vstd::prelude::*;

verus! {

broadcast use vstd::string::group_string_axioms;

/// How often connecting to the events websocket is tried.
pub const EVENTS_MAX_RETRIES: u32 = 20;

/// The delay that is doubled before each further try, in milliseconds.
pub const EVENTS_BACKOFF_BASE_MS: u64 = 500;

/// The longest delay before a further try, in milliseconds.
pub const EVENTS_BACKOFF_CAP_MS: u64 = 5000;

/// How long the connection identifier of a media channel is waited for, in
/// seconds.
pub const CONNECTION_ID_TIMEOUT_SECS: u64 = 10;

/// How long to wait before a channel's state is queried again, in milliseconds.
pub const CHANNEL_POLL_MS: u64 = 150;

/// How long to wait before a channel variable is queried again, in milliseconds.
pub const VARIABLE_POLL_MS: u64 = 100;

/// The variable that holds the connection identifier of a media channel.
pub const CONNECTION_ID_VARIABLE: &'static str = "MEDIA_WEBSOCKET_CONNECTION_ID";

/// A media channel that is set up.
#[derive(Debug, Clone)]
pub struct MediaSetup {
    pub bridge_id: String,
    pub media_channel_id: String,
    pub media_websocket_url: String,
}

/// A call that is bridged with its media channel.
#[derive(Debug, Clone)]
pub struct ActiveCall {
    pub bridge_id: String,
    pub outbound_channel_id: String,
    pub media_channel_id: String,
}

/// The controller of an Asterisk server.
#[derive(Debug, Clone)]
pub struct AriController {
    pub base_url: String,
    pub username: String,
    pub password: String,
    pub dial_endpoint_template: String,
    pub originate_timeout: Timeout,
}

// --- Errors ---

/// Why something cannot be asked of the server, or did not come about.
#[derive(Debug, Clone, PartialEq, Eq)]
pub enum AriError {
    /// The base URL is no URL.
    InvalidBaseUrl(String),
    /// No URL can be made of this path.
    InvalidPath(String),
    /// The URL of the events websocket cannot be made.
    Events(UrlError),
    /// The URL of the media websocket cannot be made.
    Media(UrlError),
    /// This is no URL of a media websocket.
    InvalidMediaUrl(String),
    /// The media mode is not supported: transport, framing and connection type.
    UnsupportedMode(Transport, Encapsulation, String),
    /// The outbound channel with this identifier is gone.
    ChannelGone(String),
    /// The outbound channel with this identifier was not answered in time.
    ChannelTimedOut(String),
    /// A variable was not set in time: the variable and the channel.
    VariableTimedOut(String, String),
}

/// Why something cannot be asked of the server, with texts as sequences.
pub enum AriFault {
    InvalidBaseUrl(Seq<char>),
    InvalidPath(Seq<char>),
    Events(UrlFault),
    Media(UrlFault),
    InvalidMediaUrl(Seq<char>),
    UnsupportedMode(Transport, Encapsulation, Seq<char>),
    ChannelGone(Seq<char>),
    ChannelTimedOut(Seq<char>),
    VariableTimedOut(Seq<char>, Seq<char>),
}

impl View for AriError {
    type V = AriFault;

    open spec fn view(&self) -> AriFault {
        match self {
            AriError::InvalidBaseUrl(url) => AriFault::InvalidBaseUrl(url@),
            AriError::InvalidPath(path) => AriFault::InvalidPath(path@),
            AriError::Events(e) => AriFault::Events(e@),
            AriError::Media(e) => AriFault::Media(e@),
            AriError::InvalidMediaUrl(url) => AriFault::InvalidMediaUrl(url@),
            AriError::UnsupportedMode(t, e, c) => AriFault::UnsupportedMode(*t, *e, c@),
            AriError::ChannelGone(id) => AriFault::ChannelGone(id@),
            AriError::ChannelTimedOut(id) => AriFault::ChannelTimedOut(id@),
            AriError::VariableTimedOut(variable, id) => AriFault::VariableTimedOut(
                variable@,
                id@,
            ),
        }
    }
}

/// A fault of a websocket URL in words.
pub open spec fn url_fault_text(fault: UrlFault, socket: Seq<char>) -> Seq<char> {
    match fault {
        UrlFault::Scheme(scheme) => "unsupported ARI URL scheme for "@ + socket + " websocket: "@
            + scheme,
        UrlFault::NotConverted => "failed to convert ARI URL scheme to websocket"@,
        UrlFault::TooLong => "ARI URL is too long"@,
        UrlFault::NoHost => "ARI base URL has no host"@,
    }
}

/// A fault of a websocket URL in words.
fn url_error_text(e: &UrlError, socket: &str) -> (r: String)
    ensures
        r@ == url_fault_text(e@, socket@),
{
    match e {
        UrlError::Scheme(scheme) => {
            let mut r = String::from_str("unsupported ARI URL scheme for ");
            r.append(socket);
            r.append(" websocket: ");
            r.append(scheme.as_str());
            r
        },
        UrlError::NotConverted => String::from_str(
            "failed to convert ARI URL scheme to websocket",
        ),
        UrlError::TooLong => String::from_str("ARI URL is too long"),
        UrlError::NoHost => String::from_str("ARI base URL has no host"),
    }
}

impl AriFault {
    /// The fault in words.
    pub open spec fn text(self) -> Seq<char> {
        match self {
            AriFault::InvalidBaseUrl(url) => "invalid ARI URL "@ + url,
            AriFault::InvalidPath(path) => "failed to build ARI URL for path "@ + path,
            AriFault::Events(fault) => url_fault_text(fault, "events"@),
            AriFault::Media(fault) => url_fault_text(fault, "media"@),
            AriFault::InvalidMediaUrl(url) => "invalid media websocket URL: "@ + url,
            AriFault::UnsupportedMode(transport, encapsulation, connection_type) =>
                "unsupported media mode: expected websocket/none/server, got "@ + transport.name()
                + "/"@ + encapsulation.name() + "/"@ + connection_type,
            AriFault::ChannelGone(id) => "outbound channel "@ + id + " disappeared before answer"@,
            AriFault::ChannelTimedOut(id) => "timed out waiting for outbound channel "@ + id
                + " to reach Up state"@,
            AriFault::VariableTimedOut(variable, id) => "timed out waiting for variable "@
                + variable + " on channel "@ + id,
        }
    }
}

impl AriError {
    /// The error in words.
    pub fn message(&self) -> (r: String)
        ensures
            r@ == self@.text(),
    {
        match self {
            AriError::InvalidBaseUrl(url) => {
                let mut r = String::from_str("invalid ARI URL ");
                r.append(url.as_str());
                r
            },
            AriError::InvalidPath(path) => {
                let mut r = String::from_str("failed to build ARI URL for path ");
                r.append(path.as_str());
                r
            },
            AriError::Events(e) => url_error_text(e, "events"),
            AriError::Media(e) => url_error_text(e, "media"),
            AriError::InvalidMediaUrl(url) => {
                let mut r = String::from_str("invalid media websocket URL: ");
                r.append(url.as_str());
                r
            },
            AriError::UnsupportedMode(transport, encapsulation, connection_type) => {
                let mut r = String::from_str(
                    "unsupported media mode: expected websocket/none/server, got ",
                );
                r.append(transport.as_str());
                r.append("/");
                r.append(encapsulation.as_str());
                r.append("/");
                r.append(connection_type.as_str());
                r
            },
            AriError::ChannelGone(id) => {
                let mut r = String::from_str("outbound channel ");
                r.append(id.as_str());
                r.append(" disappeared before answer");
                r
            },
            AriError::ChannelTimedOut(id) => {
                let mut r = String::from_str("timed out waiting for outbound channel ");
                r.append(id.as_str());
                r.append(" to reach Up state");
                r
            },
            AriError::VariableTimedOut(variable, id) => {
                let mut r = String::from_str("timed out waiting for variable ");
                r.append(variable.as_str());
                r.append(" on channel ");
                r.append(id.as_str());
                r
            },
        }
    }
}

// --- The controller ---

/// A base URL that ends with a slash, so that paths are resolved below it.
pub open spec fn with_slash(url: Seq<char>) -> Seq<char> {
    if url.len() > 0 && url.last() == '/' {
        url
    } else {
        url.push('/')
    }
}

/// Whether a controller has the settings of a configuration, and this base URL.
pub open spec fn configured(c: AriController, cfg: Config, base_url: Seq<char>) -> bool {
    &&& c.base_url@ == base_url
    &&& c.username@ == cfg.ari_username@
    &&& c.password@ == cfg.ari_password@
    &&& c.dial_endpoint_template@ == cfg.ari_dial_endpoint_template@
    &&& c.originate_timeout == cfg.originate_timeout
}

impl AriController {
    /// A controller with the settings of a configuration, and a base URL.
    pub fn with_base_url(cfg: &Config, base_url: String) -> (r: AriController)
        ensures
            configured(r, *cfg, base_url@),
    {
        AriController {
            base_url,
            username: String::from_str(cfg.ari_username.as_str()),
            password: String::from_str(cfg.ari_password.as_str()),
            dial_endpoint_template: String::from_str(cfg.ari_dial_endpoint_template.as_str()),
            originate_timeout: cfg.originate_timeout,
        }
    }

    /// The controller of the server that a configuration names.
    pub fn from_config(cfg: &Config) -> (r: Result<AriController, AriError>)
        requires
            cfg.ari_base_url@.len() > 0,
            cfg.ari_username@.len() > 0,
        ensures
            match r {
                Ok(c) => {
                    &&& parsed_url(with_slash(cfg.ari_base_url@)) == Some(c.base_url@)
                    &&& configured(c, *cfg, c.base_url@)
                },
                Err(e) => {
                    &&& parsed_url(with_slash(cfg.ari_base_url@)) is None
                    &&& e@ == AriFault::InvalidBaseUrl(cfg.ari_base_url@)
                },
            },
    {
        let chars = chars_of(cfg.ari_base_url.as_str());
        let mut base = String::from_str(cfg.ari_base_url.as_str());
        if chars[chars.len() - 1] != '/' {
            base.push('/');
        }
        match parse_url(base.as_str()) {
            Some(base_url) => Ok(AriController::with_base_url(cfg, base_url)),
            None => Err(
                AriError::InvalidBaseUrl(String::from_str(cfg.ari_base_url.as_str())),
            ),
        }
    }

    /// The URL of a path below the base URL.
    pub fn path_url(&self, path: &str) -> (r: Result<String, AriError>)
        ensures
            match r {
                Ok(url) => joined_url(self.base_url@, after_leading(path@, '/')) == Some(url@),
                Err(e) => {
                    &&& joined_url(self.base_url@, after_leading(path@, '/')) is None
                    &&& e@ == AriFault::InvalidPath(path@)
                },
            },
    {
        let chars = chars_of(path);
        let tail = string_of(strip_leading(chars.as_slice(), '/'));
        match join_url(self.base_url.as_str(), tail.as_str()) {
            Some(url) => Ok(url),
            None => Err(AriError::InvalidPath(String::from_str(path))),
        }
    }

    /// The endpoint to dial for a dial string.
    pub fn endpoint_from_dial(&self, dial: &str) -> (r: String)
        ensures
            r@ == replaced(self.dial_endpoint_template@, "{dial}"@, dial@),
    {
        proof {
            reveal_strlit("{dial}");
        }
        let template = chars_of(self.dial_endpoint_template.as_str());
        let mark = chars_of("{dial}");
        let number = chars_of(dial);
        let endpoint = replace(template.as_slice(), mark.as_slice(), number.as_slice());
        string_of(endpoint.as_slice())
    }

    /// Checks that a media request asks for the one mode that is supported:
    /// unframed media over a websocket that the server offers.
    pub fn validate_media_mode(&self, media_req: &ExternalMediaRequest) -> (r: Result<(), AriError>)
        ensures
            match r {
                Ok(_) => supported_mode(media_req@),
                Err(e) => {
                    &&& !supported_mode(media_req@)
                    &&& e@ == AriFault::UnsupportedMode(
                        media_req.transport,
                        media_req.encapsulation,
                        media_req.connection_type@,
                    )
                },
            },
    {
        let connection = chars_of(media_req.connection_type.as_str());
        let is_server = same_chars(
            lowercase(connection.as_slice()).as_slice(),
            chars_of("server").as_slice(),
        );
        if media_req.transport == Transport::WebSocket && media_req.encapsulation
            == Encapsulation::Raw && is_server {
            Ok(())
        } else {
            Err(
                AriError::UnsupportedMode(
                    media_req.transport,
                    media_req.encapsulation,
                    String::from_str(media_req.connection_type.as_str()),
                ),
            )
        }
    }

    /// The URL of the media websocket with a given connection identifier.
    pub fn media_websocket_url(&self, connection_id: &str) -> (r: Result<String, AriError>)
        ensures
            match r {
                Ok(url) => media_socket(self.base_url@, connection_id@) == Ok::<Seq<char>, UrlFault>(
                    url@,
                ),
                Err(e) => e@ is Media && media_socket(self.base_url@, connection_id@) == Err::<
                    Seq<char>,
                    UrlFault,
                >(e@->Media_0),
            },
    {
        let scheme = scheme_of(self.base_url.as_str());
        let host = host_of(self.base_url.as_str());
        let port = port_of(self.base_url.as_str());
        match media_url(scheme, host, port, connection_id) {
            Ok(url) => Ok(url),
            Err(e) => Err(AriError::Media(e)),
        }
    }
}

/// The URL of a media websocket of the server with this base URL.
pub open spec fn media_socket(base_url: Seq<char>, connection_id: Seq<char>) -> Result<
    Seq<char>,
    UrlFault,
> {
    media_url_of(url_scheme(base_url), url_host(base_url), url_port(base_url), connection_id)
}

/// Whether a media request asks for the supported mode.
pub open spec fn supported_mode(r: RequestModel) -> bool {
    &&& r.transport is WebSocket
    &&& r.encapsulation is Raw
    &&& lowered(r.connection_type) == "server"@
}

// --- Websocket requests ---

/// A websocket upgrade request.
#[derive(Debug, Clone)]
pub struct SocketRequest {
    pub uri: String,
    pub headers: Vec<(String, String)>,
}

/// The headers of a websocket upgrade request. `key` is the nonce of the
/// handshake.
pub open spec fn upgrade_headers(
    auth: Seq<char>,
    host: Option<Seq<char>>,
    protocol: Option<Seq<char>>,
    key: Seq<char>,
) -> Seq<(Seq<char>, Seq<char>)> {
    seq![
        ("Authorization"@, auth),
        (
            "Host"@,
            match host {
                Some(host) => host,
                None => "localhost"@,
            },
        ),
        ("Connection"@, "Upgrade"@),
        ("Upgrade"@, "websocket"@),
    ] + (match protocol {
        Some(protocol) => seq![("Sec-WebSocket-Protocol"@, protocol)],
        None => Seq::empty(),
    }) + seq![("Sec-WebSocket-Key"@, key), ("Sec-WebSocket-Version"@, "13"@)]
}

/// Writes the headers of a websocket upgrade request.
pub fn socket_headers(
    auth: &str,
    host: Option<String>,
    protocol: Option<String>,
    key: &str,
) -> (headers: Vec<(String, String)>)
    ensures
        pair_texts(headers@) == upgrade_headers(
            auth@,
            option_text(host),
            option_text(protocol),
            key@,
        ),
{
    let mut headers: Vec<(String, String)> = Vec::new();
    headers.push(pair("Authorization", auth));
    match &host {
        Some(host) => headers.push(pair("Host", host.as_str())),
        None => headers.push(pair("Host", "localhost")),
    }
    headers.push(pair("Connection", "Upgrade"));
    headers.push(pair("Upgrade", "websocket"));
    if let Some(protocol) = &protocol {
        headers.push(pair("Sec-WebSocket-Protocol", protocol.as_str()));
    }
    headers.push(pair("Sec-WebSocket-Key", key));
    headers.push(pair("Sec-WebSocket-Version", "13"));
    assert(pair_texts(headers@) =~= upgrade_headers(
        auth@,
        option_text(host),
        option_text(protocol),
        key@,
    ));
    headers
}

impl AriController {
    /// The request that opens the events websocket of an application, which
    /// registers the application with the server.
    pub fn connect_events(&self, app: &str, key: &str) -> (r: Result<SocketRequest, AriError>)
        ensures
            match joined_url(self.base_url@, "events"@) {
                None => r is Err && r->Err_0@ == AriFault::InvalidPath("/events"@),
                Some(url) => match events_url_of(url, app@) {
                    Err(fault) => r is Err && r->Err_0@ == AriFault::Events(fault),
                    Ok(uri) => {
                        &&& r is Ok
                        &&& r->Ok_0.uri@ == uri
                        &&& pair_texts(r->Ok_0.headers@) == upgrade_headers(
                            basic_auth_value(self.username@, self.password@),
                            url_host(uri),
                            None,
                            key@,
                        )
                    },
                },
            },
    {
        proof {
            reveal_strlit("/events");
            reveal_strlit("events");
            assert("/events"@.skip(1) =~= "events"@);
            reveal_with_fuel(after_leading, 3);
        }
        let url = match self.path_url("/events") {
            Ok(url) => url,
            Err(e) => {
                return Err(e);
            },
        };
        let uri = match events_url(url.as_str(), app) {
            Ok(uri) => uri,
            Err(e) => {
                return Err(AriError::Events(e));
            },
        };
        let auth = basic_auth(self.username.as_str(), self.password.as_str());
        let headers = socket_headers(auth.as_str(), host_of(uri.as_str()), None, key);
        Ok(SocketRequest { uri, headers })
    }

    /// The request that opens a media websocket.
    pub fn connect_media_websocket(&self, url: &str, key: &str) -> (r: Result<
        SocketRequest,
        AriError,
    >)
        requires
            url@.len() > 0,
        ensures
            match parsed_url(url@) {
                None => r is Err && r->Err_0@ == AriFault::InvalidMediaUrl(url@),
                Some(uri) => {
                    &&& r is Ok
                    &&& r->Ok_0.uri@ == uri
                    &&& pair_texts(r->Ok_0.headers@) == upgrade_headers(
                        basic_auth_value(self.username@, self.password@),
                        url_host(uri),
                        Some("media"@),
                        key@,
                    )
                },
            },
    {
        let uri = match parse_url(url) {
            Some(uri) => uri,
            None => {
                return Err(AriError::InvalidMediaUrl(String::from_str(url)));
            },
        };
        let auth = basic_auth(self.username.as_str(), self.password.as_str());
        let headers = socket_headers(
            auth.as_str(),
            host_of(uri.as_str()),
            Some(String::from_str("media")),
            key,
        );
        Ok(SocketRequest { uri, headers })
    }
}

/// Two to the power of `n`.
pub open spec fn power_of_two(n: nat) -> nat
    decreases n,
{
    if n == 0 {
        1
    } else {
        2 * power_of_two((n - 1) as nat)
    }
}

/// The delay after a number of failed tries: it doubles with each, up to a cap.
pub open spec fn backoff_ms(attempt: nat) -> nat {
    let delay = EVENTS_BACKOFF_BASE_MS as nat * power_of_two(
        if attempt <= 10 {
            attempt
        } else {
            10
        },
    );
    if delay <= EVENTS_BACKOFF_CAP_MS {
        delay
    } else {
        EVENTS_BACKOFF_CAP_MS as nat
    }
}

/// Powers of two grow.
proof fn lemma_power_grows(m: nat, n: nat)
    requires
        m <= n,
    ensures
        0 < power_of_two(m) <= power_of_two(n),
    decreases n,
{
    if m < n {
        lemma_power_grows(m, (n - 1) as nat);
    } else if n > 0 {
        lemma_power_grows((n - 1) as nat, (n - 1) as nat);
    }
}

/// The delay before the next try to connect to the events websocket, after so
/// many failed tries; none where no further try is made.
pub fn events_retry_delay_ms(attempt: u32) -> (r: Option<u64>)
    ensures
        match r {
            Some(delay) => attempt < EVENTS_MAX_RETRIES && delay == backoff_ms(attempt as nat),
            None => attempt >= EVENTS_MAX_RETRIES,
        },
{
    if attempt >= EVENTS_MAX_RETRIES {
        return None;
    }
    let shift: u32 = if attempt <= 10 {
        attempt
    } else {
        10
    };
    let mut delay: u64 = EVENTS_BACKOFF_BASE_MS;
    let mut i: u32 = 0;
    proof {
        reveal_with_fuel(power_of_two, 11);
    }
    while i < shift
        invariant
            i <= shift <= 10,
            delay == EVENTS_BACKOFF_BASE_MS as nat * power_of_two(i as nat),
            delay <= 512000,
            power_of_two(10) == 1024,
        decreases shift - i,
    {
        proof {
            lemma_power_grows((i + 1) as nat, 10);
        }
        delay = 2 * delay;
        i += 1;
    }
    Some(
        if delay <= EVENTS_BACKOFF_CAP_MS {
            delay
        } else {
            EVENTS_BACKOFF_CAP_MS
        },
    )
}

// --- REST requests ---

/// The method of a REST request.
#[derive(Debug, Clone, Copy, PartialEq, Eq)]
pub enum Method {
    Get,
    Post,
    Delete,
}

/// A REST request. It is sent with the controller's credentials.
#[derive(Debug, Clone)]
pub struct RestRequest {
    pub method: Method,
    pub url: String,
    pub query: Vec<(String, String)>,
}

/// A REST request, with texts as sequences.
pub struct RestModel {
    pub method: Method,
    pub url: Seq<char>,
    pub query: Seq<(Seq<char>, Seq<char>)>,
}

impl View for RestRequest {
    type V = RestModel;

    open spec fn view(&self) -> RestModel {
        RestModel { method: self.method, url: self.url@, query: pair_texts(self.query@) }
    }
}

/// A request, or why there is none, with texts as sequences.
pub open spec fn attempt(r: Result<RestRequest, AriError>) -> Result<RestModel, AriFault> {
    match r {
        Ok(request) => Ok(request@),
        Err(e) => Err(e@),
    }
}

/// The request to a path below the base URL.
pub open spec fn rest_request(
    base_url: Seq<char>,
    method: Method,
    path: Seq<char>,
    query: Seq<(Seq<char>, Seq<char>)>,
) -> Result<RestModel, AriFault> {
    match joined_url(base_url, after_leading(path, '/')) {
        Some(url) => Ok(RestModel { method, url, query }),
        None => Err(AriFault::InvalidPath(path)),
    }
}

/// The path of a channel.
pub open spec fn channel_path(channel_id: Seq<char>) -> Seq<char> {
    "/channels/"@ + channel_id
}

/// The path of a bridge.
pub open spec fn bridge_path(bridge_id: Seq<char>) -> Seq<char> {
    "/bridges/"@ + bridge_id
}

/// The path of a channel.
fn path_of_channel(channel_id: &str) -> (r: String)
    ensures
        r@ == channel_path(channel_id@),
{
    let mut r = String::from_str("/channels/");
    r.append(channel_id);
    r
}

/// The path of a bridge.
fn path_of_bridge(bridge_id: &str) -> (r: String)
    ensures
        r@ == bridge_path(bridge_id@),
{
    let mut r = String::from_str("/bridges/");
    r.append(bridge_id);
    r
}

impl AriController {
    /// The request to a path below the base URL.
    fn rest(&self, method: Method, path: &str, query: Vec<(String, String)>) -> (r: Result<
        RestRequest,
        AriError,
    >)
        ensures
            attempt(r) == rest_request(self.base_url@, method, path@, pair_texts(query@)),
    {
        match self.path_url(path) {
            Ok(url) => Ok(RestRequest { method, url, query }),
            Err(e) => Err(e),
        }
    }

    /// The request that creates a mixing bridge.
    pub fn create_bridge(&self, bridge_id: &str) -> (r: Result<RestRequest, AriError>)
        ensures
            attempt(r) == rest_request(
                self.base_url@,
                Method::Post,
                "/bridges"@,
                seq![("type"@, "mixing,proxy_media"@), ("bridgeId"@, bridge_id@)],
            ),
    {
        let mut query: Vec<(String, String)> = Vec::new();
        query.push(pair("type", "mixing,proxy_media"));
        query.push(pair("bridgeId", bridge_id));
        assert(pair_texts(query@) =~= seq![
            ("type"@, "mixing,proxy_media"@),
            ("bridgeId"@, bridge_id@),
        ]);
        self.rest(Method::Post, "/bridges", query)
    }

    /// The request that creates an external media channel.
    pub fn create_external_media(
        &self,
        channel_id: &str,
        media_req: &ExternalMediaRequest,
    ) -> (r: Result<RestRequest, AriError>)
        ensures
            attempt(r) == rest_request(
                self.base_url@,
                Method::Post,
                "/channels/externalMedia"@,
                request_query(media_req@).push(("channelId"@, channel_id@)),
            ),
    {
        let mut query = media_req.query_pairs();
        query.push(pair("channelId", channel_id));
        assert(pair_texts(query@) =~= request_query(media_req@).push(
            ("channelId"@, channel_id@),
        ));
        self.rest(Method::Post, ExternalMediaRequest::endpoint_path(), query)
    }

    /// The request that creates an outbound channel.
    pub fn create_outbound(&self, dial: &str, channel_id: &str, app: &str) -> (r: Result<
        RestRequest,
        AriError,
    >)
        ensures
            attempt(r) == rest_request(
                self.base_url@,
                Method::Post,
                "/channels/create"@,
                seq![
                    ("endpoint"@, replaced(self.dial_endpoint_template@, "{dial}"@, dial@)),
                    ("app"@, app@),
                    ("channelId"@, channel_id@),
                    ("appArgs"@, dial@),
                ],
            ),
    {
        let endpoint = self.endpoint_from_dial(dial);
        let mut query: Vec<(String, String)> = Vec::new();
        query.push(pair("endpoint", endpoint.as_str()));
        query.push(pair("app", app));
        query.push(pair("channelId", channel_id));
        query.push(pair("appArgs", dial));
        assert(pair_texts(query@) =~= seq![
            ("endpoint"@, endpoint@),
            ("app"@, app@),
            ("channelId"@, channel_id@),
            ("appArgs"@, dial@),
        ]);
        self.rest(Method::Post, "/channels/create", query)
    }

    /// The request that dials an outbound channel.
    pub fn dial_outbound(&self, channel_id: &str) -> (r: Result<RestRequest, AriError>)
        ensures
            attempt(r) == rest_request(
                self.base_url@,
                Method::Post,
                channel_path(channel_id@) + "/dial"@,
                seq![("timeout"@, decimal(self.originate_timeout.secs as nat))],
            ),
    {
        let timeout = decimal_string(self.originate_timeout.as_secs() as u128);
        let mut query: Vec<(String, String)> = Vec::new();
        query.push(pair("timeout", timeout.as_str()));
        assert(pair_texts(query@) =~= seq![("timeout"@, timeout@)]);
        let mut path = path_of_channel(channel_id);
        path.append("/dial");
        self.rest(Method::Post, path.as_str(), query)
    }

    /// The request that puts two channels into a bridge.
    pub fn add_channels_to_bridge(&self, bridge_id: &str, first: &str, second: &str) -> (r: Result<
        RestRequest,
        AriError,
    >)
        ensures
            attempt(r) == rest_request(
                self.base_url@,
                Method::Post,
                bridge_path(bridge_id@) + "/addChannel"@,
                seq![("channel"@, first@ + ","@ + second@)],
            ),
    {
        let mut both = String::from_str(first);
        both.append(",");
        both.append(second);
        let mut query: Vec<(String, String)> = Vec::new();
        query.push(pair("channel", both.as_str()));
        assert(pair_texts(query@) =~= seq![("channel"@, both@)]);
        let mut path = path_of_bridge(bridge_id);
        path.append("/addChannel");
        self.rest(Method::Post, path.as_str(), query)
    }

    /// The request that queries the state of a channel.
    pub fn get_channel_state(&self, channel_id: &str) -> (r: Result<RestRequest, AriError>)
        ensures
            attempt(r) == rest_request(
                self.base_url@,
                Method::Get,
                channel_path(channel_id@),
                Seq::empty(),
            ),
    {
        let query: Vec<(String, String)> = Vec::new();
        assert(pair_texts(query@) =~= Seq::empty());
        self.rest(Method::Get, path_of_channel(channel_id).as_str(), query)
    }

    /// The request that queries a variable of a channel.
    pub fn get_channel_variable(&self, channel_id: &str, variable: &str) -> (r: Result<
        RestRequest,
        AriError,
    >)
        ensures
            attempt(r) == rest_request(
                self.base_url@,
                Method::Get,
                channel_path(channel_id@) + "/variable"@,
                seq![("variable"@, variable@)],
            ),
    {
        let mut query: Vec<(String, String)> = Vec::new();
        query.push(pair("variable", variable));
        assert(pair_texts(query@) =~= seq![("variable"@, variable@)]);
        let mut path = path_of_channel(channel_id);
        path.append("/variable");
        self.rest(Method::Get, path.as_str(), query)
    }

    /// The request that hangs up a channel.
    pub fn hangup_channel(&self, channel_id: &str) -> (r: Result<RestRequest, AriError>)
        ensures
            attempt(r) == rest_request(
                self.base_url@,
                Method::Delete,
                channel_path(channel_id@),
                Seq::empty(),
            ),
    {
        let query: Vec<(String, String)> = Vec::new();
        assert(pair_texts(query@) =~= Seq::empty());
        self.rest(Method::Delete, path_of_channel(channel_id).as_str(), query)
    }

    /// The request that destroys a bridge.
    pub fn destroy_bridge(&self, bridge_id: &str) -> (r: Result<RestRequest, AriError>)
        ensures
            attempt(r) == rest_request(
                self.base_url@,
                Method::Delete,
                bridge_path(bridge_id@),
                Seq::empty(),
            ),
    {
        let query: Vec<(String, String)> = Vec::new();
        assert(pair_texts(query@) =~= Seq::empty());
        self.rest(Method::Delete, path_of_bridge(bridge_id).as_str(), query)
    }
}

// --- Replies ---

/// What the status of a reply to a query means.
#[derive(Debug, Clone, Copy, PartialEq, Eq, Structural)]
pub enum Lookup {
    /// There is no such thing.
    Missing,
    /// The server refused the query.
    Failed,
    /// The reply holds what was asked for.
    Found,
}

/// What the status of a reply to a query means.
pub open spec fn lookup_of(status: nat) -> Lookup {
    if status == 404 {
        Lookup::Missing
    } else if 400 <= status < 600 {
        Lookup::Failed
    } else {
        Lookup::Found
    }
}

/// Whether the status of a reply says that something is gone.
pub open spec fn gone(status: nat) -> bool {
    status == 404 || 200 <= status < 300
}

/// Whether a wait has taken longer than it may.
pub open spec fn overdue(elapsed_nanos: nat, timeout: Timeout) -> bool {
    elapsed_nanos > 1000000 * timeout.total_millis()
}

/// Reads the status of a reply to a query.
pub fn lookup(status: u16) -> (r: Lookup)
    ensures
        r == lookup_of(status as nat),
        r == (if status == 404 {
            Lookup::Missing
        } else if 400 <= status < 600 {
            Lookup::Failed
        } else {
            Lookup::Found
        }),
{
    if status == 404 {
        Lookup::Missing
    } else if 400 <= status && status < 600 {
        Lookup::Failed
    } else {
        Lookup::Found
    }
}

/// Whether a reply says that something is gone: it was removed, or was not there
/// any more.
pub fn is_cleaned_up(status: u16) -> (r: bool)
    ensures
        r == (status == 404 || 200 <= status < 300),
        r == gone(status as nat),
{
    status == 404 || (200 <= status && status < 300)
}

/// The value of a variable that is set. An empty value counts as not set.
pub open spec fn set_value(value: Option<Seq<char>>) -> Option<Seq<char>> {
    match value {
        Some(value) if value.len() > 0 => Some(value),
        _ => None,
    }
}

/// The value of a variable that is set. An empty value counts as not set.
pub fn variable_value(value: Option<String>) -> (r: Option<String>)
    ensures
        option_text(r) == (match value {
            Some(value) if value@.len() > 0 => Some(value@),
            _ => None,
        }),
        option_text(r) == set_value(option_text(value)),
{
    match value {
        Some(value) => {
            if same_text(value.as_str(), "") {
                proof {
                    reveal_strlit("");
                }
                None
            } else {
                proof {
                    reveal_strlit("");
                    assert(value@.len() == 0 ==> value@ =~= ""@);
                }
                Some(value)
            }
        },
        None => None,
    }
}

/// What to do while an outbound channel is not answered.
#[derive(Debug)]
pub enum ChannelWait {
    /// The channel is answered.
    Up,
    /// Query the state again after a pause.
    Again,
    /// The wait has failed.
    Fail(AriError),
}

/// Whether a channel state is the answered one.
pub open spec fn is_up(state: Seq<char>) -> bool {
    lowered(state) == "up"@
}

/// Decides on the state of an outbound channel; none means that the channel is
/// gone.
pub fn wait_channel_up(channel_id: &str, state: Option<&str>) -> (r: ChannelWait)
    ensures
        match state {
            Some(state) => if is_up(state@) {
                r is Up
            } else {
                r is Again
            },
            None => r is Fail && r->Fail_0@ == AriFault::ChannelGone(channel_id@),
        },
{
    match state {
        Some(state) => {
            let chars = chars_of(state);
            if same_chars(lowercase(chars.as_slice()).as_slice(), chars_of("up").as_slice()) {
                ChannelWait::Up
            } else {
                ChannelWait::Again
            }
        },
        None => ChannelWait::Fail(AriError::ChannelGone(String::from_str(channel_id))),
    }
}

/// The error of an outbound channel that has been waited for too long, if it
/// has.
pub fn channel_overdue(channel_id: &str, elapsed_nanos: u128, timeout: &Timeout) -> (r: Option<
    AriError,
>)
    ensures
        match r {
            Some(e) => {
                &&& elapsed_nanos > 1000000 * timeout.total_millis()
                &&& e@ == AriFault::ChannelTimedOut(channel_id@)
            },
            None => elapsed_nanos <= 1000000 * timeout.total_millis(),
        },
        r is Some <==> overdue(elapsed_nanos as nat, *timeout),
{
    if timeout.covers(elapsed_nanos) {
        None
    } else {
        Some(AriError::ChannelTimedOut(String::from_str(channel_id)))
    }
}

/// The error of a variable that has been waited for too long, if it has.
pub fn variable_overdue(
    channel_id: &str,
    variable: &str,
    elapsed_nanos: u128,
    timeout: &Timeout,
) -> (r: Option<AriError>)
    ensures
        match r {
            Some(e) => {
                &&& elapsed_nanos > 1000000 * timeout.total_millis()
                &&& e@ == AriFault::VariableTimedOut(variable@, channel_id@)
            },
            None => elapsed_nanos <= 1000000 * timeout.total_millis(),
        },
        r is Some <==> overdue(elapsed_nanos as nat, *timeout),
{
    if timeout.covers(elapsed_nanos) {
        None
    } else {
        Some(
            AriError::VariableTimedOut(String::from_str(variable), String::from_str(channel_id)),
        )
    }
}

// --- Laws ---

/// The pauses between tries to connect begin with half a second and double up to
/// five seconds.
pub proof fn law_backoff(n: nat)
    ensures
        backoff_ms(0) == 500,
        backoff_ms(n + 1) == (if 2 * backoff_ms(n) <= 5000 {
            2 * backoff_ms(n)
        } else {
            5000
        }),
{
    reveal_with_fuel(power_of_two, 6);
    if n >= 4 {
        lemma_power_grows(4, if n <= 10 {
            n
        } else {
            10
        });
        lemma_power_grows(4, if n + 1 <= 10 {
            n + 1
        } else {
            10
        });
    }
}

/// A base URL ends with one slash more than before, unless it ended with one.
pub proof fn law_with_slash(url: Seq<char>)
    ensures
        with_slash(url.push('/')) == url.push('/'),
        url.len() == 0 || url.last() != '/' ==> with_slash(url) == url.push('/'),
        with_slash(with_slash(url)) == with_slash(url),
{
}

/// Requests go to paths below the base URL, however many slashes a path begins
/// with; their method and query are sent as given.
pub proof fn law_rest_request(
    base_url: Seq<char>,
    method: Method,
    n: nat,
    path: Seq<char>,
    query: Seq<(Seq<char>, Seq<char>)>,
)
    requires
        path.len() > 0 ==> path[0] != '/',
    ensures
        ({
            let slashed = Seq::new(n, |i: int| '/') + path;
            rest_request(base_url, method, slashed, query) == (match joined_url(base_url, path) {
                Some(url) => Ok::<RestModel, AriFault>(RestModel { method, url, query }),
                None => Err(AriFault::InvalidPath(slashed)),
            })
        }),
{
    crate::text::law_after_leading(n, '/', path);
}

/// Channels and bridges have paths of their own, by their identifiers.
pub proof fn law_paths(id: Seq<char>, other: Seq<char>)
    ensures
        channel_path(id) == "/channels/"@ + id,
        bridge_path(id) == "/bridges/"@ + id,
        channel_path(id) == channel_path(other) ==> id == other,
        bridge_path(id) == bridge_path(other) ==> id == other,
        channel_path(id) != bridge_path(other),
{
    reveal_strlit("/channels/");
    reveal_strlit("/bridges/");
    assert(channel_path(id).skip(10) =~= id && channel_path(other).skip(10) =~= other);
    assert(bridge_path(id).skip(9) =~= id && bridge_path(other).skip(9) =~= other);
    assert(channel_path(id)[1] == 'c' && bridge_path(other)[1] == 'b');
}

/// A websocket is asked for with credentials, a host, the upgrade, the nonce of
/// the handshake and version 13, and with a protocol only where there is one.
pub proof fn law_upgrade_headers(
    auth: Seq<char>,
    host: Option<Seq<char>>,
    protocol: Option<Seq<char>>,
    key: Seq<char>,
)
    ensures
        ({
            let h = upgrade_headers(auth, host, protocol, key);
            &&& h.contains(("Authorization"@, auth))
            &&& h.contains(
                (
                    "Host"@,
                    if host is Some {
                        host->0
                    } else {
                        "localhost"@
                    },
                ),
            )
            &&& h.contains(("Connection"@, "Upgrade"@))
            &&& h.contains(("Upgrade"@, "websocket"@))
            &&& h.contains(("Sec-WebSocket-Key"@, key))
            &&& h.contains(("Sec-WebSocket-Version"@, "13"@))
            &&& protocol matches Some(p) ==> h.contains(("Sec-WebSocket-Protocol"@, p))
            &&& h.len() == (if protocol is Some {
                7int
            } else {
                6
            })
        }),
{
    let h = upgrade_headers(auth, host, protocol, key);
    let n = h.len() as int;
    assert(h[0] == ("Authorization"@, auth));
    assert(h[1].0 == "Host"@);
    assert(h[2] == ("Connection"@, "Upgrade"@));
    assert(h[3] == ("Upgrade"@, "websocket"@));
    assert(h[n - 2] == ("Sec-WebSocket-Key"@, key));
    assert(h[n - 1] == ("Sec-WebSocket-Version"@, "13"@));
    if let Some(p) = protocol {
        assert(h[4] == ("Sec-WebSocket-Protocol"@, p));
    }
}

/// One mode of media is supported: bare media over a websocket that the server
/// offers, however `server` is written.
pub proof fn law_supported_mode(r: RequestModel, word: Seq<char>)
    requires
        r.connection_type == word,
    ensures
        supported_mode(r) <==> r.transport is WebSocket && r.encapsulation is Raw && lowered(word)
            == seq!['s', 'e', 'r', 'v', 'e', 'r'],
{
    reveal_strlit("server");
    assert("server"@ =~= seq!['s', 'e', 'r', 'v', 'e', 'r']);
}

/// A channel is answered when its state is `Up`, in any letter case.
pub proof fn law_up(state: Seq<char>)
    ensures
        is_up(state) <==> lowered(state) == seq!['u', 'p'],
{
    reveal_strlit("up");
    assert("up"@ =~= seq!['u', 'p']);
}

/// Not found is not refused: of the statuses that tell an error, 404 alone means
/// that there is nothing to find, and it means as much as success where something
/// was to be removed.
pub proof fn law_statuses(status: nat)
    ensures
        lookup_of(status) is Missing <==> status == 404,
        lookup_of(status) is Failed <==> 400 <= status <= 599 && status != 404,
        lookup_of(status) is Found <==> status <= 399 || status >= 600,
        gone(status) <==> status == 404 || 200 <= status <= 299,
{
}

/// A wait may take as long as its limit, to the nanosecond, and no longer.
pub proof fn law_overdue(elapsed_nanos: nat, timeout: Timeout)
    ensures
        overdue(elapsed_nanos, timeout) <==> elapsed_nanos > 1000000000 * timeout.secs + 1000000
            * timeout.millis,
{
}

/// A variable is set if its value has any character, and then that is its value.
pub proof fn law_set_value(first: char, rest: Seq<char>)
    ensures
        set_value(Some(seq![first] + rest)) == Some(seq![first] + rest),
        set_value(Some(Seq::empty())) is None,
        set_value(None) is None,
{
}

/// What failed is told with what it failed on, in the same words whatever that is.
pub proof fn law_subject_told(a: Seq<char>, b: Seq<char>)
    ensures
        exists|p: Seq<char>|
            AriFault::InvalidBaseUrl(a).text() == #[trigger] (p + a) && AriFault::InvalidBaseUrl(
                b,
            ).text() == #[trigger] (p + b),
        exists|p: Seq<char>|
            AriFault::InvalidPath(a).text() == #[trigger] (p + a) && AriFault::InvalidPath(
                b,
            ).text() == #[trigger] (p + b),
        exists|p: Seq<char>|
            AriFault::InvalidMediaUrl(a).text() == #[trigger] (p + a)
                && AriFault::InvalidMediaUrl(b).text() == #[trigger] (p + b),
        exists|p: Seq<char>, q: Seq<char>|
            AriFault::ChannelGone(a).text() == #[trigger] (p + a + q) && AriFault::ChannelGone(
                b,
            ).text() == #[trigger] (p + b + q),
        exists|p: Seq<char>, q: Seq<char>|
            AriFault::ChannelTimedOut(a).text() == #[trigger] (p + a + q)
                && AriFault::ChannelTimedOut(b).text() == #[trigger] (p + b + q),
        exists|p: Seq<char>, q: Seq<char>|
            AriFault::VariableTimedOut(a, b).text() == #[trigger] (p + a + q + b)
                && AriFault::VariableTimedOut(b, a).text() == #[trigger] (p + b + q + a),
{
    let p = "invalid ARI URL "@;
    assert(AriFault::InvalidBaseUrl(a).text() == p + a);
    assert(AriFault::InvalidBaseUrl(b).text() == p + b);
    let p = "failed to build ARI URL for path "@;
    assert(AriFault::InvalidPath(a).text() == p + a);
    assert(AriFault::InvalidPath(b).text() == p + b);
    let p = "invalid media websocket URL: "@;
    assert(AriFault::InvalidMediaUrl(a).text() == p + a);
    assert(AriFault::InvalidMediaUrl(b).text() == p + b);
    let p = "outbound channel "@;
    let q = " disappeared before answer"@;
    assert(AriFault::ChannelGone(a).text() == p + a + q);
    assert(AriFault::ChannelGone(b).text() == p + b + q);
    let p = "timed out waiting for outbound channel "@;
    let q = " to reach Up state"@;
    assert(AriFault::ChannelTimedOut(a).text() == p + a + q);
    assert(AriFault::ChannelTimedOut(b).text() == p + b + q);
    let p = "timed out waiting for variable "@;
    let q = " on channel "@;
    assert(AriFault::VariableTimedOut(a, b).text() == p + a + q + b);
    assert(AriFault::VariableTimedOut(b, a).text() == p + b + q + a);
}

/// The pauses between queries, in milliseconds, and how long and how often the
/// server is tried.
pub proof fn law_pauses()
    ensures
        CHANNEL_POLL_MS == 150,
        VARIABLE_POLL_MS == 100,
        CONNECTION_ID_TIMEOUT_SECS == 10,
        EVENTS_MAX_RETRIES == 20,
{
}

/// A configured controller asks with the credentials of the configuration, and
/// dials the endpoint that the configuration describes, for as long as it says.
pub proof fn law_configured(c: AriController, cfg: Config, base_url: Seq<char>, dial: Seq<char>)
    requires
        configured(c, cfg, base_url),
    ensures
        c.base_url@ == base_url,
        basic_auth_value(c.username@, c.password@) == basic_auth_value(
            cfg.ari_username@,
            cfg.ari_password@,
        ),
        replaced(c.dial_endpoint_template@, "{dial}"@, dial) == replaced(
            cfg.ari_dial_endpoint_template@,
            "{dial}"@,
            dial,
        ),
        c.originate_timeout.total_millis() == cfg.originate_timeout.total_millis(),
{
}

/// A mode that is not supported is told as it is: its transport, its framing and
/// its connection type.
pub proof fn law_mode_told(transport: Transport, encapsulation: Encapsulation, connection: Seq<char>)
    ensures
        AriFault::UnsupportedMode(transport, encapsulation, connection).text()
            == "unsupported media mode: expected websocket/none/server, got "@ + transport.name()
            + seq!['/'] + encapsulation.name() + seq!['/'] + connection,
{
    reveal_strlit("/");
    assert("/"@ =~= seq!['/']);
}

/// What is wrong with a websocket URL is told, and for an unsupported scheme also
/// which one and of which websocket.
pub proof fn law_url_faults_told(scheme: Seq<char>)
    ensures
        AriFault::Events(UrlFault::Scheme(scheme)).text()
            == "unsupported ARI URL scheme for events websocket: "@ + scheme,
        AriFault::Media(UrlFault::Scheme(scheme)).text()
            == "unsupported ARI URL scheme for media websocket: "@ + scheme,
        AriFault::Events(UrlFault::NotConverted).text()
            == "failed to convert ARI URL scheme to websocket"@,
        AriFault::Media(UrlFault::NoHost).text() == "ARI base URL has no host"@,
        AriFault::Events(UrlFault::TooLong).text() == "ARI URL is too long"@,
{
    reveal_strlit("unsupported ARI URL scheme for ");
    reveal_strlit("events");
    reveal_strlit("media");
    reveal_strlit(" websocket: ");
    reveal_strlit("unsupported ARI URL scheme for events websocket: ");
    reveal_strlit("unsupported ARI URL scheme for media websocket: ");
    assert("unsupported ARI URL scheme for "@ + "events"@ + " websocket: "@
        =~= "unsupported ARI URL scheme for events websocket: "@);
    assert("unsupported ARI URL scheme for "@ + "media"@ + " websocket: "@
        =~= "unsupported ARI URL scheme for media websocket: "@);
}

} // verus!
