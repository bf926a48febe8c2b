//! URLs and credentials of the ARI server.
//!
//! URLs are texts here. What it takes to read and change them comes from the
//! `url` crate.

use crate::numeral::{decimal, decimal_string};
use crate::text::{chars_of, index_of, lemma_next_index, option_text, same_text};
use base64::Engine;
use url::Url;
use vstd::prelude::*;
use vstd::utf8::encode_utf8;

verus! {

broadcast use vstd::string::group_string_axioms;

// --- Outside calls ---

/// The normal form of a text that is a URL.
pub uninterp spec fn parsed_url(text: Seq<char>) -> Option<Seq<char>>;

/// The scheme of a URL; empty for a text that is no URL.
pub uninterp spec fn url_scheme(url: Seq<char>) -> Seq<char>;

/// The host of a URL that has one.
pub uninterp spec fn url_host(url: Seq<char>) -> Option<Seq<char>>;

/// The port of a URL that names one other than its scheme's.
pub uninterp spec fn url_port(url: Seq<char>) -> Option<u16>;

/// A URL reference resolved against a base URL.
pub uninterp spec fn joined_url(base: Seq<char>, path: Seq<char>) -> Option<Seq<char>>;

/// A URL with another scheme.
pub uninterp spec fn with_scheme(url: Seq<char>, scheme: Seq<char>) -> Option<Seq<char>>;

/// A URL with a single pair as its query.
pub uninterp spec fn with_query(
    url: Seq<char>,
    key: Seq<char>,
    value: Seq<char>,
) -> Option<Seq<char>>;

/// `Url::parse`, with the URL as text. Whether the text is a URL, and its normal
/// form, depend on the text alone.
#[verifier::external_body]
pub(crate) fn parse_url(text: &str) -> (r: Option<String>)
    ensures
        option_text(r) == parsed_url(text@),
{
    Url::parse(text).ok().map(|url| url.to_string())
}

/// `Url::scheme` of the URL with this text. It depends on the text alone.
#[verifier::external_body]
pub(crate) fn scheme_of(url: &str) -> (r: String)
    ensures
        r@ == url_scheme(url@),
{
    Url::parse(url).map(|url| url.scheme().to_string()).unwrap_or_default()
}

/// `Url::host_str` of the URL with this text. It depends on the text alone.
#[verifier::external_body]
pub(crate) fn host_of(url: &str) -> (r: Option<String>)
    ensures
        option_text(r) == url_host(url@),
{
    Url::parse(url).ok().and_then(|url| url.host_str().map(|host| host.to_string()))
}

/// `Url::port` of the URL with this text. It depends on the text alone.
#[verifier::external_body]
pub(crate) fn port_of(url: &str) -> (r: Option<u16>)
    ensures
        r == url_port(url@),
{
    Url::parse(url).ok().and_then(|url| url.port())
}

/// `Url::join` of the URL with the text `base`. The result depends on the two
/// texts alone.
#[verifier::external_body]
pub(crate) fn join_url(base: &str, path: &str) -> (r: Option<String>)
    ensures
        option_text(r) == joined_url(base@, path@),
{
    Url::parse(base).and_then(|url| url.join(path)).ok().map(|url| url.to_string())
}

/// `Url::set_scheme` of the URL with this text, from HTTP to the websocket
/// scheme that goes with it. The result depends on the two texts alone.
#[verifier::external_body]
fn change_scheme(url: &str, scheme: &str) -> (r: Option<String>)
    requires
        Some(scheme@) == websocket_scheme(url_scheme(url@)),
    ensures
        option_text(r) == with_scheme(url@, scheme@),
{
    let mut changed = Url::parse(url).ok()?;
    changed.set_scheme(scheme).ok()?;
    Some(changed.to_string())
}

/// `Url::query_pairs_mut` of the URL with this text, cleared and then given one
/// pair. The result depends on the three texts alone. The URL has to be no longer
/// than a URL can be. Where it has a fragment, which goes behind the query, it has
/// to stay so with the pair, of which each byte may take three characters.
#[verifier::external_body]
fn set_query(url: &str, key: &str, value: &str) -> (r: Option<String>)
    requires
        parsed_url(url@) is Some,
        query_fits(parsed_url(url@)->0, key@, value@),
    ensures
        option_text(r) == with_query(url@, key@, value@),
{
    let mut changed = Url::parse(url).ok()?;
    changed.query_pairs_mut().clear().append_pair(key, value);
    Some(changed.to_string())
}

/// The characters of the standard Base64 alphabet.
pub open spec fn base64_char(n: int) -> char {
    "ABCDEFGHIJKLMNOPQRSTUVWXYZabcdefghijklmnopqrstuvwxyz0123456789+/"@[n]
}

/// Bytes in Base64 with padding: three bytes make four characters.
pub open spec fn base64_text(bytes: Seq<u8>) -> Seq<char>
    decreases bytes.len(),
{
    if bytes.len() == 0 {
        Seq::empty()
    } else {
        let (a, b, c) = (
            bytes[0] as int,
            if bytes.len() > 1 {
                bytes[1] as int
            } else {
                0
            },
            if bytes.len() > 2 {
                bytes[2] as int
            } else {
                0
            },
        );
        let four = seq![
            base64_char(a / 4),
            base64_char(16 * (a % 4) + b / 16),
            if bytes.len() > 1 {
                base64_char(4 * (b % 16) + c / 64)
            } else {
                '='
            },
            if bytes.len() > 2 {
                base64_char(c % 64)
            } else {
                '='
            },
        ];
        if bytes.len() <= 3 {
            four
        } else {
            four + base64_text(bytes.skip(3))
        }
    }
}

/// `base64::engine::general_purpose::STANDARD.encode`: the standard alphabet
/// with padding.
#[verifier::external_body]
fn base64_encode(bytes: &[u8]) -> (r: String)
    ensures
        r@ == base64_text(bytes@),
{
    base64::engine::general_purpose::STANDARD.encode(bytes)
}

// --- Schemes ---

/// The websocket scheme that goes with an HTTP scheme.
pub open spec fn websocket_scheme(scheme: Seq<char>) -> Option<Seq<char>> {
    if scheme == "http"@ {
        Some("ws"@)
    } else if scheme == "https"@ {
        Some("wss"@)
    } else {
        None
    }
}

/// The websocket scheme that goes with an HTTP scheme.
pub fn to_websocket(scheme: &str) -> (r: Option<&'static str>)
    ensures
        websocket_scheme(scheme@) == (match r {
            Some(r) => Some(r@),
            None => None,
        }),
{
    if same_text(scheme, "http") {
        Some("ws")
    } else if same_text(scheme, "https") {
        Some("wss")
    } else {
        None
    }
}

/// Why a websocket URL could not be made.
#[derive(Debug, Clone, PartialEq, Eq)]
pub enum UrlError {
    /// The scheme is neither HTTP nor HTTPS.
    Scheme(String),
    /// The URL does not take a websocket scheme.
    NotConverted,
    /// The URL would be too long.
    TooLong,
    /// The URL has no host.
    NoHost,
}

/// Why a websocket URL could not be made, with texts as sequences.
pub enum UrlFault {
    Scheme(Seq<char>),
    NotConverted,
    TooLong,
    NoHost,
}

impl View for UrlError {
    type V = UrlFault;

    open spec fn view(&self) -> UrlFault {
        match self {
            UrlError::Scheme(scheme) => UrlFault::Scheme(scheme@),
            UrlError::NotConverted => UrlFault::NotConverted,
            UrlError::TooLong => UrlFault::TooLong,
            UrlError::NoHost => UrlFault::NoHost,
        }
    }
}

// --- Websocket URLs ---

/// Whether a URL, given in its normal form, can get a pair as its query: it is no
/// longer than a URL can be, and, where it has a fragment, which has to be put
/// behind the query, stays so with the pair.
pub open spec fn query_fits(normal: Seq<char>, key: Seq<char>, value: Seq<char>) -> bool {
    &&& encode_utf8(normal).len() <= u32::MAX
    &&& normal.contains('#') ==> encode_utf8(normal).len() + 3 * encode_utf8(key).len() + 3
        * encode_utf8(value).len() + 2 <= u32::MAX
}

/// Whether a URL can get an application as its query.
fn app_fits(normal: &str, app: &str) -> (r: bool)
    ensures
        r == query_fits(normal@, "app"@, app@),
{
    let url_len: usize = normal.as_bytes().len();
    let key_len: usize = "app".as_bytes().len();
    let app_len: usize = app.as_bytes().len();
    if url_len as u128 > u32::MAX as u128 {
        return false;
    }
    let chars = chars_of(normal);
    let mark: usize = index_of(chars.as_slice(), '#', 0);
    proof {
        lemma_next_index(normal@, '#', 0);
    }
    if mark == chars.len() {
        assert(!normal@.contains('#'));
        return true;
    }
    assert(normal@[mark as int] == '#');
    url_len as u128 + 3 * (key_len as u128) + 3 * (app_len as u128) + 2 <= u32::MAX as u128
}

/// The URL of the events websocket of an application, from the URL of the
/// events resource.
pub open spec fn events_url_of(url: Seq<char>, app: Seq<char>) -> Result<Seq<char>, UrlFault> {
    match websocket_scheme(url_scheme(url)) {
        None => Err(UrlFault::Scheme(url_scheme(url))),
        Some(scheme) => match with_scheme(url, scheme) {
            None => Err(UrlFault::NotConverted),
            Some(converted) => match parsed_url(converted) {
                None => Err(UrlFault::NotConverted),
                Some(normal) => if !query_fits(normal, "app"@, app) {
                    Err(UrlFault::TooLong)
                } else {
                    match with_query(converted, "app"@, app) {
                        Some(r) => Ok(r),
                        None => Err(UrlFault::NotConverted),
                    }
                },
            },
        },
    }
}

/// Makes the URL of the events websocket of an application.
pub fn events_url(url: &str, app: &str) -> (r: Result<String, UrlError>)
    ensures
        match r {
            Ok(events) => events_url_of(url@, app@) == Ok::<Seq<char>, UrlFault>(events@),
            Err(e) => events_url_of(url@, app@) == Err::<Seq<char>, UrlFault>(e@),
        },
{
    let current = scheme_of(url);
    let scheme = match to_websocket(current.as_str()) {
        Some(scheme) => scheme,
        None => {
            return Err(UrlError::Scheme(current));
        },
    };
    let converted = match change_scheme(url, scheme) {
        Some(converted) => converted,
        None => {
            return Err(UrlError::NotConverted);
        },
    };
    let normal = match parse_url(converted.as_str()) {
        Some(normal) => normal,
        None => {
            return Err(UrlError::NotConverted);
        },
    };
    if !app_fits(normal.as_str(), app) {
        return Err(UrlError::TooLong);
    }
    match set_query(converted.as_str(), "app", app) {
        Some(events) => Ok(events),
        None => Err(UrlError::NotConverted),
    }
}

/// The port that an HTTP scheme stands for.
pub open spec fn scheme_port(scheme: Seq<char>) -> u16 {
    if scheme == "https"@ {
        443
    } else {
        80
    }
}

/// The URL of a media websocket, from the parts of the server's URL. It stands
/// under the root of the server, on the server's own port: the one that the URL
/// names, or else the one that its scheme stands for.
pub open spec fn media_url_of(
    scheme: Seq<char>,
    host: Option<Seq<char>>,
    port: Option<u16>,
    connection_id: Seq<char>,
) -> Result<Seq<char>, UrlFault> {
    match websocket_scheme(scheme) {
        None => Err(UrlFault::Scheme(scheme)),
        Some(ws) => match host {
            None => Err(UrlFault::NoHost),
            Some(host) => Ok(
                ws + "://"@ + host + ":"@ + decimal(
                    (match port {
                        Some(port) => port,
                        None => scheme_port(scheme),
                    }) as nat,
                ) + "/media/"@ + connection_id,
            ),
        },
    }
}

/// Makes the URL of a media websocket.
pub fn media_url(
    scheme: String,
    host: Option<String>,
    port: Option<u16>,
    connection_id: &str,
) -> (r: Result<String, UrlError>)
    ensures
        match r {
            Ok(url) => media_url_of(scheme@, option_text(host), port, connection_id@) == Ok::<
                Seq<char>,
                UrlFault,
            >(url@),
            Err(e) => media_url_of(scheme@, option_text(host), port, connection_id@) == Err::<
                Seq<char>,
                UrlFault,
            >(e@),
        },
{
    let ws = match to_websocket(scheme.as_str()) {
        Some(ws) => ws,
        None => {
            return Err(UrlError::Scheme(scheme));
        },
    };
    let host = match host {
        Some(host) => host,
        None => {
            return Err(UrlError::NoHost);
        },
    };
    let number: u16 = match port {
        Some(port) => port,
        None => if same_text(scheme.as_str(), "https") {
            443
        } else {
            80
        },
    };
    let mut url = String::from_str(ws);
    url.append("://");
    url.append(host.as_str());
    url.append(":");
    url.append(decimal_string(number as u128).as_str());
    url.append("/media/");
    url.append(connection_id);
    Ok(url)
}

// --- Credentials ---

/// The value of the header that carries credentials.
pub open spec fn basic_auth_value(username: Seq<char>, password: Seq<char>) -> Seq<char> {
    "Basic "@ + base64_text(encode_utf8(username + ":"@ + password))
}

/// Writes the value of the header that carries credentials.
pub fn basic_auth(username: &str, password: &str) -> (r: String)
    ensures
        r@ == basic_auth_value(username@, password@),
{
    let mut pair = String::from_str(username);
    pair.append(":");
    pair.append(password);
    let mut r = String::from_str("Basic ");
    r.append(base64_encode(pair.as_str().as_bytes()).as_str());
    r
}

// --- Laws ---

/// A media websocket is on the server's port whether or not the server's URL
/// names it: leaving out the scheme's own port is naming it.
pub proof fn law_own_port(scheme: Seq<char>, host: Option<Seq<char>>, connection_id: Seq<char>)
    ensures
        media_url_of(scheme, host, None, connection_id) == media_url_of(
            scheme,
            host,
            Some(scheme_port(scheme)),
            connection_id,
        ),
{
}

/// A websocket goes with HTTP, and a secure one with HTTPS; nothing else has one.
pub proof fn law_websocket_scheme(scheme: Seq<char>)
    ensures
        websocket_scheme(scheme) == (if scheme == seq!['h', 't', 't', 'p'] {
            Some(seq!['w', 's'])
        } else if scheme == seq!['h', 't', 't', 'p', 's'] {
            Some(seq!['w', 's', 's'])
        } else {
            None
        }),
{
    reveal_strlit("http");
    reveal_strlit("https");
    reveal_strlit("ws");
    reveal_strlit("wss");
    assert("http"@ =~= seq!['h', 't', 't', 'p']);
    assert("https"@ =~= seq!['h', 't', 't', 'p', 's']);
    assert("ws"@ =~= seq!['w', 's']);
    assert("wss"@ =~= seq!['w', 's', 's']);
}

/// The media websocket stands on the host and the port of the server, which is
/// port 80 for HTTP and 443 for HTTPS where none is named.
pub proof fn law_media_url(host: Seq<char>, port: Option<u16>, id: Seq<char>, scheme: Seq<char>)
    ensures
        ({
            let rest = |number: nat| host + seq![':'] + decimal(number) + "/media/"@ + id;
            &&& media_url_of("http"@, Some(host), port, id) == Ok::<Seq<char>, UrlFault>(
                "ws://"@ + rest(
                    match port {
                        Some(port) => port as nat,
                        None => 80,
                    },
                ),
            )
            &&& media_url_of("https"@, Some(host), port, id) == Ok::<Seq<char>, UrlFault>(
                "wss://"@ + rest(
                    match port {
                        Some(port) => port as nat,
                        None => 443,
                    },
                ),
            )
        }),
        scheme == "http"@ || scheme == "https"@ ==> media_url_of(scheme, None, port, id) == Err::<
            Seq<char>,
            UrlFault,
        >(UrlFault::NoHost),
        scheme != "http"@ && scheme != "https"@ ==> media_url_of(scheme, Some(host), port, id)
            == Err::<Seq<char>, UrlFault>(UrlFault::Scheme(scheme)),
{
    reveal_strlit("http");
    reveal_strlit("https");
    reveal_strlit("ws");
    reveal_strlit("wss");
    reveal_strlit("://");
    reveal_strlit("ws://");
    reveal_strlit("wss://");
    reveal_strlit(":");
    assert("http"@.len() != "https"@.len());
    assert(":"@ =~= seq![':']);
    let number: nat = match port {
        Some(port) => port as nat,
        None => 80,
    };
    let secure: nat = match port {
        Some(port) => port as nat,
        None => 443,
    };
    assert("ws"@ + "://"@ + host + ":"@ + decimal(number) + "/media/"@ + id =~= "ws://"@ + (host
        + seq![':'] + decimal(number) + "/media/"@ + id));
    assert("wss"@ + "://"@ + host + ":"@ + decimal(secure) + "/media/"@ + id =~= "wss://"@ + (host
        + seq![':'] + decimal(secure) + "/media/"@ + id));
}

/// The events websocket is the events resource under the websocket scheme, with
/// the application as its only query.
pub proof fn law_events_url(url: Seq<char>, app: Seq<char>)
    ensures
        url_scheme(url) != "http"@ && url_scheme(url) != "https"@ ==> events_url_of(url, app)
            == Err::<Seq<char>, UrlFault>(UrlFault::Scheme(url_scheme(url))),
        events_url_of(url, app) matches Ok(r) ==> exists|changed: Seq<char>|
            #[trigger] with_query(changed, "app"@, app) == Some(r) && with_scheme(
                url,
                if url_scheme(url) == "https"@ {
                    "wss"@
                } else {
                    "ws"@
                },
            ) == Some(changed),
        url_scheme(url) == "http"@ || url_scheme(url) == "https"@ ==> (events_url_of(url, app)
            matches Err(fault) ==> fault is NotConverted || fault is TooLong),
{
    reveal_strlit("http");
    reveal_strlit("https");
    assert("http"@.len() != "https"@.len());
    if let Ok(r) = events_url_of(url, app) {
        let changed = with_scheme(url, websocket_scheme(url_scheme(url))->0)->0;
        assert(with_query(changed, "app"@, app) == Some(r));
    }
}

/// Credentials are the account, a colon and the password, in Base64.
pub proof fn law_basic_auth(username: Seq<char>, password: Seq<char>)
    ensures
        basic_auth_value(username, password) == "Basic "@ + base64_text(
            encode_utf8(username + seq![':'] + password),
        ),
{
    reveal_strlit(":");
    assert(":"@ =~= seq![':']);
}

/// Three bytes are written as four characters of the standard alphabet, six bits
/// each, the highest first. At the end one or two bytes are filled up with zero
/// bits, and the text to four characters with `=`.
pub proof fn law_base64(
    a: u8,
    b: u8,
    c: u8,
    rest: Seq<u8>,
    i: int,
    j: int,
    k: int,
    l: int,
)
    requires
        0 <= i < 64,
        0 <= j < 64,
        0 <= k < 64,
        0 <= l < 64,
        262144 * i + 4096 * j + 64 * k + l == 65536 * a + 256 * b + c,
    ensures
        ({
            let alphabet = "ABCDEFGHIJKLMNOPQRSTUVWXYZabcdefghijklmnopqrstuvwxyz0123456789+/"@;
            &&& base64_text(seq![a, b, c] + rest) == seq![
                alphabet[i],
                alphabet[j],
                alphabet[k],
                alphabet[l],
            ] + base64_text(rest)
            &&& c == 0 ==> base64_text(seq![a, b]) == seq![
                alphabet[i],
                alphabet[j],
                alphabet[k],
                '=',
            ]
            &&& b == 0 && c == 0 ==> base64_text(seq![a]) == seq![
                alphabet[i],
                alphabet[j],
                '=',
                '=',
            ]
            &&& base64_text(Seq::empty()) == Seq::<char>::empty()
        }),
{
    assert(i == a / 4);
    assert(j == 16 * (a % 4) + b / 16);
    assert(k == 4 * (b % 16) + c / 64);
    assert(l == c % 64);
    let all = seq![a, b, c] + rest;
    assert(all.skip(3) =~= rest);
    if rest.len() == 0 {
        assert(base64_text(rest) =~= Seq::empty());
    }
}

} // verus!
