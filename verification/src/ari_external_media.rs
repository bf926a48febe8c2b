//! Requests for external media channels.

use crate::text::{
    chars_of, lemma_already_trimmed, lowercase, lowered, option_text, same_chars, trim, trimmed,
};
use vstd::prelude::*;

verus! {

broadcast use vstd::string::group_string_axioms;

/// How media is transported.
#[derive(Debug, Clone, Copy, PartialEq, Eq, Structural)]
pub enum Transport {
    WebSocket,
    AudioSocket,
    Udp,
}

/// How media is framed.
#[derive(Debug, Clone, Copy, PartialEq, Eq, Structural)]
pub enum Encapsulation {
    /// No framing: the bare media, named `none`.
    Raw,
    AudioSocket,
    Rtp,
}

/// A name as it is compared: without white space around it, in lower case.
pub open spec fn normal(s: Seq<char>) -> Seq<char> {
    lowered(trimmed(s))
}

/// A name as it is compared.
fn normalize(s: &str) -> (r: Vec<char>)
    ensures
        r@ == normal(s@),
{
    let chars = chars_of(s);
    lowercase(trim(chars.as_slice()))
}

/// Whether a name is the given word.
fn is_word(name: &Vec<char>, word: &str) -> (r: bool)
    ensures
        r == (name@ == word@),
{
    let chars = chars_of(word);
    same_chars(name.as_slice(), chars.as_slice())
}

/// The transport with a given name.
pub open spec fn transport_named(s: Seq<char>) -> Option<Transport> {
    let name = normal(s);
    if name == "websocket"@ || name == "ws"@ {
        Some(Transport::WebSocket)
    } else if name == "tcp"@ || name == "audiosocket"@ {
        Some(Transport::AudioSocket)
    } else if name == "udp"@ || name == "rtp"@ {
        Some(Transport::Udp)
    } else {
        None
    }
}

impl Transport {
    /// The name of the transport.
    pub open spec fn name(self) -> Seq<char> {
        match self {
            Transport::WebSocket => "websocket"@,
            Transport::AudioSocket => "tcp"@,
            Transport::Udp => "udp"@,
        }
    }

    /// The name of the transport.
    pub fn as_str(self) -> (r: &'static str)
        ensures
            r@ == self.name(),
    {
        match self {
            Transport::WebSocket => "websocket",
            Transport::AudioSocket => "tcp",
            Transport::Udp => "udp",
        }
    }

    /// Reads the name of a transport, whatever its letter case and the white
    /// space around it.
    pub fn parse(s: &str) -> (r: Option<Transport>)
        ensures
            r == transport_named(s@),
    {
        let name = normalize(s);
        if is_word(&name, "websocket") || is_word(&name, "ws") {
            Some(Transport::WebSocket)
        } else if is_word(&name, "tcp") || is_word(&name, "audiosocket") {
            Some(Transport::AudioSocket)
        } else if is_word(&name, "udp") || is_word(&name, "rtp") {
            Some(Transport::Udp)
        } else {
            None
        }
    }
}

/// The framing with a given name.
pub open spec fn encapsulation_named(s: Seq<char>) -> Option<Encapsulation> {
    let name = normal(s);
    if name == "none"@ {
        Some(Encapsulation::Raw)
    } else if name == "audiosocket"@ || name == "tcp"@ {
        Some(Encapsulation::AudioSocket)
    } else if name == "rtp"@ || name == "udp"@ {
        Some(Encapsulation::Rtp)
    } else {
        None
    }
}

impl Encapsulation {
    /// The name of the framing.
    pub open spec fn name(self) -> Seq<char> {
        match self {
            Encapsulation::Raw => "none"@,
            Encapsulation::AudioSocket => "audiosocket"@,
            Encapsulation::Rtp => "rtp"@,
        }
    }

    /// The name of the framing.
    pub fn as_str(self) -> (r: &'static str)
        ensures
            r@ == self.name(),
    {
        match self {
            Encapsulation::Raw => "none",
            Encapsulation::AudioSocket => "audiosocket",
            Encapsulation::Rtp => "rtp",
        }
    }

    /// Reads the name of a framing, whatever its letter case and the white
    /// space around it.
    pub fn parse(s: &str) -> (r: Option<Encapsulation>)
        ensures
            r == encapsulation_named(s@),
    {
        let name = normalize(s);
        if is_word(&name, "none") {
            Some(Encapsulation::Raw)
        } else if is_word(&name, "audiosocket") || is_word(&name, "tcp") {
            Some(Encapsulation::AudioSocket)
        } else if is_word(&name, "rtp") || is_word(&name, "udp") {
            Some(Encapsulation::Rtp)
        } else {
            None
        }
    }
}

// --- Requests ---

/// A request for an external media channel.
#[derive(Debug, Clone, PartialEq, Eq)]
pub struct ExternalMediaRequest {
    pub app: String,
    pub external_host: String,
    pub format: String,
    pub transport: Transport,
    pub encapsulation: Encapsulation,
    pub connection_type: String,
    pub transport_data: Option<String>,
    pub direction: String,
    pub data: String,
}

/// A request for an external media channel, with texts as sequences.
pub struct RequestModel {
    pub app: Seq<char>,
    pub external_host: Seq<char>,
    pub format: Seq<char>,
    pub transport: Transport,
    pub encapsulation: Encapsulation,
    pub connection_type: Seq<char>,
    pub transport_data: Option<Seq<char>>,
    pub direction: Seq<char>,
    pub data: Seq<char>,
}

impl View for ExternalMediaRequest {
    type V = RequestModel;

    open spec fn view(&self) -> RequestModel {
        RequestModel {
            app: self.app@,
            external_host: self.external_host@,
            format: self.format@,
            transport: self.transport,
            encapsulation: self.encapsulation,
            connection_type: self.connection_type@,
            transport_data: option_text(self.transport_data),
            direction: self.direction@,
            data: self.data@,
        }
    }
}

/// The settings of the environment, each where it is set.
#[derive(Debug, Clone)]
pub struct MediaEnv {
    /// `ARI_APP`
    pub app: Option<String>,
    /// `ARI_EXTERNAL_HOST`
    pub external_host: Option<String>,
    /// `ARI_MEDIA_FORMAT`
    pub format: Option<String>,
    /// `ARI_MEDIA_TRANSPORT`
    pub transport: Option<String>,
    /// `ARI_MEDIA_ENCAPSULATION`
    pub encapsulation: Option<String>,
    /// `ARI_MEDIA_CONNECTION_TYPE`
    pub connection_type: Option<String>,
    /// `ARI_MEDIA_TRANSPORT_DATA`
    pub transport_data: Option<String>,
    /// `ARI_MEDIA_DIRECTION`
    pub direction: Option<String>,
    /// `ARI_MEDIA_DATA`
    pub data: Option<String>,
}

/// A setting, or its default.
pub open spec fn setting(value: Option<String>, default: Seq<char>) -> Seq<char> {
    match value {
        Some(value) => value@,
        None => default,
    }
}

/// A setting, or its default.
fn set_or(value: Option<String>, default: &str) -> (r: String)
    ensures
        r@ == setting(value, default@),
{
    match value {
        Some(value) => value,
        None => String::from_str(default),
    }
}

/// The transport that is set, if its name is known, or else websocket.
pub open spec fn transport_setting(value: Option<String>) -> Transport {
    match value {
        Some(value) => match transport_named(value@) {
            Some(transport) => transport,
            None => Transport::WebSocket,
        },
        None => Transport::WebSocket,
    }
}

/// The framing that goes with a transport.
pub open spec fn usual_encapsulation(transport: Transport) -> Encapsulation {
    match transport {
        Transport::WebSocket => Encapsulation::Raw,
        Transport::AudioSocket => Encapsulation::AudioSocket,
        Transport::Udp => Encapsulation::Rtp,
    }
}

/// The framing that is set, if its name is known, or else the one that goes
/// with the transport.
pub open spec fn encapsulation_setting(
    value: Option<String>,
    transport: Transport,
) -> Encapsulation {
    match value {
        Some(value) => match encapsulation_named(value@) {
            Some(encapsulation) => encapsulation,
            None => usual_encapsulation(transport),
        },
        None => usual_encapsulation(transport),
    }
}

/// Keys and values as sequences.
pub open spec fn pair_texts(pairs: Seq<(String, String)>) -> Seq<(Seq<char>, Seq<char>)> {
    pairs.map_values(|p: (String, String)| (p.0@, p.1@))
}

/// The query of a request.
pub open spec fn request_query(r: RequestModel) -> Seq<(Seq<char>, Seq<char>)> {
    seq![
        ("app"@, r.app),
        ("external_host"@, r.external_host),
        ("format"@, r.format),
        ("transport"@, r.transport.name()),
        ("encapsulation"@, r.encapsulation.name()),
        ("connection_type"@, r.connection_type),
        ("direction"@, r.direction),
        ("data"@, r.data),
    ] + (match r.transport_data {
        Some(data) => seq![("transport_data"@, data)],
        None => Seq::empty(),
    })
}

/// A key and a value.
pub(crate) fn pair(key: &str, value: &str) -> (r: (String, String))
    ensures
        r.0@ == key@,
        r.1@ == value@,
{
    (String::from_str(key), String::from_str(value))
}

impl ExternalMediaRequest {
    /// The recommended request: mu-law over a websocket that the remote host
    /// connects to.
    pub fn recommended_websocket(app: &str, external_host: &str) -> (r: ExternalMediaRequest)
        ensures
            r@ == (RequestModel {
                app: app@,
                external_host: external_host@,
                format: "ulaw"@,
                transport: Transport::WebSocket,
                encapsulation: Encapsulation::Raw,
                connection_type: "server"@,
                transport_data: Some("f(json)"@),
                direction: "both"@,
                data: "slmodem"@,
            }),
    {
        ExternalMediaRequest {
            app: String::from_str(app),
            external_host: String::from_str(external_host),
            format: String::from_str("ulaw"),
            transport: Transport::WebSocket,
            encapsulation: Encapsulation::Raw,
            connection_type: String::from_str("server"),
            transport_data: Some(String::from_str("f(json)")),
            direction: String::from_str("both"),
            data: String::from_str("slmodem"),
        }
    }

    /// The request that the environment asks for, with defaults for what is not
    /// set.
    pub fn from_env_defaults(env: MediaEnv) -> (r: ExternalMediaRequest)
        ensures
            r@ == (RequestModel {
                app: setting(env.app, "slmodem"@),
                external_host: setting(env.external_host, "INCOMING"@),
                format: setting(env.format, "ulaw"@),
                transport: transport_setting(env.transport),
                encapsulation: encapsulation_setting(
                    env.encapsulation,
                    transport_setting(env.transport),
                ),
                connection_type: setting(env.connection_type, "server"@),
                transport_data: Some(setting(env.transport_data, "f(json)"@)),
                direction: setting(env.direction, "both"@),
                data: setting(env.data, "slmodem"@),
            }),
    {
        let named_transport = match &env.transport {
            Some(name) => Transport::parse(name.as_str()),
            None => None,
        };
        let transport = match named_transport {
            Some(transport) => transport,
            None => Transport::WebSocket,
        };
        let usual = match transport {
            Transport::WebSocket => Encapsulation::Raw,
            Transport::AudioSocket => Encapsulation::AudioSocket,
            Transport::Udp => Encapsulation::Rtp,
        };
        let named_encapsulation = match &env.encapsulation {
            Some(name) => Encapsulation::parse(name.as_str()),
            None => None,
        };
        let encapsulation = match named_encapsulation {
            Some(encapsulation) => encapsulation,
            None => usual,
        };
        ExternalMediaRequest {
            app: set_or(env.app, "slmodem"),
            external_host: set_or(env.external_host, "INCOMING"),
            format: set_or(env.format, "ulaw"),
            transport,
            encapsulation,
            connection_type: set_or(env.connection_type, "server"),
            transport_data: Some(set_or(env.transport_data, "f(json)")),
            direction: set_or(env.direction, "both"),
            data: set_or(env.data, "slmodem"),
        }
    }

    /// The query of the request.
    pub fn query_pairs(&self) -> (pairs: Vec<(String, String)>)
        ensures
            pair_texts(pairs@) == request_query(self@),
    {
        let mut pairs: Vec<(String, String)> = Vec::new();
        pairs.push(pair("app", self.app.as_str()));
        pairs.push(pair("external_host", self.external_host.as_str()));
        pairs.push(pair("format", self.format.as_str()));
        pairs.push(pair("transport", self.transport.as_str()));
        pairs.push(pair("encapsulation", self.encapsulation.as_str()));
        pairs.push(pair("connection_type", self.connection_type.as_str()));
        pairs.push(pair("direction", self.direction.as_str()));
        pairs.push(pair("data", self.data.as_str()));
        if let Some(transport_data) = &self.transport_data {
            pairs.push(pair("transport_data", transport_data.as_str()));
        }
        assert(pair_texts(pairs@) =~= request_query(self@));
        pairs
    }

    /// Where the request is sent.
    pub fn endpoint_path() -> (r: &'static str)
        ensures
            r@ == "/channels/externalMedia"@,
    {
        "/channels/externalMedia"
    }
}

// --- Laws ---

/// A word in lower case without white space is compared as it stands.
proof fn lemma_normal_word(word: Seq<char>)
    requires
        word.len() > 0,
        forall|i: int| 0 <= i < word.len() ==> 'a' <= #[trigger] word[i] <= 'z',
    ensures
        normal(word) == word,
{
    assert('a' <= word[0] <= 'z');
    assert('a' <= word[word.len() - 1] <= 'z');
    lemma_already_trimmed(word);
    assert(lowered(word) =~= word);
}

/// The name of a transport is read as that transport.
pub proof fn law_transport_round_trip(transport: Transport)
    ensures
        transport_named(transport.name()) == Some(transport),
{
    reveal_strlit("websocket");
    reveal_strlit("ws");
    reveal_strlit("tcp");
    reveal_strlit("audiosocket");
    reveal_strlit("udp");
    reveal_strlit("rtp");
    lemma_normal_word(transport.name());
    assert("tcp"@[0] != "udp"@[0]);
}

/// The name of a framing is read as that framing.
pub proof fn law_encapsulation_round_trip(encapsulation: Encapsulation)
    ensures
        encapsulation_named(encapsulation.name()) == Some(encapsulation),
{
    reveal_strlit("none");
    reveal_strlit("audiosocket");
    reveal_strlit("tcp");
    reveal_strlit("rtp");
    reveal_strlit("udp");
    lemma_normal_word(encapsulation.name());
    assert("tcp"@[0] != "rtp"@[0]);
}

/// Names of transports are read in any letter case and with white space around
/// them; each transport has two, and no other name is known.
pub proof fn law_transport_names(s: Seq<char>)
    ensures
        ({
            let name = lowered(trimmed(s));
            &&& transport_named(s) == Some(Transport::WebSocket) <==> name == "websocket"@ || name
                == "ws"@
            &&& transport_named(s) == Some(Transport::AudioSocket) <==> name == "tcp"@ || name
                == "audiosocket"@
            &&& transport_named(s) == Some(Transport::Udp) <==> name == "udp"@ || name == "rtp"@
        }),
{
    reveal_strlit("websocket");
    reveal_strlit("ws");
    reveal_strlit("tcp");
    reveal_strlit("audiosocket");
    reveal_strlit("udp");
    reveal_strlit("rtp");
    assert("tcp"@[0] == 't' && "udp"@[0] == 'u' && "rtp"@[0] == 'r');
    assert("websocket"@.len() == 9 && "ws"@.len() == 2 && "audiosocket"@.len() == 11);
    assert("tcp"@.len() == 3 && "udp"@.len() == 3 && "rtp"@.len() == 3);
}

/// Names of framings are read in any letter case and with white space around them,
/// and no other name is known.
pub proof fn law_encapsulation_names(s: Seq<char>)
    ensures
        ({
            let name = lowered(trimmed(s));
            &&& encapsulation_named(s) == Some(Encapsulation::Raw) <==> name == "none"@
            &&& encapsulation_named(s) == Some(Encapsulation::AudioSocket) <==> name
                == "audiosocket"@ || name == "tcp"@
            &&& encapsulation_named(s) == Some(Encapsulation::Rtp) <==> name == "rtp"@ || name
                == "udp"@
        }),
{
    reveal_strlit("none");
    reveal_strlit("audiosocket");
    reveal_strlit("tcp");
    reveal_strlit("rtp");
    reveal_strlit("udp");
    assert("tcp"@[0] == 't' && "udp"@[0] == 'u' && "rtp"@[0] == 'r');
    assert("none"@.len() == 4 && "audiosocket"@.len() == 11);
    assert("tcp"@.len() == 3 && "udp"@.len() == 3 && "rtp"@.len() == 3);
}

/// A setting that is made counts, whatever the default; a transport or framing
/// whose name is not known counts as not set. The framing that is not set goes
/// with the transport.
pub proof fn law_settings(value: Option<String>, default: Seq<char>, transport: Transport)
    ensures
        value matches Some(text) ==> setting(value, default) == text@,
        value is None ==> setting(value, default) == default,
        transport_setting(value) == (match value {
            Some(text) => if transport_named(text@) is Some {
                transport_named(text@)->0
            } else {
                Transport::WebSocket
            },
            None => Transport::WebSocket,
        }),
        value is None || encapsulation_named(value->0@) is None ==> encapsulation_setting(
            value,
            transport,
        ) == (match transport {
            Transport::WebSocket => Encapsulation::Raw,
            Transport::AudioSocket => Encapsulation::AudioSocket,
            Transport::Udp => Encapsulation::Rtp,
        }),
        value is Some && encapsulation_named(value->0@) is Some ==> Some(
            encapsulation_setting(value, transport),
        ) == encapsulation_named(value->0@),
{
}

/// A request asks for each of its settings under the setting's name, for the data
/// of the transport only where there is any, and for nothing else.
pub proof fn law_request_query(r: RequestModel)
    ensures
        ({
            let q = request_query(r);
            &&& q.contains(("app"@, r.app))
            &&& q.contains(("external_host"@, r.external_host))
            &&& q.contains(("format"@, r.format))
            &&& q.contains(("transport"@, r.transport.name()))
            &&& q.contains(("encapsulation"@, r.encapsulation.name()))
            &&& q.contains(("connection_type"@, r.connection_type))
            &&& q.contains(("direction"@, r.direction))
            &&& q.contains(("data"@, r.data))
            &&& r.transport_data matches Some(data) ==> q.contains(("transport_data"@, data))
            &&& q.len() == (if r.transport_data is Some {
                9int
            } else {
                8
            })
        }),
{
    let q = request_query(r);
    assert(q[0] == ("app"@, r.app));
    assert(q[1] == ("external_host"@, r.external_host));
    assert(q[2] == ("format"@, r.format));
    assert(q[3] == ("transport"@, r.transport.name()));
    assert(q[4] == ("encapsulation"@, r.encapsulation.name()));
    assert(q[5] == ("connection_type"@, r.connection_type));
    assert(q[6] == ("direction"@, r.direction));
    assert(q[7] == ("data"@, r.data));
    if let Some(data) = r.transport_data {
        assert(q[8] == ("transport_data"@, data));
    }
}

} // verus!
