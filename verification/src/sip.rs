//! The SIP client: its identity, its calls and the requests that it writes.
//!
//! Requests are texts. Sending them, and receiving responses, is left to the
//! caller.

use crate::ids::{branch_text, generate_branch};
use crate::net::{ip_text, IpAddr, IpModel, SocketAddr};
use crate::numeral::{decimal, decimal_string};
use crate::text::{
    begins_with, chars_of, end_lines, ended_lines, option_text, starts_with, string_of, strings,
};
use vstd::prelude::*;
use vstd::slice::slice_subrange;
use vstd::utf8::encode_utf8;

verus! {

broadcast use vstd::string::group_string_axioms;

/// The largest SIP message that is received.
pub const MAX_SIP_MSG_SIZE: usize = 8192;

/// How long one attempt to receive a response waits, in milliseconds.
pub const RECV_TIMEOUT_MS: u64 = 500;

/// How many rounds a wait for responses may take.
pub const RESPONSE_LOOP_LIMIT: u32 = 1000;

// --- Calls ---

/// The state of a call.
#[derive(Debug, Clone, Copy, PartialEq, Eq, Structural)]
pub enum CallState {
    /// No answer yet.
    Trying,
    /// The remote end sends media before it answers.
    EarlyMedia,
    /// The remote end has answered.
    Answered,
}

/// A call.
#[derive(Debug)]
pub struct Call {
    pub call_id: String,
    pub cseq: u32,
    pub local_tag: String,
    pub remote_tag: Option<String>,
    pub remote_rtp: Option<SocketAddr>,
    pub state: CallState,
    /// The request URI of the INVITE.
    pub invite_uri: String,
    /// The branch of the current transaction.
    pub via_branch: String,
}

/// A call, with texts and addresses as sequences.
pub struct CallModel {
    pub call_id: Seq<char>,
    pub cseq: nat,
    pub local_tag: Seq<char>,
    pub remote_tag: Option<Seq<char>>,
    pub remote_rtp: Option<(IpModel, nat)>,
    pub state: CallState,
    pub invite_uri: Seq<char>,
    pub via_branch: Seq<char>,
}

/// An optional endpoint as address and port.
pub open spec fn endpoint(addr: Option<SocketAddr>) -> Option<(IpModel, nat)> {
    match addr {
        Some(addr) => Some((addr.ip@, addr.port as nat)),
        None => None,
    }
}

impl View for Call {
    type V = CallModel;

    open spec fn view(&self) -> CallModel {
        CallModel {
            call_id: self.call_id@,
            cseq: self.cseq as nat,
            local_tag: self.local_tag@,
            remote_tag: option_text(self.remote_tag),
            remote_rtp: endpoint(self.remote_rtp),
            state: self.state,
            invite_uri: self.invite_uri@,
            via_branch: self.via_branch@,
        }
    }
}

// --- The client ---

/// A client of a SIP trunk.
pub struct SipClient {
    pub local_addr: SocketAddr,
    pub sip_server: SocketAddr,
    pub sip_domain: String,
    pub username: String,
    pub password: String,
    pub caller_id: String,
    pub caller_name: String,
    pub local_ip: IpAddr,
}

/// What of a client goes into requests.
pub struct ClientModel {
    pub ip: IpModel,
    pub port: nat,
    pub domain: Seq<char>,
    pub username: Seq<char>,
    pub password: Seq<char>,
    pub caller_id: Seq<char>,
    pub caller_name: Seq<char>,
}

impl View for SipClient {
    type V = ClientModel;

    open spec fn view(&self) -> ClientModel {
        ClientModel {
            ip: self.local_ip@,
            port: self.local_addr.port as nat,
            domain: self.sip_domain@,
            username: self.username@,
            password: self.password@,
            caller_id: self.caller_id@,
            caller_name: self.caller_name@,
        }
    }
}

/// The address that goes into headers: the bound one, or, where the socket is
/// bound to all interfaces, the one by which the server is reached.
pub open spec fn header_ip(bound: IpModel, route: Option<IpAddr>) -> Option<IpModel> {
    if bound.unspecified() {
        match route {
            Some(ip) => Some(ip@),
            None => None,
        }
    } else {
        Some(bound)
    }
}

impl SipClient {
    /// A client whose socket is bound to `local_addr`. `route` is the local
    /// address by which the server is reached; it is needed where the socket is
    /// bound to all interfaces.
    pub fn new(
        local_addr: SocketAddr,
        route: Option<IpAddr>,
        sip_server: SocketAddr,
        sip_domain: String,
        username: String,
        password: String,
        caller_id: String,
        caller_name: String,
    ) -> (client: SipClient)
        requires
            username@.len() > 0,
            password@.len() > 0,
            sip_domain@.len() > 0,
            local_addr.ip@.unspecified() ==> route is Some,
        ensures
            client.local_addr == local_addr,
            client.sip_server == sip_server,
            client@ == (ClientModel {
                ip: header_ip(local_addr.ip@, route)->0,
                port: local_addr.port as nat,
                domain: sip_domain@,
                username: username@,
                password: password@,
                caller_id: caller_id@,
                caller_name: caller_name@,
            }),
    {
        let local_ip = if local_addr.ip.is_unspecified() {
            match route {
                Some(ip) => ip,
                None => local_addr.ip,
            }
        } else {
            local_addr.ip
        };
        SipClient {
            local_addr,
            sip_server,
            sip_domain,
            username,
            password,
            caller_id,
            caller_name,
            local_ip,
        }
    }

    /// The address that goes into SDP and headers.
    pub fn local_ip(&self) -> (ip: IpAddr)
        ensures
            ip == self.local_ip,
    {
        self.local_ip
    }
}

// --- Lines that requests share ---

/// The address and port that responses come back to.
pub open spec fn host_port(c: ClientModel) -> Seq<char> {
    ip_text(c.ip) + ":"@ + decimal(c.port)
}

/// The `Via` line of a transaction.
pub open spec fn via_line(c: ClientModel, branch: Seq<char>) -> Seq<char> {
    "Via: SIP/2.0/UDP "@ + host_port(c) + ";branch="@ + branch + ";rport"@
}

/// The `From` line of a call.
pub open spec fn from_line(c: ClientModel, tag: Seq<char>) -> Seq<char> {
    "From: \""@ + c.caller_name + "\" <sip:"@ + c.caller_id + "@"@ + c.domain + ">;tag="@ + tag
}

/// The `Contact` line.
pub open spec fn contact_line(c: ClientModel) -> Seq<char> {
    "Contact: <sip:"@ + c.username + "@"@ + host_port(c) + ">"@
}

/// The address of record of the client.
pub open spec fn own_address(c: ClientModel) -> Seq<char> {
    "<sip:"@ + c.username + "@"@ + c.domain + ">"@
}

/// The parameter that names the remote side of a dialog.
pub open spec fn tag_suffix(tag: Option<Seq<char>>) -> Seq<char> {
    match tag {
        Some(tag) => ";tag="@ + tag,
        None => Seq::empty(),
    }
}

impl SipClient {
    fn host_port(&self) -> (r: String)
        ensures
            r@ == host_port(self@),
    {
        let mut r = self.local_ip.text();
        r.append(":");
        r.append(decimal_string(self.local_addr.port as u128).as_str());
        r
    }

    fn via_line(&self, branch: &str) -> (r: String)
        ensures
            r@ == via_line(self@, branch@),
    {
        let mut r = String::from_str("Via: SIP/2.0/UDP ");
        r.append(self.host_port().as_str());
        r.append(";branch=");
        r.append(branch);
        r.append(";rport");
        r
    }

    fn from_line(&self, tag: &str) -> (r: String)
        ensures
            r@ == from_line(self@, tag@),
    {
        let mut r = String::from_str("From: \"");
        r.append(self.caller_name.as_str());
        r.append("\" <sip:");
        r.append(self.caller_id.as_str());
        r.append("@");
        r.append(self.sip_domain.as_str());
        r.append(">;tag=");
        r.append(tag);
        r
    }

    fn contact_line(&self) -> (r: String)
        ensures
            r@ == contact_line(self@),
    {
        let mut r = String::from_str("Contact: <sip:");
        r.append(self.username.as_str());
        r.append("@");
        r.append(self.host_port().as_str());
        r.append(">");
        r
    }

    fn own_address(&self) -> (r: String)
        ensures
            r@ == own_address(self@),
    {
        let mut r = String::from_str("<sip:");
        r.append(self.username.as_str());
        r.append("@");
        r.append(self.sip_domain.as_str());
        r.append(">");
        r
    }
}

/// Writes the parameter that names the remote side of a dialog.
fn write_tag_suffix(tag: &Option<String>) -> (r: String)
    ensures
        r@ == tag_suffix(option_text(*tag)),
{
    match tag {
        Some(tag) => {
            let mut r = String::from_str(";tag=");
            r.append(tag.as_str());
            r
        },
        None => String::new(),
    }
}

// --- REGISTER ---

/// The lines of a REGISTER request.
pub open spec fn register_lines(
    c: ClientModel,
    call_id: Seq<char>,
    tag: Seq<char>,
    branch: Seq<char>,
    cseq: nat,
    authorization: Option<Seq<char>>,
) -> Seq<Seq<char>> {
    seq![
        "REGISTER sip:"@ + c.domain + " SIP/2.0"@,
        via_line(c, branch),
        "From: "@ + own_address(c) + ";tag="@ + tag,
        "To: "@ + own_address(c),
        "Call-ID: "@ + call_id,
        "CSeq: "@ + decimal(cseq) + " REGISTER"@,
        contact_line(c),
        "Expires: 180"@,
        "Max-Forwards: 70"@,
        "User-Agent: slmodem-sip-bridge"@,
    ] + (match authorization {
        Some(value) => seq!["Authorization: "@ + value],
        None => Seq::empty(),
    }) + seq!["Content-Length: 0"@, ""@]
}

/// A REGISTER request.
pub open spec fn register_text(
    c: ClientModel,
    call_id: Seq<char>,
    tag: Seq<char>,
    branch: Seq<char>,
    cseq: nat,
    authorization: Option<Seq<char>>,
) -> Seq<char> {
    ended_lines(register_lines(c, call_id, tag, branch, cseq, authorization))
}

impl SipClient {
    /// Writes a REGISTER request.
    pub fn build_register(
        &self,
        call_id: &str,
        tag: &str,
        branch: &str,
        cseq: u32,
        authorization: Option<String>,
    ) -> (r: String)
        ensures
            r@ == register_text(
                self@,
                call_id@,
                tag@,
                branch@,
                cseq as nat,
                option_text(authorization),
            ),
    {
        let mut lines: Vec<String> = Vec::new();
        let mut first = String::from_str("REGISTER sip:");
        first.append(self.sip_domain.as_str());
        first.append(" SIP/2.0");
        lines.push(first);
        lines.push(self.via_line(branch));
        let mut from = String::from_str("From: ");
        from.append(self.own_address().as_str());
        from.append(";tag=");
        from.append(tag);
        lines.push(from);
        let mut to = String::from_str("To: ");
        to.append(self.own_address().as_str());
        lines.push(to);
        let mut id = String::from_str("Call-ID: ");
        id.append(call_id);
        lines.push(id);
        let mut number = String::from_str("CSeq: ");
        number.append(decimal_string(cseq as u128).as_str());
        number.append(" REGISTER");
        lines.push(number);
        lines.push(self.contact_line());
        lines.push(String::from_str("Expires: 180"));
        lines.push(String::from_str("Max-Forwards: 70"));
        lines.push(String::from_str("User-Agent: slmodem-sip-bridge"));
        if let Some(value) = &authorization {
            let mut line = String::from_str("Authorization: ");
            line.append(value.as_str());
            lines.push(line);
        }
        lines.push(String::from_str("Content-Length: 0"));
        lines.push(String::from_str(""));
        assert(strings(lines@) =~= register_lines(
            self@,
            call_id@,
            tag@,
            branch@,
            cseq as nat,
            option_text(authorization),
        ));
        end_lines(&lines)
    }
}

// --- INVITE ---

/// The header lines of an INVITE request, up to the blank line.
pub open spec fn invite_lines(
    c: ClientModel,
    uri: Seq<char>,
    call_id: Seq<char>,
    tag: Seq<char>,
    branch: Seq<char>,
    cseq: nat,
    body_len: nat,
    auth: Option<(Seq<char>, Seq<char>)>,
) -> Seq<Seq<char>> {
    seq![
        "INVITE "@ + uri + " SIP/2.0"@,
        via_line(c, branch),
        from_line(c, tag),
        "To: <"@ + uri + ">"@,
        "Call-ID: "@ + call_id,
        "CSeq: "@ + decimal(cseq) + " INVITE"@,
        contact_line(c),
        "Max-Forwards: 70"@,
        "User-Agent: slmodem-sip-bridge"@,
        "Allow: INVITE, ACK, BYE, CANCEL"@,
    ] + (match auth {
        Some((name, value)) => seq![name + ": "@ + value],
        None => Seq::empty(),
    }) + seq!["Content-Type: application/sdp"@, "Content-Length: "@ + decimal(body_len), ""@]
}

/// An INVITE request that offers `sdp`. The content length counts bytes.
pub open spec fn invite_text(
    c: ClientModel,
    uri: Seq<char>,
    call_id: Seq<char>,
    tag: Seq<char>,
    branch: Seq<char>,
    cseq: nat,
    sdp: Seq<char>,
    auth: Option<(Seq<char>, Seq<char>)>,
) -> Seq<char> {
    ended_lines(
        invite_lines(c, uri, call_id, tag, branch, cseq, encode_utf8(sdp).len(), auth),
    ) + sdp
}

/// A header as name and value.
pub open spec fn header_pair(auth: Option<(&str, &str)>) -> Option<(Seq<char>, Seq<char>)> {
    match auth {
        Some((name, value)) => Some((name@, value@)),
        None => None,
    }
}

impl SipClient {
    /// Writes an INVITE request.
    pub fn build_invite(
        &self,
        uri: &str,
        call_id: &str,
        local_tag: &str,
        branch: &str,
        cseq: u32,
        sdp: &str,
        auth: Option<(&str, &str)>,
    ) -> (r: String)
        ensures
            r@ == invite_text(
                self@,
                uri@,
                call_id@,
                local_tag@,
                branch@,
                cseq as nat,
                sdp@,
                header_pair(auth),
            ),
    {
        let mut lines: Vec<String> = Vec::new();
        let mut first = String::from_str("INVITE ");
        first.append(uri);
        first.append(" SIP/2.0");
        lines.push(first);
        lines.push(self.via_line(branch));
        lines.push(self.from_line(local_tag));
        let mut to = String::from_str("To: <");
        to.append(uri);
        to.append(">");
        lines.push(to);
        let mut id = String::from_str("Call-ID: ");
        id.append(call_id);
        lines.push(id);
        let mut number = String::from_str("CSeq: ");
        number.append(decimal_string(cseq as u128).as_str());
        number.append(" INVITE");
        lines.push(number);
        lines.push(self.contact_line());
        lines.push(String::from_str("Max-Forwards: 70"));
        lines.push(String::from_str("User-Agent: slmodem-sip-bridge"));
        lines.push(String::from_str("Allow: INVITE, ACK, BYE, CANCEL"));
        if let Some((name, value)) = auth {
            let mut line = String::from_str(name);
            line.append(": ");
            line.append(value);
            lines.push(line);
        }
        lines.push(String::from_str("Content-Type: application/sdp"));
        let body_len: usize = sdp.as_bytes().len();
        let mut length = String::from_str("Content-Length: ");
        length.append(decimal_string(body_len as u128).as_str());
        lines.push(length);
        lines.push(String::from_str(""));
        assert(strings(lines@) =~= invite_lines(
            self@,
            uri@,
            call_id@,
            local_tag@,
            branch@,
            cseq as nat,
            encode_utf8(sdp@).len(),
            header_pair(auth),
        ));
        let mut r = end_lines(&lines);
        r.append(sdp);
        r
    }
}

// --- ACK and BYE ---

/// The lines of an ACK request.
pub open spec fn ack_lines(c: ClientModel, call: CallModel) -> Seq<Seq<char>> {
    seq![
        "ACK "@ + call.invite_uri + " SIP/2.0"@,
        via_line(c, call.via_branch),
        from_line(c, call.local_tag),
        "To: <"@ + call.invite_uri + ">"@ + tag_suffix(call.remote_tag),
        "Call-ID: "@ + call.call_id,
        "CSeq: "@ + decimal(call.cseq) + " ACK"@,
        "Max-Forwards: 70"@,
        "User-Agent: slmodem-sip-bridge"@,
        "Content-Length: 0"@,
        ""@,
    ]
}

/// The ACK request of a call's current transaction.
pub open spec fn ack_text(c: ClientModel, call: CallModel) -> Seq<char> {
    ended_lines(ack_lines(c, call))
}

/// `s` without the scheme `sip:` at its start, however often it stands there.
pub open spec fn without_scheme(s: Seq<char>) -> Seq<char>
    decreases s.len(),
{
    if s.len() >= 4 && begins_with(s, "sip:"@) {
        without_scheme(s.skip(4))
    } else {
        s
    }
}

/// The lines of a BYE request.
pub open spec fn bye_lines(c: ClientModel, call: CallModel, branch: Seq<char>) -> Seq<Seq<char>> {
    seq![
        "BYE "@ + call.invite_uri + " SIP/2.0"@,
        via_line(c, branch),
        from_line(c, call.local_tag),
        "To: <sip:"@ + without_scheme(call.invite_uri) + ">"@ + tag_suffix(call.remote_tag),
        "Call-ID: "@ + call.call_id,
        "CSeq: "@ + decimal(call.cseq + 1) + " BYE"@,
        "Max-Forwards: 70"@,
        "User-Agent: slmodem-sip-bridge"@,
        "Content-Length: 0"@,
        ""@,
    ]
}

/// The BYE request that ends a call.
pub open spec fn bye_text(c: ClientModel, call: CallModel, branch: Seq<char>) -> Seq<char> {
    ended_lines(bye_lines(c, call, branch))
}

/// Takes the scheme `sip:` from the start of a URI, however often it stands
/// there.
fn strip_scheme(uri: &str) -> (r: String)
    ensures
        r@ == without_scheme(uri@),
{
    let chars = chars_of(uri);
    let scheme = chars_of("sip:");
    proof {
        reveal_strlit("sip:");
    }
    let mut rest = chars.as_slice();
    while starts_with(rest, scheme.as_slice())
        invariant
            scheme@ == "sip:"@,
            scheme@.len() == 4,
            without_scheme(rest@) == without_scheme(uri@),
        decreases rest@.len(),
    {
        rest = slice_subrange(rest, 4, rest.len());
    }
    string_of(rest)
}

impl SipClient {
    /// Writes the ACK request of a call's current transaction.
    pub fn build_ack(&self, call: &Call) -> (r: String)
        ensures
            r@ == ack_text(self@, call@),
    {
        let mut lines: Vec<String> = Vec::new();
        let mut first = String::from_str("ACK ");
        first.append(call.invite_uri.as_str());
        first.append(" SIP/2.0");
        lines.push(first);
        lines.push(self.via_line(call.via_branch.as_str()));
        lines.push(self.from_line(call.local_tag.as_str()));
        let mut to = String::from_str("To: <");
        to.append(call.invite_uri.as_str());
        to.append(">");
        to.append(write_tag_suffix(&call.remote_tag).as_str());
        lines.push(to);
        let mut id = String::from_str("Call-ID: ");
        id.append(call.call_id.as_str());
        lines.push(id);
        let mut number = String::from_str("CSeq: ");
        number.append(decimal_string(call.cseq as u128).as_str());
        number.append(" ACK");
        lines.push(number);
        lines.push(String::from_str("Max-Forwards: 70"));
        lines.push(String::from_str("User-Agent: slmodem-sip-bridge"));
        lines.push(String::from_str("Content-Length: 0"));
        lines.push(String::from_str(""));
        assert(strings(lines@) =~= ack_lines(self@, call@));
        end_lines(&lines)
    }

    /// The ACK request to send for the response that a call has received.
    pub fn ack(&self, call: &Call) -> (r: String)
        ensures
            r@ == ack_text(self@, call@),
    {
        self.build_ack(call)
    }

    /// Writes the BYE request that ends a call, in a transaction with a given
    /// branch.
    pub fn bye_with(&self, call: &Call, branch: &str) -> (r: String)
        requires
            call.cseq < u32::MAX,
        ensures
            r@ == bye_text(self@, call@, branch@),
    {
        let mut lines: Vec<String> = Vec::new();
        let mut first = String::from_str("BYE ");
        first.append(call.invite_uri.as_str());
        first.append(" SIP/2.0");
        lines.push(first);
        lines.push(self.via_line(branch));
        lines.push(self.from_line(call.local_tag.as_str()));
        let mut to = String::from_str("To: <sip:");
        to.append(strip_scheme(call.invite_uri.as_str()).as_str());
        to.append(">");
        to.append(write_tag_suffix(&call.remote_tag).as_str());
        lines.push(to);
        let mut id = String::from_str("Call-ID: ");
        id.append(call.call_id.as_str());
        lines.push(id);
        let mut number = String::from_str("CSeq: ");
        number.append(decimal_string((call.cseq + 1) as u128).as_str());
        number.append(" BYE");
        lines.push(number);
        lines.push(String::from_str("Max-Forwards: 70"));
        lines.push(String::from_str("User-Agent: slmodem-sip-bridge"));
        lines.push(String::from_str("Content-Length: 0"));
        lines.push(String::from_str(""));
        assert(strings(lines@) =~= bye_lines(self@, call@, branch@));
        end_lines(&lines)
    }

    /// Writes the BYE request that ends a call, in a new transaction.
    pub fn bye(&self, call: &Call) -> (r: String)
        requires
            call.cseq < u32::MAX,
        ensures
            exists|hash: u64|
                r@ == bye_text(self@, call@, #[trigger] branch_text(hash as nat)),
    {
        let branch = generate_branch();
        self.bye_with(call, branch.as_str())
    }
}

// --- Laws ---

/// The address in headers is the one that the socket is bound to, unless that
/// stands for all interfaces; then it is the one by which the server is reached.
pub proof fn law_header_ip(bound: IpModel, route: IpAddr)
    requires
        bound.well_formed(),
    ensures
        match bound {
            IpModel::V4(octets) => (exists|i: int| 0 <= i < 4 && #[trigger] octets[i] != 0)
                ==> header_ip(bound, Some(route)) == Some(bound),
            IpModel::V6(groups) => (exists|i: int| 0 <= i < 8 && #[trigger] groups[i] != 0)
                ==> header_ip(bound, Some(route)) == Some(bound),
        },
        match bound {
            IpModel::V4(octets) => (forall|i: int| 0 <= i < 4 ==> #[trigger] octets[i] == 0)
                ==> header_ip(bound, Some(route)) == Some(route@),
            IpModel::V6(groups) => (forall|i: int| 0 <= i < 8 ==> #[trigger] groups[i] == 0)
                ==> header_ip(bound, Some(route)) == Some(route@),
        },
{
    match bound {
        IpModel::V4(octets) => {
            let zero = seq![0u8, 0, 0, 0];
            if forall|i: int| 0 <= i < 4 ==> #[trigger] octets[i] == 0 {
                assert(octets =~= zero);
            }
            if octets =~= zero {
                assert forall|i: int| 0 <= i < 4 implies #[trigger] octets[i] == 0 by {
                    assert(zero[i] == 0);
                }
            }
        },
        IpModel::V6(groups) => {
            let zero = seq![0u16, 0, 0, 0, 0, 0, 0, 0];
            if forall|i: int| 0 <= i < 8 ==> #[trigger] groups[i] == 0 {
                assert(groups =~= zero);
            }
            if groups =~= zero {
                assert forall|i: int| 0 <= i < 8 implies #[trigger] groups[i] == 0 by {
                    assert(zero[i] == 0);
                }
            }
        },
    }
}

/// An endpoint is the address and the port that it is made of.
pub proof fn law_endpoint(addr: SocketAddr)
    ensures
        endpoint(Some(addr)) == Some((addr.ip@, addr.port as nat)),
        endpoint(None) is None,
{
}

} // verus!
