//! Minimal SDP offer/answer for mu-law-only modem calls.
//!
//! Offers carry a single codec (PCMU, payload type 0). Answers are read for the
//! remote RTP endpoint; the only negotiation is that payload type 0 must be
//! among those of the answer.

use crate::net::{
    address_char, ip_of_text, ip_text, law_ip_round_trip, lemma_ip_text_chars, IpAddr, IpModel,
};
use crate::numeral::{
    after_sign, decimal, decimal_string, digit_value, digits_fault, fault_of_number,
    law_decimal_round_trip, lemma_decimal, parse_unsigned, unsigned, NumberFault,
};
use crate::text::{
    begins_with, chars_of, contents, end_lines, ended_lines, joined, lemma_already_trimmed,
    lemma_lines_ended, lemma_words_joined, lines, lines_of, same_chars, starts_with, string_of,
    strings, trim, trimmed, white_space, words, words_of,
};
use vstd::prelude::*;
use vstd::slice::slice_subrange;

verus! {

broadcast use vstd::string::group_string_axioms;

// --- Offers ---

/// How SDP names the family of an address.
pub open spec fn family(ip: IpModel) -> Seq<char> {
    match ip {
        IpModel::V4(_) => "IP4"@,
        IpModel::V6(_) => "IP6"@,
    }
}

/// The lines of an offer of one PCMU stream at `ip` and `port`.
pub open spec fn offer_lines(ip: IpModel, port: nat, session_id: nat) -> Seq<Seq<char>> {
    seq![
        "v=0"@,
        "o=slmodem-sip-bridge "@ + decimal(session_id) + " "@ + decimal(session_id) + " IN "@
            + family(ip) + " "@ + ip_text(ip),
        "s=slmodem-sip-bridge"@,
        "c=IN "@ + family(ip) + " "@ + ip_text(ip),
        "t=0 0"@,
        "m=audio "@ + decimal(port) + " RTP/AVP 0"@,
        "a=rtpmap:0 PCMU/8000"@,
        "a=ptime:20"@,
        "a=sendrecv"@,
    ]
}

/// The text of an offer.
pub open spec fn offer_text(ip: IpModel, port: nat, session_id: nat) -> Seq<char> {
    ended_lines(offer_lines(ip, port, session_id))
}

/// Builds an SDP offer for a mu-law-only audio session.
///
/// The offer advertises a single RTP stream at the given local address and
/// port, with PCMU as the only codec: the remote end accepts mu-law or rejects
/// the call.
pub fn build_offer(local_ip: IpAddr, rtp_port: u16, session_id: u64) -> (offer: String)
    requires
        rtp_port > 0,
    ensures
        offer@ == offer_text(local_ip@, rtp_port as nat, session_id as nat),
{
    let ip = local_ip.text();
    let ip_ver = match local_ip {
        IpAddr::V4(_) => "IP4",
        IpAddr::V6(_) => "IP6",
    };
    let sess_id = decimal_string(session_id as u128);
    let mut lines: Vec<String> = Vec::new();
    lines.push(String::from_str("v=0"));
    let mut origin = String::from_str("o=slmodem-sip-bridge ");
    origin.append(sess_id.as_str());
    origin.append(" ");
    origin.append(sess_id.as_str());
    origin.append(" IN ");
    origin.append(ip_ver);
    origin.append(" ");
    origin.append(ip.as_str());
    lines.push(origin);
    lines.push(String::from_str("s=slmodem-sip-bridge"));
    let mut connection = String::from_str("c=IN ");
    connection.append(ip_ver);
    connection.append(" ");
    connection.append(ip.as_str());
    lines.push(connection);
    lines.push(String::from_str("t=0 0"));
    let mut media = String::from_str("m=audio ");
    media.append(decimal_string(rtp_port as u128).as_str());
    media.append(" RTP/AVP 0");
    lines.push(media);
    lines.push(String::from_str("a=rtpmap:0 PCMU/8000"));
    lines.push(String::from_str("a=ptime:20"));
    lines.push(String::from_str("a=sendrecv"));
    assert(strings(lines@) =~= offer_lines(local_ip@, rtp_port as nat, session_id as nat));
    end_lines(&lines)
}

// --- Answers ---

/// The remote endpoint of an SDP answer.
#[derive(Debug, Clone, Copy, PartialEq, Eq)]
pub struct SdpAnswer {
    pub addr: IpAddr,
    pub port: u16,
}

/// Why an SDP answer is not usable.
#[derive(Debug, Clone, PartialEq, Eq)]
pub enum SdpError {
    /// The audio line ends before the port.
    NoPort,
    /// The port of the audio line is no 16-bit number.
    InvalidPort(NumberFault),
    /// The audio line ends before the payload types.
    NoPayloadTypes,
    /// Payload type 0 is not among those listed.
    NoPcmu(Vec<String>),
    /// There is no audio line.
    NoAudioLine,
    /// No connection line holds an address.
    NoConnection,
}

/// Why an SDP answer is not usable, with texts as sequences.
pub enum SdpFault {
    NoPort,
    InvalidPort(NumberFault),
    NoPayloadTypes,
    NoPcmu(Seq<Seq<char>>),
    NoAudioLine,
    NoConnection,
}

impl View for SdpError {
    type V = SdpFault;

    open spec fn view(&self) -> SdpFault {
        match self {
            SdpError::NoPort => SdpFault::NoPort,
            SdpError::InvalidPort(fault) => SdpFault::InvalidPort(*fault),
            SdpError::NoPayloadTypes => SdpFault::NoPayloadTypes,
            SdpError::NoPcmu(offered) => SdpFault::NoPcmu(strings(offered@)),
            SdpError::NoAudioLine => SdpFault::NoAudioLine,
            SdpError::NoConnection => SdpFault::NoConnection,
        }
    }
}

/// The text that `Debug` formatting gives for a list of strings.
pub uninterp spec fn debug_list(items: Seq<Seq<char>>) -> Seq<char>;

/// Formatting with `{:?}`: the text of a list of strings, which depends on the
/// strings alone. How quotes and control characters are escaped is left unsaid.
#[verifier::external_body]
fn format_debug(items: &Vec<String>) -> (r: String)
    ensures
        r@ == debug_list(strings(items@)),
{
    format!("{:?}", items)
}

impl SdpFault {
    /// The fault in words.
    pub open spec fn message(self) -> Seq<char> {
        match self {
            SdpFault::NoPort => "SDP m=audio line has no port"@,
            SdpFault::InvalidPort(fault) => "invalid port in SDP m=audio line: "@
                + fault.reason(),
            SdpFault::NoPayloadTypes => "SDP m=audio line has no payload types"@,
            SdpFault::NoPcmu(offered) => "SDP answer does not include PCMU (PT 0), offered: "@
                + debug_list(offered),
            SdpFault::NoAudioLine => "SDP answer has no m=audio line"@,
            SdpFault::NoConnection => "SDP answer has no c= connection line"@,
        }
    }
}

impl SdpError {
    /// The error in words.
    pub fn message(&self) -> (r: String)
        ensures
            r@ == self@.message(),
    {
        match self {
            SdpError::NoPort => String::from_str("SDP m=audio line has no port"),
            SdpError::InvalidPort(fault) => {
                let mut r = String::from_str("invalid port in SDP m=audio line: ");
                r.append(fault.message());
                r
            },
            SdpError::NoPayloadTypes => String::from_str("SDP m=audio line has no payload types"),
            SdpError::NoPcmu(offered) => {
                let mut r = String::from_str("SDP answer does not include PCMU (PT 0), offered: ");
                r.append(format_debug(offered).as_str());
                r
            },
            SdpError::NoAudioLine => String::from_str("SDP answer has no m=audio line"),
            SdpError::NoConnection => String::from_str("SDP answer has no c= connection line"),
        }
    }
}

/// The address that a `c=` line holds as its third word.
pub open spec fn connection_of(line: Seq<char>) -> Option<IpModel> {
    let text = trimmed(line);
    let parts = words_of(text.skip(2));
    if begins_with(text, "c="@) && parts.len() >= 3 {
        ip_of_text(parts[2])
    } else {
        None
    }
}

/// Whether a line describes an audio stream.
pub open spec fn is_audio(line: Seq<char>) -> bool {
    begins_with(trimmed(line), "m=audio "@)
}

/// The port of an audio line that lists payload type 0. The words after
/// `m=audio` are the port, the protocol and the payload types.
pub open spec fn audio_port(text: Seq<char>) -> Result<nat, SdpFault> {
    let parts = words_of(text.skip(8));
    if parts.len() == 0 {
        Err(SdpFault::NoPort)
    } else {
        match unsigned(parts[0], 65535) {
            None => Err(SdpFault::InvalidPort(digits_fault(after_sign(parts[0]), 65535))),
            Some(port) => if parts.len() < 3 {
                Err(SdpFault::NoPayloadTypes)
            } else if !parts.skip(2).contains("0"@) {
                Err(SdpFault::NoPcmu(parts.skip(2)))
            } else {
                Ok(port)
            },
        }
    }
}

/// The address of the last connection line that holds one.
pub open spec fn last_connection(lines: Seq<Seq<char>>) -> Option<IpModel>
    decreases lines.len(),
{
    if lines.len() == 0 {
        None
    } else {
        match connection_of(lines.last()) {
            Some(ip) => Some(ip),
            None => last_connection(lines.drop_last()),
        }
    }
}

/// The port of the last audio line, or what is wrong with the first unusable
/// audio line.
pub open spec fn media_port(lines: Seq<Seq<char>>) -> Result<Option<nat>, SdpFault>
    decreases lines.len(),
{
    if lines.len() == 0 {
        Ok(None)
    } else {
        match media_port(lines.drop_last()) {
            Err(fault) => Err(fault),
            Ok(port) => if !is_audio(lines.last()) {
                Ok(port)
            } else {
                match audio_port(trimmed(lines.last())) {
                    Ok(port) => Ok(Some(port)),
                    Err(fault) => Err(fault),
                }
            },
        }
    }
}

/// The remote address and port of an answer.
pub open spec fn answer_of(sdp: Seq<char>) -> Result<(IpModel, nat), SdpFault> {
    let lines = lines_of(sdp);
    match media_port(lines) {
        Err(fault) => Err(fault),
        Ok(None) => Err(SdpFault::NoAudioLine),
        Ok(Some(port)) => match last_connection(lines) {
            None => Err(SdpFault::NoConnection),
            Some(ip) => Ok((ip, port)),
        },
    }
}

/// Reads the address of a connection line.
fn parse_connection(line: &[char]) -> (r: Option<IpAddr>)
    ensures
        match r {
            Some(ip) => connection_of(line@) == Some(ip@),
            None => connection_of(line@) is None,
        },
{
    let text = trim(line);
    let mark = chars_of("c=");
    proof {
        reveal_strlit("c=");
    }
    if !starts_with(text, mark.as_slice()) {
        return None;
    }
    let parts = words(slice_subrange(text, 2, text.len()));
    if parts.len() >= 3 {
        assert(contents(parts@)[2] == parts@[2]@);
        IpAddr::parse_chars(parts[2])
    } else {
        None
    }
}

/// Reads the port of an audio line.
fn parse_audio(text: &[char]) -> (r: Result<u16, SdpError>)
    requires
        text@.len() >= 8,
    ensures
        match r {
            Ok(port) => audio_port(text@) == Ok::<nat, SdpFault>(port as nat),
            Err(e) => audio_port(text@) == Err::<nat, SdpFault>(e@),
        },
{
    let parts = words(slice_subrange(text, 8, text.len()));
    let ghost all = contents(parts@);
    if parts.len() == 0 {
        return Err(SdpError::NoPort);
    }
    assert(all[0] == parts@[0]@);
    let port: u32 = match parse_unsigned(parts[0], 65535) {
        Some(port) => port,
        None => {
            return Err(SdpError::InvalidPort(fault_of_number(parts[0], 65535)));
        },
    };
    if parts.len() < 3 {
        return Err(SdpError::NoPayloadTypes);
    }
    let zero = chars_of("0");
    let mut offered: Vec<String> = Vec::new();
    let mut i: usize = 2;
    while i < parts.len()
        invariant
            2 <= i <= parts@.len(),
            all == contents(parts@),
            zero@ == "0"@,
            all == words_of(text@.skip(8)),
            parts@.len() >= 3,
            unsigned(all[0], 65535) == Some(port as nat),
            strings(offered@) == all.skip(2).take(i - 2),
            forall|k: int| 2 <= k < i ==> #[trigger] all[k] != "0"@,
        decreases parts@.len() - i,
    {
        assert(all[i as int] == parts@[i as int]@);
        if same_chars(parts[i], zero.as_slice()) {
            assert(all.skip(2)[i - 2] == "0"@);
            return Ok(port as u16);
        }
        let ghost before = strings(offered@);
        offered.push(string_of(parts[i]));
        assert(strings(offered@) =~= before.push(all[i as int]));
        assert(all.skip(2).take(i - 1) =~= all.skip(2).take(i - 2).push(all[i as int]));
        i += 1;
    }
    assert(all.skip(2).take(i - 2) =~= all.skip(2));
    assert(!all.skip(2).contains("0"@)) by {
        if all.skip(2).contains("0"@) {
            let k = choose|k: int| 0 <= k < all.skip(2).len() && all.skip(2)[k] == "0"@;
            assert(all[k + 2] == "0"@);
        }
    }
    Err(SdpError::NoPcmu(offered))
}

/// Once an audio line is unusable, later lines change nothing.
proof fn lemma_fault_stays(lines: Seq<Seq<char>>, n: int)
    requires
        0 <= n <= lines.len(),
        media_port(lines.take(n)) is Err,
    ensures
        media_port(lines) == media_port(lines.take(n)),
    decreases lines.len() - n,
{
    if n == lines.len() {
        assert(lines.take(n) =~= lines);
    } else {
        assert(lines.take(n + 1).drop_last() =~= lines.take(n));
        lemma_fault_stays(lines, n + 1);
    }
}

/// Reads an SDP answer for the remote RTP address and port.
///
/// The address comes from the last `c=` line that holds one, the port from the
/// last `m=audio` line. An audio line without payload type 0 is an error.
pub fn parse_answer(sdp: &str) -> (r: Result<SdpAnswer, SdpError>)
    ensures
        match r {
            Ok(answer) => answer_of(sdp@) == Ok::<(IpModel, nat), SdpFault>(
                (answer.addr@, answer.port as nat),
            ),
            Err(e) => answer_of(sdp@) == Err::<(IpModel, nat), SdpFault>(e@),
        },
{
    let chars = chars_of(sdp);
    let all = lines(chars.as_slice());
    let audio_mark = chars_of("m=audio ");
    let ghost texts = contents(all@);
    assert(texts == lines_of(sdp@));
    assert(audio_mark@.len() == 8) by {
        reveal_strlit("m=audio ");
    }
    let mut addr: Option<IpAddr> = None;
    let mut port: Option<u16> = None;
    let mut i: usize = 0;
    while i < all.len()
        invariant
            i <= all@.len(),
            texts == contents(all@),
            texts == lines_of(sdp@),
            audio_mark@ == "m=audio "@,
            audio_mark@.len() == 8,
            match addr {
                Some(ip) => last_connection(texts.take(i as int)) == Some(ip@),
                None => last_connection(texts.take(i as int)) is None,
            },
            match port {
                Some(p) => media_port(texts.take(i as int)) == Ok::<Option<nat>, SdpFault>(
                    Some(p as nat),
                ),
                None => media_port(texts.take(i as int)) == Ok::<Option<nat>, SdpFault>(None),
            },
        decreases all@.len() - i,
    {
        let line = all[i];
        assert(line@ == texts[i as int]);
        assert(texts.take(i + 1).drop_last() =~= texts.take(i as int));
        if let Some(ip) = parse_connection(line) {
            addr = Some(ip);
        }
        let text = trim(line);
        if starts_with(text, audio_mark.as_slice()) {
            match parse_audio(text) {
                Ok(p) => {
                    port = Some(p);
                },
                Err(e) => {
                    proof {
                        lemma_fault_stays(texts, i + 1);
                    }
                    return Err(e);
                },
            }
        }
        i += 1;
    }
    assert(texts.take(i as int) =~= texts);
    match port {
        None => Err(SdpError::NoAudioLine),
        Some(port) => match addr {
            None => Err(SdpError::NoConnection),
            Some(addr) => Ok(SdpAnswer { addr, port }),
        },
    }
}

// --- Reading back an offer ---

/// The character `c` is visible: neither white space nor a line feed.
spec fn visible(c: char) -> bool {
    !white_space(c)
}

/// A decimal number is made of visible characters.
proof fn lemma_decimal_visible(n: nat)
    ensures
        decimal(n).len() >= 1,
        forall|i: int| 0 <= i < decimal(n).len() ==> visible(#[trigger] decimal(n)[i]),
{
    lemma_decimal(n);
    assert forall|i: int| 0 <= i < decimal(n).len() implies visible(#[trigger] decimal(n)[i]) by {
        assert(digit_value(decimal(n)[i]) < 10);
    }
}

/// The text of an address is made of visible characters.
proof fn lemma_ip_visible(ip: IpModel)
    requires
        ip.well_formed(),
    ensures
        ip_text(ip).len() >= 1,
        forall|i: int| 0 <= i < ip_text(ip).len() ==> visible(#[trigger] ip_text(ip)[i]),
{
    lemma_ip_text_chars(ip);
    assert forall|i: int| 0 <= i < ip_text(ip).len() implies visible(#[trigger] ip_text(ip)[i]) by {
        assert(address_char(ip_text(ip)[i]));
    }
}

/// No line of an offer holds a line feed.
proof fn lemma_offer_lines(ip: IpModel, port: nat, session_id: nat)
    requires
        ip.well_formed(),
    ensures
        lines_of(offer_text(ip, port, session_id)) == offer_lines(ip, port, session_id),
{
    reveal_strlit("v=0");
    reveal_strlit("o=slmodem-sip-bridge ");
    reveal_strlit(" ");
    reveal_strlit(" IN ");
    reveal_strlit("IP4");
    reveal_strlit("IP6");
    reveal_strlit("s=slmodem-sip-bridge");
    reveal_strlit("c=IN ");
    reveal_strlit("t=0 0");
    reveal_strlit("m=audio ");
    reveal_strlit(" RTP/AVP 0");
    reveal_strlit("a=rtpmap:0 PCMU/8000");
    reveal_strlit("a=ptime:20");
    reveal_strlit("a=sendrecv");
    lemma_decimal_visible(port);
    lemma_decimal_visible(session_id);
    lemma_ip_visible(ip);
    let all = offer_lines(ip, port, session_id);
    let s = offer_text(ip, port, session_id);
    assert(visible('\n') == false);
    assert(forall|m: int| 0 <= m < all[0].len() ==> #[trigger] all[0][m] != '\n');
    assert(forall|m: int| 0 <= m < all[1].len() ==> #[trigger] all[1][m] != '\n');
    assert(forall|m: int| 0 <= m < all[2].len() ==> #[trigger] all[2][m] != '\n');
    assert(forall|m: int| 0 <= m < all[3].len() ==> #[trigger] all[3][m] != '\n');
    assert(forall|m: int| 0 <= m < all[4].len() ==> #[trigger] all[4][m] != '\n');
    assert(forall|m: int| 0 <= m < all[5].len() ==> #[trigger] all[5][m] != '\n');
    assert(forall|m: int| 0 <= m < all[6].len() ==> #[trigger] all[6][m] != '\n');
    assert(forall|m: int| 0 <= m < all[7].len() ==> #[trigger] all[7][m] != '\n');
    assert(forall|m: int| 0 <= m < all[8].len() ==> #[trigger] all[8][m] != '\n');
    assert(s.skip(0) =~= s);
    lemma_lines_ended(s, all, 0);
}

/// The connection line of an offer holds the offered address.
proof fn lemma_offer_connection(ip: IpModel)
    requires
        ip.well_formed(),
    ensures
        connection_of("c=IN "@ + family(ip) + " "@ + ip_text(ip)) == Some(ip),
        !is_audio("c=IN "@ + family(ip) + " "@ + ip_text(ip)),
{
    reveal_strlit("c=IN ");
    reveal_strlit("c=");
    reveal_strlit("IP4");
    reveal_strlit("IP6");
    reveal_strlit(" ");
    reveal_strlit("m=audio ");
    let addr = ip_text(ip);
    let line = "c=IN "@ + family(ip) + " "@ + addr;
    lemma_ip_visible(ip);
    assert(line.last() == addr.last());
    assert(line[0] == 'c');
    lemma_already_trimmed(line);
    assert(line.take(2) =~= "c="@);
    let text = line.skip(2);
    let parts = seq![seq!['I', 'N'], family(ip), addr];
    assert(parts.skip(1) =~= seq![family(ip), addr]);
    assert(parts.skip(1).skip(1) =~= seq![addr]);
    assert(joined(parts.skip(1).skip(1), seq![' ']) == addr);
    assert(joined(parts.skip(1), seq![' ']) == family(ip) + seq![' '] + addr);
    assert(joined(parts, seq![' ']) == seq!['I', 'N'] + seq![' '] + joined(
        parts.skip(1),
        seq![' '],
    ));
    assert(text =~= joined(parts, seq![' ']));
    assert(text.skip(0) =~= text);
    assert forall|k: int, m: int|
        0 <= k < parts.len() && 0 <= m < parts[k].len() implies !white_space(
        #[trigger] parts[k][m],
    ) by {
        if k == 2 {
            assert(visible(addr[m]));
        }
    }
    lemma_words_joined(text, parts, 0);
    law_ip_round_trip(ip);
    assert(line.take(8)[0] == 'c');
    assert("m=audio "@[0] == 'm');
}

/// The audio line of an offer holds the offered port.
proof fn lemma_offer_audio(port: nat)
    requires
        port <= 65535,
    ensures
        is_audio("m=audio "@ + decimal(port) + " RTP/AVP 0"@),
        audio_port(trimmed("m=audio "@ + decimal(port) + " RTP/AVP 0"@)) == Ok::<nat, SdpFault>(
            port,
        ),
        connection_of("m=audio "@ + decimal(port) + " RTP/AVP 0"@) is None,
{
    reveal_strlit("m=audio ");
    reveal_strlit(" RTP/AVP 0");
    reveal_strlit("0");
    reveal_strlit("c=");
    let number = decimal(port);
    let line = "m=audio "@ + number + " RTP/AVP 0"@;
    lemma_decimal_visible(port);
    assert(line[0] == 'm');
    assert(line.last() == '0');
    lemma_already_trimmed(line);
    assert(line.take(8) =~= "m=audio "@);
    let text = line.skip(8);
    let avp = seq!['R', 'T', 'P', '/', 'A', 'V', 'P'];
    let parts = seq![number, avp, seq!['0']];
    assert(parts.skip(1) =~= seq![avp, seq!['0']]);
    assert(parts.skip(1).skip(1) =~= seq![seq!['0']]);
    assert(joined(parts.skip(1).skip(1), seq![' ']) == seq!['0']);
    assert(joined(parts.skip(1), seq![' ']) == avp + seq![' '] + seq!['0']);
    assert(joined(parts, seq![' ']) == number + seq![' '] + joined(parts.skip(1), seq![' ']));
    assert(text =~= joined(parts, seq![' ']));
    assert(text.skip(0) =~= text);
    assert forall|k: int, m: int|
        0 <= k < parts.len() && 0 <= m < parts[k].len() implies !white_space(
        #[trigger] parts[k][m],
    ) by {
        if k == 0 {
            assert(visible(number[m]));
        }
    }
    lemma_words_joined(text, parts, 0);
    law_decimal_round_trip(port, 65535);
    assert(parts.skip(2)[0] =~= "0"@);
    assert(parts.skip(2).contains("0"@));
    assert(line.take(2)[0] == 'm');
    assert("c="@[0] == 'c');
}

/// A line that begins with a letter other than those of the two kinds that are
/// read is passed over.
proof fn lemma_passed_over(line: Seq<char>)
    requires
        line.len() > 0,
        line[0] == 'v' || line[0] == 'o' || line[0] == 's' || line[0] == 't' || line[0] == 'a',
        !white_space(line.last()),
    ensures
        connection_of(line) is None,
        !is_audio(line),
{
    reveal_strlit("m=audio ");
    reveal_strlit("c=");
    lemma_already_trimmed(line);
    if begins_with(line, "c="@) {
        assert(line.take(2)[0] == 'c');
    }
    if begins_with(line, "m=audio "@) {
        assert(line.take(8)[0] == 'm');
    }
}

/// What one more line adds to what was read so far.
proof fn lemma_one_more_line(all: Seq<Seq<char>>, n: int)
    requires
        0 <= n < all.len(),
    ensures
        last_connection(all.take(n + 1)) == (match connection_of(all[n]) {
            Some(ip) => Some(ip),
            None => last_connection(all.take(n)),
        }),
        !is_audio(all[n]) && media_port(all.take(n)) is Ok ==> media_port(all.take(n + 1))
            == media_port(all.take(n)),
        is_audio(all[n]) && media_port(all.take(n)) is Ok ==> media_port(all.take(n + 1)) == (
        match audio_port(trimmed(all[n])) {
            Ok(port) => Ok::<Option<nat>, SdpFault>(Some(port)),
            Err(fault) => Err(fault),
        }),
        n == 0 ==> media_port(all.take(n)) == Ok::<Option<nat>, SdpFault>(None),
        n == 0 ==> last_connection(all.take(n)) is None,
{
    assert(all.take(n + 1).drop_last() =~= all.take(n));
}

/// An offer that comes back as the answer is read as the address and the port
/// that it was built from.
pub proof fn law_offer_read_back(ip: IpModel, port: nat, session_id: nat)
    requires
        ip.well_formed(),
        0 < port <= 65535,
    ensures
        answer_of(offer_text(ip, port, session_id)) == Ok::<(IpModel, nat), SdpFault>((ip, port)),
{
    lemma_offer_lines(ip, port, session_id);
    lemma_offer_connection(ip);
    lemma_offer_audio(port);
    let all = offer_lines(ip, port, session_id);
    reveal_strlit("v=0");
    reveal_strlit("o=slmodem-sip-bridge ");
    reveal_strlit("s=slmodem-sip-bridge");
    reveal_strlit("t=0 0");
    reveal_strlit("a=rtpmap:0 PCMU/8000");
    reveal_strlit("a=ptime:20");
    reveal_strlit("a=sendrecv");
    lemma_ip_visible(ip);
    assert(all[1].last() == ip_text(ip).last());
    assert(all[1][0] == 'o');
    lemma_passed_over(all[0]);
    lemma_passed_over(all[1]);
    lemma_passed_over(all[2]);
    lemma_passed_over(all[4]);
    lemma_passed_over(all[6]);
    lemma_passed_over(all[7]);
    lemma_passed_over(all[8]);
    lemma_one_more_line(all, 0);
    lemma_one_more_line(all, 1);
    lemma_one_more_line(all, 2);
    lemma_one_more_line(all, 3);
    lemma_one_more_line(all, 4);
    lemma_one_more_line(all, 5);
    lemma_one_more_line(all, 6);
    lemma_one_more_line(all, 7);
    lemma_one_more_line(all, 8);
    assert(all.take(9) =~= all);
}

// --- Laws on answers ---

/// Whether a text is a word: not empty, and free of white space.
pub open spec fn is_word(s: Seq<char>) -> bool {
    s.len() > 0 && forall|i: int| 0 <= i < s.len() ==> !white_space(#[trigger] s[i])
}

/// Words that are joined by blanks are split into those words.
proof fn lemma_split(words: Seq<Seq<char>>)
    requires
        words.len() > 0,
        forall|k: int| 0 <= k < words.len() ==> is_word(#[trigger] words[k]),
    ensures
        words_of(joined(words, seq![' '])) == words,
{
    let text = joined(words, seq![' ']);
    assert(text.skip(0) =~= text);
    assert forall|k: int, m: int|
        0 <= k < words.len() && 0 <= m < words[k].len() implies !white_space(
        #[trigger] words[k][m],
    ) by {
        assert(is_word(words[k]));
    }
    lemma_words_joined(text, words, 0);
}

/// An audio line is read as its port where payload type 0 is among those that it
/// lists, wherever it stands in the list; without it, the line is refused, and
/// what it lists is told.
pub proof fn law_audio_line_read(port: nat, protocol: Seq<char>, types: Seq<Seq<char>>)
    requires
        port <= 65535,
        is_word(protocol),
        types.len() > 0,
        forall|k: int| 0 <= k < types.len() ==> is_word(#[trigger] types[k]),
    ensures
        ({
            let line = "m=audio "@ + joined(seq![decimal(port), protocol] + types, seq![' ']);
            let read = audio_port(line);
            if exists|k: int| 0 <= k < types.len() && #[trigger] types[k] == seq!['0'] {
                read == Ok::<nat, SdpFault>(port)
            } else {
                read == Err::<nat, SdpFault>(SdpFault::NoPcmu(types))
            }
        }),
{
    reveal_strlit("m=audio ");
    reveal_strlit("0");
    assert("0"@ =~= seq!['0']);
    let all = seq![decimal(port), protocol] + types;
    let line = "m=audio "@ + joined(all, seq![' ']);
    assert(line.skip(8) =~= joined(all, seq![' ']));
    lemma_decimal_visible(port);
    assert forall|k: int| 0 <= k < all.len() implies is_word(#[trigger] all[k]) by {
        if k == 0 {
            assert forall|i: int| 0 <= i < all[0].len() implies !white_space(
                #[trigger] all[0][i],
            ) by {
                assert(visible(decimal(port)[i]));
            }
        } else if k >= 2 {
            assert(all[k] == types[k - 2]);
        }
    }
    lemma_split(all);
    assert(all.skip(2) =~= types);
    law_decimal_round_trip(port, 65535);
    if exists|k: int| 0 <= k < types.len() && #[trigger] types[k] == seq!['0'] {
        let k = choose|k: int| 0 <= k < types.len() && #[trigger] types[k] == seq!['0'];
        assert(types.contains(types[k]));
    }
}

/// In which order payload types are listed, and how often, does not matter.
pub proof fn law_payload_order(
    port: nat,
    protocol: Seq<char>,
    types: Seq<Seq<char>>,
    other: Seq<Seq<char>>,
)
    requires
        port <= 65535,
        is_word(protocol),
        types.len() > 0,
        other.len() > 0,
        forall|k: int| 0 <= k < types.len() ==> is_word(#[trigger] types[k]),
        forall|k: int| 0 <= k < other.len() ==> is_word(#[trigger] other[k]),
        forall|w: Seq<char>| types.contains(w) <==> other.contains(w),
    ensures
        ({
            let sep = seq![' '];
            let a = audio_port("m=audio "@ + joined(seq![decimal(port), protocol] + types, sep));
            let b = audio_port("m=audio "@ + joined(seq![decimal(port), protocol] + other, sep));
            (a is Ok <==> b is Ok) && (a is Ok ==> a == b)
        }),
{
    law_audio_line_read(port, protocol, types);
    law_audio_line_read(port, protocol, other);
    if exists|k: int| 0 <= k < types.len() && #[trigger] types[k] == seq!['0'] {
        let k = choose|k: int| 0 <= k < types.len() && #[trigger] types[k] == seq!['0'];
        assert(other.contains(types[k]));
    }
    if exists|k: int| 0 <= k < other.len() && #[trigger] other[k] == seq!['0'] {
        let k = choose|k: int| 0 <= k < other.len() && #[trigger] other[k] == seq!['0'];
        assert(types.contains(other[k]));
    }
}

/// An audio line that ends too early, or whose port is no 16-bit number, is
/// refused.
pub proof fn law_bad_audio_line(port: Seq<char>, protocol: Seq<char>, more: Seq<Seq<char>>)
    requires
        is_word(port),
        is_word(protocol),
        forall|k: int| 0 <= k < more.len() ==> is_word(#[trigger] more[k]),
    ensures
        audio_port("m=audio "@) == Err::<nat, SdpFault>(SdpFault::NoPort),
        unsigned(port, 65535) is None ==> audio_port(
            "m=audio "@ + joined(seq![port] + more, seq![' ']),
        ) is Err,
        unsigned(port, 65535) is None ==> audio_port(
            "m=audio "@ + joined(seq![port] + more, seq![' ']),
        )->Err_0 == SdpFault::InvalidPort(
            digits_fault(
                if port[0] == '+' {
                    port.skip(1)
                } else {
                    port
                },
                65535,
            ),
        ),
        unsigned(port, 65535) is Some ==> audio_port("m=audio "@ + port) == Err::<nat, SdpFault>(
            SdpFault::NoPayloadTypes,
        ),
        unsigned(port, 65535) is Some ==> audio_port("m=audio "@ + port + seq![' '] + protocol)
            == Err::<nat, SdpFault>(SdpFault::NoPayloadTypes),
{
    reveal_strlit("m=audio ");
    assert("m=audio "@.skip(8) =~= Seq::empty());
    let all = seq![port] + more;
    assert(("m=audio "@ + joined(all, seq![' '])).skip(8) =~= joined(all, seq![' ']));
    assert forall|k: int| 0 <= k < all.len() implies is_word(#[trigger] all[k]) by {
        if k > 0 {
            assert(all[k] == more[k - 1]);
        }
    }
    lemma_split(all);
    lemma_split(seq![port]);
    assert(("m=audio "@ + port).skip(8) =~= port);
    let two = seq![port, protocol];
    lemma_split(two);
    assert(two.skip(1) =~= seq![protocol]);
    assert(joined(two.skip(1), seq![' ']) == protocol);
    assert(joined(two, seq![' ']) =~= port + seq![' '] + protocol);
    assert(("m=audio "@ + port + seq![' '] + protocol).skip(8) =~= port + seq![' '] + protocol);
}

/// A connection line holds the address that is its third word, after the network
/// and the family, whatever these are and whatever follows.
pub proof fn law_connection_read(
    network: Seq<char>,
    kind: Seq<char>,
    address: Seq<char>,
    more: Seq<Seq<char>>,
)
    requires
        is_word(network),
        is_word(kind),
        is_word(address),
        forall|k: int| 0 <= k < more.len() ==> is_word(#[trigger] more[k]),
    ensures
        connection_of("c="@ + joined(seq![network, kind, address] + more, seq![' ']))
            == ip_of_text(address),
        connection_of("c="@ + network + seq![' '] + kind) is None,
{
    reveal_strlit("c=");
    let all = seq![network, kind, address] + more;
    let text = joined(all, seq![' ']);
    assert forall|k: int| 0 <= k < all.len() implies is_word(#[trigger] all[k]) by {
        if k >= 3 {
            assert(all[k] == more[k - 3]);
        }
    }
    lemma_split(all);
    lemma_joined_end(all);
    let line = "c="@ + text;
    assert(line[0] == 'c' && line.last() == text.last());
    lemma_already_trimmed(line);
    assert(line.take(2) =~= "c="@);
    assert(line.skip(2) =~= text);
    let two = seq![network, kind];
    lemma_split(two);
    assert(two.skip(1) =~= seq![kind]);
    assert(joined(two.skip(1), seq![' ']) == kind);
    assert(joined(two, seq![' ']) =~= network + seq![' '] + kind);
    let short = "c="@ + network + seq![' '] + kind;
    assert(short[0] == 'c' && short.last() == kind.last());
    lemma_already_trimmed(short);
    assert(short.skip(2) =~= network + seq![' '] + kind);
}

/// Words that are joined end with a word.
proof fn lemma_joined_end(words: Seq<Seq<char>>)
    requires
        words.len() > 0,
        forall|k: int| 0 <= k < words.len() ==> is_word(#[trigger] words[k]),
    ensures
        joined(words, seq![' ']).len() > 0,
        !white_space(joined(words, seq![' ']).last()),
    decreases words.len(),
{
    assert(is_word(words[0]));
    if words.len() > 1 {
        assert forall|k: int| 0 <= k < words.skip(1).len() implies is_word(
            #[trigger] words.skip(1)[k],
        ) by {
            assert(words.skip(1)[k] == words[k + 1]);
        }
        lemma_joined_end(words.skip(1));
    }
}

/// Connection lines begin with `c=` and audio lines with `m=audio` and a blank;
/// no other line is read.
pub proof fn law_lines_told_apart(line: Seq<char>)
    ensures
        is_audio(line) <==> exists|t: Seq<char>| trimmed(line) == #[trigger] ("m=audio "@ + t),
        connection_of(line) is Some ==> exists|t: Seq<char>|
            trimmed(line) == #[trigger] ("c="@ + t),
{
    crate::text::law_begins_with(trimmed(line), "m=audio "@);
    crate::text::law_begins_with(trimmed(line), "c="@);
}

proof fn lemma_last_connection(lines: Seq<Seq<char>>, i: int)
    requires
        0 <= i < lines.len(),
        connection_of(lines[i]) is Some,
        forall|k: int| i < k < lines.len() ==> connection_of(#[trigger] lines[k]) is None,
    ensures
        last_connection(lines) == connection_of(lines[i]),
    decreases lines.len(),
{
    if i < lines.len() - 1 {
        assert(connection_of(lines[lines.len() - 1]) is None);
        lemma_last_connection(lines.drop_last(), i);
    }
}

proof fn lemma_no_connection(lines: Seq<Seq<char>>)
    requires
        forall|k: int| 0 <= k < lines.len() ==> connection_of(#[trigger] lines[k]) is None,
    ensures
        last_connection(lines) is None,
    decreases lines.len(),
{
    if lines.len() > 0 {
        assert(connection_of(lines[lines.len() - 1]) is None);
        lemma_no_connection(lines.drop_last());
    }
}

proof fn lemma_media_port(lines: Seq<Seq<char>>, n: int)
    requires
        0 <= n <= lines.len(),
        forall|k: int|
            0 <= k < n && is_audio(#[trigger] lines[k]) ==> audio_port(trimmed(lines[k])) is Ok,
    ensures
        media_port(lines.take(n)) is Ok,
        (forall|k: int| 0 <= k < n ==> !is_audio(#[trigger] lines[k])) ==> media_port(
            lines.take(n),
        ) == Ok::<Option<nat>, SdpFault>(None),
        forall|j: int|
            0 <= j < n && is_audio(lines[j]) && (forall|k: int|
                j < k < n ==> !is_audio(#[trigger] lines[k])) ==> media_port(lines.take(n)) == Ok::<
                Option<nat>,
                SdpFault,
            >(Some((#[trigger] audio_port(trimmed(lines[j])))->Ok_0)),
    decreases n,
{
    if n > 0 {
        assert(lines.take(n).drop_last() =~= lines.take(n - 1));
        assert(lines.take(n).last() == lines[n - 1]);
        lemma_media_port(lines, n - 1);
        assert forall|j: int|
            0 <= j < n && is_audio(lines[j]) && (forall|k: int|
                j < k < n ==> !is_audio(#[trigger] lines[k])) implies media_port(lines.take(n))
            == Ok::<Option<nat>, SdpFault>(
            Some((#[trigger] audio_port(trimmed(lines[j])))->Ok_0),
        ) by {
            if j < n - 1 {
                assert(!is_audio(lines[n - 1]));
            }
        }
    }
}

/// An answer names the address of its last connection line and the port of its
/// last audio line, in whatever order the two stand, whatever is between them and
/// however lines are ended.
pub proof fn law_answer_read(sdp: Seq<char>, i: int, j: int, ip: IpModel, port: nat)
    requires
        0 <= i < lines_of(sdp).len(),
        connection_of(lines_of(sdp)[i]) == Some(ip),
        forall|k: int|
            i < k < lines_of(sdp).len() ==> connection_of(#[trigger] lines_of(sdp)[k]) is None,
        0 <= j < lines_of(sdp).len(),
        is_audio(lines_of(sdp)[j]),
        audio_port(trimmed(lines_of(sdp)[j])) == Ok::<nat, SdpFault>(port),
        forall|k: int|
            0 <= k < lines_of(sdp).len() && is_audio(#[trigger] lines_of(sdp)[k]) ==> audio_port(
                trimmed(lines_of(sdp)[k]),
            ) is Ok,
        forall|k: int| j < k < lines_of(sdp).len() ==> !is_audio(#[trigger] lines_of(sdp)[k]),
    ensures
        answer_of(sdp) == Ok::<(IpModel, nat), SdpFault>((ip, port)),
{
    let lines = lines_of(sdp);
    lemma_last_connection(lines, i);
    lemma_media_port(lines, lines.len() as int);
    assert(lines.take(lines.len() as int) =~= lines);
    assert(audio_port(trimmed(lines[j]))->Ok_0 == port);
}

/// An answer without an audio line, or without an address, is refused; the first
/// audio line that cannot be used tells why.
pub proof fn law_answer_refused(sdp: Seq<char>, j: int)
    ensures
        ({
            let lines = lines_of(sdp);
            let n = lines.len();
            &&& (forall|k: int| 0 <= k < n ==> !is_audio(#[trigger] lines[k])) ==> answer_of(sdp)
                == Err::<(IpModel, nat), SdpFault>(SdpFault::NoAudioLine)
            &&& 0 <= j < n && is_audio(lines[j]) && (forall|k: int|
                0 <= k < n && is_audio(#[trigger] lines[k]) ==> audio_port(trimmed(lines[k]))
                    is Ok) && (forall|k: int|
                0 <= k < n ==> connection_of(#[trigger] lines[k]) is None) ==> answer_of(sdp)
                == Err::<(IpModel, nat), SdpFault>(SdpFault::NoConnection)
            &&& 0 <= j < n && is_audio(lines[j]) && audio_port(trimmed(lines[j])) is Err && (
            forall|k: int|
                0 <= k < j && is_audio(#[trigger] lines[k]) ==> audio_port(trimmed(lines[k]))
                    is Ok) ==> answer_of(sdp) == Err::<(IpModel, nat), SdpFault>(
                audio_port(trimmed(lines[j]))->Err_0,
            )
        }),
{
    let lines = lines_of(sdp);
    let n = lines.len() as int;
    assert(lines.take(n) =~= lines);
    if forall|k: int|
        0 <= k < n && is_audio(#[trigger] lines[k]) ==> audio_port(trimmed(lines[k])) is Ok {
        lemma_media_port(lines, n);
        if 0 <= j < n && is_audio(lines[j]) {
            lemma_some_port(lines, n, j);
        }
        if forall|k: int| 0 <= k < n ==> connection_of(#[trigger] lines[k]) is None {
            lemma_no_connection(lines);
        }
    }
    if 0 <= j < n && is_audio(lines[j]) && audio_port(trimmed(lines[j])) is Err && (forall|k: int|
        0 <= k < j && is_audio(#[trigger] lines[k]) ==> audio_port(trimmed(lines[k])) is Ok) {
        lemma_media_port(lines, j);
        assert(lines.take(j + 1).drop_last() =~= lines.take(j));
        assert(lines.take(j + 1).last() == lines[j]);
        lemma_fault_stays(lines, j + 1);
    }
}

proof fn lemma_some_port(lines: Seq<Seq<char>>, n: int, j: int)
    requires
        0 <= j < n <= lines.len(),
        is_audio(lines[j]),
        forall|k: int|
            0 <= k < n && is_audio(#[trigger] lines[k]) ==> audio_port(trimmed(lines[k])) is Ok,
    ensures
        media_port(lines.take(n)) is Ok,
        media_port(lines.take(n))->Ok_0 is Some,
    decreases n,
{
    assert(lines.take(n).drop_last() =~= lines.take(n - 1));
    assert(lines.take(n).last() == lines[n - 1]);
    if j < n - 1 {
        lemma_some_port(lines, n - 1, j);
    } else {
        lemma_media_port(lines, n - 1);
    }
}

/// Numbers and addresses are words.
proof fn lemma_offer_words(ip: IpModel, n: nat)
    requires
        ip.well_formed(),
    ensures
        is_word(decimal(n)),
        is_word(ip_text(ip)),
        is_word(family(ip)),
{
    reveal_strlit("IP4");
    reveal_strlit("IP6");
    lemma_decimal_visible(n);
    lemma_ip_visible(ip);
    assert forall|i: int| 0 <= i < decimal(n).len() implies !white_space(
        #[trigger] decimal(n)[i],
    ) by {
        assert(visible(decimal(n)[i]));
    }
    assert forall|i: int| 0 <= i < ip_text(ip).len() implies !white_space(
        #[trigger] ip_text(ip)[i],
    ) by {
        assert(visible(ip_text(ip)[i]));
    }
}

/// One word in front of others.
proof fn lemma_word_before(word: Seq<char>, more: Seq<Seq<char>>)
    requires
        more.len() > 0,
    ensures
        joined(seq![word] + more, seq![' ']) == word + seq![' '] + joined(more, seq![' ']),
{
    assert((seq![word] + more).skip(1) =~= more);
}

proof fn lemma_origin_words(ip: IpModel, session_id: nat)
    requires
        ip.well_formed(),
    ensures
        words_of(
            "o=slmodem-sip-bridge "@ + decimal(session_id) + " "@ + decimal(session_id) + " IN "@
                + family(ip) + " "@ + ip_text(ip),
        ) == seq![
            "o=slmodem-sip-bridge"@,
            decimal(session_id),
            decimal(session_id),
            "IN"@,
            family(ip),
            ip_text(ip),
        ],
{
    reveal_strlit("o=slmodem-sip-bridge ");
    reveal_strlit("o=slmodem-sip-bridge");
    reveal_strlit(" ");
    reveal_strlit(" IN ");
    reveal_strlit("IN");
    lemma_offer_words(ip, session_id);
    let (id, kind, addr) = (decimal(session_id), family(ip), ip_text(ip));
    let e = seq![addr];
    let d = seq![kind] + e;
    let c = seq!["IN"@] + d;
    let b = seq![id] + c;
    let a = seq![id] + b;
    let all = seq!["o=slmodem-sip-bridge"@] + a;
    assert(joined(e, seq![' ']) == addr);
    lemma_word_before(kind, e);
    lemma_word_before("IN"@, d);
    lemma_word_before(id, c);
    lemma_word_before(id, b);
    lemma_word_before("o=slmodem-sip-bridge"@, a);
    assert forall|k: int| 0 <= k < all.len() implies is_word(#[trigger] all[k]) by {}
    lemma_split(all);
    assert(all =~= seq!["o=slmodem-sip-bridge"@, id, id, "IN"@, kind, addr]);
    assert(joined(all, seq![' ']) =~= "o=slmodem-sip-bridge "@ + id + " "@ + id + " IN "@ + kind
        + " "@ + addr);
}

proof fn lemma_media_words(ip: IpModel, port: nat)
    requires
        ip.well_formed(),
    ensures
        words_of("c=IN "@ + family(ip) + " "@ + ip_text(ip)) == seq![
            "c=IN"@,
            family(ip),
            ip_text(ip),
        ],
        words_of("m=audio "@ + decimal(port) + " RTP/AVP 0"@) == seq![
            "m=audio"@,
            decimal(port),
            "RTP/AVP"@,
            "0"@,
        ],
{
    reveal_strlit(" ");
    reveal_strlit("c=IN ");
    reveal_strlit("c=IN");
    reveal_strlit("m=audio ");
    reveal_strlit("m=audio");
    reveal_strlit(" RTP/AVP 0");
    reveal_strlit("RTP/AVP");
    reveal_strlit("0");
    lemma_offer_words(ip, port);
    let (number, kind, addr) = (decimal(port), family(ip), ip_text(ip));
    let b = seq![addr];
    let a = seq![kind] + b;
    let all = seq!["c=IN"@] + a;
    assert(joined(b, seq![' ']) == addr);
    lemma_word_before(kind, b);
    lemma_word_before("c=IN"@, a);
    assert forall|k: int| 0 <= k < all.len() implies is_word(#[trigger] all[k]) by {}
    lemma_split(all);
    assert(all =~= seq!["c=IN"@, kind, addr]);
    assert(joined(all, seq![' ']) =~= "c=IN "@ + kind + " "@ + addr);
    let z = seq!["0"@];
    let y = seq!["RTP/AVP"@] + z;
    let x = seq![number] + y;
    let media = seq!["m=audio"@] + x;
    assert(joined(z, seq![' ']) == "0"@);
    lemma_word_before("RTP/AVP"@, z);
    lemma_word_before(number, y);
    lemma_word_before("m=audio"@, x);
    assert forall|k: int| 0 <= k < media.len() implies is_word(#[trigger] media[k]) by {}
    lemma_split(media);
    assert(media =~= seq!["m=audio"@, number, "RTP/AVP"@, "0"@]);
    assert(joined(media, seq![' ']) =~= "m=audio "@ + number + " RTP/AVP 0"@);
}

/// What an offer says, line by line: who opened which session, where media is
/// taken, and that PCMU in frames of 20 milliseconds, both ways, is all there is.
pub proof fn law_offer_lines(ip: IpModel, port: nat, session_id: nat)
    requires
        ip.well_formed(),
    ensures
        ({
            let lines = lines_of(offer_text(ip, port, session_id));
            let kind = if ip is V4 {
                "IP4"@
            } else {
                "IP6"@
            };
            &&& lines.len() == 9
            &&& lines[0] == "v=0"@
            &&& words_of(lines[1]) == seq![
                "o=slmodem-sip-bridge"@,
                decimal(session_id),
                decimal(session_id),
                "IN"@,
                kind,
                ip_text(ip),
            ]
            &&& lines[2] == "s=slmodem-sip-bridge"@
            &&& words_of(lines[3]) == seq!["c=IN"@, kind, ip_text(ip)]
            &&& lines[4] == "t=0 0"@
            &&& words_of(lines[5]) == seq!["m=audio"@, decimal(port), "RTP/AVP"@, "0"@]
            &&& lines[6] == "a=rtpmap:0 PCMU/8000"@
            &&& lines[7] == "a=ptime:20"@
            &&& lines[8] == "a=sendrecv"@
        }),
{
    lemma_offer_lines(ip, port, session_id);
    lemma_origin_words(ip, session_id);
    lemma_media_words(ip, port);
    assert(family(ip) == if ip is V4 {
        "IP4"@
    } else {
        "IP6"@
    });
}

/// An audio line is read word by word, however the words are set apart: the port,
/// the protocol, and payload types among which 0 has to be.
pub proof fn law_audio_words(
    text: Seq<char>,
    number: Seq<char>,
    protocol: Seq<char>,
    types: Seq<Seq<char>>,
    port: nat,
)
    requires
        words_of(text) == seq![number, protocol] + types,
        types.len() > 0,
        unsigned(number, 65535) == Some(port),
    ensures
        audio_port("m=audio "@ + text) == (if types.contains(seq!['0']) {
            Ok::<nat, SdpFault>(port)
        } else {
            Err(SdpFault::NoPcmu(types))
        }),
{
    reveal_strlit("m=audio ");
    reveal_strlit("0");
    assert("0"@ =~= seq!['0']);
    assert(("m=audio "@ + text).skip(8) =~= text);
    assert((seq![number, protocol] + types).skip(2) =~= types);
}

/// A connection line is read word by word, however the words are set apart.
pub proof fn law_connection_words(
    text: Seq<char>,
    network: Seq<char>,
    kind: Seq<char>,
    address: Seq<char>,
    more: Seq<Seq<char>>,
)
    requires
        words_of(text) == seq![network, kind, address] + more,
        text.len() > 0,
        !white_space(text.last()),
    ensures
        connection_of("c="@ + text) == ip_of_text(address),
{
    reveal_strlit("c=");
    let line = "c="@ + text;
    assert(line[0] == 'c' && line.last() == text.last());
    lemma_already_trimmed(line);
    assert(line.take(2) =~= "c="@);
    assert(line.skip(2) =~= text);
}

/// White space around a line does not matter.
pub proof fn law_line_trimmed(a: Seq<char>, line: Seq<char>, b: Seq<char>)
    requires
        crate::text::blank(a),
        crate::text::blank(b),
        line.len() > 0,
        !white_space(line[0]),
        !white_space(line.last()),
    ensures
        trimmed(a + line + b) == line,
        is_audio(a + line + b) == is_audio(line),
        connection_of(a + line + b) == connection_of(line),
{
    crate::text::law_trim(a, line, b);
    lemma_already_trimmed(line);
}

/// What each fault is called. A port that is no number is told with what is wrong
/// with it, and a missing PCMU with what was offered instead.
pub proof fn law_faults_told(fault: NumberFault, offered: Seq<Seq<char>>)
    ensures
        SdpFault::NoPort.message() == "SDP m=audio line has no port"@,
        SdpFault::InvalidPort(fault).message() == "invalid port in SDP m=audio line: "@
            + fault.reason(),
        SdpFault::NoPayloadTypes.message() == "SDP m=audio line has no payload types"@,
        SdpFault::NoPcmu(offered).message()
            == "SDP answer does not include PCMU (PT 0), offered: "@ + debug_list(offered),
        SdpFault::NoAudioLine.message() == "SDP answer has no m=audio line"@,
        SdpFault::NoConnection.message() == "SDP answer has no c= connection line"@,
        NumberFault::InvalidDigit.reason() == "invalid digit found in string"@,
        NumberFault::TooLarge.reason() == "number too large to fit in target type"@,
{
}

} // verus!
