//! What requests say can be read back: the number and the identifier of a
//! request are found by the functions that read messages, and so is the SDP that
//! an INVITE offers.

use crate::message::{
    announces_sdp, carries, cseq_of, first_header, header_mark, header_of, sdp_body, value_in,
};
use crate::net::{address_char, ip_text, lemma_ip_text_chars};
use crate::numeral::{decimal, digit_value, law_decimal_round_trip, lemma_decimal};
use crate::sip::{
    ack_lines, ack_text, bye_lines, bye_text, contact_line, from_line, host_port, invite_lines,
    invite_text, own_address, register_lines, register_text, tag_suffix, via_line, without_scheme,
    CallModel, ClientModel,
};
use crate::text::{
    begins_with, ended_lines, find_from, joined, lemma_already_trimmed, lemma_find_from,
    lemma_find_skip, lemma_lines_before, lemma_trim_end_prefix, lemma_words_joined, lines_from,
    lines_of, lower, lowered, occurs_at, trim_end, trim_start, trimmed, white_space, words_of,
};
use vstd::prelude::*;

verus! {

/// Whether a text stays on one line.
pub open spec fn unbroken(s: Seq<char>) -> bool {
    forall|i: int| 0 <= i < s.len() ==> #[trigger] s[i] != '\n' && s[i] != '\r'
}

/// Whether a text is not empty and has no white space at its ends.
pub open spec fn tidy(s: Seq<char>) -> bool {
    s.len() > 0 && !white_space(s[0]) && !white_space(s.last())
}

impl ClientModel {
    /// Whether all that a client puts into requests stays on one line.
    pub open spec fn unbroken(self) -> bool {
        &&& self.ip.well_formed()
        &&& unbroken(self.domain)
        &&& unbroken(self.username)
        &&& unbroken(self.caller_id)
        &&& unbroken(self.caller_name)
    }
}

impl CallModel {
    /// Whether all that a call puts into requests stays on one line.
    pub open spec fn unbroken(self) -> bool {
        &&& unbroken(self.call_id)
        &&& tidy(self.call_id)
        &&& unbroken(self.local_tag)
        &&& unbroken(self.invite_uri)
        &&& unbroken(self.via_branch)
        &&& self.remote_tag matches Some(tag) ==> unbroken(tag)
    }
}

// --- Header lines ---

/// A line that differs from the mark of a header does not carry the header.
proof fn lemma_not_carried(line: Seq<char>, name: Seq<char>, k: int)
    requires
        line.len() > 0,
        !white_space(line[0]),
        0 <= k < header_mark(name).len(),
        k < line.len(),
        lower(line[k]) != lower(header_mark(name)[k]),
    ensures
        !carries(line, name),
{
    let text = trimmed(line);
    let mark = header_mark(name);
    lemma_trim_end_prefix(line);
    if carries(line, name) {
        assert(lowered(text.take(mark.len() as int))[k] == lower(line[k]));
        assert(lowered(mark)[k] == lower(mark[k]));
    }
}

/// A line that is made of a name and a value carries the header with that value.
proof fn lemma_carried(line: Seq<char>, name: Seq<char>, value: Seq<char>)
    requires
        tidy(value),
        name.len() > 0,
        !white_space(name[0]),
        line == name + seq![':', ' '] + value,
    ensures
        carries(line, name),
        value_in(line, name) == value,
{
    let mark = header_mark(name);
    assert(line[0] == name[0]);
    assert(line.last() == value.last());
    lemma_already_trimmed(line);
    assert(line.take(mark.len() as int) =~= mark);
    let rest = line.skip(mark.len() as int);
    assert(rest =~= seq![' '] + value);
    assert(rest[0] == ' ');
    assert(rest.skip(1) =~= value);
    assert(trim_start(rest) == trim_start(value));
    lemma_already_trimmed(value);
}

/// The first line that carries a header is the one that counts.
pub proof fn lemma_first_header(lines: Seq<Seq<char>>, name: Seq<char>, k: int)
    requires
        0 <= k < lines.len(),
        forall|j: int| 0 <= j < k ==> !carries(#[trigger] lines[j], name),
        carries(lines[k], name),
    ensures
        first_header(lines, name) == Some(value_in(lines[k], name)),
    decreases k,
{
    if k > 0 {
        let rest = lines.skip(1);
        assert(!carries(lines[0], name));
        assert forall|j: int| 0 <= j < k - 1 implies !carries(#[trigger] rest[j], name) by {
            assert(rest[j] == lines[j + 1]);
        }
        assert(rest[k - 1] == lines[k]);
        lemma_first_header(rest, name, k - 1);
    }
}

/// The number at the beginning of a `CSeq` header.
proof fn lemma_cseq_value(n: nat, method: Seq<char>)
    requires
        n <= u32::MAX,
        method.len() > 0,
        forall|i: int| 0 <= i < method.len() ==> !white_space(#[trigger] method[i]),
    ensures
        tidy(decimal(n) + seq![' '] + method),
        words_of(decimal(n) + seq![' '] + method) == seq![decimal(n), method],
{
    lemma_decimal(n);
    let number = decimal(n);
    let value = number + seq![' '] + method;
    let parts = seq![number, method];
    assert forall|i: int| 0 <= i < number.len() implies !white_space(#[trigger] number[i]) by {
        assert(digit_value(number[i]) < 10);
    }
    assert(value[0] == number[0]);
    assert(value.last() == method.last());
    assert(parts.skip(1) =~= seq![method]);
    assert(joined(parts.skip(1), seq![' ']) == method);
    assert(joined(parts, seq![' ']) =~= value);
    assert(value.skip(0) =~= value);
    assert forall|k: int, m: int|
        0 <= k < parts.len() && 0 <= m < parts[k].len() implies !white_space(
        #[trigger] parts[k][m],
    ) by {
        if k == 0 {
            assert(!white_space(number[m]));
        } else {
            assert(!white_space(method[m]));
        }
    }
    lemma_words_joined(value, parts, 0);
}

// --- Requests ---

/// Whether the lines of a request begin as requests do: with a request line, and
/// then the headers `Via`, `From`, `To`, `Call-ID` and `CSeq`.
spec fn request_shape(
    lines: Seq<Seq<char>>,
    call_id: Seq<char>,
    cseq: nat,
    method: Seq<char>,
) -> bool {
    &&& lines.len() >= 6
    &&& forall|k: int| 0 <= k < lines.len() ==> unbroken(#[trigger] lines[k])
    &&& forall|k: int| 0 <= k < 4 ==> (#[trigger] lines[k]).len() > 1 && !white_space(lines[k][0])
        && lower(lines[k][0]) != 'c'
    &&& lines[4] == "Call-ID: "@ + call_id
    &&& lines[5] == "CSeq: "@ + decimal(cseq) + seq![' '] + method
}

/// A request is read back: its identifier and its number are found.
proof fn lemma_request(
    s: Seq<char>,
    lines: Seq<Seq<char>>,
    body: Seq<char>,
    call_id: Seq<char>,
    cseq: nat,
    method: Seq<char>,
)
    requires
        s == ended_lines(lines) + body,
        request_shape(lines, call_id, cseq, method),
        tidy(call_id),
        cseq <= u32::MAX,
        method.len() > 0,
        forall|i: int| 0 <= i < method.len() ==> !white_space(#[trigger] method[i]),
    ensures
        header_of(s, "Call-ID"@) == Some(call_id),
        cseq_of(s) == Some(cseq),
        lines_of(s).len() >= lines.len(),
        forall|k: int| 0 <= k < lines.len() ==> #[trigger] lines_of(s)[k] == lines[k],
{
    reveal_strlit("Call-ID");
    reveal_strlit("Call-ID: ");
    reveal_strlit("CSeq");
    reveal_strlit("CSeq: ");
    assert(s.skip(0) =~= s);
    assert forall|k: int, m: int|
        0 <= k < lines.len() && 0 <= m < lines[k].len() implies #[trigger] lines[k][m] != '\n' by {
        assert(unbroken(lines[k]));
    }
    lemma_lines_before(s, lines, body, 0);
    let all = lines_of(s);
    assert(all =~= lines + lines_from(s, ended_lines(lines).len() as int));
    assert forall|k: int| 0 <= k < lines.len() implies #[trigger] all[k] == lines[k] by {}
    assert forall|k: int| 0 <= k < 4 implies !carries(#[trigger] all[k], "Call-ID"@) by {
        assert(all[k] == lines[k]);
        lemma_not_carried(lines[k], "Call-ID"@, 0);
    }
    assert(lines[4] =~= "Call-ID"@ + seq![':', ' '] + call_id);
    lemma_carried(lines[4], "Call-ID"@, call_id);
    assert(all[4] == lines[4]);
    lemma_first_header(all, "Call-ID"@, 4);
    let value = decimal(cseq) + seq![' '] + method;
    lemma_cseq_value(cseq, method);
    assert forall|k: int| 0 <= k < 5 implies !carries(#[trigger] all[k], "CSeq"@) by {
        assert(all[k] == lines[k]);
        if k < 4 {
            lemma_not_carried(lines[k], "CSeq"@, 0);
        } else {
            lemma_not_carried(lines[4], "CSeq"@, 1);
        }
    }
    assert(lines[5] =~= "CSeq"@ + seq![':', ' '] + value);
    lemma_carried(lines[5], "CSeq"@, value);
    assert(all[5] == lines[5]);
    lemma_first_header(all, "CSeq"@, 5);
    law_decimal_round_trip(cseq, u32::MAX as nat);
}

/// Numbers and addresses stay on one line.
pub proof fn lemma_unbroken_numbers(c: ClientModel, n: nat)
    requires
        c.ip.well_formed(),
    ensures
        unbroken(decimal(n)),
        unbroken(ip_text(c.ip)),
        unbroken(host_port(c)),
{
    reveal_strlit(":");
    lemma_decimal(n);
    assert forall|i: int| 0 <= i < decimal(n).len() implies #[trigger] decimal(n)[i] != '\n'
        && decimal(n)[i] != '\r' by {
        assert(digit_value(decimal(n)[i]) < 10);
    }
    lemma_decimal(c.port);
    assert forall|i: int| 0 <= i < decimal(c.port).len() implies #[trigger] decimal(c.port)[i]
        != '\n' && decimal(c.port)[i] != '\r' by {
        assert(digit_value(decimal(c.port)[i]) < 10);
    }
    lemma_ip_text_chars(c.ip);
    assert forall|i: int| 0 <= i < ip_text(c.ip).len() implies #[trigger] ip_text(c.ip)[i] != '\n'
        && ip_text(c.ip)[i] != '\r' by {
        assert(address_char(ip_text(c.ip)[i]));
    }
}

/// The lines that requests share stay on one line.
proof fn lemma_unbroken_lines(c: ClientModel, branch: Seq<char>, tag: Seq<char>)
    requires
        c.unbroken(),
        unbroken(branch),
        unbroken(tag),
    ensures
        unbroken(via_line(c, branch)),
        unbroken(from_line(c, tag)),
        unbroken(contact_line(c)),
        unbroken(own_address(c)),
        via_line(c, branch).len() > 1,
        via_line(c, branch)[0] == 'V',
        from_line(c, tag).len() > 1,
        from_line(c, tag)[0] == 'F',
{
    reveal_strlit("Via: SIP/2.0/UDP ");
    reveal_strlit(";branch=");
    reveal_strlit(";rport");
    reveal_strlit("From: \"");
    reveal_strlit("\" <sip:");
    reveal_strlit("@");
    reveal_strlit(">;tag=");
    reveal_strlit("Contact: <sip:");
    reveal_strlit("<sip:");
    reveal_strlit(">");
    lemma_unbroken_numbers(c, 0);
}

/// The parameter that names the remote side stays on one line.
proof fn lemma_unbroken_tag(tag: Option<Seq<char>>)
    requires
        tag matches Some(tag) ==> unbroken(tag),
    ensures
        unbroken(tag_suffix(tag)),
{
    reveal_strlit(";tag=");
}

/// The ACK of a call names the call and the number of its INVITE.
pub proof fn law_ack_read_back(c: ClientModel, call: CallModel)
    requires
        c.unbroken(),
        call.unbroken(),
        call.cseq <= u32::MAX,
    ensures
        header_of(ack_text(c, call), "Call-ID"@) == Some(call.call_id),
        cseq_of(ack_text(c, call)) == Some(call.cseq),
{
    reveal_strlit("ACK ");
    reveal_strlit(" SIP/2.0");
    reveal_strlit("To: <");
    reveal_strlit(">");
    reveal_strlit("Call-ID: ");
    reveal_strlit("CSeq: ");
    reveal_strlit(" ACK");
    reveal_strlit("Max-Forwards: 70");
    reveal_strlit("User-Agent: slmodem-sip-bridge");
    reveal_strlit("Content-Length: 0");
    reveal_strlit("");
    let lines = ack_lines(c, call);
    let method = seq!['A', 'C', 'K'];
    lemma_unbroken_lines(c, call.via_branch, call.local_tag);
    lemma_unbroken_numbers(c, call.cseq);
    lemma_unbroken_tag(call.remote_tag);
    assert(lines[5] =~= "CSeq: "@ + decimal(call.cseq) + seq![' '] + method);
    assert forall|k: int| 0 <= k < lines.len() implies unbroken(#[trigger] lines[k]) by {}
    assert(lines[0][0] == 'A' && lines[3][0] == 'T');
    assert(ack_text(c, call) =~= ended_lines(lines) + Seq::empty());
    lemma_request(ack_text(c, call), lines, Seq::empty(), call.call_id, call.cseq, method);
}

/// Taking the scheme off a URI adds no character.
pub proof fn lemma_unbroken_uri(uri: Seq<char>)
    requires
        unbroken(uri),
    ensures
        unbroken(without_scheme(uri)),
    decreases uri.len(),
{
    if uri.len() >= 4 && begins_with(uri, "sip:"@) {
        let rest = uri.skip(4);
        assert forall|i: int| 0 <= i < rest.len() implies #[trigger] rest[i] != '\n' && rest[i]
            != '\r' by {
            assert(rest[i] == uri[i + 4]);
        }
        lemma_unbroken_uri(rest);
    }
}

/// The BYE of a call names the call, and has the number after its INVITE's.
pub proof fn law_bye_read_back(c: ClientModel, call: CallModel, branch: Seq<char>)
    requires
        c.unbroken(),
        call.unbroken(),
        unbroken(branch),
        call.cseq < u32::MAX,
    ensures
        header_of(bye_text(c, call, branch), "Call-ID"@) == Some(call.call_id),
        cseq_of(bye_text(c, call, branch)) == Some(call.cseq + 1),
{
    reveal_strlit("BYE ");
    reveal_strlit(" SIP/2.0");
    reveal_strlit("To: <sip:");
    reveal_strlit(">");
    reveal_strlit("Call-ID: ");
    reveal_strlit("CSeq: ");
    reveal_strlit(" BYE");
    reveal_strlit("Max-Forwards: 70");
    reveal_strlit("User-Agent: slmodem-sip-bridge");
    reveal_strlit("Content-Length: 0");
    reveal_strlit("");
    let lines = bye_lines(c, call, branch);
    let method = seq!['B', 'Y', 'E'];
    lemma_unbroken_lines(c, branch, call.local_tag);
    lemma_unbroken_numbers(c, call.cseq + 1);
    lemma_unbroken_tag(call.remote_tag);
    lemma_unbroken_uri(call.invite_uri);
    assert(lines[5] =~= "CSeq: "@ + decimal(call.cseq + 1) + seq![' '] + method);
    assert forall|k: int| 0 <= k < lines.len() implies unbroken(#[trigger] lines[k]) by {}
    assert(lines[0][0] == 'B' && lines[3][0] == 'T');
    assert(bye_text(c, call, branch) =~= ended_lines(lines) + Seq::empty());
    lemma_request(
        bye_text(c, call, branch),
        lines,
        Seq::empty(),
        call.call_id,
        call.cseq + 1,
        method,
    );
}

/// ACK and BYE of a call go to the same address, where the URI has the scheme
/// once.
pub proof fn law_same_recipient(
    c: ClientModel,
    call: CallModel,
    branch: Seq<char>,
    address: Seq<char>,
)
    requires
        call.invite_uri == "sip:"@ + address,
        !begins_with(address, "sip:"@),
    ensures
        ack_lines(c, call)[3] == bye_lines(c, call, branch)[3],
{
    reveal_strlit("sip:");
    reveal_strlit("To: <");
    reveal_strlit("To: <sip:");
    assert(call.invite_uri.take(4) =~= "sip:"@);
    assert(call.invite_uri.skip(4) =~= address);
    assert(without_scheme(address) == address);
    assert("To: <"@ + call.invite_uri =~= "To: <sip:"@ + address);
}

/// A REGISTER request names its registration and has its number.
pub proof fn law_register_read_back(
    c: ClientModel,
    call_id: Seq<char>,
    tag: Seq<char>,
    branch: Seq<char>,
    cseq: nat,
    authorization: Option<Seq<char>>,
)
    requires
        c.unbroken(),
        unbroken(call_id),
        tidy(call_id),
        unbroken(tag),
        unbroken(branch),
        cseq <= u32::MAX,
        authorization matches Some(value) ==> unbroken(value),
    ensures
        ({
            let request = register_text(c, call_id, tag, branch, cseq, authorization);
            &&& header_of(request, "Call-ID"@) == Some(call_id)
            &&& cseq_of(request) == Some(cseq)
        }),
{
    reveal_strlit("REGISTER sip:");
    reveal_strlit(" SIP/2.0");
    reveal_strlit("From: ");
    reveal_strlit(";tag=");
    reveal_strlit("To: ");
    reveal_strlit("Call-ID: ");
    reveal_strlit("CSeq: ");
    reveal_strlit(" REGISTER");
    reveal_strlit("Expires: 180");
    reveal_strlit("Max-Forwards: 70");
    reveal_strlit("User-Agent: slmodem-sip-bridge");
    reveal_strlit("Authorization: ");
    reveal_strlit("Content-Length: 0");
    reveal_strlit("");
    let lines = register_lines(c, call_id, tag, branch, cseq, authorization);
    let method = seq!['R', 'E', 'G', 'I', 'S', 'T', 'E', 'R'];
    lemma_unbroken_lines(c, branch, tag);
    lemma_unbroken_numbers(c, cseq);
    assert(lines[5] =~= "CSeq: "@ + decimal(cseq) + seq![' '] + method);
    assert(unbroken(lines[0]) && unbroken(lines[2]) && unbroken(lines[3]));
    assert(unbroken(lines[4]) && unbroken(lines[5]) && unbroken(lines[7]));
    assert(unbroken(lines[8]) && unbroken(lines[9]) && unbroken(lines[10]));
    assert forall|k: int| 0 <= k < lines.len() implies unbroken(#[trigger] lines[k]) by {}
    assert(lines[0][0] == 'R' && lines[2][0] == 'F' && lines[3][0] == 'T');
    let request = register_text(c, call_id, tag, branch, cseq, authorization);
    assert(request =~= ended_lines(lines) + Seq::empty());
    lemma_request(request, lines, Seq::empty(), call_id, cseq, method);
}

// --- The body of an INVITE ---

/// The blank line that ends a header is the first one, where no header line is
/// empty.
pub proof fn lemma_blank_line(s: Seq<char>, heads: Seq<Seq<char>>, rest: Seq<char>, i: int)
    requires
        0 <= i <= s.len(),
        heads.len() > 0,
        s.skip(i) == ended_lines(heads) + (seq!['\r', '\n'] + rest),
        forall|k: int| 0 <= k < heads.len() ==> unbroken(#[trigger] heads[k]) && heads[k].len() > 0,
    ensures
        find_from(s, "\r\n\r\n"@, i) == Some(i + ended_lines(heads).len() - 2),
    decreases heads.len(),
{
    reveal_strlit("\r\n\r\n");
    let blank = "\r\n\r\n"@;
    let text = s.skip(i);
    let first = heads[0];
    let more = heads.skip(1);
    let tail = ended_lines(more) + (seq!['\r', '\n'] + rest);
    let n = first.len() as int;
    let j = i + n;
    assert(unbroken(heads[0]));
    assert(text =~= first + seq!['\r', '\n'] + tail);
    assert forall|k: int| i <= k < j implies !occurs_at(s, blank, k) by {
        assert(s[k] == text[k - i]);
        assert(text[k - i] == first[k - i]);
        if occurs_at(s, blank, k) {
            assert(s.subrange(k, k + 4)[0] == s[k]);
        }
    }
    assert(s[j] == text[n] && text[n] == '\r');
    assert(s[j + 1] == text[n + 1] && text[n + 1] == '\n');
    assert(s[j + 2] == text[n + 2] && text[n + 2] == tail[0]);
    assert(s[j + 3] == text[n + 3] && text[n + 3] == tail[1]);
    if more.len() == 0 {
        assert(tail =~= seq!['\r', '\n'] + rest);
        assert(s.subrange(j, j + 4) =~= blank);
        assert(occurs_at(s, blank, j));
        lemma_find_skip(s, blank, i, j);
    } else {
        assert(more[0] == heads[1]);
        assert(unbroken(heads[1]));
        assert(tail[0] == more[0][0]);
        assert forall|k: int| i <= k < j + 2 implies !occurs_at(s, blank, k) by {
            if k >= j && occurs_at(s, blank, k) {
                assert(s.subrange(k, k + 4)[0] == s[k]);
                assert(s.subrange(k, k + 4)[2] == s[k + 2]);
            }
        }
        assert(s.skip(j + 2) =~= text.skip(n + 2));
        assert(text.skip(n + 2) =~= tail);
        assert forall|k: int| 0 <= k < more.len() implies unbroken(#[trigger] more[k])
            && more[k].len() > 0 by {
            assert(more[k] == heads[k + 1]);
        }
        lemma_blank_line(s, more, rest, j + 2);
        lemma_ended_len(more);
        lemma_find_skip(s, blank, i, j + 2);
    }
}

/// Ended lines, of which there is at least one, hold at least one line end.
proof fn lemma_ended_len(lines: Seq<Seq<char>>)
    requires
        lines.len() > 0,
    ensures
        ended_lines(lines).len() >= 2,
{
}

/// A last line that is blank adds its line end.
proof fn lemma_ended_blank(heads: Seq<Seq<char>>)
    ensures
        ended_lines(heads.push(Seq::empty())) == ended_lines(heads) + seq!['\r', '\n'],
{
    crate::text::lemma_ended_push(heads, Seq::empty());
    assert(ended_lines(heads) + Seq::empty() + seq!['\r', '\n'] =~= ended_lines(heads) + seq![
        '\r',
        '\n',
    ]);
}

/// The line that says that a body is SDP does say so.
proof fn lemma_content_type()
    ensures
        announces_sdp("Content-Type: application/sdp"@),
{
    reveal_strlit("Content-Type: application/sdp");
    reveal_strlit("content-type:");
    reveal_strlit("application/sdp");
    let line = "Content-Type: application/sdp"@;
    lemma_already_trimmed(line);
    let text = lowered(line);
    assert(text.take(13) =~= "content-type:"@);
    assert(text.subrange(14, 29) =~= "application/sdp"@);
    lemma_find_from(text, "application/sdp"@, 0);
    assert(occurs_at(text, "application/sdp"@, 14));
}

/// An INVITE names its call and has its number, and what it offers is found as
/// its SDP body.
pub proof fn law_invite_read_back(
    c: ClientModel,
    uri: Seq<char>,
    call_id: Seq<char>,
    tag: Seq<char>,
    branch: Seq<char>,
    cseq: nat,
    sdp: Seq<char>,
    auth: Option<(Seq<char>, Seq<char>)>,
)
    requires
        c.unbroken(),
        unbroken(uri),
        unbroken(call_id),
        tidy(call_id),
        unbroken(tag),
        unbroken(branch),
        cseq <= u32::MAX,
        auth matches Some((name, value)) ==> unbroken(name) && unbroken(value),
        trimmed(sdp).len() > 0,
    ensures
        ({
            let request = invite_text(c, uri, call_id, tag, branch, cseq, sdp, auth);
            &&& header_of(request, "Call-ID"@) == Some(call_id)
            &&& cseq_of(request) == Some(cseq)
            &&& sdp_body(request) == Some(sdp)
        }),
{
    reveal_strlit("INVITE ");
    reveal_strlit(" SIP/2.0");
    reveal_strlit("To: <");
    reveal_strlit(">");
    reveal_strlit("Call-ID: ");
    reveal_strlit("CSeq: ");
    reveal_strlit(" INVITE");
    reveal_strlit("Contact: <sip:");
    reveal_strlit("Max-Forwards: 70");
    reveal_strlit("User-Agent: slmodem-sip-bridge");
    reveal_strlit("Allow: INVITE, ACK, BYE, CANCEL");
    reveal_strlit(": ");
    reveal_strlit("Content-Type: application/sdp");
    reveal_strlit("Content-Length: ");
    reveal_strlit("");
    let body_len = vstd::utf8::encode_utf8(sdp).len();
    let lines = invite_lines(c, uri, call_id, tag, branch, cseq, body_len, auth);
    let method = seq!['I', 'N', 'V', 'I', 'T', 'E'];
    lemma_unbroken_lines(c, branch, tag);
    lemma_unbroken_numbers(c, cseq);
    lemma_unbroken_numbers(c, body_len);
    assert(lines[5] =~= "CSeq: "@ + decimal(cseq) + seq![' '] + method);
    assert forall|k: int| 0 <= k < lines.len() implies unbroken(#[trigger] lines[k]) by {}
    assert(lines[0][0] == 'I' && lines[3][0] == 'T');
    let request = invite_text(c, uri, call_id, tag, branch, cseq, sdp, auth);
    lemma_request(request, lines, sdp, call_id, cseq, method);
    let announced = lines.len() - 3;
    lemma_content_type();
    assert(lines[announced] == "Content-Type: application/sdp"@);
    assert(announces_sdp(lines_of(request)[announced]));
    let heads = lines.drop_last();
    assert(""@ =~= Seq::empty());
    assert(heads.push(Seq::empty()) =~= lines);
    lemma_ended_blank(heads);
    assert forall|k: int| 0 <= k < heads.len() implies unbroken(#[trigger] heads[k])
        && heads[k].len() > 0 by {
        assert(heads[k] == lines[k]);
        assert(unbroken(lines[k]));
    }
    assert(request.skip(0) =~= ended_lines(heads) + (seq!['\r', '\n'] + sdp));
    lemma_blank_line(request, heads, sdp, 0);
    lemma_ended_len(heads);
    assert(request.skip(ended_lines(heads).len() as int + 2) =~= sdp);
}

/// A call is answered as it was offered: whoever reads the INVITE of a bridge
/// finds the address and port at which the bridge takes media.
pub proof fn law_offer_reaches_peer(
    c: ClientModel,
    uri: Seq<char>,
    call_id: Seq<char>,
    tag: Seq<char>,
    branch: Seq<char>,
    cseq: nat,
    port: nat,
    session_id: nat,
)
    requires
        c.unbroken(),
        unbroken(uri),
        unbroken(call_id),
        tidy(call_id),
        unbroken(tag),
        unbroken(branch),
        cseq <= u32::MAX,
        0 < port <= 65535,
    ensures
        crate::invitation::media_of(
            invite_text(
                c,
                uri,
                call_id,
                tag,
                branch,
                cseq,
                crate::sdp::offer_text(c.ip, port, session_id),
                None,
            ),
        ) == Some((c.ip, port)),
{
    let offer = crate::sdp::offer_text(c.ip, port, session_id);
    crate::sdp::law_offer_read_back(c.ip, port, session_id);
    lemma_offer_not_blank(c.ip, port, session_id);
    law_invite_read_back(c, uri, call_id, tag, branch, cseq, offer, None);
}

/// An offer is not blank.
proof fn lemma_offer_not_blank(ip: crate::net::IpModel, port: nat, session_id: nat)
    ensures
        trimmed(crate::sdp::offer_text(ip, port, session_id)).len() > 0,
{
    reveal_strlit("v=0");
    let offer = crate::sdp::offer_text(ip, port, session_id);
    let lines = crate::sdp::offer_lines(ip, port, session_id);
    assert(offer == lines[0] + seq!['\r', '\n'] + ended_lines(lines.skip(1)));
    assert(offer[0] == 'v');
    lemma_keeps_start(offer);
}

/// Trimming keeps a text that begins with something other than white space.
pub proof fn lemma_keeps_start(s: Seq<char>)
    requires
        s.len() > 0,
        !white_space(s[0]),
    ensures
        trim_end(s).len() > 0,
    decreases s.len(),
{
    if white_space(s.last()) {
        lemma_keeps_start(s.drop_last());
    }
}

/// A number has no white space at its ends.
pub proof fn lemma_tidy_number(n: nat)
    ensures
        tidy(decimal(n)),
        unbroken(decimal(n)),
{
    lemma_decimal(n);
    assert forall|i: int| 0 <= i < decimal(n).len() implies #[trigger] decimal(n)[i] != '\n'
        && decimal(n)[i] != '\r' && !white_space(decimal(n)[i]) by {
        assert(digit_value(decimal(n)[i]) < 10);
    }
}

} // verus!
