//! What requests say, header by header, to whoever receives them.

use crate::message::{header_of, sdp_body};
use crate::net::ip_text;
use crate::numeral::decimal;
use crate::read_back::{
    lemma_blank_line, lemma_tidy_number, lemma_unbroken_numbers, lemma_unbroken_uri, tidy, unbroken,
};
use crate::responses::{law_header_read, law_sdp_announced, lemma_blank_trimmed, names_header};
use crate::sip::{
    ack_lines, ack_text, bye_lines, bye_text, invite_lines, invite_text, register_lines,
    register_text, without_scheme, CallModel, ClientModel,
};
use crate::text::{
    blank, ended_lines, lemma_lines_before, lemma_trim_end_prefix, lines_from, lines_of, lower,
    lowered, trim_end, trimmed, white_space,
};
use vstd::prelude::*;
use vstd::utf8::encode_utf8;

verus! {

/// The line of a header.
pub open spec fn header_line(head: (Seq<char>, Seq<char>)) -> Seq<char> {
    head.0 + seq![':', ' '] + head.1
}

/// The lines of a message: its first line, its headers, and the blank line.
pub open spec fn message_lines(
    first: Seq<char>,
    heads: Seq<(Seq<char>, Seq<char>)>,
) -> Seq<Seq<char>> {
    seq![first] + heads.map_values(|head: (Seq<char>, Seq<char>)| header_line(head)) + seq![
        Seq::empty(),
    ]
}

/// Whether a text can be the name of a header.
pub open spec fn is_name(s: Seq<char>) -> bool {
    s.len() > 0 && !white_space(s[0]) && unbroken(s) && !s.contains(':')
}

/// A line whose first character is not that of a name does not name the header.
proof fn lemma_other_start(line: Seq<char>, name: Seq<char>)
    requires
        line.len() > 0,
        !white_space(line[0]),
        name.len() > 0,
        lower(line[0]) != lower(name[0]),
    ensures
        !names_header(line, name),
{
    lemma_trim_end_prefix(line);
    crate::read_back::lemma_keeps_start(line);
    let mark = lowered(name).push(':');
    if names_header(line, name) {
        let text = lowered(trimmed(line));
        assert(text.take(mark.len() as int)[0] == text[0]);
        assert(text[0] == lower(line[0]));
        assert(mark[0] == lower(name[0]));
    }
}

/// The line of one header does not name another.
proof fn lemma_other_name(head: (Seq<char>, Seq<char>), name: Seq<char>)
    requires
        is_name(head.0),
        is_name(name),
        lowered(head.0) != lowered(name),
    ensures
        !names_header(header_line(head), name),
{
    let line = header_line(head);
    let (h, n) = (head.0.len() as int, name.len() as int);
    assert(line[0] == head.0[0]);
    lemma_trim_end_prefix(line);
    let text = trimmed(line);
    assert(text == trim_end(line));
    let mark = lowered(name).push(':');
    if names_header(line, name) {
        let low = lowered(text);
        assert(low.take(n + 1) == mark);
        assert(low.take(n + 1)[n] == ':');
        assert(lower(line[n]) == ':');
        assert(line[n] == ':');
        assert forall|i: int| 0 <= i < n implies lower(line[i]) == lowered(name)[i] by {
            assert(low.take(n + 1)[i] == mark[i]);
        }
        assert(line[h] == ':');
        if n < h {
            assert(line[n] == head.0[n]);
            assert(head.0.contains(head.0[n]));
        } else if h < n {
            assert(lower(':') == ':');
            assert(lowered(name)[h] == ':');
            assert(lower(name[h]) == ':');
            assert(name[h] == ':');
            assert(name.contains(name[h]));
        } else {
            assert forall|i: int| 0 <= i < n implies lowered(head.0)[i] == lowered(name)[i] by {
                assert(line[i] == head.0[i]);
            }
            assert(lowered(head.0) =~= lowered(name));
        }
    }
}

/// Ended lines are those before a line, the line, and those after it.
proof fn lemma_ended_split(lines: Seq<Seq<char>>, k: int)
    requires
        0 <= k < lines.len(),
    ensures
        ended_lines(lines) == ended_lines(lines.take(k)) + lines[k] + seq!['\r', '\n']
            + ended_lines(lines.skip(k + 1)),
    decreases lines.len(),
{
    if k == 0 {
        assert(lines.take(0) =~= Seq::empty());
        assert(ended_lines(lines) =~= ended_lines(lines.take(k)) + lines[k] + seq!['\r', '\n']
            + ended_lines(lines.skip(1)));
    } else {
        let more = lines.skip(1);
        lemma_ended_split(more, k - 1);
        assert(more[k - 1] == lines[k]);
        assert(more.skip(k) =~= lines.skip(k + 1));
        let front = lines.take(k);
        assert(front[0] == lines[0]);
        assert(front.skip(1) =~= more.take(k - 1));
        assert(ended_lines(lines) =~= ended_lines(front) + lines[k] + seq!['\r', '\n']
            + ended_lines(lines.skip(k + 1)));
    }
}

/// A message is read header by header: the first line stands as it is, and a
/// header is found under its name, unless one before it has the same.
pub proof fn law_message_read(
    first: Seq<char>,
    heads: Seq<(Seq<char>, Seq<char>)>,
    body: Seq<char>,
    k: int,
)
    requires
        unbroken(first),
        first.len() > 0,
        !white_space(first[0]),
        forall|j: int|
            0 <= j < heads.len() ==> is_name((#[trigger] heads[j]).0) && unbroken(heads[j].1),
        0 <= k < heads.len(),
        tidy(heads[k].1),
        lower(first[0]) != lower(heads[k].0[0]),
        forall|j: int| 0 <= j < k ==> lowered((#[trigger] heads[j]).0) != lowered(heads[k].0),
    ensures
        lines_of(ended_lines(message_lines(first, heads)) + body)[0] == first,
        header_of(ended_lines(message_lines(first, heads)) + body, heads[k].0) == Some(heads[k].1),
{
    let lines = message_lines(first, heads);
    let s = ended_lines(lines) + body;
    let (name, value) = heads[k];
    assert forall|j: int| 0 <= j < lines.len() implies unbroken(#[trigger] lines[j]) by {
        if 0 < j <= heads.len() {
            assert(lines[j] == header_line(heads[j - 1]));
            assert(is_name(heads[j - 1].0));
            assert forall|i: int| 0 <= i < lines[j].len() implies #[trigger] lines[j][i] != '\n'
                && lines[j][i] != '\r' by {
                let h = heads[j - 1].0.len() as int;
                if i < h {
                    assert(lines[j][i] == heads[j - 1].0[i]);
                } else if i >= h + 2 {
                    assert(lines[j][i] == heads[j - 1].1[i - h - 2]);
                }
            }
        }
    }
    assert forall|j: int, m: int|
        0 <= j < lines.len() && 0 <= m < lines[j].len() implies #[trigger] lines[j][m] != '\n' by {
        assert(unbroken(lines[j]));
    }
    assert(s.skip(0) =~= s);
    lemma_lines_before(s, lines, body, 0);
    assert(lines_of(s) == lines + lines_from(s, ended_lines(lines).len() as int));
    assert(lines_of(s)[0] == first);
    let before = lines.take(k + 1);
    lemma_ended_split(lines, k + 1);
    assert(lines[k + 1] == header_line(heads[k]));
    assert forall|j: int| 0 <= j < before.len() implies !names_header(
        #[trigger] before[j],
        name,
    ) by {
        assert(is_name(heads[k].0));
        if j == 0 {
            lemma_other_start(first, name);
        } else {
            assert(before[j] == header_line(heads[j - 1]));
            assert(is_name(heads[j - 1].0));
            lemma_other_name(heads[j - 1], name);
        }
    }
    assert forall|j: int, m: int|
        0 <= j < before.len() && 0 <= m < before[j].len() implies #[trigger] before[j][m]
        != '\n' by {
        assert(before[j] == lines[j]);
        assert(lines[j][m] != '\n');
    }
    let rest = ended_lines(lines.skip(k + 2)) + body;
    let gap = seq![' '];
    assert(is_name(name));
    assert(!name.contains('\n'));
    assert(!value.contains('\n'));
    law_header_read(before, name, name, gap, value, Seq::empty(), rest);
    assert(name + seq![':'] + gap + value + Seq::empty() =~= header_line(heads[k]));
    assert(s =~= ended_lines(before) + header_line(heads[k]) + seq!['\r', '\n'] + rest);
}

// --- The requests ---

/// A number by which the names of headers are told apart: their length and their
/// second letter.
spec fn name_key(name: Seq<char>) -> int {
    1000 * name.len() + lower(name[1]) as int
}

proof fn lemma_keys()
    ensures
        is_name("Via"@) && name_key("Via"@) == 3105,
        is_name("From"@) && name_key("From"@) == 4114,
        is_name("To"@) && name_key("To"@) == 2111,
        is_name("Call-ID"@) && name_key("Call-ID"@) == 7097,
        is_name("CSeq"@) && name_key("CSeq"@) == 4115,
        is_name("Contact"@) && name_key("Contact"@) == 7111,
        is_name("Expires"@) && name_key("Expires"@) == 7120,
        is_name("Max-Forwards"@) && name_key("Max-Forwards"@) == 12097,
        is_name("User-Agent"@) && name_key("User-Agent"@) == 10115,
        is_name("Allow"@) && name_key("Allow"@) == 5108,
        is_name("Authorization"@) && name_key("Authorization"@) == 13117,
        is_name("Proxy-Authorization"@) && name_key("Proxy-Authorization"@) == 19114,
        is_name("Content-Type"@) && name_key("Content-Type"@) == 12111,
        is_name("Content-Length"@) && name_key("Content-Length"@) == 14111,
{
    reveal_strlit("Via");
    reveal_strlit("From");
    reveal_strlit("To");
    reveal_strlit("Call-ID");
    reveal_strlit("CSeq");
    reveal_strlit("Contact");
    reveal_strlit("Expires");
    reveal_strlit("Max-Forwards");
    reveal_strlit("User-Agent");
    reveal_strlit("Allow");
    reveal_strlit("Authorization");
    reveal_strlit("Proxy-Authorization");
    reveal_strlit("Content-Type");
    reveal_strlit("Content-Length");
}

/// A header is read where no header before it has the same key.
proof fn lemma_read(
    first: Seq<char>,
    heads: Seq<(Seq<char>, Seq<char>)>,
    body: Seq<char>,
    k: int,
)
    requires
        unbroken(first),
        first.len() > 0,
        !white_space(first[0]),
        forall|j: int|
            0 <= j < heads.len() ==> is_name((#[trigger] heads[j]).0) && unbroken(heads[j].1),
        0 <= k < heads.len(),
        tidy(heads[k].1),
        heads[k].0.len() > 1,
        lower(first[0]) != lower(heads[k].0[0]),
        forall|j: int| 0 <= j < k ==> name_key((#[trigger] heads[j]).0) != name_key(heads[k].0),
    ensures
        lines_of(ended_lines(message_lines(first, heads)) + body)[0] == first,
        header_of(ended_lines(message_lines(first, heads)) + body, heads[k].0) == Some(heads[k].1),
{
    assert forall|j: int| 0 <= j < k implies lowered((#[trigger] heads[j]).0) != lowered(
        heads[k].0,
    ) by {
        let (a, b) = (heads[j].0, heads[k].0);
        if lowered(a) == lowered(b) {
            assert(lowered(a).len() == a.len() && lowered(b).len() == b.len());
            assert(lowered(a)[1] == lower(a[1]) && lowered(b)[1] == lower(b[1]));
        }
    }
    law_message_read(first, heads, body, k);
}

/// Where responses to a request come back to, and how they are matched to it.
spec fn via_value(c: ClientModel, branch: Seq<char>) -> Seq<char> {
    "SIP/2.0/UDP "@ + ip_text(c.ip) + seq![':'] + decimal(c.port) + ";branch="@ + branch
        + ";rport"@
}

/// Who calls.
spec fn caller_value(c: ClientModel, tag: Seq<char>) -> Seq<char> {
    seq!['"'] + c.caller_name + "\" <sip:"@ + c.caller_id + seq!['@'] + c.domain + ">;tag="@ + tag
}

/// Where this side is reached.
spec fn contact_value(c: ClientModel) -> Seq<char> {
    "<sip:"@ + c.username + seq!['@'] + ip_text(c.ip) + seq![':'] + decimal(c.port) + seq!['>']
}

/// Who is called, with the tag of the other side where it is known.
spec fn callee_value(uri: Seq<char>, tag: Option<Seq<char>>) -> Seq<char> {
    seq!['<'] + uri + seq!['>'] + (match tag {
        Some(tag) => ";tag="@ + tag,
        None => Seq::empty(),
    })
}

/// Who registers.
spec fn account_value(c: ClientModel) -> Seq<char> {
    "<sip:"@ + c.username + seq!['@'] + c.domain + seq!['>']
}

/// The values of headers that requests share stay on one line and have no white
/// space at their ends.
proof fn lemma_values(c: ClientModel, branch: Seq<char>, tag: Seq<char>)
    requires
        c.unbroken(),
        unbroken(branch),
        unbroken(tag),
        tidy(tag),
    ensures
        unbroken(via_value(c, branch)) && tidy(via_value(c, branch)),
        unbroken(caller_value(c, tag)) && tidy(caller_value(c, tag)),
        unbroken(contact_value(c)) && tidy(contact_value(c)),
        unbroken(account_value(c)) && tidy(account_value(c)),
        unbroken(account_value(c) + ";tag="@ + tag) && tidy(account_value(c) + ";tag="@ + tag),
{
    reveal_strlit("SIP/2.0/UDP ");
    reveal_strlit(";branch=");
    reveal_strlit(";rport");
    reveal_strlit("\" <sip:");
    reveal_strlit(">;tag=");
    reveal_strlit(";tag=");
    reveal_strlit("<sip:");
    lemma_unbroken_numbers(c, c.port);
    let via = via_value(c, branch);
    assert(via[0] == 'S' && via.last() == 't');
    let caller = caller_value(c, tag);
    assert(caller[0] == '"' && caller.last() == tag.last());
    let account = account_value(c) + ";tag="@ + tag;
    assert(account[0] == '<' && account.last() == tag.last());
}

/// The callee stays on one line and has no white space at its ends.
proof fn lemma_callee(uri: Seq<char>, tag: Option<Seq<char>>)
    requires
        unbroken(uri),
        tag matches Some(tag) ==> unbroken(tag) && tidy(tag),
    ensures
        unbroken(callee_value(uri, tag)) && tidy(callee_value(uri, tag)),
{
    reveal_strlit(";tag=");
    let value = callee_value(uri, tag);
    assert(value[0] == '<');
    match tag {
        Some(t) => {
            assert(value.last() == t.last());
        },
        None => {
            assert(value =~= seq!['<'] + uri + seq!['>']);
        },
    }
}

/// A number and a method.
proof fn lemma_cseq_value(n: nat, method: Seq<char>)
    requires
        unbroken(method),
        tidy(method),
    ensures
        unbroken(decimal(n) + seq![' '] + method) && tidy(decimal(n) + seq![' '] + method),
{
    lemma_tidy_number(n);
    let value = decimal(n) + seq![' '] + method;
    assert(value[0] == decimal(n)[0] && value.last() == method.last());
}

// --- INVITE ---

spec fn invite_heads(
    c: ClientModel,
    uri: Seq<char>,
    call_id: Seq<char>,
    tag: Seq<char>,
    branch: Seq<char>,
    cseq: nat,
    len: nat,
    auth: Option<(Seq<char>, Seq<char>)>,
) -> Seq<(Seq<char>, Seq<char>)> {
    seq![
        ("Via"@, via_value(c, branch)),
        ("From"@, caller_value(c, tag)),
        ("To"@, callee_value(uri, None)),
        ("Call-ID"@, call_id),
        ("CSeq"@, decimal(cseq) + seq![' '] + "INVITE"@),
        ("Contact"@, contact_value(c)),
        ("Max-Forwards"@, "70"@),
        ("User-Agent"@, "slmodem-sip-bridge"@),
        ("Allow"@, "INVITE, ACK, BYE, CANCEL"@),
    ] + (match auth {
        Some(head) => seq![head],
        None => Seq::empty(),
    }) + seq![("Content-Type"@, "application/sdp"@), ("Content-Length"@, decimal(len))]
}

/// The lines of a request as first line and headers: those that calls share.
proof fn lemma_call_lines(c: ClientModel, branch: Seq<char>, tag: Seq<char>, call_id: Seq<char>)
    ensures
        crate::sip::via_line(c, branch) == header_line(("Via"@, via_value(c, branch))),
        crate::sip::from_line(c, tag) == header_line(("From"@, caller_value(c, tag))),
        crate::sip::contact_line(c) == header_line(("Contact"@, contact_value(c))),
        crate::sip::own_address(c) == account_value(c),
        "Call-ID: "@ + call_id == header_line(("Call-ID"@, call_id)),
        "Max-Forwards: 70"@ == header_line(("Max-Forwards"@, "70"@)),
        "User-Agent: slmodem-sip-bridge"@ == header_line(("User-Agent"@, "slmodem-sip-bridge"@)),
        "Content-Length: 0"@ == header_line(("Content-Length"@, "0"@)),
        ""@ == Seq::<char>::empty(),
{
    reveal_strlit("Via: SIP/2.0/UDP ");
    reveal_strlit("Via");
    reveal_strlit("SIP/2.0/UDP ");
    reveal_strlit(":");
    reveal_strlit("@");
    reveal_strlit(">");
    reveal_strlit("From: \"");
    reveal_strlit("From");
    reveal_strlit("Contact: <sip:");
    reveal_strlit("Contact");
    reveal_strlit("<sip:");
    reveal_strlit("Call-ID: ");
    reveal_strlit("Call-ID");
    reveal_strlit("Max-Forwards: 70");
    reveal_strlit("Max-Forwards");
    reveal_strlit("70");
    reveal_strlit("User-Agent: slmodem-sip-bridge");
    reveal_strlit("User-Agent");
    reveal_strlit("slmodem-sip-bridge");
    reveal_strlit("Content-Length: 0");
    reveal_strlit("Content-Length");
    reveal_strlit("0");
    reveal_strlit("");
    assert(crate::sip::via_line(c, branch) =~= header_line(("Via"@, via_value(c, branch))));
    assert(crate::sip::from_line(c, tag) =~= header_line(("From"@, caller_value(c, tag))));
    assert(crate::sip::contact_line(c) =~= header_line(("Contact"@, contact_value(c))));
    assert(crate::sip::own_address(c) =~= account_value(c));
    assert("Call-ID: "@ + call_id =~= header_line(("Call-ID"@, call_id)));
    assert("Max-Forwards: 70"@ =~= header_line(("Max-Forwards"@, "70"@)));
    assert("User-Agent: slmodem-sip-bridge"@ =~= header_line(
        ("User-Agent"@, "slmodem-sip-bridge"@),
    ));
    assert("Content-Length: 0"@ =~= header_line(("Content-Length"@, "0"@)));
    assert(""@ =~= Seq::<char>::empty());
}

proof fn lemma_invite_shape(
    c: ClientModel,
    uri: Seq<char>,
    call_id: Seq<char>,
    tag: Seq<char>,
    branch: Seq<char>,
    cseq: nat,
    len: nat,
    auth: Option<(Seq<char>, Seq<char>)>,
)
    ensures
        invite_lines(c, uri, call_id, tag, branch, cseq, len, auth) == message_lines(
            "INVITE "@ + uri + " SIP/2.0"@,
            invite_heads(c, uri, call_id, tag, branch, cseq, len, auth),
        ),
{
    lemma_call_lines(c, branch, tag, call_id);
    reveal_strlit("To: <");
    reveal_strlit("To");
    reveal_strlit(">");
    reveal_strlit("CSeq: ");
    reveal_strlit("CSeq");
    reveal_strlit(" INVITE");
    reveal_strlit("INVITE");
    reveal_strlit("Allow: INVITE, ACK, BYE, CANCEL");
    reveal_strlit("Allow");
    reveal_strlit("INVITE, ACK, BYE, CANCEL");
    reveal_strlit(": ");
    reveal_strlit("Content-Type: application/sdp");
    reveal_strlit("Content-Type");
    reveal_strlit("application/sdp");
    reveal_strlit("Content-Length: ");
    reveal_strlit("Content-Length");
    let heads = invite_heads(c, uri, call_id, tag, branch, cseq, len, auth);
    let lines = invite_lines(c, uri, call_id, tag, branch, cseq, len, auth);
    assert("To: <"@ + uri + ">"@ =~= header_line(heads[2]));
    assert("CSeq: "@ + decimal(cseq) + " INVITE"@ =~= header_line(heads[4]));
    assert("Allow: INVITE, ACK, BYE, CANCEL"@ =~= header_line(heads[8]));
    let n = heads.len() as int;
    assert("Content-Type: application/sdp"@ =~= header_line(heads[n - 2]));
    assert("Content-Length: "@ + decimal(len) =~= header_line(heads[n - 1]));
    if let Some((name, value)) = auth {
        assert(name + ": "@ + value =~= header_line(heads[9]));
    }
    assert(lines =~= message_lines("INVITE "@ + uri + " SIP/2.0"@, heads));
}

/// An INVITE says whom it calls, who calls and where to answer, which call and
/// which request it is, what may come in it, and how many bytes of SDP follow.
/// Credentials stand under the header that they are meant for.
pub proof fn law_invite_headers(
    c: ClientModel,
    uri: Seq<char>,
    call_id: Seq<char>,
    tag: Seq<char>,
    branch: Seq<char>,
    cseq: nat,
    sdp: Seq<char>,
    auth: Option<(Seq<char>, Seq<char>)>,
)
    requires
        c.unbroken(),
        unbroken(uri),
        unbroken(call_id) && tidy(call_id),
        unbroken(tag) && tidy(tag),
        unbroken(branch),
        auth matches Some((name, value)) ==> {
            &&& name == "Authorization"@ || name == "Proxy-Authorization"@
            &&& unbroken(value) && tidy(value)
        },
    ensures
        ({
            let r = invite_text(c, uri, call_id, tag, branch, cseq, sdp, auth);
            let via = "SIP/2.0/UDP "@ + ip_text(c.ip) + seq![':'] + decimal(c.port)
                + ";branch="@ + branch + ";rport"@;
            let caller = seq!['"'] + c.caller_name + "\" <sip:"@ + c.caller_id + seq!['@']
                + c.domain + ">;tag="@ + tag;
            let contact = "<sip:"@ + c.username + seq!['@'] + ip_text(c.ip) + seq![':']
                + decimal(c.port) + seq!['>'];
            &&& lines_of(r)[0] == "INVITE "@ + uri + " SIP/2.0"@
            &&& header_of(r, "Via"@) == Some(via)
            &&& header_of(r, "From"@) == Some(caller)
            &&& header_of(r, "To"@) == Some(seq!['<'] + uri + seq!['>'])
            &&& header_of(r, "Call-ID"@) == Some(call_id)
            &&& header_of(r, "CSeq"@) == Some(decimal(cseq) + seq![' '] + "INVITE"@)
            &&& header_of(r, "Contact"@) == Some(contact)
            &&& header_of(r, "Max-Forwards"@) == Some("70"@)
            &&& header_of(r, "User-Agent"@) == Some("slmodem-sip-bridge"@)
            &&& header_of(r, "Allow"@) == Some("INVITE, ACK, BYE, CANCEL"@)
            &&& header_of(r, "Content-Type"@) == Some("application/sdp"@)
            &&& header_of(r, "Content-Length"@) == Some(decimal(encode_utf8(sdp).len()))
            &&& auth matches Some((name, value)) ==> header_of(r, name) == Some(value)
        }),
{
    let len = encode_utf8(sdp).len();
    let first = "INVITE "@ + uri + " SIP/2.0"@;
    let heads = invite_heads(c, uri, call_id, tag, branch, cseq, len, auth);
    lemma_invite_shape(c, uri, call_id, tag, branch, cseq, len, auth);
    lemma_keys();
    lemma_values(c, branch, tag);
    lemma_callee(uri, None);
    lemma_tidy_number(len);
    assert(unbroken("INVITE"@) && tidy("INVITE"@) && unbroken("70"@) && tidy("70"@) && unbroken(
        "slmodem-sip-bridge"@,
    ) && tidy("slmodem-sip-bridge"@) && unbroken("INVITE, ACK, BYE, CANCEL"@) && tidy(
        "INVITE, ACK, BYE, CANCEL"@,
    ) && unbroken("application/sdp"@) && tidy("application/sdp"@)) by {
        reveal_strlit("INVITE");
        reveal_strlit("70");
        reveal_strlit("slmodem-sip-bridge");
        reveal_strlit("INVITE, ACK, BYE, CANCEL");
        reveal_strlit("application/sdp");
    }
    lemma_cseq_value(cseq, "INVITE"@);
    assert(unbroken(first) && first.len() > 0 && first[0] == 'I') by {
        reveal_strlit("INVITE ");
        reveal_strlit(" SIP/2.0");
    }
    lemma_first_letters();
    let n = heads.len() as int;
    lemma_read(first, heads, sdp, 0);
    lemma_read(first, heads, sdp, 1);
    lemma_read(first, heads, sdp, 2);
    lemma_read(first, heads, sdp, 3);
    lemma_read(first, heads, sdp, 4);
    lemma_read(first, heads, sdp, 5);
    lemma_read(first, heads, sdp, 6);
    lemma_read(first, heads, sdp, 7);
    lemma_read(first, heads, sdp, 8);
    lemma_read(first, heads, sdp, 9);
    lemma_read(first, heads, sdp, n - 2);
    lemma_read(first, heads, sdp, n - 1);
    assert(callee_value(uri, None) =~= seq!['<'] + uri + seq!['>']);
}

proof fn lemma_first_letters()
    ensures
        "Via"@.len() > 1 && lower("Via"@[0]) == 'v',
        "From"@.len() > 1 && lower("From"@[0]) == 'f',
        "To"@.len() > 1 && lower("To"@[0]) == 't',
        "Call-ID"@.len() > 1 && lower("Call-ID"@[0]) == 'c',
        "CSeq"@.len() > 1 && lower("CSeq"@[0]) == 'c',
        "Contact"@.len() > 1 && lower("Contact"@[0]) == 'c',
        "Expires"@.len() > 1 && lower("Expires"@[0]) == 'e',
        "Max-Forwards"@.len() > 1 && lower("Max-Forwards"@[0]) == 'm',
        "User-Agent"@.len() > 1 && lower("User-Agent"@[0]) == 'u',
        "Allow"@.len() > 1 && lower("Allow"@[0]) == 'a',
        "Authorization"@.len() > 1 && lower("Authorization"@[0]) == 'a',
        "Proxy-Authorization"@.len() > 1 && lower("Proxy-Authorization"@[0]) == 'p',
        "Content-Type"@.len() > 1 && lower("Content-Type"@[0]) == 'c',
        "Content-Length"@.len() > 1 && lower("Content-Length"@[0]) == 'c',
        lower('I') == 'i' && lower('R') == 'r' && lower('A') == 'a' && lower('B') == 'b',
{
    reveal_strlit("Via");
    reveal_strlit("From");
    reveal_strlit("To");
    reveal_strlit("Call-ID");
    reveal_strlit("CSeq");
    reveal_strlit("Contact");
    reveal_strlit("Expires");
    reveal_strlit("Max-Forwards");
    reveal_strlit("User-Agent");
    reveal_strlit("Allow");
    reveal_strlit("Authorization");
    reveal_strlit("Proxy-Authorization");
    reveal_strlit("Content-Type");
    reveal_strlit("Content-Length");
}

// --- ACK ---

spec fn ack_heads(c: ClientModel, call: CallModel) -> Seq<(Seq<char>, Seq<char>)> {
    seq![
        ("Via"@, via_value(c, call.via_branch)),
        ("From"@, caller_value(c, call.local_tag)),
        ("To"@, callee_value(call.invite_uri, call.remote_tag)),
        ("Call-ID"@, call.call_id),
        ("CSeq"@, decimal(call.cseq) + seq![' '] + "ACK"@),
        ("Max-Forwards"@, "70"@),
        ("User-Agent"@, "slmodem-sip-bridge"@),
        ("Content-Length"@, "0"@),
    ]
}

proof fn lemma_ack_shape(c: ClientModel, call: CallModel)
    ensures
        ack_lines(c, call) == message_lines(
            "ACK "@ + call.invite_uri + " SIP/2.0"@,
            ack_heads(c, call),
        ),
{
    lemma_call_lines(c, call.via_branch, call.local_tag, call.call_id);
    reveal_strlit("To: <");
    reveal_strlit("To");
    reveal_strlit(">");
    reveal_strlit("sip:");
    reveal_strlit("CSeq: ");
    reveal_strlit("CSeq");
    reveal_strlit(" ACK");
    reveal_strlit("ACK");
    let heads = ack_heads(c, call);
    let lines = ack_lines(c, call);
    assert(lines[3] =~= header_line(heads[2]));
    assert(lines[5] =~= header_line(heads[4]));
    assert(lines =~= message_lines("ACK "@ + call.invite_uri + " SIP/2.0"@, heads));
}

/// An ACK belongs to the INVITE of a call: it has its identifier, number and
/// branch, and both tags.
pub proof fn law_ack_headers(c: ClientModel, call: CallModel)
    requires
        c.unbroken(),
        call.unbroken(),
        tidy(call.local_tag),
        call.remote_tag matches Some(tag) ==> tidy(tag),
    ensures
        ({
            let r = ack_text(c, call);
            let via = "SIP/2.0/UDP "@ + ip_text(c.ip) + seq![':'] + decimal(c.port)
                + ";branch="@ + call.via_branch + ";rport"@;
            let caller = seq!['"'] + c.caller_name + "\" <sip:"@ + c.caller_id + seq!['@']
                + c.domain + ">;tag="@ + call.local_tag;
            let callee = seq!['<'] + call.invite_uri + seq!['>'] + (match call.remote_tag {
                Some(tag) => ";tag="@ + tag,
                None => Seq::empty(),
            });
            &&& lines_of(r)[0] == "ACK "@ + call.invite_uri + " SIP/2.0"@
            &&& header_of(r, "Via"@) == Some(via)
            &&& header_of(r, "From"@) == Some(caller)
            &&& header_of(r, "To"@) == Some(callee)
            &&& header_of(r, "Call-ID"@) == Some(call.call_id)
            &&& header_of(r, "CSeq"@) == Some(decimal(call.cseq) + seq![' '] + "ACK"@)
            &&& header_of(r, "Max-Forwards"@) == Some("70"@)
            &&& header_of(r, "User-Agent"@) == Some("slmodem-sip-bridge"@)
            &&& header_of(r, "Content-Length"@) == Some("0"@)
        }),
{
    let first = "ACK "@ + call.invite_uri + " SIP/2.0"@;
    let heads = ack_heads(c, call);
    let uri = call.invite_uri;
    lemma_ack_shape(c, call);
    lemma_keys();
    lemma_values(c, call.via_branch, call.local_tag);
    lemma_callee(uri, call.remote_tag);
    assert(unbroken("ACK"@) && tidy("ACK"@) && unbroken("70"@) && tidy("70"@) && unbroken(
        "slmodem-sip-bridge"@,
    ) && tidy("slmodem-sip-bridge"@) && unbroken("0"@) && tidy("0"@)) by {
        reveal_strlit("ACK");
        reveal_strlit("70");
        reveal_strlit("slmodem-sip-bridge");
        reveal_strlit("0");
    }
    lemma_cseq_value(call.cseq, "ACK"@);
    assert(unbroken(first) && first.len() > 0 && first[0] == 'A') by {
        reveal_strlit("ACK ");
        reveal_strlit(" SIP/2.0");
    }
    lemma_first_letters();
    let none = Seq::<char>::empty();
    lemma_read(first, heads, none, 0);
    lemma_read(first, heads, none, 1);
    lemma_read(first, heads, none, 2);
    lemma_read(first, heads, none, 3);
    lemma_read(first, heads, none, 4);
    lemma_read(first, heads, none, 5);
    lemma_read(first, heads, none, 6);
    lemma_read(first, heads, none, 7);
    assert(ack_text(c, call) =~= ended_lines(message_lines(first, heads)) + none);
}

// --- BYE ---

spec fn bye_heads(c: ClientModel, call: CallModel, branch: Seq<char>) -> Seq<(Seq<char>, Seq<char>)> {
    seq![
        ("Via"@, via_value(c, branch)),
        ("From"@, caller_value(c, call.local_tag)),
        ("To"@, callee_value("sip:"@ + without_scheme(call.invite_uri), call.remote_tag)),
        ("Call-ID"@, call.call_id),
        ("CSeq"@, decimal(call.cseq + 1) + seq![' '] + "BYE"@),
        ("Max-Forwards"@, "70"@),
        ("User-Agent"@, "slmodem-sip-bridge"@),
        ("Content-Length"@, "0"@),
    ]
}

proof fn lemma_bye_shape(c: ClientModel, call: CallModel, branch: Seq<char>)
    ensures
        bye_lines(c, call, branch) == message_lines(
            "BYE "@ + call.invite_uri + " SIP/2.0"@,
            bye_heads(c, call, branch),
        ),
{
    lemma_call_lines(c, branch, call.local_tag, call.call_id);
    reveal_strlit("To: <sip:");
    reveal_strlit("To");
    reveal_strlit(">");
    reveal_strlit("sip:");
    reveal_strlit("CSeq: ");
    reveal_strlit("CSeq");
    reveal_strlit(" BYE");
    reveal_strlit("BYE");
    let heads = bye_heads(c, call, branch);
    let lines = bye_lines(c, call, branch);
    assert(lines[3] =~= header_line(heads[2]));
    assert(lines[5] =~= header_line(heads[4]));
    assert(lines =~= message_lines("BYE "@ + call.invite_uri + " SIP/2.0"@, heads));
}

/// A BYE ends the dialog of a call: it has the call's identifier and both tags, the
/// number after that of the INVITE, and a transaction of its own.
pub proof fn law_bye_headers(c: ClientModel, call: CallModel, branch: Seq<char>)
    requires
        c.unbroken(),
        call.unbroken(),
        tidy(call.local_tag),
        call.remote_tag matches Some(tag) ==> tidy(tag),
        unbroken(branch),
    ensures
        ({
            let r = bye_text(c, call, branch);
            let via = "SIP/2.0/UDP "@ + ip_text(c.ip) + seq![':'] + decimal(c.port)
                + ";branch="@ + branch + ";rport"@;
            let caller = seq!['"'] + c.caller_name + "\" <sip:"@ + c.caller_id + seq!['@']
                + c.domain + ">;tag="@ + call.local_tag;
            let callee = seq!['<'] + "sip:"@ + without_scheme(call.invite_uri) + seq!['>'] + (match call.remote_tag {
                Some(tag) => ";tag="@ + tag,
                None => Seq::empty(),
            });
            &&& lines_of(r)[0] == "BYE "@ + call.invite_uri + " SIP/2.0"@
            &&& header_of(r, "Via"@) == Some(via)
            &&& header_of(r, "From"@) == Some(caller)
            &&& header_of(r, "To"@) == Some(callee)
            &&& header_of(r, "Call-ID"@) == Some(call.call_id)
            &&& header_of(r, "CSeq"@) == Some(decimal(call.cseq + 1) + seq![' '] + "BYE"@)
            &&& header_of(r, "Max-Forwards"@) == Some("70"@)
            &&& header_of(r, "User-Agent"@) == Some("slmodem-sip-bridge"@)
            &&& header_of(r, "Content-Length"@) == Some("0"@)
        }),
{
    let first = "BYE "@ + call.invite_uri + " SIP/2.0"@;
    let heads = bye_heads(c, call, branch);
    let uri = "sip:"@ + without_scheme(call.invite_uri);
    lemma_bye_shape(c, call, branch);
    lemma_keys();
    lemma_values(c, branch, call.local_tag);
    lemma_unbroken_uri(call.invite_uri);
    assert(unbroken(uri)) by {
        reveal_strlit("sip:");
    }
    lemma_callee(uri, call.remote_tag);
    assert(unbroken("BYE"@) && tidy("BYE"@) && unbroken("70"@) && tidy("70"@) && unbroken(
        "slmodem-sip-bridge"@,
    ) && tidy("slmodem-sip-bridge"@) && unbroken("0"@) && tidy("0"@)) by {
        reveal_strlit("BYE");
        reveal_strlit("70");
        reveal_strlit("slmodem-sip-bridge");
        reveal_strlit("0");
    }
    lemma_cseq_value(call.cseq + 1, "BYE"@);
    assert(unbroken(first) && first.len() > 0 && first[0] == 'B') by {
        reveal_strlit("BYE ");
        reveal_strlit(" SIP/2.0");
    }
    lemma_first_letters();
    let none = Seq::<char>::empty();
    lemma_read(first, heads, none, 0);
    lemma_read(first, heads, none, 1);
    lemma_read(first, heads, none, 2);
    lemma_read(first, heads, none, 3);
    lemma_read(first, heads, none, 4);
    lemma_read(first, heads, none, 5);
    lemma_read(first, heads, none, 6);
    lemma_read(first, heads, none, 7);
    assert(bye_text(c, call, branch) =~= ended_lines(message_lines(first, heads)) + none);
}

/// The scheme of a URI is taken off however often it stands there.
pub proof fn law_without_scheme(address: Seq<char>)
    ensures
        without_scheme(seq!['s', 'i', 'p', ':'] + address) == without_scheme(address),
        !(address.len() >= 4 && address.take(4) == seq!['s', 'i', 'p', ':']) ==> without_scheme(
            address,
        ) == address,
{
    reveal_strlit("sip:");
    let scheme = seq!['s', 'i', 'p', ':'];
    assert("sip:"@ =~= scheme);
    assert((scheme + address).take(4) =~= scheme);
    assert((scheme + address).skip(4) =~= address);
}

// --- REGISTER ---

spec fn register_heads(
    c: ClientModel,
    call_id: Seq<char>,
    tag: Seq<char>,
    branch: Seq<char>,
    cseq: nat,
    authorization: Option<Seq<char>>,
) -> Seq<(Seq<char>, Seq<char>)> {
    seq![
        ("Via"@, via_value(c, branch)),
        ("From"@, account_value(c) + ";tag="@ + tag),
        ("To"@, account_value(c)),
        ("Call-ID"@, call_id),
        ("CSeq"@, decimal(cseq) + seq![' '] + "REGISTER"@),
        ("Contact"@, contact_value(c)),
        ("Expires"@, "180"@),
        ("Max-Forwards"@, "70"@),
        ("User-Agent"@, "slmodem-sip-bridge"@),
    ] + (match authorization {
        Some(value) => seq![("Authorization"@, value)],
        None => Seq::empty(),
    }) + seq![("Content-Length"@, "0"@)]
}

proof fn lemma_register_shape(
    c: ClientModel,
    call_id: Seq<char>,
    tag: Seq<char>,
    branch: Seq<char>,
    cseq: nat,
    authorization: Option<Seq<char>>,
)
    ensures
        register_lines(c, call_id, tag, branch, cseq, authorization) == message_lines(
            "REGISTER sip:"@ + c.domain + " SIP/2.0"@,
            register_heads(c, call_id, tag, branch, cseq, authorization),
        ),
{
    lemma_call_lines(c, branch, tag, call_id);
    reveal_strlit("From: ");
    reveal_strlit("From");
    reveal_strlit("To: ");
    reveal_strlit("To");
    reveal_strlit("CSeq: ");
    reveal_strlit("CSeq");
    reveal_strlit(" REGISTER");
    reveal_strlit("REGISTER");
    reveal_strlit("Expires: 180");
    reveal_strlit("Expires");
    reveal_strlit("180");
    reveal_strlit("Authorization: ");
    reveal_strlit("Authorization");
    let heads = register_heads(c, call_id, tag, branch, cseq, authorization);
    let lines = register_lines(c, call_id, tag, branch, cseq, authorization);
    assert(lines[2] =~= header_line(heads[1]));
    assert(lines[3] =~= header_line(heads[2]));
    assert(lines[5] =~= header_line(heads[4]));
    assert(lines[7] =~= header_line(heads[6]));
    if let Some(value) = authorization {
        assert(lines[10] =~= header_line(heads[9]));
    }
    assert(lines =~= message_lines("REGISTER sip:"@ + c.domain + " SIP/2.0"@, heads));
}

/// A REGISTER asks the trunk's domain to reach an account at this side for three
/// minutes.
pub proof fn law_register_headers(
    c: ClientModel,
    call_id: Seq<char>,
    tag: Seq<char>,
    branch: Seq<char>,
    cseq: nat,
    authorization: Option<Seq<char>>,
)
    requires
        c.unbroken(),
        unbroken(call_id) && tidy(call_id),
        unbroken(tag) && tidy(tag),
        unbroken(branch),
        authorization matches Some(value) ==> unbroken(value) && tidy(value),
    ensures
        ({
            let r = register_text(c, call_id, tag, branch, cseq, authorization);
            let via = "SIP/2.0/UDP "@ + ip_text(c.ip) + seq![':'] + decimal(c.port)
                + ";branch="@ + branch + ";rport"@;
            let account = "<sip:"@ + c.username + seq!['@'] + c.domain + seq!['>'];
            let contact = "<sip:"@ + c.username + seq!['@'] + ip_text(c.ip) + seq![':']
                + decimal(c.port) + seq!['>'];
            &&& lines_of(r)[0] == "REGISTER sip:"@ + c.domain + " SIP/2.0"@
            &&& header_of(r, "Via"@) == Some(via)
            &&& header_of(r, "From"@) == Some(account + ";tag="@ + tag)
            &&& header_of(r, "To"@) == Some(account)
            &&& header_of(r, "Call-ID"@) == Some(call_id)
            &&& header_of(r, "CSeq"@) == Some(decimal(cseq) + seq![' '] + "REGISTER"@)
            &&& header_of(r, "Contact"@) == Some(contact)
            &&& header_of(r, "Expires"@) == Some("180"@)
            &&& header_of(r, "Max-Forwards"@) == Some("70"@)
            &&& header_of(r, "User-Agent"@) == Some("slmodem-sip-bridge"@)
            &&& header_of(r, "Content-Length"@) == Some("0"@)
            &&& authorization matches Some(value) ==> header_of(r, "Authorization"@) == Some(value)
        }),
{
    let first = "REGISTER sip:"@ + c.domain + " SIP/2.0"@;
    let heads = register_heads(c, call_id, tag, branch, cseq, authorization);
    lemma_register_shape(c, call_id, tag, branch, cseq, authorization);
    lemma_keys();
    lemma_values(c, branch, tag);
    assert(unbroken("REGISTER"@) && tidy("REGISTER"@) && unbroken("70"@) && tidy("70"@)
        && unbroken("slmodem-sip-bridge"@) && tidy("slmodem-sip-bridge"@) && unbroken("0"@)
        && tidy("0"@) && unbroken("180"@) && tidy("180"@)) by {
        reveal_strlit("REGISTER");
        reveal_strlit("70");
        reveal_strlit("slmodem-sip-bridge");
        reveal_strlit("0");
        reveal_strlit("180");
    }
    lemma_cseq_value(cseq, "REGISTER"@);
    assert(unbroken(first) && first.len() > 0 && first[0] == 'R') by {
        reveal_strlit("REGISTER sip:");
        reveal_strlit(" SIP/2.0");
    }
    lemma_first_letters();
    let none = Seq::<char>::empty();
    let n = heads.len() as int;
    lemma_read(first, heads, none, 0);
    lemma_read(first, heads, none, 1);
    lemma_read(first, heads, none, 2);
    lemma_read(first, heads, none, 3);
    lemma_read(first, heads, none, 4);
    lemma_read(first, heads, none, 5);
    lemma_read(first, heads, none, 6);
    lemma_read(first, heads, none, 7);
    lemma_read(first, heads, none, 8);
    lemma_read(first, heads, none, 9);
    lemma_read(first, heads, none, n - 1);
    assert(register_text(c, call_id, tag, branch, cseq, authorization) =~= ended_lines(
        message_lines(first, heads),
    ) + none);
}

// --- Bodies ---

/// The body of a message whose content type is SDP is what follows its headers.
pub proof fn law_message_body(
    first: Seq<char>,
    heads: Seq<(Seq<char>, Seq<char>)>,
    body: Seq<char>,
    k: int,
)
    requires
        unbroken(first),
        first.len() > 0,
        forall|j: int|
            0 <= j < heads.len() ==> is_name((#[trigger] heads[j]).0) && unbroken(heads[j].1),
        0 <= k < heads.len(),
        heads[k] == ("Content-Type"@, "application/sdp"@),
    ensures
        sdp_body(ended_lines(message_lines(first, heads)) + body) == (if blank(body) {
            None
        } else {
            Some(body)
        }),
{
    let lines = message_lines(first, heads);
    let front = lines.drop_last();
    let s = ended_lines(lines) + body;
    assert forall|j: int| 0 <= j < front.len() implies unbroken(#[trigger] front[j])
        && front[j].len() > 0 by {
        if j > 0 {
            assert(front[j] == header_line(heads[j - 1]));
            assert(is_name(heads[j - 1].0));
            assert forall|i: int| 0 <= i < front[j].len() implies #[trigger] front[j][i] != '\n'
                && front[j][i] != '\r' by {
                let h = heads[j - 1].0.len() as int;
                if i < h {
                    assert(front[j][i] == heads[j - 1].0[i]);
                } else if i >= h + 2 {
                    assert(front[j][i] == heads[j - 1].1[i - h - 2]);
                }
            }
        }
    }
    assert(front.push(Seq::empty()) =~= lines);
    crate::text::lemma_ended_push(front, Seq::empty());
    assert(ended_lines(lines) =~= ended_lines(front) + seq!['\r', '\n']);
    assert(s.skip(0) =~= ended_lines(front) + (seq!['\r', '\n'] + body));
    lemma_blank_line(s, front, body, 0);
    let n = ended_lines(front).len() as int;
    assert(s.skip(n + 2) =~= body);
    assert forall|j: int, m: int|
        0 <= j < lines.len() && 0 <= m < lines[j].len() implies #[trigger] lines[j][m] != '\n' by {
        if j < front.len() {
            assert(lines[j] == front[j]);
            assert(unbroken(front[j]));
        }
    }
    assert(s.skip(0) =~= s);
    lemma_lines_before(s, lines, body, 0);
    assert(lines_of(s)[k + 1] == header_line(heads[k]));
    reveal_strlit("Content-Type");
    reveal_strlit("application/sdp");
    reveal_strlit("content-type:");
    let line = header_line(heads[k]);
    crate::text::lemma_already_trimmed(line);
    assert(lowered(line) =~= "content-type:"@ + seq![' '] + "application/sdp"@ + Seq::empty());
    law_sdp_announced(line, seq![' '], Seq::empty());
    lemma_blank_trimmed(body);
}

} // verus!
