//! What becomes of a registration and of a call when responses come as the other
//! side writes them.

use crate::digest::{authorization, challenge_of, ChallengeModel, DigestError};
use crate::invitation::{
    invite_step, law_answered, law_challenge_answered, law_early_media, law_refused,
    InvitationModel,
};
use crate::message::{cseq_of, status_of};
use crate::net::IpModel;
use crate::numeral::decimal;
use crate::read_back::{lemma_tidy_number, tidy, unbroken};
use crate::registration::{
    law_registered, law_rejected, register_step, RegisterError, RegisterMove, RegistrationModel,
};
use crate::requests::{is_name, law_message_body, law_message_read, message_lines};
use crate::responses::{law_cseq_read, law_response_status};
use crate::sdp::{answer_of, SdpFault};
use crate::sip::{invite_text, ClientModel};
use crate::text::{blank, ended_lines, lowered};
use vstd::prelude::*;

verus! {

/// The first line of a response.
spec fn status_line(status: nat, reason: Seq<char>) -> Seq<char> {
    "SIP/2.0 "@ + decimal(status) + seq![' '] + reason
}

/// Whether these are headers of a response to request number `n`, with the `CSeq`
/// header at index `k`.
pub open spec fn response_heads(
    heads: Seq<(Seq<char>, Seq<char>)>,
    k: int,
    n: nat,
    method: Seq<char>,
) -> bool {
    &&& forall|j: int|
        0 <= j < heads.len() ==> is_name((#[trigger] heads[j]).0) && unbroken(heads[j].1)
    &&& 0 <= k < heads.len()
    &&& heads[k] == ("CSeq"@, decimal(n) + seq![' '] + method)
    &&& forall|j: int| 0 <= j < k ==> lowered((#[trigger] heads[j]).0) != lowered("CSeq"@)
}

proof fn lemma_response(
    status: nat,
    reason: Seq<char>,
    heads: Seq<(Seq<char>, Seq<char>)>,
    k: int,
    n: nat,
    method: Seq<char>,
    body: Seq<char>,
)
    requires
        status <= 65535,
        unbroken(reason),
        n <= u32::MAX,
        tidy(method),
        response_heads(heads, k, n, method),
    ensures
        ({
            let resp = ended_lines(message_lines(status_line(status, reason), heads)) + body;
            &&& status_of(resp) == Some(status)
            &&& cseq_of(resp) == Some(n)
        }),
        unbroken(status_line(status, reason)),
        status_line(status, reason).len() > 0,
        status_line(status, reason)[0] == 'S',
{
    reveal_strlit("SIP/2.0 ");
    reveal_strlit("CSeq");
    let first = status_line(status, reason);
    lemma_tidy_number(status);
    lemma_tidy_number(n);
    assert forall|i: int| 0 <= i < first.len() implies #[trigger] first[i] != '\n' && first[i]
        != '\r' by {
        let d = decimal(status).len() as int;
        if 8 <= i < 8 + d {
            assert(first[i] == decimal(status)[i - 8]);
        } else if i > 8 + d {
            assert(first[i] == reason[i - 9 - d]);
        }
    }
    let lines = message_lines(first, heads);
    let resp = ended_lines(lines) + body;
    let rest = ended_lines(lines.skip(1)) + body;
    assert(lines[0] == first);
    assert(resp =~= first + seq!['\r', '\n'] + rest);
    assert(!reason.contains('\n') && !reason.contains('\r'));
    law_response_status(status, reason, rest);
    let value = decimal(n) + seq![' '] + method;
    assert(value[0] == decimal(n)[0] && value.last() == method.last());
    law_message_read(first, heads, body, k);
    law_cseq_read(resp, n, method);
}

/// A ringing call with media is heard: a response 180 or 183 to the INVITE under
/// way, with any reason and any headers, whose body is an SDP answer, makes the
/// call ready with early media from the endpoint that the answer names.
pub proof fn law_ringing_with_media(
    c: ClientModel,
    m: InvitationModel,
    branch: Seq<char>,
    cnonce: Seq<char>,
    status: nat,
    reason: Seq<char>,
    heads: Seq<(Seq<char>, Seq<char>)>,
    k: int,
    j: int,
    sdp: Seq<char>,
    ip: IpModel,
    port: nat,
)
    requires
        status == 180 || status == 183,
        unbroken(reason),
        m.call.cseq <= u32::MAX,
        response_heads(heads, k, m.call.cseq, "INVITE"@),
        0 <= j < heads.len(),
        heads[j] == ("Content-Type"@, "application/sdp"@),
        !blank(sdp),
        answer_of(sdp) == Ok::<(IpModel, nat), SdpFault>((ip, port)),
    ensures
        ({
            let first = "SIP/2.0 "@ + decimal(status) + seq![' '] + reason;
            let resp = ended_lines(message_lines(first, heads)) + sdp;
            let (after, action) = invite_step(c, m, resp, branch, cnonce);
            &&& action is Ready
            &&& after.call.state is EarlyMedia
            &&& after.call.remote_rtp == Some((ip, port))
        }),
{
    reveal_strlit("INVITE");
    let first = status_line(status, reason);
    lemma_response(status, reason, heads, k, m.call.cseq, "INVITE"@, sdp);
    law_message_body(first, heads, sdp, j);
    let resp = ended_lines(message_lines(first, heads)) + sdp;
    law_early_media(c, m, resp, branch, cnonce, sdp, ip, port);
}

/// An answered call is answered: a response 200 to the INVITE under way makes the
/// call ready, with the endpoint that its SDP answer names.
pub proof fn law_answer_with_media(
    c: ClientModel,
    m: InvitationModel,
    branch: Seq<char>,
    cnonce: Seq<char>,
    reason: Seq<char>,
    heads: Seq<(Seq<char>, Seq<char>)>,
    k: int,
    j: int,
    sdp: Seq<char>,
    ip: IpModel,
    port: nat,
)
    requires
        unbroken(reason),
        m.call.cseq <= u32::MAX,
        response_heads(heads, k, m.call.cseq, "INVITE"@),
        0 <= j < heads.len(),
        heads[j] == ("Content-Type"@, "application/sdp"@),
        !blank(sdp),
        answer_of(sdp) == Ok::<(IpModel, nat), SdpFault>((ip, port)),
    ensures
        ({
            let first = "SIP/2.0 "@ + decimal(200) + seq![' '] + reason;
            let resp = ended_lines(message_lines(first, heads)) + sdp;
            let (after, action) = invite_step(c, m, resp, branch, cnonce);
            &&& action is Ready
            &&& after.call.state is Answered
            &&& after.call.remote_rtp == Some((ip, port))
        }),
{
    reveal_strlit("INVITE");
    let first = status_line(200, reason);
    lemma_response(200, reason, heads, k, m.call.cseq, "INVITE"@, sdp);
    law_message_body(first, heads, sdp, j);
    law_answered(c, m, ended_lines(message_lines(first, heads)) + sdp, branch, cnonce);
}

/// A refused call is refused: a response to the INVITE under way with a status
/// from 400 to 699, other than 401 and 407, ends the call with that status.
pub proof fn law_refusal_told(
    c: ClientModel,
    m: InvitationModel,
    branch: Seq<char>,
    cnonce: Seq<char>,
    status: nat,
    reason: Seq<char>,
    heads: Seq<(Seq<char>, Seq<char>)>,
    k: int,
    body: Seq<char>,
)
    requires
        400 <= status < 700,
        status != 401 && status != 407,
        unbroken(reason),
        m.call.cseq <= u32::MAX,
        response_heads(heads, k, m.call.cseq, "INVITE"@),
    ensures
        ({
            let first = "SIP/2.0 "@ + decimal(status) + seq![' '] + reason;
            let resp = ended_lines(message_lines(first, heads)) + body;
            let action = invite_step(c, m, resp, branch, cnonce).1;
            action is Reject && action->Reject_status == status
        }),
{
    reveal_strlit("INVITE");
    lemma_response(status, reason, heads, k, m.call.cseq, "INVITE"@, body);
    let resp = ended_lines(message_lines(status_line(status, reason), heads)) + body;
    law_refused(c, m, resp, branch, cnonce, status);
}

/// A challenge to the INVITE is answered with the INVITE as the next number and
/// with credentials for that challenge, in the header that goes with it.
pub proof fn law_challenge_to_call(
    c: ClientModel,
    m: InvitationModel,
    branch: Seq<char>,
    cnonce: Seq<char>,
    proxy: bool,
    reason: Seq<char>,
    heads: Seq<(Seq<char>, Seq<char>)>,
    k: int,
    j: int,
    body: Seq<char>,
    challenge: ChallengeModel,
)
    requires
        unbroken(reason),
        m.call.cseq <= u32::MAX,
        !m.auth_retry_done,
        response_heads(heads, k, m.call.cseq, "INVITE"@),
        0 <= j < heads.len(),
        heads[j].0 == (if proxy {
            "Proxy-Authenticate"@
        } else {
            "WWW-Authenticate"@
        }),
        tidy(heads[j].1),
        forall|i: int| 0 <= i < j ==> lowered((#[trigger] heads[i]).0) != lowered(heads[j].0),
        challenge_of(heads[j].1) == Ok::<ChallengeModel, DigestError>(challenge),
    ensures
        ({
            let status = if proxy {
                407nat
            } else {
                401
            };
            let first = "SIP/2.0 "@ + decimal(status) + seq![' '] + reason;
            let resp = ended_lines(message_lines(first, heads)) + body;
            let action = invite_step(c, m, resp, branch, cnonce).1;
            &&& action is Retry
            &&& action->Retry_invite == invite_text(
                c,
                m.call.invite_uri,
                m.call.call_id,
                m.call.local_tag,
                branch,
                m.call.cseq + 1,
                m.sdp_offer,
                Some(
                    (
                        if proxy {
                            "Proxy-Authorization"@
                        } else {
                            "Authorization"@
                        },
                        authorization(
                            challenge,
                            c.username,
                            c.password,
                            "INVITE"@,
                            m.call.invite_uri,
                            cnonce,
                        ),
                    ),
                ),
            )
        }),
{
    reveal_strlit("INVITE");
    reveal_strlit("Proxy-Authenticate");
    reveal_strlit("WWW-Authenticate");
    let status = if proxy {
        407nat
    } else {
        401
    };
    let first = status_line(status, reason);
    lemma_response(status, reason, heads, k, m.call.cseq, "INVITE"@, body);
    law_message_read(first, heads, body, j);
    let resp = ended_lines(message_lines(first, heads)) + body;
    law_challenge_answered(c, m, resp, branch, cnonce, proxy, heads[j].1, challenge);
}

/// A registration ends as the trunk says: once credentials are out, a response to
/// them with status 200 registers the client, and one with any other status is a
/// rejection with that status.
pub proof fn law_registration_ends(
    c: ClientModel,
    m: RegistrationModel,
    branch: Seq<char>,
    cnonce: Seq<char>,
    status: nat,
    reason: Seq<char>,
    heads: Seq<(Seq<char>, Seq<char>)>,
    k: int,
    body: Seq<char>,
)
    requires
        m.stage is Authenticated,
        status <= 65535,
        unbroken(reason),
        response_heads(heads, k, 2, "REGISTER"@),
    ensures
        ({
            let first = "SIP/2.0 "@ + decimal(status) + seq![' '] + reason;
            let resp = ended_lines(message_lines(first, heads)) + body;
            register_step(c, m, resp, branch, cnonce).1 == (if status == 200 {
                RegisterMove::Done
            } else {
                RegisterMove::Fail(RegisterError::Rejected(status as u16))
            })
        }),
{
    reveal_strlit("REGISTER");
    lemma_response(status, reason, heads, k, 2, "REGISTER"@, body);
    let resp = ended_lines(message_lines(status_line(status, reason), heads)) + body;
    law_registered(c, m, resp, branch, cnonce);
    if status != 200 {
        law_rejected(c, m, resp, branch, cnonce);
    }
}

} // verus!
