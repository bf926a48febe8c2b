//! Placing a call.
//!
//! An invitation is a state machine. Each round it first says whether to send
//! the INVITE again or to give up, and then is handed the response that came, if
//! any, and says what to send and whether the call is ready.

use crate::digest::{
    authorization, challenge_of, cnonce_text, generate_cnonce, parse_digest_challenge,
    ChallengeModel, DigestError,
};
use crate::ids::{branch_text, call_id, generate_branch, generate_call_id, generate_tag};
use crate::message::{
    cseq_of, extract_cseq_num, extract_header, extract_sdp_body, extract_tag_param, header_of,
    is_searchable, law_ascii_searchable, parse_status_code, sdp_body, searchable, status_of, tag_of,
};
use crate::net::{IpModel, SocketAddr};
use crate::numeral::{decimal, decimal_string, hex};
use crate::sdp::{answer_of, parse_answer, SdpFault};
use crate::sip::{
    ack_text, endpoint, invite_text, Call, CallModel, CallState, ClientModel, SipClient,
    RESPONSE_LOOP_LIMIT,
};
use std::time::Duration;
use vstd::prelude::*;
use vstd::utf8::is_ascii_chars;

verus! {

broadcast use vstd::string::group_string_axioms;

/// How long an INVITE waits before it is first sent again, in milliseconds.
pub const TIMER_A_INITIAL_MS: u64 = 500;

/// The longest wait before an INVITE is sent again, in milliseconds.
pub const TIMER_A_CAP_MS: u64 = 4000;

/// How often an INVITE is sent again.
pub const INVITE_RETRANSMIT_LIMIT: u32 = 7;

// --- Errors ---

/// The text that `Debug` formatting gives for a duration in milliseconds.
pub uninterp spec fn duration_text(millis: u64) -> Seq<char>;

/// Formatting a duration with `{:?}`: the text depends on the milliseconds
/// alone. Its unit and precision are left unsaid.
#[verifier::external_body]
fn format_duration(millis: u64) -> (r: String)
    ensures
        r@ == duration_text(millis),
{
    format!("{:?}", Duration::from_millis(millis))
}

/// Why a call could not be placed.
#[derive(Debug, Clone, Copy, PartialEq, Eq)]
pub enum InviteError {
    /// No final response came within these milliseconds.
    TimedOut(u64),
    /// The request with credentials was challenged again, with this status.
    AuthenticationFailed(u16),
    /// The response with this status holds no challenge.
    MissingChallenge(u16),
    /// The challenge is not usable.
    Challenge(DigestError),
    /// The call was refused with this status.
    Rejected(u16),
}

/// The header in which a challenge with this status comes.
pub open spec fn challenge_header(status: nat) -> Seq<char> {
    if status == 401 {
        "WWW-Authenticate"@
    } else {
        "Proxy-Authenticate"@
    }
}

/// The header in which a challenge with this status is answered.
pub open spec fn answer_header(status: nat) -> Seq<char> {
    if status == 401 {
        "Authorization"@
    } else {
        "Proxy-Authorization"@
    }
}

/// The name of the header in which a challenge comes.
fn name_of_challenge(status: u16) -> (r: &'static str)
    ensures
        r@ == challenge_header(status as nat),
{
    if status == 401 {
        "WWW-Authenticate"
    } else {
        "Proxy-Authenticate"
    }
}

/// The name of the header in which a challenge is answered.
fn name_of_answer(status: u16) -> (r: &'static str)
    ensures
        r@ == answer_header(status as nat),
{
    if status == 401 {
        "Authorization"
    } else {
        "Proxy-Authorization"
    }
}

impl InviteError {
    /// The error in words.
    pub open spec fn text(self) -> Seq<char> {
        match self {
            InviteError::TimedOut(millis) => "INVITE timed out after "@ + duration_text(millis),
            InviteError::AuthenticationFailed(status) =>
                "INVITE authentication failed after retry (status "@ + decimal(status as nat)
                + ")"@,
            InviteError::MissingChallenge(status) => decimal(status as nat) + " missing "@
                + challenge_header(status as nat),
            InviteError::Challenge(e) => e.text(),
            InviteError::Rejected(status) => "INVITE rejected with status "@ + decimal(
                status as nat,
            ),
        }
    }

    /// The error in words.
    pub fn message(&self) -> (r: String)
        ensures
            r@ == self.text(),
    {
        match self {
            InviteError::TimedOut(millis) => {
                let mut r = String::from_str("INVITE timed out after ");
                r.append(format_duration(*millis).as_str());
                r
            },
            InviteError::AuthenticationFailed(status) => {
                let mut r = String::from_str("INVITE authentication failed after retry (status ");
                r.append(decimal_string(*status as u128).as_str());
                r.append(")");
                r
            },
            InviteError::MissingChallenge(status) => {
                let mut r = decimal_string(*status as u128);
                r.append(" missing ");
                r.append(name_of_challenge(*status));
                r
            },
            InviteError::Challenge(e) => String::from_str(e.message()),
            InviteError::Rejected(status) => {
                let mut r = String::from_str("INVITE rejected with status ");
                r.append(decimal_string(*status as u128).as_str());
                r
            },
        }
    }
}

// --- The state ---

/// An invitation under way.
#[derive(Debug)]
pub struct Invitation {
    pub call: Call,
    /// The SDP that the INVITE offers.
    pub sdp_offer: String,
    /// The INVITE of the current transaction. It is the one that is sent again.
    pub invite: String,
    /// How long to wait before the INVITE is sent again, in milliseconds.
    pub timer_ms: u64,
    /// How often the INVITE has been sent again in this transaction.
    pub retransmit_count: u32,
    pub iterations: u32,
    pub got_provisional: bool,
    pub auth_retry_done: bool,
}

/// An invitation under way, with texts as sequences.
pub struct InvitationModel {
    pub call: CallModel,
    pub sdp_offer: Seq<char>,
    pub invite: Seq<char>,
    pub timer_ms: nat,
    pub retransmit_count: nat,
    pub iterations: nat,
    pub got_provisional: bool,
    pub auth_retry_done: bool,
}

impl View for Invitation {
    type V = InvitationModel;

    open spec fn view(&self) -> InvitationModel {
        InvitationModel {
            call: self.call@,
            sdp_offer: self.sdp_offer@,
            invite: self.invite@,
            timer_ms: self.timer_ms as nat,
            retransmit_count: self.retransmit_count as nat,
            iterations: self.iterations as nat,
            got_provisional: self.got_provisional,
            auth_retry_done: self.auth_retry_done,
        }
    }
}

/// The smaller of two numbers.
pub open spec fn least(a: nat, b: nat) -> nat {
    if a <= b {
        a
    } else {
        b
    }
}

/// How long the INVITE waits after it has been sent again `n` times.
pub open spec fn timer_after(n: nat) -> nat
    decreases n,
{
    if n == 0 {
        TIMER_A_INITIAL_MS as nat
    } else {
        least(2 * timer_after((n - 1) as nat), TIMER_A_CAP_MS as nat)
    }
}

impl InvitationModel {
    /// Whether the counters agree: the timer has doubled with each time that
    /// the INVITE was sent again, and the sequence number has grown with the
    /// answer to a challenge.
    pub open spec fn well_formed(self) -> bool {
        &&& self.retransmit_count <= INVITE_RETRANSMIT_LIMIT
        &&& self.timer_ms == timer_after(self.retransmit_count)
        &&& self.iterations <= RESPONSE_LOOP_LIMIT
        &&& self.call.cseq == (if self.auth_retry_done {
            2nat
        } else {
            1nat
        })
    }
}

/// The timer never exceeds its cap.
pub proof fn lemma_timer_bound(n: nat)
    ensures
        TIMER_A_INITIAL_MS <= timer_after(n) <= TIMER_A_CAP_MS,
    decreases n,
{
    if n > 0 {
        lemma_timer_bound((n - 1) as nat);
    }
}

// --- Beginning ---

/// An invitation whose INVITE has just been sent for the first time.
pub open spec fn invited(
    c: ClientModel,
    dial: Seq<char>,
    sdp_offer: Seq<char>,
    call_id: Seq<char>,
    local_tag: Seq<char>,
    branch: Seq<char>,
) -> InvitationModel {
    let uri = "sip:"@ + dial + "@"@ + c.domain;
    InvitationModel {
        call: CallModel {
            call_id,
            cseq: 1,
            local_tag,
            remote_tag: None,
            remote_rtp: None,
            state: CallState::Trying,
            invite_uri: uri,
            via_branch: branch,
        },
        sdp_offer,
        invite: invite_text(c, uri, call_id, local_tag, branch, 1, sdp_offer, None),
        timer_ms: TIMER_A_INITIAL_MS as nat,
        retransmit_count: 0,
        iterations: 0,
        got_provisional: false,
        auth_retry_done: false,
    }
}

impl SipClient {
    /// Begins a call to `dial` with given identifiers. The INVITE to send is in
    /// the result.
    pub fn invite_with(
        &self,
        dial: &str,
        sdp_offer: &str,
        call_id: String,
        local_tag: String,
        branch: String,
    ) -> (r: Invitation)
        requires
            dial@.len() > 0,
        ensures
            r@ == invited(self@, dial@, sdp_offer@, call_id@, local_tag@, branch@),
            r@.well_formed(),
    {
        let mut invite_uri = String::from_str("sip:");
        invite_uri.append(dial);
        invite_uri.append("@");
        invite_uri.append(self.sip_domain.as_str());
        let invite = self.build_invite(
            invite_uri.as_str(),
            call_id.as_str(),
            local_tag.as_str(),
            branch.as_str(),
            1,
            sdp_offer,
            None,
        );
        let call = Call {
            call_id,
            cseq: 1,
            local_tag,
            remote_tag: None,
            remote_rtp: None,
            state: CallState::Trying,
            invite_uri,
            via_branch: branch,
        };
        Invitation {
            call,
            sdp_offer: String::from_str(sdp_offer),
            invite,
            timer_ms: TIMER_A_INITIAL_MS,
            retransmit_count: 0,
            iterations: 0,
            got_provisional: false,
            auth_retry_done: false,
        }
    }

    /// Begins a call to `dial` from the process `pid`. The INVITE to send is in
    /// the result.
    pub fn invite(&self, dial: &str, sdp_offer: &str, pid: u32) -> (r: Invitation)
        requires
            dial@.len() > 0,
        ensures
            exists|micros: nat, tag: u64, hash: u64|
                r@ == invited(
                    self@,
                    dial@,
                    sdp_offer@,
                    #[trigger] call_id(micros, pid as nat),
                    #[trigger] hex(tag as nat),
                    #[trigger] branch_text(hash as nat),
                ),
            r@.well_formed(),
    {
        let id = generate_call_id(pid);
        let tag = generate_tag();
        let branch = generate_branch();
        self.invite_with(dial, sdp_offer, id, tag, branch)
    }
}

// --- Rounds ---

/// What to do at the beginning of a round.
#[derive(Debug, Clone, Copy, PartialEq, Eq, Structural)]
pub enum RoundAction {
    /// Wait for a response.
    Listen,
    /// Send the INVITE again, and then wait for a response.
    Resend,
    /// Give up.
    TimedOut,
}

/// The beginning of a round, `elapsed_ms` after the first INVITE was sent and
/// `since_send_ms` after an INVITE was last sent.
pub open spec fn round(
    m: InvitationModel,
    elapsed_ms: nat,
    since_send_ms: nat,
    timeout_ms: nat,
) -> (InvitationModel, RoundAction) {
    let entered = InvitationModel { iterations: m.iterations + 1, ..m };
    if elapsed_ms >= timeout_ms {
        (entered, RoundAction::TimedOut)
    } else if !m.got_provisional && m.retransmit_count < INVITE_RETRANSMIT_LIMIT && since_send_ms
        >= m.timer_ms {
        (
            InvitationModel {
                retransmit_count: m.retransmit_count + 1,
                timer_ms: least(2 * m.timer_ms, TIMER_A_CAP_MS as nat),
                ..entered
            },
            RoundAction::Resend,
        )
    } else {
        (entered, RoundAction::Listen)
    }
}

impl Invitation {
    /// Begins a round, `elapsed_ms` after the first INVITE was sent and
    /// `since_send_ms` after an INVITE was last sent.
    pub fn begin_round(
        &mut self,
        elapsed_ms: u64,
        since_send_ms: u64,
        timeout_ms: u64,
    ) -> (action: RoundAction)
        requires
            old(self)@.well_formed(),
            old(self).iterations < RESPONSE_LOOP_LIMIT,
        ensures
            (final(self)@, action) == round(
                old(self)@,
                elapsed_ms as nat,
                since_send_ms as nat,
                timeout_ms as nat,
            ),
            final(self)@.well_formed(),
    {
        proof {
            lemma_timer_bound(self@.retransmit_count);
        }
        self.iterations = self.iterations + 1;
        if elapsed_ms >= timeout_ms {
            return RoundAction::TimedOut;
        }
        if !self.got_provisional && self.retransmit_count < INVITE_RETRANSMIT_LIMIT
            && since_send_ms >= self.timer_ms {
            self.retransmit_count = self.retransmit_count + 1;
            let doubled: u64 = 2 * self.timer_ms;
            self.timer_ms =
            if doubled <= TIMER_A_CAP_MS {
                doubled
            } else {
                TIMER_A_CAP_MS
            };
            return RoundAction::Resend;
        }
        RoundAction::Listen
    }
}

// --- Responses ---

/// What to do after a response.
#[derive(Debug)]
pub enum InviteAction {
    /// Go on with the next round.
    Wait,
    /// The call has media: it is answered, or sends early media.
    Ready,
    /// Acknowledge the challenge, and send the INVITE with credentials.
    Retry { ack: String, invite: String },
    /// Acknowledge the refusal. The call has failed.
    Reject { ack: String, status: u16 },
    /// The call has failed.
    Fail(InviteError),
}

/// What to do after a response, with texts as sequences.
pub enum InviteMove {
    Wait,
    Ready,
    Retry { ack: Seq<char>, invite: Seq<char> },
    Reject { ack: Seq<char>, status: nat },
    Fail(InviteError),
}

impl View for InviteAction {
    type V = InviteMove;

    open spec fn view(&self) -> InviteMove {
        match self {
            InviteAction::Wait => InviteMove::Wait,
            InviteAction::Ready => InviteMove::Ready,
            InviteAction::Retry { ack, invite } => InviteMove::Retry { ack: ack@, invite: invite@ },
            InviteAction::Reject { ack, status } => InviteMove::Reject {
                ack: ack@,
                status: *status as nat,
            },
            InviteAction::Fail(e) => InviteMove::Fail(*e),
        }
    }
}

/// The call after the remote tag has been taken from a response, where it was
/// not known before.
pub open spec fn with_tag(call: CallModel, resp: Seq<char>) -> CallModel {
    match header_of(resp, "To"@) {
        Some(to) if call.remote_tag is None => CallModel { remote_tag: tag_of(to), ..call },
        _ => call,
    }
}

/// The media endpoint that a response names.
pub open spec fn media_of(resp: Seq<char>) -> Option<(IpModel, nat)> {
    match sdp_body(resp) {
        Some(body) => match answer_of(body) {
            Ok(answer) => Some(answer),
            Err(_) => None,
        },
        None => None,
    }
}

/// The call after the media endpoint has been taken from a response, where it
/// names one.
pub open spec fn with_media(call: CallModel, resp: Seq<char>) -> CallModel {
    match media_of(resp) {
        Some(addr) => CallModel { remote_rtp: Some(addr), ..call },
        None => call,
    }
}

/// Whether a response belongs to another transaction than the call's.
pub open spec fn stale(call: CallModel, resp: Seq<char>) -> bool {
    cseq_of(resp) is Some && cseq_of(resp) != Some(call.cseq)
}

/// What an invitation does with a challenge, given the branch and the client
/// nonce of the INVITE that answers it.
pub open spec fn challenged(
    c: ClientModel,
    m: InvitationModel,
    resp: Seq<char>,
    status: nat,
    branch: Seq<char>,
    cnonce: Seq<char>,
) -> (InvitationModel, InviteMove) {
    if m.auth_retry_done {
        (m, InviteMove::Fail(InviteError::AuthenticationFailed(status as u16)))
    } else {
        match header_of(resp, challenge_header(status)) {
            None => (m, InviteMove::Fail(InviteError::MissingChallenge(status as u16))),
            Some(header) => match challenge_of(header) {
                Err(e) => (m, InviteMove::Fail(InviteError::Challenge(e))),
                Ok(challenge) => {
                    let value = authorization(
                        challenge,
                        c.username,
                        c.password,
                        "INVITE"@,
                        m.call.invite_uri,
                        cnonce,
                    );
                    let call = CallModel { cseq: m.call.cseq + 1, via_branch: branch, ..m.call };
                    let invite = invite_text(
                        c,
                        call.invite_uri,
                        call.call_id,
                        call.local_tag,
                        branch,
                        call.cseq,
                        m.sdp_offer,
                        Some((answer_header(status), value)),
                    );
                    (
                        InvitationModel {
                            call,
                            invite,
                            retransmit_count: 0,
                            timer_ms: TIMER_A_INITIAL_MS as nat,
                            got_provisional: false,
                            auth_retry_done: true,
                            ..m
                        },
                        InviteMove::Retry { ack: ack_text(c, m.call), invite },
                    )
                },
            },
        }
    }
}

/// What an invitation does with a response, given the branch and the client
/// nonce of the INVITE that it may have to send.
pub open spec fn invite_step(
    c: ClientModel,
    m: InvitationModel,
    resp: Seq<char>,
    branch: Seq<char>,
    cnonce: Seq<char>,
) -> (InvitationModel, InviteMove) {
    match status_of(resp) {
        None => (m, InviteMove::Wait),
        Some(status) => if stale(m.call, resp) {
            (m, InviteMove::Wait)
        } else {
            let known = InvitationModel { call: with_tag(m.call, resp), ..m };
            if 100 <= status < 200 {
                let heard = InvitationModel { got_provisional: true, ..known };
                if (status == 180 || status == 183) && media_of(resp) is Some {
                    let call = CallModel {
                        state: CallState::EarlyMedia,
                        ..with_media(known.call, resp)
                    };
                    (InvitationModel { call, ..heard }, InviteMove::Ready)
                } else {
                    (heard, InviteMove::Wait)
                }
            } else if status == 200 {
                let call = CallModel {
                    state: CallState::Answered,
                    ..with_media(known.call, resp)
                };
                (InvitationModel { call, ..known }, InviteMove::Ready)
            } else if status == 401 || status == 407 {
                challenged(c, known, resp, status, branch, cnonce)
            } else if 400 <= status < 700 {
                (known, InviteMove::Reject { ack: ack_text(c, known.call), status })
            } else {
                (known, InviteMove::Wait)
            }
        },
    }
}

/// Whether the headers that an invitation looks up in a response can be looked
/// up.
pub open spec fn invite_readable(m: InvitationModel, resp: Seq<char>) -> bool {
    match status_of(resp) {
        None => true,
        Some(status) => {
            &&& searchable(resp, "CSeq"@)
            &&& !stale(m.call, resp) ==> {
                &&& m.call.remote_tag is None ==> searchable(resp, "To"@)
                &&& (status == 401 || status == 407) && !m.auth_retry_done ==> searchable(
                    resp,
                    challenge_header(status),
                )
            }
        },
    }
}

/// Takes the remote tag from a response, where it is not known yet.
fn learn_tag(call: &mut Call, resp: &str)
    requires
        old(call).remote_tag is None ==> searchable(resp@, "To"@),
    ensures
        final(call)@ == with_tag(old(call)@, resp@),
        final(call).cseq == old(call).cseq,
{
    if call.remote_tag.is_none() {
        if let Some(to) = extract_header(resp, "To") {
            if let Some(tag) = extract_tag_param(to.as_str()) {
                call.remote_tag = Some(tag);
            }
        }
    }
}

/// Reads the media endpoint that a response names.
pub fn media_endpoint(resp: &str) -> (r: Option<SocketAddr>)
    ensures
        endpoint(r) == media_of(resp@),
{
    match extract_sdp_body(resp) {
        Some(body) => match parse_answer(body.as_str()) {
            Ok(answer) => Some(SocketAddr { ip: answer.addr, port: answer.port }),
            Err(_) => None,
        },
        None => None,
    }
}

/// Whether a response belongs to another transaction than the call's.
fn is_stale(call: &Call, resp: &str) -> (r: bool)
    requires
        searchable(resp@, "CSeq"@),
    ensures
        r == stale(call@, resp@),
{
    match extract_cseq_num(resp) {
        Some(cseq) => cseq != call.cseq,
        None => false,
    }
}

impl Invitation {
    /// Whether the headers that this invitation looks up in a response can be
    /// looked up.
    pub fn can_read(&self, resp: &str) -> (r: bool)
        ensures
            r == invite_readable(self@, resp@),
    {
        let status = match parse_status_code(resp) {
            Some(status) => status,
            None => {
                return true;
            },
        };
        if !is_searchable(resp, "CSeq") {
            return false;
        }
        if is_stale(&self.call, resp) {
            return true;
        }
        if self.call.remote_tag.is_none() && !is_searchable(resp, "To") {
            return false;
        }
        if (status == 401 || status == 407) && !self.auth_retry_done {
            return is_searchable(resp, name_of_challenge(status));
        }
        true
    }
}

impl SipClient {
    /// Handles a challenge to the INVITE.
    fn answer_challenge(
        &self,
        invitation: &mut Invitation,
        resp: &str,
        status: u16,
        branch: &str,
        cnonce: String,
    ) -> (action: InviteAction)
        requires
            old(invitation)@.well_formed(),
            !old(invitation).auth_retry_done ==> searchable(resp@, challenge_header(status as nat)),
        ensures
            (final(invitation)@, action@) == challenged(
                self@,
                old(invitation)@,
                resp@,
                status as nat,
                branch@,
                cnonce@,
            ),
            final(invitation)@.well_formed(),
    {
        if invitation.auth_retry_done {
            return InviteAction::Fail(InviteError::AuthenticationFailed(status));
        }
        let header = match extract_header(resp, name_of_challenge(status)) {
            Some(header) => header,
            None => {
                return InviteAction::Fail(InviteError::MissingChallenge(status));
            },
        };
        let challenge = match parse_digest_challenge(header.as_str()) {
            Ok(challenge) => challenge,
            Err(e) => {
                return InviteAction::Fail(InviteError::Challenge(e));
            },
        };
        let value = challenge.auth_header_value_with(
            self.username.as_str(),
            self.password.as_str(),
            "INVITE",
            invitation.call.invite_uri.as_str(),
            cnonce,
        );
        let ack = self.build_ack(&invitation.call);
        invitation.call.cseq = invitation.call.cseq + 1;
        invitation.call.via_branch = String::from_str(branch);
        let invite = self.build_invite(
            invitation.call.invite_uri.as_str(),
            invitation.call.call_id.as_str(),
            invitation.call.local_tag.as_str(),
            branch,
            invitation.call.cseq,
            invitation.sdp_offer.as_str(),
            Some((name_of_answer(status), value.as_str())),
        );
        invitation.invite = String::from_str(invite.as_str());
        invitation.auth_retry_done = true;
        invitation.retransmit_count = 0;
        invitation.timer_ms = TIMER_A_INITIAL_MS;
        invitation.got_provisional = false;
        InviteAction::Retry { ack, invite }
    }

    /// Handles a response to an invitation. `branch` and `cnonce` go into the
    /// INVITE that may have to be sent.
    pub fn invite_response_with(
        &self,
        invitation: &mut Invitation,
        resp: &str,
        branch: &str,
        cnonce: String,
    ) -> (action: InviteAction)
        requires
            old(invitation)@.well_formed(),
            invite_readable(old(invitation)@, resp@),
        ensures
            (final(invitation)@, action@) == invite_step(
                self@,
                old(invitation)@,
                resp@,
                branch@,
                cnonce@,
            ),
            final(invitation)@.well_formed(),
    {
        let status: u16 = match parse_status_code(resp) {
            Some(status) => status,
            None => {
                return InviteAction::Wait;
            },
        };
        if is_stale(&invitation.call, resp) {
            return InviteAction::Wait;
        }
        learn_tag(&mut invitation.call, resp);
        if 100 <= status && status < 200 {
            invitation.got_provisional = true;
            if status != 180 && status != 183 {
                return InviteAction::Wait;
            }
            match media_endpoint(resp) {
                Some(addr) => {
                    invitation.call.remote_rtp = Some(addr);
                    invitation.call.state = CallState::EarlyMedia;
                    InviteAction::Ready
                },
                None => InviteAction::Wait,
            }
        } else if status == 200 {
            if let Some(addr) = media_endpoint(resp) {
                invitation.call.remote_rtp = Some(addr);
            }
            invitation.call.state = CallState::Answered;
            InviteAction::Ready
        } else if status == 401 || status == 407 {
            self.answer_challenge(invitation, resp, status, branch, cnonce)
        } else if 400 <= status && status < 700 {
            InviteAction::Reject { ack: self.build_ack(&invitation.call), status }
        } else {
            InviteAction::Wait
        }
    }

    /// Handles a response to an invitation, with a fresh branch and client nonce
    /// for the INVITE that may have to be sent.
    pub fn invite_response(&self, invitation: &mut Invitation, resp: &str) -> (action: InviteAction)
        requires
            old(invitation)@.well_formed(),
            invite_readable(old(invitation)@, resp@),
        ensures
            exists|hash: u64, nanos: nat|
                (final(invitation)@, action@) == invite_step(
                    self@,
                    old(invitation)@,
                    resp@,
                    #[trigger] branch_text(hash as nat),
                    #[trigger] cnonce_text(nanos),
                ),
            final(invitation)@.well_formed(),
    {
        let branch = generate_branch();
        let cnonce = generate_cnonce();
        self.invite_response_with(invitation, resp, branch.as_str(), cnonce)
    }
}

// --- Answers during early media ---

/// What polling finds.
#[derive(Debug)]
pub enum Poll {
    /// No answer yet.
    Pending,
    /// The call is answered. Send this ACK.
    Answered(String),
    /// The call failed with this status.
    Failed(u16),
}

/// What polling finds, with texts as sequences.
pub enum PollMove {
    Pending,
    Answered(Seq<char>),
    Failed(nat),
}

impl View for Poll {
    type V = PollMove;

    open spec fn view(&self) -> PollMove {
        match self {
            Poll::Pending => PollMove::Pending,
            Poll::Answered(ack) => PollMove::Answered(ack@),
            Poll::Failed(status) => PollMove::Failed(*status as nat),
        }
    }
}

/// What a call with early media does with what was received.
pub open spec fn poll_step(c: ClientModel, call: CallModel, resp: Option<Seq<char>>) -> (
    CallModel,
    PollMove,
) {
    match resp {
        None => (call, PollMove::Pending),
        Some(resp) => match status_of(resp) {
            None => (call, PollMove::Pending),
            Some(status) => if 100 <= status < 200 {
                (call, PollMove::Pending)
            } else if status == 200 {
                let answered = CallModel {
                    state: CallState::Answered,
                    ..with_tag(with_media(call, resp), resp)
                };
                (answered, PollMove::Answered(ack_text(c, answered)))
            } else {
                (call, PollMove::Failed(status))
            },
        },
    }
}

/// Whether the header that polling looks up in what was received can be looked
/// up.
pub open spec fn poll_readable(call: CallModel, resp: Option<Seq<char>>) -> bool {
    match resp {
        Some(resp) => status_of(resp) == Some(200nat) && call.remote_tag is None ==> searchable(
            resp,
            "To"@,
        ),
        None => true,
    }
}

/// An optional text as an optional sequence.
pub open spec fn received(resp: Option<&str>) -> Option<Seq<char>> {
    match resp {
        Some(resp) => Some(resp@),
        None => None,
    }
}

/// Whether the header that polling looks up in what was received can be looked
/// up.
pub fn can_poll(call: &Call, resp: Option<&str>) -> (r: bool)
    ensures
        r == poll_readable(call@, received(resp)),
{
    match resp {
        Some(resp) => match parse_status_code(resp) {
            Some(200) => !call.remote_tag.is_none() || is_searchable(resp, "To"),
            _ => true,
        },
        None => true,
    }
}

/// Whether to look for the answer again after what polling found: only while
/// there is none.
pub fn after_poll(poll: &Poll) -> (again: bool)
    ensures
        again == (poll@ is Pending),
{
    match poll {
        Poll::Pending => true,
        _ => false,
    }
}

/// The words for a call that failed during early media.
pub open spec fn poll_failure_text(status: nat) -> Seq<char> {
    "call failed with status "@ + decimal(status) + " during early media"@
}

/// The words for a call that failed during early media.
pub fn poll_failure(status: u16) -> (r: String)
    ensures
        r@ == poll_failure_text(status as nat),
        r@ == "call failed with status "@ + decimal(status as nat) + " during early media"@,
{
    let mut r = String::from_str("call failed with status ");
    r.append(decimal_string(status as u128).as_str());
    r.append(" during early media");
    r
}

impl SipClient {
    /// Looks for the answer to a call with early media in what was received, if
    /// anything was.
    pub fn poll_answer(&self, call: &mut Call, resp: Option<&str>) -> (r: Poll)
        requires
            old(call).state is EarlyMedia,
            poll_readable(old(call)@, received(resp)),
        ensures
            (final(call)@, r@) == poll_step(self@, old(call)@, received(resp)),
    {
        let resp = match resp {
            Some(resp) => resp,
            None => {
                return Poll::Pending;
            },
        };
        let status: u16 = match parse_status_code(resp) {
            Some(status) => status,
            None => {
                return Poll::Pending;
            },
        };
        if 100 <= status && status < 200 {
            return Poll::Pending;
        }
        if status == 200 {
            if let Some(addr) = media_endpoint(resp) {
                call.remote_rtp = Some(addr);
            }
            learn_tag(call, resp);
            call.state = CallState::Answered;
            return Poll::Answered(self.ack(call));
        }
        Poll::Failed(status)
    }
}

// --- Laws ---

/// A response to another request than the one under way, such as a challenge
/// that comes twice, is passed over.
pub proof fn law_stale_response_ignored(
    c: ClientModel,
    m: InvitationModel,
    resp: Seq<char>,
    branch: Seq<char>,
    cnonce: Seq<char>,
)
    requires
        stale(m.call, resp),
    ensures
        invite_step(c, m, resp, branch, cnonce) == (m, InviteMove::Wait),
{
}

/// Credentials are sent at most once: a second challenge to the request under
/// way ends the invitation.
pub proof fn law_one_retry(
    c: ClientModel,
    m: InvitationModel,
    resp: Seq<char>,
    branch: Seq<char>,
    cnonce: Seq<char>,
)
    requires
        m.auth_retry_done,
    ensures
        ({
            let (after, action) = invite_step(c, m, resp, branch, cnonce);
            &&& !(action is Retry)
            &&& after.auth_retry_done
            &&& after.call.cseq == m.call.cseq
        }),
{
}

/// Every refusal and every challenge that is answered is acknowledged in the
/// transaction that it belongs to, and a call that is refused is not changed
/// but for the remote tag.
pub proof fn law_refusals_acknowledged(
    c: ClientModel,
    m: InvitationModel,
    resp: Seq<char>,
    branch: Seq<char>,
    cnonce: Seq<char>,
)
    ensures
        match invite_step(c, m, resp, branch, cnonce).1 {
            InviteMove::Reject { ack, status } => {
                &&& status_of(resp) == Some(status)
                &&& ack == ack_text(c, with_tag(m.call, resp))
                &&& invite_step(c, m, resp, branch, cnonce).0.call == with_tag(m.call, resp)
            },
            InviteMove::Retry { ack, invite } => ack == ack_text(c, with_tag(m.call, resp)),
            _ => true,
        },
        ({
            let status = status_of(resp);
            status is Some && 400 <= status->0 < 700 && status != Some(401nat) && status != Some(
                407nat,
            ) && !stale(m.call, resp)
        }) ==> invite_step(c, m, resp, branch, cnonce).1 is Reject,
{
}

/// A call that is ready is answered, or has early media from a known endpoint.
/// Only then does an invitation change the state of its call.
pub proof fn law_ready_call(
    c: ClientModel,
    m: InvitationModel,
    resp: Seq<char>,
    branch: Seq<char>,
    cnonce: Seq<char>,
)
    ensures
        ({
            let (after, action) = invite_step(c, m, resp, branch, cnonce);
            if action is Ready {
                ||| after.call.state is Answered
                ||| after.call.state is EarlyMedia && after.call.remote_rtp is Some
            } else {
                after.call.state == m.call.state && after.call.remote_rtp == m.call.remote_rtp
            }
        }),
{
}

/// A call keeps its identity: its identifier, local tag and URI never change,
/// and a remote tag, once known, stays.
pub proof fn law_dialog_kept(
    c: ClientModel,
    m: InvitationModel,
    resp: Seq<char>,
    branch: Seq<char>,
    cnonce: Seq<char>,
)
    ensures
        ({
            let (after, _) = invite_step(c, m, resp, branch, cnonce);
            &&& after.call.call_id == m.call.call_id
            &&& after.call.local_tag == m.call.local_tag
            &&& after.call.invite_uri == m.call.invite_uri
            &&& m.call.remote_tag is Some ==> after.call.remote_tag == m.call.remote_tag
            &&& after.sdp_offer == m.sdp_offer
        }),
{
}

/// The INVITE is not sent again after a provisional response, nor more often than
/// the limit, nor before the timer has run out, nor once the time is up.
pub proof fn law_resend(
    m: InvitationModel,
    elapsed_ms: nat,
    since_send_ms: nat,
    timeout_ms: nat,
)
    requires
        m.well_formed(),
        round(m, elapsed_ms, since_send_ms, timeout_ms).1 is Resend,
    ensures
        !m.got_provisional,
        m.retransmit_count < INVITE_RETRANSMIT_LIMIT,
        since_send_ms >= timer_after(m.retransmit_count),
        elapsed_ms < timeout_ms,
{
}

/// Every provisional response to the INVITE of the current transaction, and no
/// other response, stops it from being sent again. It stays stopped, through rounds
/// and responses, until a challenge is answered with a new INVITE.
pub proof fn law_provisional_stops_resending(
    c: ClientModel,
    m: InvitationModel,
    elapsed_ms: nat,
    since_send_ms: nat,
    timeout_ms: nat,
    resp: Seq<char>,
    branch: Seq<char>,
    cnonce: Seq<char>,
)
    ensures
        ({
            let status = status_of(resp);
            let provisional = status is Some && 100 <= status->0 < 200 && !stale(m.call, resp);
            let (after, action) = invite_step(c, m, resp, branch, cnonce);
            &&& !(action is Retry) ==> (after.got_provisional <==> m.got_provisional
                || provisional)
            &&& action is Retry ==> !after.got_provisional && !provisional
        }),
        m.got_provisional ==> {
            let (after, action) = round(m, elapsed_ms, since_send_ms, timeout_ms);
            after.got_provisional && !(action is Resend)
        },
{
}

/// Whether the INVITE that is sent again is one of the call's current
/// transaction: it has the call's identifiers, branch and number.
pub open spec fn invite_current(c: ClientModel, m: InvitationModel) -> bool {
    exists|auth: Option<(Seq<char>, Seq<char>)>|
        m.invite == #[trigger] invite_text(
            c,
            m.call.invite_uri,
            m.call.call_id,
            m.call.local_tag,
            m.call.via_branch,
            m.call.cseq,
            m.sdp_offer,
            auth,
        )
}

/// A call begins with an INVITE of its current transaction.
pub proof fn law_first_invite_current(
    c: ClientModel,
    dial: Seq<char>,
    sdp_offer: Seq<char>,
    call_id: Seq<char>,
    local_tag: Seq<char>,
    branch: Seq<char>,
)
    ensures
        invite_current(c, invited(c, dial, sdp_offer, call_id, local_tag, branch)),
{
    let m = invited(c, dial, sdp_offer, call_id, local_tag, branch);
    assert(m.invite == invite_text(
        c,
        m.call.invite_uri,
        m.call.call_id,
        m.call.local_tag,
        m.call.via_branch,
        m.call.cseq,
        m.sdp_offer,
        None,
    ));
}

/// The INVITE that is sent again stays the one of the current transaction: it
/// changes when a challenge is answered, to the INVITE that answers it, and at no
/// other time.
pub proof fn law_invite_current(
    c: ClientModel,
    m: InvitationModel,
    elapsed_ms: nat,
    since_send_ms: nat,
    timeout_ms: nat,
    resp: Seq<char>,
    branch: Seq<char>,
    cnonce: Seq<char>,
)
    requires
        invite_current(c, m),
    ensures
        ({
            let (after, _) = round(m, elapsed_ms, since_send_ms, timeout_ms);
            invite_current(c, after) && after.invite == m.invite
        }),
        ({
            let (after, action) = invite_step(c, m, resp, branch, cnonce);
            &&& invite_current(c, after)
            &&& after.invite == match action {
                InviteMove::Retry { ack, invite } => invite,
                _ => m.invite,
            }
        }),
{
    let auth = choose|auth: Option<(Seq<char>, Seq<char>)>|
        m.invite == #[trigger] invite_text(
            c,
            m.call.invite_uri,
            m.call.call_id,
            m.call.local_tag,
            m.call.via_branch,
            m.call.cseq,
            m.sdp_offer,
            auth,
        );
    let (waited, _) = round(m, elapsed_ms, since_send_ms, timeout_ms);
    assert(waited.invite == invite_text(
        c,
        waited.call.invite_uri,
        waited.call.call_id,
        waited.call.local_tag,
        waited.call.via_branch,
        waited.call.cseq,
        waited.sdp_offer,
        auth,
    ));
    let (after, action) = invite_step(c, m, resp, branch, cnonce);
    let current = if action is Retry {
        let status = status_of(resp)->0;
        let challenge = challenge_of(header_of(resp, challenge_header(status))->0)->Ok_0;
        let value = authorization(
            challenge,
            c.username,
            c.password,
            "INVITE"@,
            m.call.invite_uri,
            cnonce,
        );
        Some((answer_header(status), value))
    } else {
        auth
    };
    assert(after.invite == invite_text(
        c,
        after.call.invite_uri,
        after.call.call_id,
        after.call.local_tag,
        after.call.via_branch,
        after.call.cseq,
        after.sdp_offer,
        current,
    ));
}

/// The timer doubles from half a second up to its cap.
pub proof fn law_timer(n: nat)
    ensures
        timer_after(0) == TIMER_A_INITIAL_MS,
        timer_after(n + 1) == least(2 * timer_after(n), TIMER_A_CAP_MS as nat),
        n >= 3 ==> timer_after(n) == TIMER_A_CAP_MS,
    decreases n,
{
    if n > 3 {
        law_timer((n - 1) as nat);
    } else {
        reveal_with_fuel(timer_after, 5);
    }
}

/// How many more INVITEs an invitation may send: those that are left of this
/// transaction, and, where no challenge has been answered yet, the one that
/// answers a challenge and those sent again after it.
pub open spec fn invites_left(m: InvitationModel) -> int {
    INVITE_RETRANSMIT_LIMIT - m.retransmit_count + (if m.auth_retry_done {
        0int
    } else {
        1 + INVITE_RETRANSMIT_LIMIT
    })
}

/// An invitation sends at most sixteen INVITEs: after the first, fifteen are
/// left; each that is sent uses up at least one, and nothing else adds any.
pub proof fn law_invites_bounded(
    c: ClientModel,
    m: InvitationModel,
    elapsed_ms: nat,
    since_send_ms: nat,
    timeout_ms: nat,
    resp: Seq<char>,
    branch: Seq<char>,
    cnonce: Seq<char>,
)
    requires
        m.well_formed(),
    ensures
        forall|dial: Seq<char>, offer: Seq<char>, id: Seq<char>, tag: Seq<char>|
            invites_left(#[trigger] invited(c, dial, offer, id, tag, branch)) == 15,
        invites_left(m) >= 0,
        ({
            let (after, action) = round(m, elapsed_ms, since_send_ms, timeout_ms);
            invites_left(after) == (if action is Resend {
                invites_left(m) - 1
            } else {
                invites_left(m)
            })
        }),
        ({
            let (after, action) = invite_step(c, m, resp, branch, cnonce);
            if action is Retry {
                0 <= invites_left(after) < invites_left(m)
            } else {
                invites_left(after) == invites_left(m)
            }
        }),
{
}

/// Early media is taken: a response to the INVITE under way that says that the
/// call rings or makes progress, and whose body names a media endpoint, makes the
/// call ready, with that endpoint.
pub proof fn law_early_media(
    c: ClientModel,
    m: InvitationModel,
    resp: Seq<char>,
    branch: Seq<char>,
    cnonce: Seq<char>,
    body: Seq<char>,
    ip: IpModel,
    port: nat,
)
    requires
        status_of(resp) == Some(180nat) || status_of(resp) == Some(183nat),
        cseq_of(resp) is None || cseq_of(resp) == Some(m.call.cseq),
        sdp_body(resp) == Some(body),
        answer_of(body) == Ok::<(IpModel, nat), SdpFault>((ip, port)),
    ensures
        ({
            let (after, action) = invite_step(c, m, resp, branch, cnonce);
            &&& action is Ready
            &&& after.call.state is EarlyMedia
            &&& after.call.remote_rtp == Some((ip, port))
            &&& after.got_provisional
            &&& after.call.cseq == m.call.cseq
        }),
{
}

/// The answer is recognised: a response to the INVITE under way with status 200
/// makes the call ready and answered. Its media endpoint is the one that the body
/// names, or else the one that was known before.
pub proof fn law_answered(
    c: ClientModel,
    m: InvitationModel,
    resp: Seq<char>,
    branch: Seq<char>,
    cnonce: Seq<char>,
)
    requires
        status_of(resp) == Some(200nat),
        cseq_of(resp) is None || cseq_of(resp) == Some(m.call.cseq),
    ensures
        ({
            let (after, action) = invite_step(c, m, resp, branch, cnonce);
            &&& action is Ready
            &&& after.call.state is Answered
            &&& after.call.cseq == m.call.cseq
            &&& after.call.remote_rtp == (match sdp_body(resp) {
                Some(body) => match answer_of(body) {
                    Ok(answer) => Some(answer),
                    Err(_) => m.call.remote_rtp,
                },
                None => m.call.remote_rtp,
            })
        }),
{
}

/// A call becomes ready for no other reason than an answer or early media.
pub proof fn law_ready_only_by_media_or_answer(
    c: ClientModel,
    m: InvitationModel,
    resp: Seq<char>,
    branch: Seq<char>,
    cnonce: Seq<char>,
)
    requires
        invite_step(c, m, resp, branch, cnonce).1 is Ready,
    ensures
        cseq_of(resp) is None || cseq_of(resp) == Some(m.call.cseq),
        status_of(resp) == Some(200nat) || {
            &&& status_of(resp) == Some(180nat) || status_of(resp) == Some(183nat)
            &&& sdp_body(resp) is Some
            &&& answer_of(sdp_body(resp)->0) is Ok
        },
{
}

/// What says nothing final is waited over: a text without a status and a response
/// to another request change nothing at all; a provisional response without
/// usable media, and a response with a status that is neither provisional, nor
/// 200, nor a refusal, change at most the remote tag and what is known of
/// provisional responses.
pub proof fn law_waits_on(
    c: ClientModel,
    m: InvitationModel,
    resp: Seq<char>,
    branch: Seq<char>,
    cnonce: Seq<char>,
)
    ensures
        status_of(resp) is None ==> invite_step(c, m, resp, branch, cnonce) == (
            m,
            InviteMove::Wait,
        ),
        cseq_of(resp) is Some && cseq_of(resp)->0 != m.call.cseq ==> invite_step(
            c,
            m,
            resp,
            branch,
            cnonce,
        ) == (m, InviteMove::Wait),
        ({
            let status = status_of(resp);
            let media = sdp_body(resp) is Some && answer_of(sdp_body(resp)->0) is Ok;
            &&& status is Some
            &&& cseq_of(resp) is None || cseq_of(resp) == Some(m.call.cseq)
            &&& {
                ||| 100 <= status->0 < 200 && !((status->0 == 180 || status->0 == 183) && media)
                ||| status->0 < 100
                ||| 200 < status->0 < 400
                ||| status->0 >= 700
            }
        }) ==> {
            let (after, action) = invite_step(c, m, resp, branch, cnonce);
            &&& action is Wait
            &&& after == (InvitationModel {
                call: CallModel { remote_tag: after.call.remote_tag, ..m.call },
                got_provisional: m.got_provisional || 100 <= status_of(resp)->0 < 200,
                ..m
            })
        },
{
}

/// The remote tag is the tag of the first `To` header of a response to the INVITE
/// under way, once there is one, and then stays.
pub proof fn law_remote_tag(
    c: ClientModel,
    m: InvitationModel,
    resp: Seq<char>,
    branch: Seq<char>,
    cnonce: Seq<char>,
)
    requires
        status_of(resp) is Some,
        cseq_of(resp) is None || cseq_of(resp) == Some(m.call.cseq),
    ensures
        invite_step(c, m, resp, branch, cnonce).0.call.remote_tag == (match m.call.remote_tag {
            Some(tag) => Some(tag),
            None => match header_of(resp, "To"@) {
                Some(to) => tag_of(to),
                None => None,
            },
        }),
{
}

/// A challenge is answered once: it is acknowledged in its own transaction, and
/// the INVITE goes out again with the next number, a new branch, the same offer
/// and credentials for the challenge. A challenge of the server comes with status
/// 401, one of a proxy with 407, each in a header of its own and answered in one.
pub proof fn law_challenge_answered(
    c: ClientModel,
    m: InvitationModel,
    resp: Seq<char>,
    branch: Seq<char>,
    cnonce: Seq<char>,
    proxy: bool,
    header: Seq<char>,
    challenge: ChallengeModel,
)
    requires
        status_of(resp) == Some(if proxy {
            407nat
        } else {
            401nat
        }),
        cseq_of(resp) is None || cseq_of(resp) == Some(m.call.cseq),
        !m.auth_retry_done,
        header_of(
            resp,
            if proxy {
                "Proxy-Authenticate"@
            } else {
                "WWW-Authenticate"@
            },
        ) == Some(header),
        challenge_of(header) == Ok::<ChallengeModel, DigestError>(challenge),
    ensures
        ({
            let (after, action) = invite_step(c, m, resp, branch, cnonce);
            let credentials = authorization(
                challenge,
                c.username,
                c.password,
                "INVITE"@,
                m.call.invite_uri,
                cnonce,
            );
            &&& action is Retry
            &&& action->Retry_ack == ack_text(
                c,
                CallModel { remote_tag: after.call.remote_tag, ..m.call },
            )
            &&& action->Retry_invite == invite_text(
                c,
                m.call.invite_uri,
                m.call.call_id,
                m.call.local_tag,
                branch,
                m.call.cseq + 1,
                m.sdp_offer,
                Some(
                    (
                        if proxy {
                            "Proxy-Authorization"@
                        } else {
                            "Authorization"@
                        },
                        credentials,
                    ),
                ),
            )
            &&& after.call.cseq == m.call.cseq + 1
            &&& after.call.via_branch == branch
            &&& after.call.state == m.call.state
            &&& after.auth_retry_done
            &&& after.retransmit_count == 0
            &&& after.timer_ms == 500
            &&& after.iterations == m.iterations
        }),
{
}

/// A challenge that cannot be answered ends the call: one that comes after
/// credentials were sent, one without its header, and one that is not usable.
pub proof fn law_challenge_unanswered(
    c: ClientModel,
    m: InvitationModel,
    resp: Seq<char>,
    branch: Seq<char>,
    cnonce: Seq<char>,
    status: u16,
)
    requires
        status == 401 || status == 407,
        status_of(resp) == Some(status as nat),
        cseq_of(resp) is None || cseq_of(resp) == Some(m.call.cseq),
    ensures
        ({
            let action = invite_step(c, m, resp, branch, cnonce).1;
            let header = header_of(
                resp,
                if status == 401 {
                    "WWW-Authenticate"@
                } else {
                    "Proxy-Authenticate"@
                },
            );
            &&& m.auth_retry_done ==> action == InviteMove::Fail(
                InviteError::AuthenticationFailed(status),
            )
            &&& !m.auth_retry_done && header is None ==> action == InviteMove::Fail(
                InviteError::MissingChallenge(status),
            )
            &&& !m.auth_retry_done && header is Some && challenge_of(header->0) is Err ==> action
                == InviteMove::Fail(InviteError::Challenge(challenge_of(header->0)->Err_0))
        }),
{
}

/// A refusal ends the call: a status from 400 to 699 that is no challenge is told
/// with an ACK in the transaction that was refused.
pub proof fn law_refused(
    c: ClientModel,
    m: InvitationModel,
    resp: Seq<char>,
    branch: Seq<char>,
    cnonce: Seq<char>,
    status: nat,
)
    requires
        status_of(resp) == Some(status),
        cseq_of(resp) is None || cseq_of(resp) == Some(m.call.cseq),
        400 <= status < 700,
        status != 401 && status != 407,
    ensures
        ({
            let (after, action) = invite_step(c, m, resp, branch, cnonce);
            &&& after == (InvitationModel {
                call: CallModel { remote_tag: after.call.remote_tag, ..m.call },
                ..m
            })
            &&& action == (InviteMove::Reject { ack: ack_text(c, after.call), status })
        }),
{
}

/// The course of a round: the time is up, or the INVITE is due to be sent again,
/// or there is nothing to do but listen. It is due where no provisional response
/// has come, it was sent again fewer than seven times, and the timer has run out;
/// the timer then doubles, up to four seconds.
pub proof fn law_round(
    m: InvitationModel,
    elapsed_ms: nat,
    since_send_ms: nat,
    timeout_ms: nat,
)
    ensures
        ({
            let (after, action) = round(m, elapsed_ms, since_send_ms, timeout_ms);
            let due = !m.got_provisional && m.retransmit_count < 7 && since_send_ms >= m.timer_ms;
            &&& action is TimedOut <==> elapsed_ms >= timeout_ms
            &&& action is Resend <==> elapsed_ms < timeout_ms && due
            &&& after == (InvitationModel {
                iterations: m.iterations + 1,
                retransmit_count: m.retransmit_count + (if action is Resend {
                    1nat
                } else {
                    0
                }),
                timer_ms: if action is Resend {
                    if 2 * m.timer_ms <= 4000 {
                        2 * m.timer_ms
                    } else {
                        4000
                    }
                } else {
                    m.timer_ms
                },
                ..m
            })
        }),
{
}

/// The waits between INVITEs: half a second, one, two, and then four seconds.
pub proof fn law_timer_values(n: nat)
    ensures
        timer_after(0) == 500,
        timer_after(1) == 1000,
        timer_after(2) == 2000,
        n >= 3 ==> timer_after(n) == 4000,
{
    reveal_with_fuel(timer_after, 4);
    law_timer(n);
}

/// A call begins as number 1, to the dialled number at the trunk's domain, with
/// nothing known of the other side.
pub proof fn law_call_begins(
    c: ClientModel,
    dial: Seq<char>,
    sdp_offer: Seq<char>,
    call_id: Seq<char>,
    local_tag: Seq<char>,
    branch: Seq<char>,
)
    ensures
        ({
            let m = invited(c, dial, sdp_offer, call_id, local_tag, branch);
            &&& m.call.cseq == 1
            &&& m.call.call_id == call_id
            &&& m.call.local_tag == local_tag
            &&& m.call.via_branch == branch
            &&& m.call.invite_uri == seq!['s', 'i', 'p', ':'] + dial + seq!['@'] + c.domain
            &&& m.call.state is Trying
            &&& m.call.remote_tag is None
            &&& m.call.remote_rtp is None
            &&& m.sdp_offer == sdp_offer
            &&& m.timer_ms == 500
            &&& m.retransmit_count == 0
            &&& m.iterations == 0
            &&& !m.got_provisional
            &&& !m.auth_retry_done
            &&& m.well_formed()
            &&& m.invite == invite_text(
                c,
                m.call.invite_uri,
                call_id,
                local_tag,
                branch,
                1,
                sdp_offer,
                None,
            )
        }),
{
    reveal_strlit("sip:");
    reveal_strlit("@");
    assert("sip:"@ =~= seq!['s', 'i', 'p', ':']);
    assert("@"@ =~= seq!['@']);
}

/// While there is early media, nothing and provisional responses leave the call
/// pending; status 200 answers it, with the media endpoint and the remote tag that
/// the response brings, and is acknowledged; any other status ends it.
pub proof fn law_poll(c: ClientModel, call: CallModel, resp: Seq<char>)
    ensures
        poll_step(c, call, None) == (call, PollMove::Pending),
        status_of(resp) is None ==> poll_step(c, call, Some(resp)) == (call, PollMove::Pending),
        status_of(resp) matches Some(status) ==> {
            let (after, found) = poll_step(c, call, Some(resp));
            &&& 100 <= status < 200 ==> after == call && found is Pending
            &&& status == 200 ==> {
                &&& after.state is Answered
                &&& found == PollMove::Answered(ack_text(c, after))
                &&& after.remote_rtp == (match sdp_body(resp) {
                    Some(body) => match answer_of(body) {
                        Ok(answer) => Some(answer),
                        Err(_) => call.remote_rtp,
                    },
                    None => call.remote_rtp,
                })
                &&& after.remote_tag == (match call.remote_tag {
                    Some(tag) => Some(tag),
                    None => match header_of(resp, "To"@) {
                        Some(to) => tag_of(to),
                        None => None,
                    },
                })
                &&& after == (CallModel {
                    state: after.state,
                    remote_rtp: after.remote_rtp,
                    remote_tag: after.remote_tag,
                    ..call
                })
            }
            &&& status < 100 || status > 200 ==> after == call && found
                == PollMove::Failed(status)
        },
{
}

/// What failed is told with the status that came, in the same words for every
/// status.
pub proof fn law_status_told(a: u16, b: u16)
    ensures
        exists|p: Seq<char>, q: Seq<char>|
            poll_failure_text(a as nat) == #[trigger] (p + decimal(a as nat) + q)
                && poll_failure_text(b as nat) == #[trigger] (p + decimal(b as nat) + q),
        exists|p: Seq<char>, q: Seq<char>|
            InviteError::Rejected(a).text() == #[trigger] (p + decimal(a as nat) + q)
                && InviteError::Rejected(b).text() == #[trigger] (p + decimal(b as nat) + q),
        exists|p: Seq<char>, q: Seq<char>|
            InviteError::AuthenticationFailed(a).text() == #[trigger] (p + decimal(a as nat) + q)
                && InviteError::AuthenticationFailed(b).text() == #[trigger] (p + decimal(
                b as nat,
            ) + q),
{
    let p = "call failed with status "@;
    let q = " during early media"@;
    assert(poll_failure_text(a as nat) == p + decimal(a as nat) + q);
    assert(poll_failure_text(b as nat) == p + decimal(b as nat) + q);
    let p = "INVITE rejected with status "@;
    let q = Seq::<char>::empty();
    assert(InviteError::Rejected(a).text() =~= p + decimal(a as nat) + q);
    assert(InviteError::Rejected(b).text() =~= p + decimal(b as nat) + q);
    let p = "INVITE authentication failed after retry (status "@;
    let q = ")"@;
    assert(InviteError::AuthenticationFailed(a).text() == p + decimal(a as nat) + q);
    assert(InviteError::AuthenticationFailed(b).text() == p + decimal(b as nat) + q);
}

/// What each error is called: a challenge that is missing is told with the status
/// and the header in which it should have come.
pub proof fn law_errors_told(e: DigestError, millis: u64)
    ensures
        InviteError::MissingChallenge(401).text() == decimal(401) + " missing WWW-Authenticate"@,
        InviteError::MissingChallenge(407).text() == decimal(407) + " missing Proxy-Authenticate"@,
        InviteError::Challenge(e).text() == e.text(),
        InviteError::TimedOut(millis).text() == "INVITE timed out after "@ + duration_text(millis),
{
    reveal_strlit(" missing ");
    reveal_strlit("WWW-Authenticate");
    reveal_strlit("Proxy-Authenticate");
    reveal_strlit(" missing WWW-Authenticate");
    reveal_strlit(" missing Proxy-Authenticate");
    assert(" missing WWW-Authenticate"@ =~= " missing "@ + "WWW-Authenticate"@);
    assert(" missing Proxy-Authenticate"@ =~= " missing "@ + "Proxy-Authenticate"@);
    assert(InviteError::MissingChallenge(401).text() =~= decimal(401)
        + " missing WWW-Authenticate"@);
    assert(InviteError::MissingChallenge(407).text() =~= decimal(407)
        + " missing Proxy-Authenticate"@);
}

/// An invitation and a call in early media can go on with every response of ASCII
/// characters, whatever has come before.
pub proof fn law_ascii_readable(m: InvitationModel, resp: Seq<char>)
    requires
        is_ascii_chars(resp),
    ensures
        invite_readable(m, resp),
        poll_readable(m.call, Some(resp)),
        poll_readable(m.call, None),
{
    law_ascii_searchable(resp, "CSeq"@);
    law_ascii_searchable(resp, "To"@);
    law_ascii_searchable(resp, "WWW-Authenticate"@);
    law_ascii_searchable(resp, "Proxy-Authenticate"@);
}

} // verus!
