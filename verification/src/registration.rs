//! Registering with the trunk.
//!
//! A registration is a state machine: it is handed responses, and says what to
//! send, whether to wait on, and how the registration ended.

use crate::digest::{
    authorization, challenge_of, cnonce_text, generate_cnonce, parse_digest_challenge, DigestError,
};
use crate::ids::{branch_text, call_id, generate_branch, generate_call_id, generate_tag};
use crate::message::{
    cseq_of, extract_cseq_num, extract_header, header_of, is_searchable,
    law_ascii_searchable, parse_status_code, searchable, status_of,
};
use crate::numeral::{decimal, decimal_string, hex};
use crate::sip::{register_text, ClientModel, SipClient, RESPONSE_LOOP_LIMIT};
use vstd::prelude::*;
use vstd::utf8::is_ascii_chars;

verus! {

broadcast use vstd::string::group_string_axioms;

/// How long a response to REGISTER is waited for, in milliseconds.
pub const REGISTER_TIMEOUT_MS: u64 = 10000;

/// How far a registration has come.
#[derive(Debug, Clone, Copy, PartialEq, Eq, Structural)]
pub enum RegisterStage {
    /// The request without credentials is out.
    Plain,
    /// The request with credentials is out.
    Authenticated,
}

/// A registration under way.
#[derive(Debug)]
pub struct Registration {
    pub call_id: String,
    pub tag: String,
    pub stage: RegisterStage,
    /// How many rounds the wait for responses to the last request has taken.
    pub iterations: u32,
}

/// A registration under way, with texts as sequences.
pub struct RegistrationModel {
    pub call_id: Seq<char>,
    pub tag: Seq<char>,
    pub stage: RegisterStage,
    pub iterations: nat,
}

impl RegistrationModel {
    /// The count of rounds is within its limit.
    pub open spec fn well_formed(self) -> bool {
        self.iterations <= RESPONSE_LOOP_LIMIT
    }
}

impl View for Registration {
    type V = RegistrationModel;

    open spec fn view(&self) -> RegistrationModel {
        RegistrationModel {
            call_id: self.call_id@,
            tag: self.tag@,
            stage: self.stage,
            iterations: self.iterations as nat,
        }
    }
}

/// Why a registration failed.
#[derive(Debug, Clone, Copy, PartialEq, Eq)]
pub enum RegisterError {
    /// No response came to the request without credentials.
    NoResponse,
    /// No response came to the request with credentials.
    TimedOut,
    /// The request without credentials was refused with this status, or with an
    /// unreadable one, which counts as 0.
    Refused(u16),
    /// The response with status 401 holds no challenge.
    MissingChallenge,
    /// The challenge is not usable.
    Challenge(DigestError),
    /// The request with credentials was refused with this status, or with an
    /// unreadable one, which counts as 0.
    Rejected(u16),
}

impl RegisterError {
    /// The error in words.
    pub open spec fn text(self) -> Seq<char> {
        match self {
            RegisterError::NoResponse => "SIP response timeout"@,
            RegisterError::TimedOut => "authenticated REGISTER timed out"@,
            RegisterError::Refused(status) => "REGISTER failed with status "@ + decimal(
                status as nat,
            ) + ", expected 200 or 401"@,
            RegisterError::MissingChallenge => "401 response missing WWW-Authenticate header"@,
            RegisterError::Challenge(e) => e.text(),
            RegisterError::Rejected(status) => "authenticated REGISTER failed with status "@
                + decimal(status as nat),
        }
    }

    /// The error in words.
    pub fn message(&self) -> (r: String)
        ensures
            r@ == self.text(),
    {
        match self {
            RegisterError::NoResponse => String::from_str("SIP response timeout"),
            RegisterError::TimedOut => String::from_str("authenticated REGISTER timed out"),
            RegisterError::Refused(status) => {
                let mut r = String::from_str("REGISTER failed with status ");
                r.append(decimal_string(*status as u128).as_str());
                r.append(", expected 200 or 401");
                r
            },
            RegisterError::MissingChallenge => String::from_str(
                "401 response missing WWW-Authenticate header",
            ),
            RegisterError::Challenge(e) => String::from_str(e.message()),
            RegisterError::Rejected(status) => {
                let mut r = String::from_str("authenticated REGISTER failed with status ");
                r.append(decimal_string(*status as u128).as_str());
                r
            },
        }
    }
}

/// What to do after a response.
#[derive(Debug)]
pub enum RegisterAction {
    /// The client is registered.
    Done,
    /// Send this request, and wait for responses to it.
    Send(String),
    /// Wait for another response.
    Wait,
    /// The registration failed.
    Fail(RegisterError),
}

/// What to do after a response, with texts as sequences.
pub enum RegisterMove {
    Done,
    Send(Seq<char>),
    Wait,
    Fail(RegisterError),
}

impl View for RegisterAction {
    type V = RegisterMove;

    open spec fn view(&self) -> RegisterMove {
        match self {
            RegisterAction::Done => RegisterMove::Done,
            RegisterAction::Send(request) => RegisterMove::Send(request@),
            RegisterAction::Wait => RegisterMove::Wait,
            RegisterAction::Fail(e) => RegisterMove::Fail(*e),
        }
    }
}

/// The status of a response, or 0 where it is unreadable.
pub open spec fn status_or_zero(resp: Seq<char>) -> u16 {
    match status_of(resp) {
        Some(status) => status as u16,
        None => 0,
    }
}

/// What a registration does with a response, given the branch and the client
/// nonce of the request that it may have to send.
pub open spec fn register_step(
    c: ClientModel,
    m: RegistrationModel,
    resp: Seq<char>,
    branch: Seq<char>,
    cnonce: Seq<char>,
) -> (RegistrationModel, RegisterMove) {
    match m.stage {
        RegisterStage::Plain => if status_of(resp) == Some(200nat) {
            (m, RegisterMove::Done)
        } else if status_of(resp) != Some(401nat) {
            (m, RegisterMove::Fail(RegisterError::Refused(status_or_zero(resp))))
        } else {
            match header_of(resp, "WWW-Authenticate"@) {
                None => (m, RegisterMove::Fail(RegisterError::MissingChallenge)),
                Some(header) => match challenge_of(header) {
                    Err(e) => (m, RegisterMove::Fail(RegisterError::Challenge(e))),
                    Ok(challenge) => {
                        let value = authorization(
                            challenge,
                            c.username,
                            c.password,
                            "REGISTER"@,
                            "sip:"@ + c.domain,
                            cnonce,
                        );
                        (
                            RegistrationModel {
                                stage: RegisterStage::Authenticated,
                                iterations: 0,
                                ..m
                            },
                            RegisterMove::Send(
                                register_text(c, m.call_id, m.tag, branch, 2, Some(value)),
                            ),
                        )
                    },
                },
            }
        },
        RegisterStage::Authenticated => if cseq_of(resp) is Some && cseq_of(resp) != Some(2nat) {
            (m, RegisterMove::Wait)
        } else if status_of(resp) == Some(200nat) {
            (m, RegisterMove::Done)
        } else {
            (m, RegisterMove::Fail(RegisterError::Rejected(status_or_zero(resp))))
        },
    }
}

/// The beginning of a round of waiting for a response, `elapsed_ms` after the last
/// request was sent.
pub open spec fn register_round(m: RegistrationModel, elapsed_ms: nat) -> (
    RegistrationModel,
    Option<RegisterError>,
) {
    (
        RegistrationModel { iterations: m.iterations + 1, ..m },
        if elapsed_ms < REGISTER_TIMEOUT_MS {
            None
        } else {
            match m.stage {
                RegisterStage::Plain => Some(RegisterError::NoResponse),
                RegisterStage::Authenticated => Some(RegisterError::TimedOut),
            }
        },
    )
}

/// Whether the headers that a registration looks up in a response can be
/// looked up.
pub open spec fn register_readable(stage: RegisterStage, resp: Seq<char>) -> bool {
    match stage {
        RegisterStage::Plain => status_of(resp) == Some(401nat) ==> searchable(
            resp,
            "WWW-Authenticate"@,
        ),
        RegisterStage::Authenticated => searchable(resp, "CSeq"@),
    }
}

/// Reads the status of a response, or 0 where it is unreadable.
fn status_number(resp: &str) -> (status: u16)
    ensures
        status == status_or_zero(resp@),
{
    match parse_status_code(resp) {
        Some(status) => status,
        None => 0,
    }
}

impl Registration {
    /// Whether the headers that this registration looks up in a response can be
    /// looked up.
    pub fn can_read(&self, resp: &str) -> (r: bool)
        ensures
            r == register_readable(self.stage, resp@),
    {
        match self.stage {
            RegisterStage::Plain => match parse_status_code(resp) {
                Some(401) => is_searchable(resp, "WWW-Authenticate"),
                _ => true,
            },
            RegisterStage::Authenticated => is_searchable(resp, "CSeq"),
        }
    }

    /// Begins a round of waiting for a response, `elapsed_ms` after the last
    /// request was sent. The registration fails where that is too long.
    pub fn begin_round(&mut self, elapsed_ms: u64) -> (r: Option<RegisterError>)
        requires
            old(self).iterations < RESPONSE_LOOP_LIMIT,
        ensures
            (final(self)@, r) == register_round(old(self)@, elapsed_ms as nat),
            final(self)@.well_formed(),
    {
        self.iterations = self.iterations + 1;
        if elapsed_ms < REGISTER_TIMEOUT_MS {
            return None;
        }
        match self.stage {
            RegisterStage::Plain => Some(RegisterError::NoResponse),
            RegisterStage::Authenticated => Some(RegisterError::TimedOut),
        }
    }
}

/// A registration that begins, and its first request.
pub open spec fn registration_begun(
    c: ClientModel,
    call_id: Seq<char>,
    tag: Seq<char>,
    branch: Seq<char>,
) -> (RegistrationModel, Seq<char>) {
    (
        RegistrationModel { call_id, tag, stage: RegisterStage::Plain, iterations: 0 },
        register_text(c, call_id, tag, branch, 1, None),
    )
}

impl SipClient {
    /// Begins a registration with given identifiers. The request to send comes
    /// with it.
    pub fn register_with(&self, call_id: String, tag: String, branch: &str) -> (r: (
        Registration,
        String,
    ))
        ensures
            r.0@ == (RegistrationModel {
                call_id: call_id@,
                tag: tag@,
                stage: RegisterStage::Plain,
                iterations: 0,
            }),
            r.1@ == register_text(self@, call_id@, tag@, branch@, 1, None),
            (r.0@, r.1@) == registration_begun(self@, call_id@, tag@, branch@),
    {
        let request = self.build_register(call_id.as_str(), tag.as_str(), branch, 1, None);
        (Registration { call_id, tag, stage: RegisterStage::Plain, iterations: 0 }, request)
    }

    /// Begins a registration of the process `pid`. The request to send comes
    /// with it.
    pub fn register(&self, pid: u32) -> (r: (Registration, String))
        ensures
            r.0.stage is Plain,
            r.0.iterations == 0,
            r.0@.well_formed(),
            exists|micros: nat| r.0.call_id@ == #[trigger] call_id(micros, pid as nat),
            exists|hash: u64| r.0.tag@ == #[trigger] hex(hash as nat),
            exists|hash: u64|
                r.1@ == register_text(
                    self@,
                    r.0.call_id@,
                    r.0.tag@,
                    #[trigger] branch_text(hash as nat),
                    1,
                    None,
                ),
    {
        let id = generate_call_id(pid);
        let tag = generate_tag();
        let branch = generate_branch();
        self.register_with(id, tag, branch.as_str())
    }

    /// Handles a response to a registration. `branch` and `cnonce` go into the
    /// request that may have to be sent.
    pub fn register_response_with(
        &self,
        registration: &mut Registration,
        resp: &str,
        branch: &str,
        cnonce: String,
    ) -> (action: RegisterAction)
        requires
            register_readable(old(registration).stage, resp@),
        ensures
            (final(registration)@, action@) == register_step(
                self@,
                old(registration)@,
                resp@,
                branch@,
                cnonce@,
            ),
    {
        let status = parse_status_code(resp);
        match registration.stage {
            RegisterStage::Plain => {
                match status {
                    Some(200) => {
                        return RegisterAction::Done;
                    },
                    Some(401) => {},
                    _ => {
                        return RegisterAction::Fail(RegisterError::Refused(status_number(resp)));
                    },
                }
                let header = match extract_header(resp, "WWW-Authenticate") {
                    Some(header) => header,
                    None => {
                        return RegisterAction::Fail(RegisterError::MissingChallenge);
                    },
                };
                let challenge = match parse_digest_challenge(header.as_str()) {
                    Ok(challenge) => challenge,
                    Err(e) => {
                        return RegisterAction::Fail(RegisterError::Challenge(e));
                    },
                };
                let mut uri = String::from_str("sip:");
                uri.append(self.sip_domain.as_str());
                let value = challenge.auth_header_value_with(
                    self.username.as_str(),
                    self.password.as_str(),
                    "REGISTER",
                    uri.as_str(),
                    cnonce,
                );
                let request = self.build_register(
                    registration.call_id.as_str(),
                    registration.tag.as_str(),
                    branch,
                    2,
                    Some(value),
                );
                registration.stage = RegisterStage::Authenticated;
                registration.iterations = 0;
                RegisterAction::Send(request)
            },
            RegisterStage::Authenticated => {
                if let Some(cseq) = extract_cseq_num(resp) {
                    if cseq != 2 {
                        return RegisterAction::Wait;
                    }
                }
                match status {
                    Some(200) => RegisterAction::Done,
                    _ => RegisterAction::Fail(RegisterError::Rejected(status_number(resp))),
                }
            },
        }
    }

    /// Handles a response to a registration, with a fresh branch and client
    /// nonce for the request that may have to be sent.
    pub fn register_response(&self, registration: &mut Registration, resp: &str) -> (action:
        RegisterAction)
        requires
            register_readable(old(registration).stage, resp@),
        ensures
            exists|hash: u64, nanos: nat|
                (final(registration)@, action@) == register_step(
                    self@,
                    old(registration)@,
                    resp@,
                    #[trigger] branch_text(hash as nat),
                    #[trigger] cnonce_text(nanos),
                ),
    {
        let branch = generate_branch();
        let cnonce = generate_cnonce();
        self.register_response_with(registration, resp, branch.as_str(), cnonce)
    }
}

// --- Laws ---

/// Once the request with credentials is out, a response to another request is
/// passed over: it neither ends the registration nor changes it.
pub proof fn law_stale_response_ignored(
    c: ClientModel,
    m: RegistrationModel,
    resp: Seq<char>,
    branch: Seq<char>,
    cnonce: Seq<char>,
    cseq: nat,
)
    requires
        m.stage is Authenticated,
        cseq_of(resp) == Some(cseq),
        cseq != 2,
    ensures
        register_step(c, m, resp, branch, cnonce) == (m, RegisterMove::Wait),
{
}

/// A registration keeps its identifiers, and a second challenge is never
/// answered: at most one request with credentials is sent.
pub proof fn law_one_authenticated_request(
    c: ClientModel,
    m: RegistrationModel,
    resp: Seq<char>,
    branch: Seq<char>,
    cnonce: Seq<char>,
)
    ensures
        ({
            let (after, action) = register_step(c, m, resp, branch, cnonce);
            &&& after.call_id == m.call_id
            &&& after.tag == m.tag
            &&& action is Send <==> m.stage is Plain && after.stage is Authenticated
            &&& m.stage is Authenticated ==> after == m
        }),
{
}

/// No wait for responses takes more rounds than the limit: a round counts, a
/// response does not, and only a new request begins the count again.
pub proof fn law_registration_rounds_bounded(
    c: ClientModel,
    m: RegistrationModel,
    elapsed_ms: nat,
    resp: Seq<char>,
    branch: Seq<char>,
    cnonce: Seq<char>,
)
    requires
        m.well_formed(),
    ensures
        m.iterations < RESPONSE_LOOP_LIMIT ==> {
            let (after, _) = register_round(m, elapsed_ms);
            after.well_formed() && after.iterations == m.iterations + 1
        },
        ({
            let (after, action) = register_step(c, m, resp, branch, cnonce);
            &&& after.well_formed()
            &&& after.iterations == if action is Send {
                0
            } else {
                m.iterations
            }
        }),
{
}

/// A registration succeeds exactly with a response of status 200, which, once the
/// request with credentials is out, does not belong to another request.
pub proof fn law_registered(
    c: ClientModel,
    m: RegistrationModel,
    resp: Seq<char>,
    branch: Seq<char>,
    cnonce: Seq<char>,
)
    ensures
        register_step(c, m, resp, branch, cnonce).1 is Done <==> status_of(resp) == Some(200nat)
            && (m.stage is Plain || cseq_of(resp) is None || cseq_of(resp) == Some(2nat)),
        register_step(c, m, resp, branch, cnonce).1 is Done ==> register_step(
            c,
            m,
            resp,
            branch,
            cnonce,
        ).0 == m,
{
}

/// Credentials that are not accepted end the registration: once they are out, any
/// response to them whose status is not 200 is told as a rejection with that
/// status, and a response to another request is waited over.
pub proof fn law_rejected(
    c: ClientModel,
    m: RegistrationModel,
    resp: Seq<char>,
    branch: Seq<char>,
    cnonce: Seq<char>,
)
    requires
        m.stage is Authenticated,
        status_of(resp) != Some(200nat),
    ensures
        cseq_of(resp) is None || cseq_of(resp) == Some(2nat) ==> register_step(
            c,
            m,
            resp,
            branch,
            cnonce,
        ) == (
            m,
            RegisterMove::Fail(
                RegisterError::Rejected(
                    match status_of(resp) {
                        Some(status) => status as u16,
                        None => 0,
                    },
                ),
            ),
        ),
        cseq_of(resp) is Some && cseq_of(resp)->0 != 2 ==> register_step(
            c,
            m,
            resp,
            branch,
            cnonce,
        ) == (m, RegisterMove::Wait),
{
}

/// The first request is answered with a challenge, or accepted, or refused. A
/// challenge is answered with the same request, as number 2, with a new branch and
/// with credentials for the trunk's domain.
pub proof fn law_register_challenged(
    c: ClientModel,
    m: RegistrationModel,
    resp: Seq<char>,
    branch: Seq<char>,
    cnonce: Seq<char>,
)
    requires
        m.stage is Plain,
        status_of(resp) == Some(401nat),
    ensures
        match header_of(resp, "WWW-Authenticate"@) {
            None => register_step(c, m, resp, branch, cnonce) == (
                m,
                RegisterMove::Fail(RegisterError::MissingChallenge),
            ),
            Some(header) => match challenge_of(header) {
                Err(e) => register_step(c, m, resp, branch, cnonce) == (
                    m,
                    RegisterMove::Fail(RegisterError::Challenge(e)),
                ),
                Ok(challenge) => {
                    let (after, action) = register_step(c, m, resp, branch, cnonce);
                    &&& after == (RegistrationModel {
                        stage: RegisterStage::Authenticated,
                        iterations: 0,
                        ..m
                    })
                    &&& action == RegisterMove::Send(
                        register_text(
                            c,
                            m.call_id,
                            m.tag,
                            branch,
                            2,
                            Some(
                                authorization(
                                    challenge,
                                    c.username,
                                    c.password,
                                    "REGISTER"@,
                                    seq!['s', 'i', 'p', ':'] + c.domain,
                                    cnonce,
                                ),
                            ),
                        ),
                    )
                },
            },
        },
{
    reveal_strlit("sip:");
    assert("sip:"@ =~= seq!['s', 'i', 'p', ':']);
}

/// The first request is refused with any status but 200 and 401, and that status
/// is told.
pub proof fn law_register_refused(
    c: ClientModel,
    m: RegistrationModel,
    resp: Seq<char>,
    branch: Seq<char>,
    cnonce: Seq<char>,
)
    requires
        m.stage is Plain,
        status_of(resp) != Some(200nat),
        status_of(resp) != Some(401nat),
    ensures
        register_step(c, m, resp, branch, cnonce) == (
            m,
            RegisterMove::Fail(
                RegisterError::Refused(
                    match status_of(resp) {
                        Some(status) => status as u16,
                        None => 0,
                    },
                ),
            ),
        ),
{
}

/// A registration waits ten seconds for a response to its last request, and tells
/// which request was not answered.
pub proof fn law_register_timeout(m: RegistrationModel, elapsed_ms: nat)
    ensures
        register_round(m, elapsed_ms).0 == (RegistrationModel { iterations: m.iterations + 1, ..m }),
        elapsed_ms < 10000 ==> register_round(m, elapsed_ms).1 is None,
        elapsed_ms >= 10000 ==> register_round(m, elapsed_ms).1 == Some(
            if m.stage is Plain {
                RegisterError::NoResponse
            } else {
                RegisterError::TimedOut
            },
        ),
{
}

/// What failed is told with the status that came, in the same words for every
/// status.
pub proof fn law_status_told(a: u16, b: u16)
    ensures
        exists|p: Seq<char>, q: Seq<char>|
            RegisterError::Refused(a).text() == #[trigger] (p + decimal(a as nat) + q)
                && RegisterError::Refused(b).text() == #[trigger] (p + decimal(b as nat) + q),
        exists|p: Seq<char>, q: Seq<char>|
            RegisterError::Rejected(a).text() == #[trigger] (p + decimal(a as nat) + q)
                && RegisterError::Rejected(b).text() == #[trigger] (p + decimal(b as nat) + q),
{
    let p = "REGISTER failed with status "@;
    let q = ", expected 200 or 401"@;
    assert(RegisterError::Refused(a).text() == p + decimal(a as nat) + q);
    assert(RegisterError::Refused(b).text() == p + decimal(b as nat) + q);
    let p = "authenticated REGISTER failed with status "@;
    let q = Seq::<char>::empty();
    assert(RegisterError::Rejected(a).text() =~= p + decimal(a as nat) + q);
    assert(RegisterError::Rejected(b).text() =~= p + decimal(b as nat) + q);
}

/// A registration begins with a request without credentials, numbered 1, under
/// the identifiers that it keeps.
pub proof fn law_registration_begins(
    c: ClientModel,
    call_id: Seq<char>,
    tag: Seq<char>,
    branch: Seq<char>,
)
    ensures
        ({
            let (m, request) = registration_begun(c, call_id, tag, branch);
            &&& m.call_id == call_id
            &&& m.tag == tag
            &&& m.stage is Plain
            &&& m.iterations == 0
            &&& m.well_formed()
            &&& request == register_text(c, call_id, tag, branch, 1, None)
        }),
{
}

/// What each error is called; an unusable challenge is told with what it misses.
pub proof fn law_errors_told(e: DigestError)
    ensures
        RegisterError::NoResponse.text() == "SIP response timeout"@,
        RegisterError::TimedOut.text() == "authenticated REGISTER timed out"@,
        RegisterError::MissingChallenge.text() == "401 response missing WWW-Authenticate header"@,
        RegisterError::Challenge(e).text() == "digest challenge missing "@ + (if e
            is MissingRealm {
            "realm"@
        } else {
            "nonce"@
        }),
{
    reveal_strlit("digest challenge missing ");
    reveal_strlit("digest challenge missing realm");
    reveal_strlit("digest challenge missing nonce");
    reveal_strlit("realm");
    reveal_strlit("nonce");
    assert("digest challenge missing realm"@ =~= "digest challenge missing "@ + "realm"@);
    assert("digest challenge missing nonce"@ =~= "digest challenge missing "@ + "nonce"@);
}

/// A registration can go on with every response of ASCII characters, whatever has
/// been asked before.
pub proof fn law_ascii_readable(stage: RegisterStage, resp: Seq<char>)
    requires
        is_ascii_chars(resp),
    ensures
        register_readable(stage, resp),
{
    law_ascii_searchable(resp, "CSeq"@);
    law_ascii_searchable(resp, "WWW-Authenticate"@);
}

} // verus!
