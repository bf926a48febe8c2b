//! Digest authentication with MD5.

use crate::ids::nanos_now;
use crate::message::{extract_quoted_param, quoted_param};
use crate::numeral::{hex_of_bytes, hex_pairs};
use crate::text::{option_text, same_text};
use vstd::arithmetic::power::pow;
use vstd::prelude::*;
use vstd::utf8::encode_utf8;

verus! {

broadcast use vstd::string::group_string_axioms;

/// The nonce count: a challenge's nonce is used once.
pub const NC: &'static str = "00000001";

/// The MD5 digest of some data: sixteen bytes.
pub uninterp spec fn md5_digest(data: Seq<u8>) -> Seq<u8>;

/// `md5::compute`: the digest depends on the data alone. The hash function
/// itself is only named.
#[verifier::external_body]
fn md5_compute(data: &[u8]) -> (digest: [u8; 16])
    ensures
        digest@ == md5_digest(data@),
{
    md5::compute(data).0
}

/// The MD5 digest of a text, in hexadecimal.
pub open spec fn md5_text(s: Seq<char>) -> Seq<char> {
    hex_pairs(md5_digest(encode_utf8(s)))
}

/// Computes the MD5 digest of a text, in hexadecimal.
pub fn md5_hex(input: &str) -> (r: String)
    ensures
        r@ == md5_text(input@),
{
    let digest = md5_compute(input.as_bytes());
    hex_of_bytes(digest.as_slice())
}

// --- Client nonces ---

/// The lowest `len` bytes of `n`, the lowest first.
pub open spec fn little_endian(n: nat, len: nat) -> Seq<u8>
    decreases len,
{
    if len == 0 {
        Seq::empty()
    } else {
        seq![(n % 256) as u8] + little_endian(n / 256, (len - 1) as nat)
    }
}

/// The bytes of `n`, the lowest first.
pub fn to_little_endian(n: u128) -> (bytes: Vec<u8>)
    ensures
        bytes@ == little_endian(n as nat, 16),
{
    let mut bytes: Vec<u8> = Vec::new();
    let mut rest: u128 = n;
    let mut len: u8 = 0;
    while len < 16
        invariant
            len <= 16,
            bytes@ + little_endian(rest as nat, (16 - len) as nat) == little_endian(n as nat, 16),
        decreases 16 - len,
    {
        let ghost before = bytes@;
        let ghost after = little_endian((rest / 256) as nat, (15 - len) as nat);
        bytes.push((rest % 256) as u8);
        assert(bytes@ + after =~= before + (seq![(rest % 256) as u8] + after));
        rest = rest / 256;
        len += 1;
    }
    assert(bytes@ + little_endian(rest as nat, 0) =~= bytes@);
    bytes
}

/// The client nonce of a time in nanoseconds.
pub open spec fn cnonce_text(nanos: nat) -> Seq<char> {
    hex_pairs(md5_digest(little_endian(nanos, 16)))
}

/// Makes the client nonce of a time.
pub fn cnonce_at(nanos: u128) -> (cnonce: String)
    ensures
        cnonce@ == cnonce_text(nanos as nat),
{
    let bytes = to_little_endian(nanos);
    let digest = md5_compute(bytes.as_slice());
    hex_of_bytes(digest.as_slice())
}

/// Makes a client nonce of the present time.
pub fn generate_cnonce() -> (cnonce: String)
    ensures
        exists|nanos: nat| cnonce@ == #[trigger] cnonce_text(nanos),
{
    let nanos: u128 = nanos_now();
    cnonce_at(nanos)
}

// --- Challenges ---

/// A digest challenge of a server.
#[derive(Debug, Clone)]
pub struct DigestChallenge {
    pub realm: String,
    pub nonce: String,
    pub opaque: Option<String>,
    pub qop: Option<String>,
}

/// A digest challenge, with texts as sequences.
pub struct ChallengeModel {
    pub realm: Seq<char>,
    pub nonce: Seq<char>,
    pub opaque: Option<Seq<char>>,
    pub qop: Option<Seq<char>>,
}

impl View for DigestChallenge {
    type V = ChallengeModel;

    open spec fn view(&self) -> ChallengeModel {
        ChallengeModel {
            realm: self.realm@,
            nonce: self.nonce@,
            opaque: option_text(self.opaque),
            qop: option_text(self.qop),
        }
    }
}

/// Why a header is no usable challenge.
#[derive(Debug, Clone, Copy, PartialEq, Eq)]
pub enum DigestError {
    MissingRealm,
    MissingNonce,
}

impl DigestError {
    /// The error in words.
    pub open spec fn text(self) -> Seq<char> {
        match self {
            DigestError::MissingRealm => "digest challenge missing realm"@,
            DigestError::MissingNonce => "digest challenge missing nonce"@,
        }
    }

    /// The error in words.
    pub fn message(self) -> (r: &'static str)
        ensures
            r@ == self.text(),
    {
        match self {
            DigestError::MissingRealm => "digest challenge missing realm",
            DigestError::MissingNonce => "digest challenge missing nonce",
        }
    }
}

/// The challenge that a header holds: a realm and a nonce, and what else is
/// there.
pub open spec fn challenge_of(header: Seq<char>) -> Result<ChallengeModel, DigestError> {
    match quoted_param(header, "realm"@) {
        None => Err(DigestError::MissingRealm),
        Some(realm) => match quoted_param(header, "nonce"@) {
            None => Err(DigestError::MissingNonce),
            Some(nonce) => Ok(
                ChallengeModel {
                    realm,
                    nonce,
                    opaque: quoted_param(header, "opaque"@),
                    qop: quoted_param(header, "qop"@),
                },
            ),
        },
    }
}

/// Reads a digest challenge.
pub fn parse_digest_challenge(header: &str) -> (r: Result<DigestChallenge, DigestError>)
    ensures
        match r {
            Ok(challenge) => challenge_of(header@) == Ok::<ChallengeModel, DigestError>(
                challenge@,
            ),
            Err(e) => challenge_of(header@) == Err::<ChallengeModel, DigestError>(e),
        },
{
    let realm = match extract_quoted_param(header, "realm") {
        Some(realm) => realm,
        None => {
            return Err(DigestError::MissingRealm);
        },
    };
    let nonce = match extract_quoted_param(header, "nonce") {
        Some(nonce) => nonce,
        None => {
            return Err(DigestError::MissingNonce);
        },
    };
    let opaque = extract_quoted_param(header, "opaque");
    let qop = extract_quoted_param(header, "qop");
    Ok(DigestChallenge { realm, nonce, opaque, qop })
}

// --- Responses ---

/// The response to a challenge, with the client nonce that it was made with.
#[derive(Debug, Clone)]
pub struct DigestResponse {
    pub response: String,
    pub cnonce: String,
}

impl DigestResponse {
    /// The response as text.
    pub fn text(&self) -> (r: &str)
        ensures
            r@ == self.response@,
    {
        self.response.as_str()
    }
}

/// The text whose digest is the response, from the digests of the credentials
/// and of the request.
pub open spec fn response_input(
    ha1: Seq<char>,
    ha2: Seq<char>,
    nonce: Seq<char>,
    cnonce: Seq<char>,
    qop: Option<Seq<char>>,
) -> Seq<char> {
    if qop == Some("auth"@) {
        ha1 + ":"@ + nonce + ":"@ + NC@ + ":"@ + cnonce + ":auth:"@ + ha2
    } else {
        ha1 + ":"@ + nonce + ":"@ + ha2
    }
}

/// Joins the parts of which the response is the digest.
pub fn join_response(
    ha1: &str,
    ha2: &str,
    nonce: &str,
    cnonce: &str,
    qop: Option<&str>,
) -> (r: String)
    ensures
        r@ == response_input(
            ha1@,
            ha2@,
            nonce@,
            cnonce@,
            match qop {
                Some(q) => Some(q@),
                None => None,
            },
        ),
{
    let mut r = String::from_str(ha1);
    r.append(":");
    r.append(nonce);
    let extended = match qop {
        Some(q) => same_text(q, "auth"),
        None => false,
    };
    if extended {
        r.append(":");
        r.append(NC);
        r.append(":");
        r.append(cnonce);
        r.append(":auth:");
        r.append(ha2);
    } else {
        r.append(":");
        r.append(ha2);
    }
    r
}

/// The response to a challenge.
pub open spec fn response_of(
    username: Seq<char>,
    password: Seq<char>,
    realm: Seq<char>,
    nonce: Seq<char>,
    method: Seq<char>,
    uri: Seq<char>,
    qop: Option<Seq<char>>,
    cnonce: Seq<char>,
) -> Seq<char> {
    let ha1 = md5_text(username + ":"@ + realm + ":"@ + password);
    let ha2 = md5_text(method + ":"@ + uri);
    md5_text(response_input(ha1, ha2, nonce, cnonce, qop))
}

/// Computes the response to a challenge with a given client nonce.
pub fn respond_with(
    username: &str,
    password: &str,
    realm: &str,
    nonce: &str,
    method: &str,
    uri: &str,
    qop: Option<&str>,
    cnonce: String,
) -> (r: DigestResponse)
    ensures
        r.cnonce@ == cnonce@,
        r.response@ == response_of(
            username@,
            password@,
            realm@,
            nonce@,
            method@,
            uri@,
            match qop {
                Some(q) => Some(q@),
                None => None,
            },
            cnonce@,
        ),
{
    let mut a1 = String::from_str(username);
    a1.append(":");
    a1.append(realm);
    a1.append(":");
    a1.append(password);
    let mut a2 = String::from_str(method);
    a2.append(":");
    a2.append(uri);
    let ha1 = md5_hex(a1.as_str());
    let ha2 = md5_hex(a2.as_str());
    let input = join_response(ha1.as_str(), ha2.as_str(), nonce, cnonce.as_str(), qop);
    DigestResponse { response: md5_hex(input.as_str()), cnonce }
}

/// Computes the response to a challenge with a fresh client nonce. The extended
/// form, with nonce count and client nonce, is used for the quality of
/// protection `auth`.
pub fn compute_digest_response(
    username: &str,
    password: &str,
    realm: &str,
    nonce: &str,
    method: &str,
    uri: &str,
    qop: Option<&str>,
) -> (r: DigestResponse)
    ensures
        exists|nanos: nat| r.cnonce@ == #[trigger] cnonce_text(nanos),
        r.response@ == response_of(
            username@,
            password@,
            realm@,
            nonce@,
            method@,
            uri@,
            match qop {
                Some(q) => Some(q@),
                None => None,
            },
            r.cnonce@,
        ),
{
    respond_with(username, password, realm, nonce, method, uri, qop, generate_cnonce())
}

// --- Header values ---

/// The value of the header that answers a challenge, from the response.
pub open spec fn header_value(
    challenge: ChallengeModel,
    username: Seq<char>,
    uri: Seq<char>,
    response: Seq<char>,
    cnonce: Seq<char>,
) -> Seq<char> {
    let base = "Digest username=\""@ + username + "\", realm=\""@ + challenge.realm
        + "\", nonce=\""@ + challenge.nonce + "\", uri=\""@ + uri + "\", response=\""@ + response
        + "\", algorithm=MD5"@;
    let known = match challenge.opaque {
        Some(opaque) => base + ", opaque=\""@ + opaque + "\""@,
        None => base,
    };
    match challenge.qop {
        Some(_) => known + ", qop=auth, nc="@ + NC@ + ", cnonce=\""@ + cnonce + "\""@,
        None => known,
    }
}

/// The value of the header that answers a challenge.
pub open spec fn authorization(
    challenge: ChallengeModel,
    username: Seq<char>,
    password: Seq<char>,
    method: Seq<char>,
    uri: Seq<char>,
    cnonce: Seq<char>,
) -> Seq<char> {
    let response = response_of(
        username,
        password,
        challenge.realm,
        challenge.nonce,
        method,
        uri,
        challenge.qop,
        cnonce,
    );
    header_value(challenge, username, uri, response, cnonce)
}

impl DigestChallenge {
    /// Writes the header value that carries a response.
    pub fn header_with(&self, username: &str, uri: &str, answer: &DigestResponse) -> (r: String)
        ensures
            r@ == header_value(self@, username@, uri@, answer.response@, answer.cnonce@),
    {
        let mut header = String::from_str("Digest username=\"");
        header.append(username);
        header.append("\", realm=\"");
        header.append(self.realm.as_str());
        header.append("\", nonce=\"");
        header.append(self.nonce.as_str());
        header.append("\", uri=\"");
        header.append(uri);
        header.append("\", response=\"");
        header.append(answer.text());
        header.append("\", algorithm=MD5");
        if let Some(opaque) = &self.opaque {
            header.append(", opaque=\"");
            header.append(opaque.as_str());
            header.append("\"");
        }
        if self.qop.is_some() {
            header.append(", qop=auth, nc=");
            header.append(NC);
            header.append(", cnonce=\"");
            header.append(answer.cnonce.as_str());
            header.append("\"");
        }
        header
    }

    /// Writes the header value that answers this challenge, with a given client
    /// nonce.
    pub fn auth_header_value_with(
        &self,
        username: &str,
        password: &str,
        method: &str,
        uri: &str,
        cnonce: String,
    ) -> (r: String)
        ensures
            r@ == authorization(self@, username@, password@, method@, uri@, cnonce@),
    {
        let qop: Option<&str> = match &self.qop {
            Some(qop) => Some(qop.as_str()),
            None => None,
        };
        let answer = respond_with(
            username,
            password,
            self.realm.as_str(),
            self.nonce.as_str(),
            method,
            uri,
            qop,
            cnonce,
        );
        self.header_with(username, uri, &answer)
    }

    /// Writes the header value that answers this challenge, with a fresh client
    /// nonce.
    pub fn auth_header_value(
        &self,
        username: &str,
        password: &str,
        method: &str,
        uri: &str,
    ) -> (r: String)
        ensures
            exists|nanos: nat|
                r@ == authorization(
                    self@,
                    username@,
                    password@,
                    method@,
                    uri@,
                    #[trigger] cnonce_text(nanos),
                ),
    {
        let cnonce = generate_cnonce();
        self.auth_header_value_with(username, password, method, uri, cnonce)
    }
}

// --- Laws ---

/// Without the quality of protection `auth`, the client nonce has no part in the
/// response.
pub proof fn law_plain_response(
    username: Seq<char>,
    password: Seq<char>,
    realm: Seq<char>,
    nonce: Seq<char>,
    method: Seq<char>,
    uri: Seq<char>,
    qop: Option<Seq<char>>,
    a: Seq<char>,
    b: Seq<char>,
)
    requires
        qop != Some("auth"@),
    ensures
        response_of(username, password, realm, nonce, method, uri, qop, a) == response_of(
            username,
            password,
            realm,
            nonce,
            method,
            uri,
            qop,
            b,
        ),
{
}

/// The bytes that a client nonce is the digest of begin with the lowest of the
/// number, and there are as many as were asked for.
pub proof fn law_little_endian(n: nat, len: nat)
    ensures
        little_endian(n, len).len() == len,
        len > 0 ==> little_endian(n, len)[0] == n % 256 && little_endian(n, len).skip(1)
            == little_endian(n / 256, (len - 1) as nat),
    decreases len,
{
    if len > 0 {
        law_little_endian(n / 256, (len - 1) as nat);
        assert(little_endian(n, len).skip(1) =~= little_endian(n / 256, (len - 1) as nat));
    }
}

/// Different times give different bytes, and so different digests unless the hash
/// function collides.
pub proof fn law_nonce_bytes_distinct(m: nat, n: nat, len: nat)
    requires
        m < pow(256, len),
        n < pow(256, len),
        little_endian(m, len) == little_endian(n, len),
    ensures
        m == n,
    decreases len,
{
    reveal(pow);
    if len > 0 {
        let k = (len - 1) as nat;
        law_little_endian(m, len);
        law_little_endian(n, len);
        assert(pow(256, len) == 256 * pow(256, k));
        assert(m / 256 < pow(256, k) && n / 256 < pow(256, k));
        law_nonce_bytes_distinct(m / 256, n / 256, k);
        assert(m == 256 * (m / 256) + m % 256 && n == 256 * (n / 256) + n % 256);
    }
}

/// The client nonce of a time is the digest of sixteen bytes, the lowest first, in
/// hexadecimal.
pub proof fn law_cnonce(nanos: nat)
    ensures
        exists|bytes: Seq<u8>|
            cnonce_text(nanos) == hex_pairs(#[trigger] md5_digest(bytes)) && bytes.len() == 16
                && bytes == little_endian(nanos, 16),
{
    law_little_endian(nanos, 16);
    let bytes = little_endian(nanos, 16);
    assert(cnonce_text(nanos) == hex_pairs(md5_digest(bytes)));
}

} // verus!
