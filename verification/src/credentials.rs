//! Challenges and credentials as the other side writes and reads them.

use crate::digest::{
    authorization, challenge_of, header_value, md5_digest, md5_text, response_of, ChallengeModel,
    DigestError,
};
use crate::message::quoted_param;
use crate::numeral::{digit_char, hex_pairs};
use crate::text::{find_from, lemma_find_from, lemma_next_index_is, occurs_at};
use vstd::prelude::*;
use vstd::utf8::encode_utf8;

verus! {

/// Whether `s` ends with `p`.
pub open spec fn ends_with(s: Seq<char>, p: Seq<char>) -> bool {
    p.len() <= s.len() && s.skip(s.len() - p.len()) == p
}

// --- Parameters one after another ---

/// A quoted parameter: what leads up to its equals sign, and its value.
pub open spec fn param_text(lead: Seq<char>, value: Seq<char>) -> Seq<char> {
    lead + seq!['=', '"'] + value + seq!['"']
}

/// Parameters are read one after another: where what leads up to the first equals
/// sign ends with the name that is looked for, the value is the first one;
/// otherwise the search goes on behind it.
pub proof fn law_params_read(
    lead: Seq<char>,
    value: Seq<char>,
    rest: Seq<char>,
    param: Seq<char>,
)
    requires
        param.len() > 0,
        !param.contains('"'),
        !lead.contains('"'),
        !value.contains('"'),
        !ends_with(value, param.push('=')),
    ensures
        quoted_param(param_text(lead, value) + rest, param) == (if ends_with(lead, param) {
            Some(value)
        } else {
            quoted_param(rest, param)
        }),
{
    let s = param_text(lead, value) + rest;
    let mark = param.push('=').push('"');
    let (n, l) = (param.len() as int, lead.len() as int);
    let (open, close) = (l + 1, l + 2 + value.len() as int);
    assert forall|i: int| 0 <= i < close implies (s[i] == '"' <==> i == open) by {
        if i < l {
            assert(s[i] == lead[i]);
            assert(lead.contains(lead[i]));
        } else if i > open {
            assert(s[i] == value[i - l - 2]);
            assert(value.contains(value[i - l - 2]));
        }
    }
    assert(s[close] == '"' && s[open] == '"' && s[l] == '=');
    assert forall|i: int| 0 <= i < n implies mark[i] != '"' by {
        assert(mark[i] == param[i]);
        assert(param.contains(param[i]));
    }
    assert forall|p: int| 0 <= p <= close && #[trigger] occurs_at(s, mark, p) implies p == l - n
        && ends_with(lead, param) by {
        let found = s.subrange(p, p + n + 2);
        assert forall|i: int| 0 <= i < n + 2 implies s[p + i] == mark[i] by {
            assert(found[i] == s[p + i]);
        }
        let e = p + n + 1;
        assert(s[e] == mark[n + 1]);
        assert(mark[n + 1] == '"' && mark[n] == '=');
        if e > close {
            assert(s[p + (close - p)] == mark[close - p]);
        } else if e == close {
            if p <= open {
                assert(s[p + (open - p)] == mark[open - p]);
            }
            assert(value.skip(value.len() - (n + 1)) =~= param.push('=')) by {
                assert forall|i: int| 0 <= i < n + 1 implies value[value.len() - (n + 1) + i]
                    == param.push('=')[i] by {
                    assert(s[p + i] == value[value.len() - (n + 1) + i]);
                    assert(mark[i] == param.push('=')[i]);
                }
            }
        } else {
            assert(e == open);
            assert(lead.skip(l - n) =~= param) by {
                assert forall|i: int| 0 <= i < n implies lead[l - n + i] == param[i] by {
                    assert(s[p + i] == lead[l - n + i]);
                    assert(mark[i] == param[i]);
                }
            }
        }
    }
    if ends_with(lead, param) {
        let k = l - n;
        assert(s.subrange(k, k + n + 2) =~= mark) by {
            assert forall|i: int| 0 <= i < n implies s[k + i] == param[i] by {
                assert(lead.skip(l - n)[i] == param[i]);
            }
        }
        assert(occurs_at(s, mark, k));
        lemma_find_from(s, mark, 0);
        assert(find_from(s, mark, 0) == Some(k));
        lemma_next_index_is(s, '"', open + 1, close);
        assert(s.subrange(open + 1, close) =~= value);
    } else {
        let start = close + 1;
        assert(s.skip(start) =~= rest);
        lemma_find_from(s, mark, 0);
        lemma_find_from(rest, mark, 0);
        lemma_quoted_shift(s, param, start);
    }
}

/// Where a parameter does not begin before `n`, it is read from `n` on.
proof fn lemma_quoted_shift(s: Seq<char>, param: Seq<char>, n: int)
    requires
        0 <= n <= s.len(),
        forall|p: int| 0 <= p < n ==> !occurs_at(s, param.push('=').push('"'), p),
    ensures
        quoted_param(s, param) == quoted_param(s.skip(n), param),
{
    let mark = param.push('=').push('"');
    let t = s.skip(n);
    lemma_find_from(s, mark, 0);
    lemma_find_from(t, mark, 0);
    assert forall|p: int| 0 <= p implies occurs_at(t, mark, p) == #[trigger] occurs_at(
        s,
        mark,
        p + n,
    ) by {
        if p + n + mark.len() <= s.len() {
            assert(t.subrange(p, p + mark.len()) =~= s.subrange(p + n, p + n + mark.len()));
        }
    }
    match find_from(s, mark, 0) {
        Some(k) => {
            assert(k >= n);
            assert(occurs_at(s, mark, (k - n) + n));
            assert(occurs_at(t, mark, k - n));
            let j = find_from(t, mark, 0)->0;
            assert(occurs_at(s, mark, j + n));
            assert(j == k - n);
            let start = k + mark.len() as int;
            crate::text::lemma_next_index_shift(s, '"', n, start);
            crate::text::lemma_next_index(s, '"', start);
            let end = crate::text::next_index(s, '"', start);
            assert(s.subrange(start, end) =~= t.subrange(start - n, end - n));
        },
        None => {
            if let Some(j) = find_from(t, mark, 0) {
                assert(occurs_at(s, mark, j + n));
            }
        },
    }
}

/// A text without quotes holds no quoted parameter.
pub proof fn law_no_quotes(s: Seq<char>, param: Seq<char>)
    requires
        !s.contains('"'),
    ensures
        quoted_param(s, param) is None,
{
    let mark = param.push('=').push('"');
    lemma_find_from(s, mark, 0);
    if let Some(k) = find_from(s, mark, 0) {
        let n = mark.len() - 1;
        assert(s.subrange(k, k + mark.len())[n] == s[k + n]);
        assert(s[k + n] == '"');
    }
}

// --- Challenges ---

/// A challenge is usable where it has a realm and a nonce; it also tells what the
/// client has to hand back, and which quality of protection is asked for.
pub proof fn law_challenge_fields(header: Seq<char>)
    ensures
        quoted_param(header, "realm"@) is None ==> challenge_of(header) == Err::<
            ChallengeModel,
            DigestError,
        >(DigestError::MissingRealm),
        quoted_param(header, "realm"@) is Some && quoted_param(header, "nonce"@) is None
            ==> challenge_of(header) == Err::<ChallengeModel, DigestError>(
            DigestError::MissingNonce,
        ),
        quoted_param(header, "realm"@) is Some && quoted_param(header, "nonce"@) is Some ==> {
            &&& challenge_of(header) is Ok
            &&& Some(challenge_of(header)->Ok_0.realm) == quoted_param(header, "realm"@)
            &&& Some(challenge_of(header)->Ok_0.nonce) == quoted_param(header, "nonce"@)
            &&& challenge_of(header)->Ok_0.opaque == quoted_param(header, "opaque"@)
            &&& challenge_of(header)->Ok_0.qop == quoted_param(header, "qop"@)
        },
{
}

/// Whether a value can stand between quotes without being taken for something
/// else: it holds no quote, and does not end like the beginning of a parameter.
pub open spec fn quotable(value: Seq<char>) -> bool {
    &&& !value.contains('"')
    &&& !ends_with(value, "username="@)
    &&& !ends_with(value, "realm="@)
    &&& !ends_with(value, "nonce="@)
    &&& !ends_with(value, "uri="@)
    &&& !ends_with(value, "response="@)
    &&& !ends_with(value, "opaque="@)
    &&& !ends_with(value, "cnonce="@)
    &&& !ends_with(value, "qop="@)
}

/// Parameters one after another, and what follows them.
spec fn params_text(params: Seq<(Seq<char>, Seq<char>)>, tail: Seq<char>) -> Seq<char>
    decreases params.len(),
{
    if params.len() == 0 {
        tail
    } else {
        param_text(params[0].0, params[0].1) + params_text(params.skip(1), tail)
    }
}

/// The first parameter whose lead ends with the name is the one that is read.
proof fn lemma_param_found(
    params: Seq<(Seq<char>, Seq<char>)>,
    tail: Seq<char>,
    param: Seq<char>,
    k: int,
)
    requires
        param.len() > 0,
        !param.contains('"'),
        forall|j: int|
            0 <= j < params.len() ==> !(#[trigger] params[j]).0.contains('"')
                && !params[j].1.contains('"') && !ends_with(params[j].1, param.push('=')),
        0 <= k <= params.len(),
        forall|j: int| 0 <= j < k ==> !ends_with((#[trigger] params[j]).0, param),
        k < params.len() ==> ends_with(params[k].0, param),
        !tail.contains('"'),
    ensures
        quoted_param(params_text(params, tail), param) == (if k < params.len() {
            Some(params[k].1)
        } else {
            None
        }),
    decreases params.len(),
{
    if params.len() == 0 {
        law_no_quotes(tail, param);
    } else {
        let more = params.skip(1);
        let rest = params_text(more, tail);
        assert(!params[0].0.contains('"'));
        law_params_read(params[0].0, params[0].1, rest, param);
        if k > 0 {
            assert(!ends_with(params[0].0, param));
            assert forall|j: int| 0 <= j < more.len() implies !(#[trigger] more[j]).0.contains('"')
                && !more[j].1.contains('"') && !ends_with(more[j].1, param.push('=')) by {
                assert(more[j] == params[j + 1]);
            }
            assert forall|j: int| 0 <= j < k - 1 implies !ends_with(
                (#[trigger] more[j]).0,
                param,
            ) by {
                assert(more[j] == params[j + 1]);
            }
            if k < params.len() {
                assert(more[k - 1] == params[k]);
            }
            lemma_param_found(more, tail, param, k - 1);
        }
    }
}

/// The names of parameters, as they end what leads up to their values.
proof fn lemma_leads()
    ensures
        !"Digest username"@.contains('"'),
        !", realm"@.contains('"'),
        !", nonce"@.contains('"'),
        !", uri"@.contains('"'),
        !", response"@.contains('"'),
        !", algorithm=MD5, opaque"@.contains('"'),
        !", qop=auth, nc=00000001, cnonce"@.contains('"'),
        !", algorithm=MD5, qop=auth, nc=00000001, cnonce"@.contains('"'),
        "username"@.len() > 0 && !"username"@.contains('"') && "username"@.push('=') == "username="@,
        "realm"@.len() > 0 && !"realm"@.contains('"') && "realm"@.push('=') == "realm="@,
        "nonce"@.len() > 0 && !"nonce"@.contains('"') && "nonce"@.push('=') == "nonce="@,
        "uri"@.len() > 0 && !"uri"@.contains('"') && "uri"@.push('=') == "uri="@,
        "response"@.len() > 0 && !"response"@.contains('"') && "response"@.push('=') == "response="@,
        "opaque"@.len() > 0 && !"opaque"@.contains('"') && "opaque"@.push('=') == "opaque="@,
        "cnonce"@.len() > 0 && !"cnonce"@.contains('"') && "cnonce"@.push('=') == "cnonce="@,
        ends_with("Digest username"@, "username"@),
        !ends_with("Digest username"@, "realm"@),
        !ends_with("Digest username"@, "nonce"@),
        !ends_with("Digest username"@, "uri"@),
        !ends_with("Digest username"@, "response"@),
        !ends_with("Digest username"@, "opaque"@),
        !ends_with("Digest username"@, "cnonce"@),
        !ends_with(", realm"@, "username"@),
        ends_with(", realm"@, "realm"@),
        !ends_with(", realm"@, "nonce"@),
        !ends_with(", realm"@, "uri"@),
        !ends_with(", realm"@, "response"@),
        !ends_with(", realm"@, "opaque"@),
        !ends_with(", realm"@, "cnonce"@),
        !ends_with(", nonce"@, "username"@),
        !ends_with(", nonce"@, "realm"@),
        ends_with(", nonce"@, "nonce"@),
        !ends_with(", nonce"@, "uri"@),
        !ends_with(", nonce"@, "response"@),
        !ends_with(", nonce"@, "opaque"@),
        !ends_with(", nonce"@, "cnonce"@),
        !ends_with(", uri"@, "username"@),
        !ends_with(", uri"@, "realm"@),
        !ends_with(", uri"@, "nonce"@),
        ends_with(", uri"@, "uri"@),
        !ends_with(", uri"@, "response"@),
        !ends_with(", uri"@, "opaque"@),
        !ends_with(", uri"@, "cnonce"@),
        !ends_with(", response"@, "username"@),
        !ends_with(", response"@, "realm"@),
        !ends_with(", response"@, "nonce"@),
        !ends_with(", response"@, "uri"@),
        ends_with(", response"@, "response"@),
        !ends_with(", response"@, "opaque"@),
        !ends_with(", response"@, "cnonce"@),
        !ends_with(", algorithm=MD5, opaque"@, "username"@),
        !ends_with(", algorithm=MD5, opaque"@, "realm"@),
        !ends_with(", algorithm=MD5, opaque"@, "nonce"@),
        !ends_with(", algorithm=MD5, opaque"@, "uri"@),
        !ends_with(", algorithm=MD5, opaque"@, "response"@),
        ends_with(", algorithm=MD5, opaque"@, "opaque"@),
        !ends_with(", algorithm=MD5, opaque"@, "cnonce"@),
        !ends_with(", qop=auth, nc=00000001, cnonce"@, "username"@),
        !ends_with(", qop=auth, nc=00000001, cnonce"@, "realm"@),
        ends_with(", qop=auth, nc=00000001, cnonce"@, "nonce"@),
        !ends_with(", qop=auth, nc=00000001, cnonce"@, "uri"@),
        !ends_with(", qop=auth, nc=00000001, cnonce"@, "response"@),
        !ends_with(", qop=auth, nc=00000001, cnonce"@, "opaque"@),
        ends_with(", qop=auth, nc=00000001, cnonce"@, "cnonce"@),
        !ends_with(", algorithm=MD5, qop=auth, nc=00000001, cnonce"@, "username"@),
        !ends_with(", algorithm=MD5, qop=auth, nc=00000001, cnonce"@, "realm"@),
        ends_with(", algorithm=MD5, qop=auth, nc=00000001, cnonce"@, "nonce"@),
        !ends_with(", algorithm=MD5, qop=auth, nc=00000001, cnonce"@, "uri"@),
        !ends_with(", algorithm=MD5, qop=auth, nc=00000001, cnonce"@, "response"@),
        !ends_with(", algorithm=MD5, qop=auth, nc=00000001, cnonce"@, "opaque"@),
        ends_with(", algorithm=MD5, qop=auth, nc=00000001, cnonce"@, "cnonce"@),
{
    reveal_strlit(", qop=auth, nc=00000001, cnonce");
    reveal_strlit(", uri");
    reveal_strlit(", algorithm=MD5, qop=auth, nc=00000001, cnonce");
    reveal_strlit(", nonce");
    reveal_strlit(", realm");
    reveal_strlit(", response");
    reveal_strlit(", algorithm=MD5, opaque");
    reveal_strlit("Digest username");
    reveal_strlit("username");
    reveal_strlit("username=");
    assert("username"@.push('=') =~= "username="@);
    reveal_strlit("realm");
    reveal_strlit("realm=");
    assert("realm"@.push('=') =~= "realm="@);
    reveal_strlit("nonce");
    reveal_strlit("nonce=");
    assert("nonce"@.push('=') =~= "nonce="@);
    reveal_strlit("uri");
    reveal_strlit("uri=");
    assert("uri"@.push('=') =~= "uri="@);
    reveal_strlit("response");
    reveal_strlit("response=");
    assert("response"@.push('=') =~= "response="@);
    reveal_strlit("opaque");
    reveal_strlit("opaque=");
    assert("opaque"@.push('=') =~= "opaque="@);
    reveal_strlit("cnonce");
    reveal_strlit("cnonce=");
    assert("cnonce"@.push('=') =~= "cnonce="@);
    assert("Digest username"@.skip(7) =~= "username"@);
    assert("Digest username"@.skip(10)[1] != "realm"@[1]);
    assert("Digest username"@.skip(10)[0] != "nonce"@[0]);
    assert("Digest username"@.skip(12)[0] != "uri"@[0]);
    assert("Digest username"@.skip(7)[0] != "response"@[0]);
    assert("Digest username"@.skip(9)[0] != "opaque"@[0]);
    assert("Digest username"@.skip(9)[0] != "cnonce"@[0]);
    assert(", realm"@.skip(2) =~= "realm"@);
    assert(", realm"@.skip(2)[0] != "nonce"@[0]);
    assert(", realm"@.skip(4)[0] != "uri"@[0]);
    assert(", realm"@.skip(1)[0] != "opaque"@[0]);
    assert(", realm"@.skip(1)[0] != "cnonce"@[0]);
    assert(", nonce"@.skip(2)[0] != "realm"@[0]);
    assert(", nonce"@.skip(2) =~= "nonce"@);
    assert(", nonce"@.skip(4)[0] != "uri"@[0]);
    assert(", nonce"@.skip(1)[0] != "opaque"@[0]);
    assert(", nonce"@.skip(1)[0] != "cnonce"@[0]);
    assert(", uri"@.skip(0)[0] != "realm"@[0]);
    assert(", uri"@.skip(0)[0] != "nonce"@[0]);
    assert(", uri"@.skip(2) =~= "uri"@);
    assert(", response"@.skip(2)[0] != "username"@[0]);
    assert(", response"@.skip(5)[0] != "realm"@[0]);
    assert(", response"@.skip(5)[0] != "nonce"@[0]);
    assert(", response"@.skip(7)[0] != "uri"@[0]);
    assert(", response"@.skip(2) =~= "response"@);
    assert(", response"@.skip(4)[0] != "opaque"@[0]);
    assert(", response"@.skip(4)[0] != "cnonce"@[0]);
    assert(", algorithm=MD5, opaque"@.skip(15)[0] != "username"@[0]);
    assert(", algorithm=MD5, opaque"@.skip(18)[0] != "realm"@[0]);
    assert(", algorithm=MD5, opaque"@.skip(18)[0] != "nonce"@[0]);
    assert(", algorithm=MD5, opaque"@.skip(20)[0] != "uri"@[0]);
    assert(", algorithm=MD5, opaque"@.skip(15)[0] != "response"@[0]);
    assert(", algorithm=MD5, opaque"@.skip(17) =~= "opaque"@);
    assert(", algorithm=MD5, opaque"@.skip(17)[0] != "cnonce"@[0]);
    assert(", qop=auth, nc=00000001, cnonce"@.skip(23)[0] != "username"@[0]);
    assert(", qop=auth, nc=00000001, cnonce"@.skip(26)[0] != "realm"@[0]);
    assert(", qop=auth, nc=00000001, cnonce"@.skip(26) =~= "nonce"@);
    assert(", qop=auth, nc=00000001, cnonce"@.skip(28)[0] != "uri"@[0]);
    assert(", qop=auth, nc=00000001, cnonce"@.skip(23)[0] != "response"@[0]);
    assert(", qop=auth, nc=00000001, cnonce"@.skip(25)[0] != "opaque"@[0]);
    assert(", qop=auth, nc=00000001, cnonce"@.skip(25) =~= "cnonce"@);
    assert(", algorithm=MD5, qop=auth, nc=00000001, cnonce"@.skip(38)[0] != "username"@[0]);
    assert(", algorithm=MD5, qop=auth, nc=00000001, cnonce"@.skip(41)[0] != "realm"@[0]);
    assert(", algorithm=MD5, qop=auth, nc=00000001, cnonce"@.skip(41) =~= "nonce"@);
    assert(", algorithm=MD5, qop=auth, nc=00000001, cnonce"@.skip(43)[0] != "uri"@[0]);
    assert(", algorithm=MD5, qop=auth, nc=00000001, cnonce"@.skip(38)[0] != "response"@[0]);
    assert(", algorithm=MD5, qop=auth, nc=00000001, cnonce"@.skip(40)[0] != "opaque"@[0]);
    assert(", algorithm=MD5, qop=auth, nc=00000001, cnonce"@.skip(40) =~= "cnonce"@);
}

proof fn lemma_challenge_leads()
    ensures
        !"Digest realm"@.contains('"'),
        !"Digest nonce"@.contains('"'),
        !", opaque"@.contains('"'),
        !", qop"@.contains('"'),
        !", realm"@.contains('"'),
        !", nonce"@.contains('"'),
        "realm"@.len() > 0 && !"realm"@.contains('"') && "realm"@.push('=') == "realm="@,
        "nonce"@.len() > 0 && !"nonce"@.contains('"') && "nonce"@.push('=') == "nonce="@,
        "opaque"@.len() > 0 && !"opaque"@.contains('"') && "opaque"@.push('=') == "opaque="@,
        "qop"@.len() > 0 && !"qop"@.contains('"') && "qop"@.push('=') == "qop="@,
        ends_with("Digest realm"@, "realm"@),
        !ends_with("Digest realm"@, "nonce"@),
        !ends_with("Digest realm"@, "opaque"@),
        !ends_with("Digest realm"@, "qop"@),
        !ends_with("Digest nonce"@, "realm"@),
        ends_with("Digest nonce"@, "nonce"@),
        !ends_with("Digest nonce"@, "opaque"@),
        !ends_with("Digest nonce"@, "qop"@),
        !ends_with(", opaque"@, "realm"@),
        !ends_with(", opaque"@, "nonce"@),
        ends_with(", opaque"@, "opaque"@),
        !ends_with(", opaque"@, "qop"@),
        !ends_with(", qop"@, "realm"@),
        !ends_with(", qop"@, "nonce"@),
        !ends_with(", qop"@, "opaque"@),
        ends_with(", qop"@, "qop"@),
        ends_with(", realm"@, "realm"@),
        !ends_with(", realm"@, "nonce"@),
        !ends_with(", realm"@, "opaque"@),
        !ends_with(", realm"@, "qop"@),
        !ends_with(", nonce"@, "realm"@),
        ends_with(", nonce"@, "nonce"@),
        !ends_with(", nonce"@, "opaque"@),
        !ends_with(", nonce"@, "qop"@),
{
    reveal_strlit(", opaque");
    reveal_strlit("Digest nonce");
    reveal_strlit(", nonce");
    reveal_strlit(", realm");
    reveal_strlit(", qop");
    reveal_strlit("Digest realm");
    reveal_strlit("realm");
    reveal_strlit("realm=");
    assert("realm"@.push('=') =~= "realm="@);
    reveal_strlit("nonce");
    reveal_strlit("nonce=");
    assert("nonce"@.push('=') =~= "nonce="@);
    reveal_strlit("opaque");
    reveal_strlit("opaque=");
    assert("opaque"@.push('=') =~= "opaque="@);
    reveal_strlit("qop");
    reveal_strlit("qop=");
    assert("qop"@.push('=') =~= "qop="@);
    assert("Digest realm"@.skip(7) =~= "realm"@);
    assert("Digest realm"@.skip(7)[0] != "nonce"@[0]);
    assert("Digest realm"@.skip(6)[0] != "opaque"@[0]);
    assert("Digest realm"@.skip(9)[0] != "qop"@[0]);
    assert("Digest nonce"@.skip(7)[0] != "realm"@[0]);
    assert("Digest nonce"@.skip(7) =~= "nonce"@);
    assert("Digest nonce"@.skip(6)[0] != "opaque"@[0]);
    assert("Digest nonce"@.skip(9)[0] != "qop"@[0]);
    assert(", opaque"@.skip(3)[0] != "realm"@[0]);
    assert(", opaque"@.skip(3)[0] != "nonce"@[0]);
    assert(", opaque"@.skip(2) =~= "opaque"@);
    assert(", opaque"@.skip(5)[1] != "qop"@[1]);
    assert(", qop"@.skip(0)[0] != "realm"@[0]);
    assert(", qop"@.skip(0)[0] != "nonce"@[0]);
    assert(", qop"@.skip(2) =~= "qop"@);
    assert(", realm"@.skip(2) =~= "realm"@);
    assert(", realm"@.skip(2)[0] != "nonce"@[0]);
    assert(", realm"@.skip(1)[0] != "opaque"@[0]);
    assert(", realm"@.skip(4)[0] != "qop"@[0]);
    assert(", nonce"@.skip(2)[0] != "realm"@[0]);
    assert(", nonce"@.skip(2) =~= "nonce"@);
    assert(", nonce"@.skip(1)[0] != "opaque"@[0]);
    assert(", nonce"@.skip(4)[0] != "qop"@[0]);
}

/// A challenge is read as it is written, in whichever order realm and nonce come,
/// and with or without something to hand back and a quality of protection.
pub proof fn law_challenge_read(
    realm: Seq<char>,
    nonce: Seq<char>,
    opaque: Seq<char>,
    qop: Seq<char>,
    tail: Seq<char>,
)
    requires
        quotable(realm) && quotable(nonce) && quotable(opaque) && quotable(qop),
        !tail.contains('"'),
    ensures
        challenge_of(param_text("Digest realm"@, realm) + (param_text(", nonce"@, nonce) + tail))
            == Ok::<ChallengeModel, DigestError>(
            ChallengeModel { realm, nonce, opaque: None, qop: None },
        ),
        challenge_of(param_text("Digest nonce"@, nonce) + (param_text(", realm"@, realm) + tail))
            == Ok::<ChallengeModel, DigestError>(
            ChallengeModel { realm, nonce, opaque: None, qop: None },
        ),
        challenge_of(
            param_text("Digest realm"@, realm) + (param_text(", nonce"@, nonce) + (param_text(
                ", opaque"@,
                opaque,
            ) + (param_text(", qop"@, qop) + tail))),
        ) == Ok::<ChallengeModel, DigestError>(
            ChallengeModel { realm, nonce, opaque: Some(opaque), qop: Some(qop) },
        ),
        challenge_of(param_text("Digest realm"@, realm) + tail) == Err::<
            ChallengeModel,
            DigestError,
        >(DigestError::MissingNonce),
        challenge_of(param_text("Digest nonce"@, nonce) + tail) == Err::<
            ChallengeModel,
            DigestError,
        >(DigestError::MissingRealm),
{
    lemma_challenge_leads();
    let (r, n) = (param_text("Digest realm"@, realm), param_text(", nonce"@, nonce));
    let (n2, r2) = (param_text("Digest nonce"@, nonce), param_text(", realm"@, realm));
    let (o, q) = (param_text(", opaque"@, opaque), param_text(", qop"@, qop));
    lemma_four(tail);
    lemma_step("Digest realm"@, realm, n + tail);
    lemma_step(", nonce"@, nonce, tail);
    lemma_step("Digest nonce"@, nonce, r2 + tail);
    lemma_step(", realm"@, realm, tail);
    lemma_step("Digest realm"@, realm, n + (o + (q + tail)));
    lemma_step(", nonce"@, nonce, o + (q + tail));
    lemma_step(", opaque"@, opaque, q + tail);
    lemma_step(", qop"@, qop, tail);
    lemma_step("Digest realm"@, realm, tail);
    lemma_step("Digest nonce"@, nonce, tail);
}

/// The four parameters of a challenge do not occur where there are no quotes.
proof fn lemma_four(tail: Seq<char>)
    requires
        !tail.contains('"'),
    ensures
        quoted_param(tail, "realm"@) is None,
        quoted_param(tail, "nonce"@) is None,
        quoted_param(tail, "opaque"@) is None,
        quoted_param(tail, "qop"@) is None,
{
    law_no_quotes(tail, "realm"@);
    law_no_quotes(tail, "nonce"@);
    law_no_quotes(tail, "opaque"@);
    law_no_quotes(tail, "qop"@);
}

/// The four parameters of a challenge are read past one parameter.
proof fn lemma_step(lead: Seq<char>, value: Seq<char>, rest: Seq<char>)
    requires
        !lead.contains('"'),
        quotable(value),
    ensures
        quoted_param(param_text(lead, value) + rest, "realm"@) == (if ends_with(lead, "realm"@) {
            Some(value)
        } else {
            quoted_param(rest, "realm"@)
        }),
        quoted_param(param_text(lead, value) + rest, "nonce"@) == (if ends_with(lead, "nonce"@) {
            Some(value)
        } else {
            quoted_param(rest, "nonce"@)
        }),
        quoted_param(param_text(lead, value) + rest, "opaque"@) == (if ends_with(
            lead,
            "opaque"@,
        ) {
            Some(value)
        } else {
            quoted_param(rest, "opaque"@)
        }),
        quoted_param(param_text(lead, value) + rest, "qop"@) == (if ends_with(lead, "qop"@) {
            Some(value)
        } else {
            quoted_param(rest, "qop"@)
        }),
{
    lemma_challenge_leads();
    law_params_read(lead, value, rest, "realm"@);
    law_params_read(lead, value, rest, "nonce"@);
    law_params_read(lead, value, rest, "opaque"@);
    law_params_read(lead, value, rest, "qop"@);
}

// --- Credentials ---

/// The digest of a text is written in hexadecimal, which can stand between quotes.
proof fn lemma_digest_quotable(s: Seq<char>)
    ensures
        quotable(md5_text(s)),
{
    let text = md5_text(s);
    assert forall|i: int| 0 <= i < text.len() implies #[trigger] text[i] != '"' && text[i]
        != '=' by {
        assert(text[i] == digit_char(
            if i % 2 == 0 {
                (md5_digest(encode_utf8(s))[i / 2] / 16) as int
            } else {
                (md5_digest(encode_utf8(s))[i / 2] % 16) as int
            },
        ));
    }
    reveal_strlit("username=");
    if ends_with(text, "username="@) {
        assert(text.skip(text.len() - 9)[8] == '=');
    }
    reveal_strlit("realm=");
    if ends_with(text, "realm="@) {
        assert(text.skip(text.len() - 6)[5] == '=');
    }
    reveal_strlit("nonce=");
    if ends_with(text, "nonce="@) {
        assert(text.skip(text.len() - 6)[5] == '=');
    }
    reveal_strlit("uri=");
    if ends_with(text, "uri="@) {
        assert(text.skip(text.len() - 4)[3] == '=');
    }
    reveal_strlit("response=");
    if ends_with(text, "response="@) {
        assert(text.skip(text.len() - 9)[8] == '=');
    }
    reveal_strlit("opaque=");
    if ends_with(text, "opaque="@) {
        assert(text.skip(text.len() - 7)[6] == '=');
    }
    reveal_strlit("cnonce=");
    if ends_with(text, "cnonce="@) {
        assert(text.skip(text.len() - 7)[6] == '=');
    }
    reveal_strlit("qop=");
    if ends_with(text, "qop="@) {
        assert(text.skip(text.len() - 4)[3] == '=');
    }
}

/// The parameters of the header that carries credentials, and what follows them.
spec fn header_params(
    challenge: ChallengeModel,
    username: Seq<char>,
    uri: Seq<char>,
    response: Seq<char>,
    cnonce: Seq<char>,
) -> (Seq<(Seq<char>, Seq<char>)>, Seq<char>) {
    let base = seq![
        ("Digest username"@, username),
        (", realm"@, challenge.realm),
        (", nonce"@, challenge.nonce),
        (", uri"@, uri),
        (", response"@, response),
    ];
    match (challenge.opaque, challenge.qop) {
        (Some(opaque), Some(_)) => (
            base + seq![
                (", algorithm=MD5, opaque"@, opaque),
                (", qop=auth, nc=00000001, cnonce"@, cnonce),
            ],
            Seq::empty(),
        ),
        (Some(opaque), None) => (
            base + seq![(", algorithm=MD5, opaque"@, opaque)],
            Seq::empty(),
        ),
        (None, Some(_)) => (
            base + seq![(", algorithm=MD5, qop=auth, nc=00000001, cnonce"@, cnonce)],
            Seq::empty(),
        ),
        (None, None) => (base, ", algorithm=MD5"@),
    }
}

/// One parameter in front of others.
proof fn lemma_param_before(
    head: (Seq<char>, Seq<char>),
    more: Seq<(Seq<char>, Seq<char>)>,
    tail: Seq<char>,
)
    ensures
        params_text(seq![head] + more, tail) == param_text(head.0, head.1) + params_text(
            more,
            tail,
        ),
{
    assert((seq![head] + more).skip(1) =~= more);
}

/// A parameter behind the value before it.
proof fn lemma_glue(x: Seq<char>, lead: Seq<char>, value: Seq<char>, rest: Seq<char>)
    ensures
        x + seq!['"'] + (param_text(lead, value) + rest) == x + (seq!['"'] + lead + seq!['=', '"'])
            + value + seq!['"'] + rest,
{
    assert(x + seq!['"'] + (param_text(lead, value) + rest) =~= x + (seq!['"'] + lead + seq![
        '=',
        '"',
    ]) + value + seq!['"'] + rest);
}

/// What stands between the values of the header.
proof fn lemma_marks()
    ensures
        "Digest username=\""@ == "Digest username"@ + seq!['=', '"'],
        "\", realm=\""@ == seq!['"'] + ", realm"@ + seq!['=', '"'],
        "\", nonce=\""@ == seq!['"'] + ", nonce"@ + seq!['=', '"'],
        "\", uri=\""@ == seq!['"'] + ", uri"@ + seq!['=', '"'],
        "\", response=\""@ == seq!['"'] + ", response"@ + seq!['=', '"'],
        "\""@ == seq!['"'],
{
    reveal_strlit("Digest username=\"");
    reveal_strlit("Digest username");
    reveal_strlit("\", realm=\"");
    reveal_strlit(", realm");
    reveal_strlit("\", nonce=\"");
    reveal_strlit(", nonce");
    reveal_strlit("\", uri=\"");
    reveal_strlit(", uri");
    reveal_strlit("\", response=\"");
    reveal_strlit(", response");
    reveal_strlit("\"");
    assert("Digest username=\""@ =~= "Digest username"@ + seq!['=', '"']);
    assert("\", realm=\""@ =~= seq!['"'] + ", realm"@ + seq!['=', '"']);
    assert("\", nonce=\""@ =~= seq!['"'] + ", nonce"@ + seq!['=', '"']);
    assert("\", uri=\""@ =~= seq!['"'] + ", uri"@ + seq!['=', '"']);
    assert("\", response=\""@ =~= seq!['"'] + ", response"@ + seq!['=', '"']);
    assert("\""@ =~= seq!['"']);
}

/// The end of the header, behind the response.
proof fn lemma_header_end(x: Seq<char>, opaque: Seq<char>, cnonce: Seq<char>)
    ensures
        x + seq!['"'] + ", algorithm=MD5"@ == x + "\", algorithm=MD5"@,
        x + seq!['"'] + (param_text(", algorithm=MD5, opaque"@, opaque) + Seq::empty()) == x
            + "\", algorithm=MD5"@ + ", opaque=\""@ + opaque + "\""@,
        x + seq!['"'] + (param_text(", algorithm=MD5, qop=auth, nc=00000001, cnonce"@, cnonce)
            + Seq::empty()) == x + "\", algorithm=MD5"@ + ", qop=auth, nc="@ + "00000001"@
            + ", cnonce=\""@ + cnonce + "\""@,
        x + seq!['"'] + (param_text(", algorithm=MD5, opaque"@, opaque) + (param_text(
            ", qop=auth, nc=00000001, cnonce"@,
            cnonce,
        ) + Seq::empty())) == x + "\", algorithm=MD5"@ + ", opaque=\""@ + opaque + "\""@
            + ", qop=auth, nc="@ + "00000001"@ + ", cnonce=\""@ + cnonce + "\""@,
{
    reveal_strlit("\", algorithm=MD5");
    reveal_strlit(", algorithm=MD5");
    reveal_strlit(", opaque=\"");
    reveal_strlit(", algorithm=MD5, opaque");
    reveal_strlit("\"");
    reveal_strlit(", qop=auth, nc=");
    reveal_strlit("00000001");
    reveal_strlit(", cnonce=\"");
    reveal_strlit(", qop=auth, nc=00000001, cnonce");
    reveal_strlit(", algorithm=MD5, qop=auth, nc=00000001, cnonce");
    let base = "\", algorithm=MD5"@;
    assert(seq!['"'] + ", algorithm=MD5"@ =~= base);
    assert(x + seq!['"'] + ", algorithm=MD5"@ =~= x + base);
    let o = seq!['"'] + ", algorithm=MD5, opaque"@ + seq!['=', '"'];
    assert(o =~= base + ", opaque=\""@);
    lemma_glue(x, ", algorithm=MD5, opaque"@, opaque, Seq::empty());
    assert(x + o + opaque + seq!['"'] + Seq::empty() =~= x + base + ", opaque=\""@ + opaque
        + "\""@);
    let q = seq!['"'] + ", algorithm=MD5, qop=auth, nc=00000001, cnonce"@ + seq!['=', '"'];
    assert(q =~= base + ", qop=auth, nc="@ + "00000001"@ + ", cnonce=\""@);
    lemma_glue(x, ", algorithm=MD5, qop=auth, nc=00000001, cnonce"@, cnonce, Seq::empty());
    assert(x + q + cnonce + seq!['"'] + Seq::empty() =~= x + base + ", qop=auth, nc="@
        + "00000001"@ + ", cnonce=\""@ + cnonce + "\""@);
    let w = ", qop=auth, nc=00000001, cnonce"@ + seq!['=', '"'];
    assert(w =~= ", qop=auth, nc="@ + "00000001"@ + ", cnonce=\""@);
    let last = param_text(", qop=auth, nc=00000001, cnonce"@, cnonce) + Seq::empty();
    assert(last =~= w + cnonce + seq!['"']);
    lemma_glue(x, ", algorithm=MD5, opaque"@, opaque, last);
    let y = x + base + ", opaque=\""@ + opaque + "\""@;
    assert(x + o + opaque + seq!['"'] + last =~= y + w + cnonce + seq!['"']);
    assert(y + w + cnonce + seq!['"'] =~= y + ", qop=auth, nc="@ + "00000001"@ + ", cnonce=\""@
        + cnonce + "\""@);
}

proof fn lemma_header_shape(
    challenge: ChallengeModel,
    username: Seq<char>,
    uri: Seq<char>,
    response: Seq<char>,
    cnonce: Seq<char>,
)
    ensures
        ({
            let (params, tail) = header_params(challenge, username, uri, response, cnonce);
            header_value(challenge, username, uri, response, cnonce) == params_text(params, tail)
        }),
{
    lemma_marks();
    let (params, tail) = header_params(challenge, username, uri, response, cnonce);
    let end = params.skip(5);
    let (a, b, c, d, e) = (params[0], params[1], params[2], params[3], params[4]);
    let t5 = params_text(end, tail);
    let t4 = param_text(e.0, e.1) + t5;
    let t3 = param_text(d.0, d.1) + t4;
    let t2 = param_text(c.0, c.1) + t3;
    let t1 = param_text(b.0, b.1) + t2;
    lemma_param_before(e, end, tail);
    lemma_param_before(d, seq![e] + end, tail);
    lemma_param_before(c, seq![d] + (seq![e] + end), tail);
    lemma_param_before(b, seq![c] + (seq![d] + (seq![e] + end)), tail);
    lemma_param_before(a, seq![b] + (seq![c] + (seq![d] + (seq![e] + end))), tail);
    assert(params =~= seq![a] + (seq![b] + (seq![c] + (seq![d] + (seq![e] + end)))));
    assert(params_text(params, tail) == param_text(a.0, a.1) + t1);
    let x1 = "Digest username=\""@ + username;
    let x2 = x1 + "\", realm=\""@ + challenge.realm;
    let x3 = x2 + "\", nonce=\""@ + challenge.nonce;
    let x4 = x3 + "\", uri=\""@ + uri;
    let x5 = x4 + "\", response=\""@ + response;
    assert(param_text(a.0, a.1) == x1 + seq!['"']);
    lemma_glue(x1, b.0, b.1, t2);
    lemma_glue(x2, c.0, c.1, t3);
    lemma_glue(x3, d.0, d.1, t4);
    lemma_glue(x4, e.0, e.1, t5);
    assert(params_text(params, tail) == x5 + seq!['"'] + t5);
    match (challenge.opaque, challenge.qop) {
        (Some(opaque), Some(_)) => {
            let (x, y) = (
                (", algorithm=MD5, opaque"@, opaque),
                (", qop=auth, nc=00000001, cnonce"@, cnonce),
            );
            assert(end =~= seq![x] + (seq![y] + Seq::empty()));
            lemma_param_before(x, seq![y] + Seq::empty(), tail);
            lemma_param_before(y, Seq::empty(), tail);
            lemma_header_end(x5, opaque, cnonce);
        },
        (Some(opaque), None) => {
            let x = (", algorithm=MD5, opaque"@, opaque);
            assert(end =~= seq![x] + Seq::empty());
            lemma_param_before(x, Seq::empty(), tail);
            lemma_header_end(x5, opaque, cnonce);
        },
        (None, Some(_)) => {
            let x = (", algorithm=MD5, qop=auth, nc=00000001, cnonce"@, cnonce);
            assert(end =~= seq![x] + Seq::empty());
            lemma_param_before(x, Seq::empty(), tail);
            lemma_header_end(x5, cnonce, cnonce);
        },
        (None, None) => {
            assert(end =~= Seq::empty());
            lemma_header_end(x5, cnonce, cnonce);
        },
    }
}

/// A server accepts the credentials of a client that knows the password: what it
/// reads out of the header is the account, its own realm, nonce and opaque text,
/// and the URI of the request, and the response is what it computes from these and
/// the password itself. With quality of protection `auth` the client's nonce and
/// the count of its uses, which is one, go into the response.
pub proof fn law_credentials_accepted(
    challenge: ChallengeModel,
    username: Seq<char>,
    password: Seq<char>,
    method: Seq<char>,
    uri: Seq<char>,
    cnonce: Seq<char>,
)
    requires
        quotable(username) && quotable(challenge.realm) && quotable(challenge.nonce),
        quotable(uri) && quotable(cnonce),
        challenge.opaque matches Some(opaque) ==> quotable(opaque),
    ensures
        ({
            let header = authorization(challenge, username, password, method, uri, cnonce);
            let md5 = |s: Seq<char>| hex_pairs(md5_digest(encode_utf8(s)));
            let colon = seq![':'];
            let account = md5(username + colon + challenge.realm + colon + password);
            let request = md5(method + colon + uri);
            &&& quoted_param(header, "username"@) == Some(username)
            &&& quoted_param(header, "realm"@) == Some(challenge.realm)
            &&& quoted_param(header, "nonce"@) == Some(challenge.nonce)
            &&& quoted_param(header, "uri"@) == Some(uri)
            &&& quoted_param(header, "opaque"@) == challenge.opaque
            &&& quoted_param(header, "cnonce"@) == (if challenge.qop is Some {
                Some(cnonce)
            } else {
                None
            })
            &&& quoted_param(header, "response"@) == Some(
                if challenge.qop == Some("auth"@) {
                    md5(
                        account + colon + challenge.nonce + colon + "00000001"@ + colon + cnonce
                            + colon + "auth"@ + colon + request,
                    )
                } else {
                    md5(account + colon + challenge.nonce + colon + request)
                },
            )
        }),
{
    reveal_strlit(":");
    reveal_strlit(":auth:");
    reveal_strlit("auth");
    let colon = seq![':'];
    assert(":"@ =~= colon);
    assert(":auth:"@ =~= colon + "auth"@ + colon);
    let response = response_of(
        username,
        password,
        challenge.realm,
        challenge.nonce,
        method,
        uri,
        challenge.qop,
        cnonce,
    );
    let (params, tail) = header_params(challenge, username, uri, response, cnonce);
    lemma_header_shape(challenge, username, uri, response, cnonce);
    lemma_leads();
    let account = md5_text(username + colon + challenge.realm + colon + password);
    let request = md5_text(method + colon + uri);
    assert(account + colon + challenge.nonce + colon + "00000001"@ + colon + cnonce + ":auth:"@
        + request =~= account + colon + challenge.nonce + colon + "00000001"@ + colon + cnonce
        + colon + "auth"@ + colon + request);
    lemma_digest_quotable(
        if challenge.qop == Some("auth"@) {
            account + colon + challenge.nonce + colon + "00000001"@ + colon + cnonce + ":auth:"@
                + request
        } else {
            account + colon + challenge.nonce + colon + request
        },
    );
    assert(!tail.contains('"')) by {
        reveal_strlit(", algorithm=MD5");
    }
    lemma_param_found(params, tail, "username"@, 0);
    lemma_param_found(params, tail, "realm"@, 1);
    lemma_param_found(params, tail, "nonce"@, 2);
    lemma_param_found(params, tail, "uri"@, 3);
    lemma_param_found(params, tail, "response"@, 4);
    let n = params.len() as int;
    lemma_param_found(
        params,
        tail,
        "opaque"@,
        if challenge.opaque is Some {
            5
        } else {
            n
        },
    );
    lemma_param_found(
        params,
        tail,
        "cnonce"@,
        if challenge.qop is Some {
            n - 1
        } else {
            n
        },
    );
}

/// Where a quality of protection was asked for, the credentials name `auth` and
/// say that the nonce is used for the first time.
pub proof fn law_protection_named(
    challenge: ChallengeModel,
    username: Seq<char>,
    password: Seq<char>,
    method: Seq<char>,
    uri: Seq<char>,
    cnonce: Seq<char>,
)
    ensures
        ({
            let header = authorization(challenge, username, password, method, uri, cnonce);
            &&& header.take(7) == "Digest "@
            &&& exists|a: Seq<char>, b: Seq<char>|
                header == #[trigger] (a + "\", algorithm=MD5"@ + b) && (challenge.qop is None
                    && challenge.opaque is None ==> b.len() == 0)
            &&& challenge.qop is Some ==> exists|a: Seq<char>|
                header == #[trigger] (a + ", qop=auth, nc=00000001, cnonce=\""@) + cnonce + seq![
                    '"',
                ]
        }),
{
    reveal_strlit("Digest ");
    reveal_strlit("Digest username=\"");
    reveal_strlit(", qop=auth, nc=00000001, cnonce=\"");
    reveal_strlit(", qop=auth, nc=");
    reveal_strlit("00000001");
    reveal_strlit(", cnonce=\"");
    reveal_strlit("\"");
    let header = authorization(challenge, username, password, method, uri, cnonce);
    assert(header.take(7) =~= "Digest "@);
    let response = response_of(
        username,
        password,
        challenge.realm,
        challenge.nonce,
        method,
        uri,
        challenge.qop,
        cnonce,
    );
    let front = "Digest username=\""@ + username + "\", realm=\""@ + challenge.realm
        + "\", nonce=\""@ + challenge.nonce + "\", uri=\""@ + uri + "\", response=\""@ + response;
    let known = match challenge.opaque {
        Some(opaque) => ", opaque=\""@ + opaque + "\""@,
        None => Seq::empty(),
    };
    let behind = known + (match challenge.qop {
        Some(_) => ", qop=auth, nc="@ + crate::digest::NC@ + ", cnonce=\""@ + cnonce + "\""@,
        None => Seq::empty(),
    });
    assert(header =~= front + "\", algorithm=MD5"@ + behind);
    if challenge.qop is Some {
        let a = header_value(
            ChallengeModel { qop: None, ..challenge },
            username,
            uri,
            response,
            cnonce,
        );
        assert(header =~= (a + ", qop=auth, nc=00000001, cnonce=\""@) + cnonce + seq!['"']);
    }
}

} // verus!
