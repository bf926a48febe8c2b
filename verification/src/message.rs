//! Reading SIP messages: status, headers, parameters and body.

use crate::numeral::{parse_unsigned, unsigned};
use crate::text::{
    begins_with, chars_of, contents, find, find_from, index_of, is_white_space, lemma_lines_within,
    lemma_trimmed_within, lines, lines_of, lowercase, lowered, next_index, same_chars, starts_with,
    string_of, trim, trimmed, white_space, within, words, words_of,
};
use vstd::prelude::*;
use vstd::slice::slice_subrange;
use vstd::utf8::{encode_utf8, is_ascii_chars, is_char_boundary};

verus! {

broadcast use vstd::string::group_string_axioms;

// --- Status ---

/// The status code of a response: the second word of a first line that begins
/// with the SIP version.
pub open spec fn status_of(msg: Seq<char>) -> Option<nat> {
    let all = lines_of(msg);
    if all.len() > 0 && begins_with(all[0], "SIP/2.0 "@) {
        unsigned(all[0].subrange(8, next_index(all[0], ' ', 8)), 65535)
    } else {
        None
    }
}

/// Reads the status code of a response.
pub fn parse_status_code(msg: &str) -> (r: Option<u16>)
    ensures
        match r {
            Some(status) => status_of(msg@) == Some(status as nat),
            None => status_of(msg@) is None,
        },
{
    let chars = chars_of(msg);
    let all = lines(chars.as_slice());
    if all.len() == 0 {
        return None;
    }
    let line = all[0];
    assert(line@ == contents(all@)[0]);
    let version = chars_of("SIP/2.0 ");
    proof {
        reveal_strlit("SIP/2.0 ");
    }
    if !starts_with(line, version.as_slice()) {
        return None;
    }
    let end: usize = index_of(line, ' ', 8);
    match parse_unsigned(slice_subrange(line, 8, end), 65535) {
        Some(status) => Some(status as u16),
        None => None,
    }
}

// --- Headers ---

/// What a header line begins with: the name and a colon.
pub open spec fn header_mark(name: Seq<char>) -> Seq<char> {
    name.push(':')
}

/// Whether a line carries the header `name`, in any letter case, with at least
/// one character after the colon.
pub open spec fn carries(line: Seq<char>, name: Seq<char>) -> bool {
    let text = trimmed(line);
    let mark = header_mark(name);
    text.len() > mark.len() && lowered(text.take(mark.len() as int)) == lowered(mark)
}

/// The value of the header that a line carries.
pub open spec fn value_in(line: Seq<char>, name: Seq<char>) -> Seq<char> {
    trimmed(trimmed(line).skip(header_mark(name).len() as int))
}

/// The value of the first of `lines` that carries the header `name`.
pub open spec fn first_header(lines: Seq<Seq<char>>, name: Seq<char>) -> Option<Seq<char>>
    decreases lines.len(),
{
    if lines.len() == 0 {
        None
    } else if carries(lines[0], name) {
        Some(value_in(lines[0], name))
    } else {
        first_header(lines.skip(1), name)
    }
}

/// The value of the header `name` of a message.
pub open spec fn header_of(msg: Seq<char>, name: Seq<char>) -> Option<Seq<char>> {
    first_header(lines_of(msg), name)
}

/// Whether a line is no longer than the mark of the header `name`, or can be
/// cut after as many bytes as the mark has.
pub open spec fn cuttable(line: Seq<char>, name: Seq<char>) -> bool {
    let text = encode_utf8(trimmed(line));
    let mark = encode_utf8(header_mark(name));
    text.len() > mark.len() ==> is_char_boundary(text, mark.len() as int)
}

/// Whether every line up to the first that carries the header can be cut.
pub open spec fn lines_cuttable(lines: Seq<Seq<char>>, name: Seq<char>) -> bool
    decreases lines.len(),
{
    lines.len() > 0 ==> cuttable(lines[0], name) && (carries(lines[0], name) || lines_cuttable(
        lines.skip(1),
        name,
    ))
}

/// Whether the header `name` can be looked up in a message: every line that the
/// search comes to can be cut after as many bytes as the name and the colon
/// have.
pub open spec fn searchable(msg: Seq<char>, name: Seq<char>) -> bool {
    lines_cuttable(lines_of(msg), name)
}

/// Whether a line can be cut after as many bytes as the mark has.
fn is_cuttable(line: &[char], mark: &str, Ghost(name): Ghost<Seq<char>>) -> (r: bool)
    requires
        mark@ == header_mark(name),
    ensures
        r == cuttable(line@, name),
{
    let text = string_of(trim(line));
    let mark_len: usize = mark.as_bytes().len();
    let text_len: usize = text.as_str().as_bytes().len();
    text_len <= mark_len || text.as_str().is_char_boundary(mark_len)
}

/// Whether a line carries the header with the given mark.
fn carries_mark(line: &[char], mark: &[char], Ghost(name): Ghost<Seq<char>>) -> (r: bool)
    requires
        mark@ == header_mark(name),
    ensures
        r == carries(line@, name),
{
    let text = trim(line);
    text.len() > mark.len() && same_chars(
        lowercase(slice_subrange(text, 0, mark.len())).as_slice(),
        lowercase(mark).as_slice(),
    )
}

/// Whether the header `name` can be looked up in a message.
pub fn is_searchable(msg: &str, name: &str) -> (r: bool)
    ensures
        r == searchable(msg@, name@),
{
    let chars = chars_of(msg);
    let all = lines(chars.as_slice());
    let mut mark = chars_of(name);
    mark.push(':');
    let mark_text = string_of(mark.as_slice());
    let ghost texts = contents(all@);
    assert(texts.skip(0) =~= texts);
    let mut i: usize = 0;
    while i < all.len()
        invariant
            i <= all@.len(),
            texts == contents(all@),
            texts == lines_of(msg@),
            mark@ == header_mark(name@),
            mark_text@ == mark@,
            lines_cuttable(texts, name@) == lines_cuttable(texts.skip(i as int), name@),
        decreases all@.len() - i,
    {
        let line = all[i];
        assert(line@ == texts.skip(i as int)[0]);
        assert(texts.skip(i as int).skip(1) =~= texts.skip(i + 1));
        if !is_cuttable(line, mark_text.as_str(), Ghost(name@)) {
            return false;
        }
        if carries_mark(line, mark.as_slice(), Ghost(name@)) {
            return true;
        }
        i += 1;
    }
    true
}

/// Reads the value of the header `name`, whatever its letter case.
pub fn extract_header(msg: &str, name: &str) -> (r: Option<String>)
    requires
        searchable(msg@, name@),
    ensures
        match r {
            Some(value) => header_of(msg@, name@) == Some(value@),
            None => header_of(msg@, name@) is None,
        },
{
    let chars = chars_of(msg);
    let all = lines(chars.as_slice());
    let mut mark = chars_of(name);
    mark.push(':');
    let ghost texts = contents(all@);
    assert(texts.skip(0) =~= texts);
    let mut i: usize = 0;
    while i < all.len()
        invariant
            i <= all@.len(),
            texts == contents(all@),
            mark@ == header_mark(name@),
            header_of(msg@, name@) == first_header(texts.skip(i as int), name@),
        decreases all@.len() - i,
    {
        let line = all[i];
        assert(line@ == texts.skip(i as int)[0]);
        assert(texts.skip(i as int).skip(1) =~= texts.skip(i + 1));
        if carries_mark(line, mark.as_slice(), Ghost(name@)) {
            let text = trim(line);
            return Some(string_of(trim(slice_subrange(text, mark.len(), text.len()))));
        }
        i += 1;
    }
    None
}

/// The number of the `CSeq` header of a message.
pub open spec fn cseq_of(msg: Seq<char>) -> Option<nat> {
    match header_of(msg, "CSeq"@) {
        None => None,
        Some(value) => if words_of(value).len() > 0 {
            unsigned(words_of(value)[0], u32::MAX as nat)
        } else {
            None
        },
    }
}

/// Reads the number of the `CSeq` header, as in `CSeq: 1 INVITE`.
pub fn extract_cseq_num(msg: &str) -> (r: Option<u32>)
    requires
        searchable(msg@, "CSeq"@),
    ensures
        match r {
            Some(cseq) => cseq_of(msg@) == Some(cseq as nat),
            None => cseq_of(msg@) is None,
        },
{
    match extract_header(msg, "CSeq") {
        None => None,
        Some(value) => {
            let chars = chars_of(value.as_str());
            let parts = words(chars.as_slice());
            if parts.len() > 0 {
                assert(parts@[0]@ == contents(parts@)[0]);
                parse_unsigned(parts[0], u32::MAX)
            } else {
                None
            }
        },
    }
}

// --- Parameters ---

/// The value of the first `param="..."` in a header.
pub open spec fn quoted_param(header: Seq<char>, param: Seq<char>) -> Option<Seq<char>> {
    let search = param.push('=').push('"');
    match find_from(header, search, 0) {
        None => None,
        Some(k) => {
            let start = k + search.len();
            let end = next_index(header, '"', start);
            if end == header.len() {
                None
            } else {
                Some(header.subrange(start, end))
            }
        },
    }
}

/// Reads the value of a quoted parameter.
pub fn extract_quoted_param(header: &str, param: &str) -> (r: Option<String>)
    ensures
        match r {
            Some(value) => quoted_param(header@, param@) == Some(value@),
            None => quoted_param(header@, param@) is None,
        },
{
    let chars = chars_of(header);
    let mut search = chars_of(param);
    search.push('=');
    search.push('"');
    let len: usize = chars.len();
    match find(chars.as_slice(), search.as_slice(), 0) {
        None => None,
        Some(k) => {
            let start: usize = k + search.len();
            let end: usize = index_of(chars.as_slice(), '"', start);
            if end == len {
                None
            } else {
                Some(string_of(slice_subrange(chars.as_slice(), start, end)))
            }
        },
    }
}

/// Whether `c` ends a tag.
pub open spec fn ends_tag(c: char) -> bool {
    c == ';' || c == '>' || c == ',' || white_space(c)
}

/// The first index from `i` on at which a tag ends, or the length of `s`.
pub open spec fn tag_end(s: Seq<char>, i: int) -> int
    decreases s.len() - i,
{
    if i >= s.len() {
        s.len() as int
    } else if ends_tag(s[i]) {
        i
    } else {
        tag_end(s, i + 1)
    }
}

/// The tag of a header: what follows the first `tag=`, if it is not empty.
pub open spec fn tag_of(header: Seq<char>) -> Option<Seq<char>> {
    match find_from(header, "tag="@, 0) {
        None => None,
        Some(k) => {
            let end = tag_end(header, k + 4);
            if end == k + 4 {
                None
            } else {
                Some(header.subrange(k + 4, end))
            }
        },
    }
}

/// Reads the tag of a `To` or `From` header.
pub fn extract_tag_param(header: &str) -> (r: Option<String>)
    ensures
        match r {
            Some(tag) => tag_of(header@) == Some(tag@),
            None => tag_of(header@) is None,
        },
{
    let chars = chars_of(header);
    let search = chars_of("tag=");
    proof {
        reveal_strlit("tag=");
    }
    let len: usize = chars.len();
    match find(chars.as_slice(), search.as_slice(), 0) {
        None => None,
        Some(k) => {
            let start: usize = k + 4;
            let mut end: usize = start;
            while end < chars.len() && !(chars[end] == ';' || chars[end] == '>' || chars[end]
                == ',' || is_white_space(chars[end]))
                invariant
                    start <= end <= chars@.len(),
                    tag_end(chars@, start as int) == tag_end(chars@, end as int),
                decreases chars@.len() - end,
            {
                end += 1;
            }
            if end == start {
                None
            } else {
                Some(string_of(slice_subrange(chars.as_slice(), start, end)))
            }
        },
    }
}

// --- Body ---

/// Whether a line says that the body is SDP.
pub open spec fn announces_sdp(line: Seq<char>) -> bool {
    let text = lowered(trimmed(line));
    begins_with(text, "content-type:"@) && find_from(text, "application/sdp"@, 0) is Some
}

/// Where the body of a message begins: after the first blank line. Lines are
/// ended by a carriage return and a line feed, or else by line feeds alone.
pub open spec fn body_start(msg: Seq<char>) -> Option<int> {
    match find_from(msg, "\r\n\r\n"@, 0) {
        Some(k) => Some(k + 4),
        None => match find_from(msg, "\n\n"@, 0) {
            Some(k) => Some(k + 2),
            None => None,
        },
    }
}

/// The SDP body of a message: what follows the blank line, if some line says
/// that the body is SDP and the body is not blank.
pub open spec fn sdp_body(msg: Seq<char>) -> Option<Seq<char>> {
    if exists|i: int| 0 <= i < lines_of(msg).len() && announces_sdp(#[trigger] lines_of(msg)[i]) {
        match body_start(msg) {
            Some(start) if trimmed(msg.skip(start)).len() > 0 => Some(msg.skip(start)),
            _ => None,
        }
    } else {
        None
    }
}

/// Whether a line says that the body is SDP.
fn is_sdp_announcement(line: &[char]) -> (r: bool)
    ensures
        r == announces_sdp(line@),
{
    let text = lowercase(trim(line));
    starts_with(text.as_slice(), chars_of("content-type:").as_slice()) && find(
        text.as_slice(),
        chars_of("application/sdp").as_slice(),
        0,
    ).is_some()
}

/// Finds where the body of a message begins.
fn find_body(msg: &[char]) -> (r: Option<usize>)
    ensures
        match r {
            Some(start) => body_start(msg@) == Some(start as int) && start <= msg@.len(),
            None => body_start(msg@) is None,
        },
{
    proof {
        reveal_strlit("\r\n\r\n");
        reveal_strlit("\n\n");
    }
    let len: usize = msg.len();
    match find(msg, chars_of("\r\n\r\n").as_slice(), 0) {
        Some(k) => Some(k + 4),
        None => match find(msg, chars_of("\n\n").as_slice(), 0) {
            Some(k) => Some(k + 2),
            None => None,
        },
    }
}

/// Reads the SDP body of a message.
pub fn extract_sdp_body(msg: &str) -> (r: Option<String>)
    ensures
        match r {
            Some(body) => sdp_body(msg@) == Some(body@),
            None => sdp_body(msg@) is None,
        },
{
    let chars = chars_of(msg);
    let all = lines(chars.as_slice());
    let ghost texts = contents(all@);
    let mut announced = false;
    let mut i: usize = 0;
    while i < all.len() && !announced
        invariant
            i <= all@.len(),
            texts == contents(all@),
            announced == exists|k: int| 0 <= k < i && announces_sdp(#[trigger] texts[k]),
        decreases all@.len() - i,
    {
        let line = all[i];
        assert(line@ == texts[i as int]);
        announced = is_sdp_announcement(line);
        i += 1;
    }
    if !announced {
        return None;
    }
    match find_body(chars.as_slice()) {
        None => None,
        Some(start) => {
            let body = slice_subrange(chars.as_slice(), start, chars.len());
            if trim(body).len() == 0 {
                None
            } else {
                Some(string_of(body))
            }
        },
    }
}

// --- Laws ---

/// Header names are matched without regard to letter case.
pub proof fn law_header_case(msg: Seq<char>, a: Seq<char>, b: Seq<char>)
    requires
        lowered(a) == lowered(b),
    ensures
        header_of(msg, a) == header_of(msg, b),
{
    lemma_header_case(lines_of(msg), a, b);
}

proof fn lemma_header_case(lines: Seq<Seq<char>>, a: Seq<char>, b: Seq<char>)
    requires
        lowered(a) == lowered(b),
    ensures
        first_header(lines, a) == first_header(lines, b),
    decreases lines.len(),
{
    assert(lowered(a).len() == a.len() && lowered(b).len() == b.len());
    assert(lowered(header_mark(a)) =~= lowered(a).push(':'));
    assert(lowered(header_mark(b)) =~= lowered(b).push(':'));
    if lines.len() > 0 {
        lemma_header_case(lines.skip(1), a, b);
    }
}

/// A line of ASCII text can be cut anywhere.
proof fn lemma_ascii_cuttable(line: Seq<char>, name: Seq<char>)
    requires
        is_ascii_chars(line),
    ensures
        cuttable(line, name),
{
    let text = trimmed(line);
    lemma_trimmed_within(line);
    assert(is_ascii_chars(text)) by {
        assert forall|i: int| 0 <= i < text.len() implies '\0' <= #[trigger] text[i]
            <= '\u{7f}' by {
            assert(line.contains(text[i]));
        }
    }
    let bytes = encode_utf8(text);
    let n = encode_utf8(header_mark(name)).len() as int;
    vstd::utf8::is_ascii_chars_encode_utf8(text);
    vstd::utf8::encode_utf8_valid_utf8(text);
    if bytes.len() > n {
        assert(text[n] as u8 == bytes[n]);
        vstd::utf8::is_char_boundary_iff_is_leading_byte(bytes, n);
        assert(bytes[n] <= 0x7f);
        vstd::utf8::utf8_byte_ranges_bitwise(bytes[n]);
    }
}

/// Any header can be looked up in an ASCII message.
pub proof fn law_ascii_searchable(msg: Seq<char>, name: Seq<char>)
    requires
        is_ascii_chars(msg),
    ensures
        searchable(msg, name),
{
    let all = lines_of(msg);
    lemma_lines_within(msg, 0);
    assert forall|k: int| 0 <= k < all.len() implies is_ascii_chars(#[trigger] all[k]) by {
        assert forall|i: int| 0 <= i < all[k].len() implies '\0' <= #[trigger] all[k][i]
            <= '\u{7f}' by {
            assert(within(all[k], msg));
            assert(msg.contains(all[k][i]));
        }
    }
    lemma_ascii_lines_cuttable(all, name);
}

proof fn lemma_ascii_lines_cuttable(lines: Seq<Seq<char>>, name: Seq<char>)
    requires
        forall|k: int| 0 <= k < lines.len() ==> is_ascii_chars(#[trigger] lines[k]),
    ensures
        lines_cuttable(lines, name),
    decreases lines.len(),
{
    if lines.len() > 0 {
        lemma_ascii_cuttable(lines[0], name);
        assert forall|k: int| 0 <= k < lines.skip(1).len() implies is_ascii_chars(
            #[trigger] lines.skip(1)[k],
        ) by {
            assert(lines.skip(1)[k] == lines[k + 1]);
        }
        lemma_ascii_lines_cuttable(lines.skip(1), name);
    }
}

} // verus!
