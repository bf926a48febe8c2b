//! What is read out of messages as they are written: the status of a response, a
//! header among others, the parameters of a header, and the body.

use crate::message::{
    announces_sdp, carries, cseq_of, ends_tag, first_header, header_mark, header_of, quoted_param,
    sdp_body, status_of, tag_end, tag_of, value_in,
};
use crate::numeral::{decimal, digit_value, law_decimal_round_trip, lemma_decimal, unsigned};
use crate::read_back::lemma_first_header;
use crate::text::{
    begins_with, blank, ended_lines, law_find, law_lines, law_trim, law_words, lemma_find_from,
    lemma_lines_before, lemma_lines_shift, lemma_next_index, lemma_next_index_is, lines_of,
    lowered, next_index, occurs_at, trimmed, white_space, words_of,
};
use vstd::prelude::*;

verus! {

// --- Status ---

/// The status of a response is the word after the version in its first line,
/// whatever follows.
pub proof fn law_status_read(word: Seq<char>, reason: Seq<char>, rest: Seq<char>)
    requires
        !word.contains(' '),
        !word.contains('\n'),
        !word.contains('\r'),
        !reason.contains('\n'),
        !reason.contains('\r'),
    ensures
        status_of("SIP/2.0 "@ + word + seq![' '] + reason + seq!['\r', '\n'] + rest) == unsigned(
            word,
            65535,
        ),
        status_of("SIP/2.0 "@ + word + seq!['\r', '\n'] + rest) == unsigned(word, 65535),
{
    reveal_strlit("SIP/2.0 ");
    let line = "SIP/2.0 "@ + word + seq![' '] + reason;
    lemma_status_line(line, word, reason, rest);
    let bare = "SIP/2.0 "@ + word;
    let n = bare.len() as int;
    assert forall|k: int| 0 <= k < n implies bare[k] != '\n' && bare[k] != '\r' && (8 <= k
        ==> bare[k] != ' ') by {
        if k >= 8 {
            assert(bare[k] == word[k - 8]);
            assert(word.contains(word[k - 8]));
        }
    }
    assert(!bare.contains('\n'));
    law_lines(bare, rest);
    assert(bare.take(8) =~= "SIP/2.0 "@);
    lemma_next_index_is(bare, ' ', 8, n);
    assert(bare.subrange(8, n) =~= word);
    let msg = bare + seq!['\r', '\n'] + rest;
    assert(lines_of(msg)[0] == bare);
}

proof fn lemma_status_line(
    line: Seq<char>,
    word: Seq<char>,
    reason: Seq<char>,
    rest: Seq<char>,
)
    requires
        !word.contains(' '),
        !word.contains('\n'),
        !word.contains('\r'),
        !reason.contains('\n'),
        !reason.contains('\r'),
        line == "SIP/2.0 "@ + word + seq![' '] + reason,
    ensures
        status_of(line + seq!['\r', '\n'] + rest) == unsigned(word, 65535),
{
    reveal_strlit("SIP/2.0 ");
    let n = 8 + word.len() as int;
    assert forall|k: int| 0 <= k < line.len() implies line[k] != '\n' && line[k] != '\r' && (8 <= k
        < n ==> line[k] != ' ') by {
        if 8 <= k < n {
            assert(line[k] == word[k - 8]);
            assert(word.contains(word[k - 8]));
        } else if k > n {
            assert(line[k] == reason[k - n - 1]);
            assert(reason.contains(reason[k - n - 1]));
        }
    }
    assert(!line.contains('\n'));
    law_lines(line, rest);
    assert(line.take(8) =~= "SIP/2.0 "@);
    assert(line[n] == ' ');
    lemma_next_index_is(line, ' ', 8, n);
    assert(line.subrange(8, n) =~= word);
    let msg = line + seq!['\r', '\n'] + rest;
    assert(lines_of(msg)[0] == line);
}

/// A response with a status and a reason has that status.
pub proof fn law_response_status(status: nat, reason: Seq<char>, rest: Seq<char>)
    requires
        status <= 65535,
        !reason.contains('\n'),
        !reason.contains('\r'),
    ensures
        status_of("SIP/2.0 "@ + decimal(status) + seq![' '] + reason + seq!['\r', '\n'] + rest)
            == Some(status),
{
    lemma_plain_number(status);
    law_status_read(decimal(status), reason, rest);
    law_decimal_round_trip(status, 65535);
}

/// A number holds neither blanks nor line ends.
proof fn lemma_plain_number(n: nat)
    ensures
        decimal(n).len() > 0,
        !decimal(n).contains(' '),
        !decimal(n).contains('\n'),
        !decimal(n).contains('\r'),
        forall|i: int| 0 <= i < decimal(n).len() ==> !white_space(#[trigger] decimal(n)[i]),
{
    lemma_decimal(n);
    assert forall|i: int| 0 <= i < decimal(n).len() implies !white_space(
        #[trigger] decimal(n)[i],
    ) && decimal(n)[i] != ' ' by {
        assert(digit_value(decimal(n)[i]) < 10);
    }
}

/// A message that does not begin with the version is no response.
pub proof fn law_only_responses_have_status(msg: Seq<char>)
    requires
        status_of(msg) is Some,
    ensures
        msg.len() > 8,
        msg.take(8) == "SIP/2.0 "@,
{
    reveal_strlit("SIP/2.0 ");
    lemma_next_index(msg, '\n', 0);
    let line = lines_of(msg)[0];
    assert(line.len() <= msg.len());
    assert(forall|k: int| 0 <= k < line.len() ==> line[k] == msg[k]);
    assert(msg.take(8) =~= line.take(8));
    lemma_next_index(line, ' ', 8);
    if line.len() == 8 {
        let word = line.subrange(8, next_index(line, ' ', 8));
        assert(word.len() == 0);
        assert(unsigned(word, 65535) is None);
    }
}

// --- Headers ---

/// Whether a line begins with the name of a header and a colon, in any letter
/// case.
pub open spec fn names_header(line: Seq<char>, name: Seq<char>) -> bool {
    begins_with(lowered(trimmed(line)), lowered(name).push(':'))
}

proof fn lemma_carries_names(line: Seq<char>, name: Seq<char>)
    requires
        carries(line, name),
    ensures
        names_header(line, name),
{
    let text = trimmed(line);
    let mark = header_mark(name);
    let n = mark.len() as int;
    assert(lowered(mark) =~= lowered(name).push(':'));
    assert(lowered(text).take(n) =~= lowered(text.take(n)));
}

/// A line with a name, a colon and a value, and white space around the value,
/// carries the header with that value. The name is taken in any letter case.
proof fn lemma_written_header(
    name: Seq<char>,
    written: Seq<char>,
    a: Seq<char>,
    value: Seq<char>,
    b: Seq<char>,
)
    requires
        lowered(written) == lowered(name),
        written.len() > 0,
        !white_space(written[0]),
        blank(a),
        blank(b),
        value.len() > 0,
        !white_space(value[0]),
        !white_space(value.last()),
    ensures
        carries(written + seq![':'] + a + value + b, name),
        value_in(written + seq![':'] + a + value + b, name) == value,
{
    let line = written + seq![':'] + a + value + b;
    let core = written + seq![':'] + a + value;
    let mark = header_mark(name);
    let n = mark.len() as int;
    assert(lowered(written).len() == written.len() && lowered(name).len() == name.len());
    assert(Seq::<char>::empty() + core + b =~= line);
    assert(core[0] == written[0] && core.last() == value.last());
    law_trim(Seq::empty(), core, b);
    assert(core.take(n) =~= written.push(':'));
    assert(lowered(written.push(':')) =~= lowered(written).push(':'));
    assert(lowered(mark) =~= lowered(name).push(':'));
    assert(core.skip(n) =~= a + value + Seq::empty());
    law_trim(a, value, Seq::empty());
}

/// The value of a header is found, whatever lines come before and after, as long
/// as none before it has the same name. White space around the value and the
/// letter case of the name do not matter.
pub proof fn law_header_read(
    before: Seq<Seq<char>>,
    name: Seq<char>,
    written: Seq<char>,
    a: Seq<char>,
    value: Seq<char>,
    b: Seq<char>,
    rest: Seq<char>,
)
    requires
        forall|k: int, m: int|
            0 <= k < before.len() && 0 <= m < before[k].len() ==> #[trigger] before[k][m] != '\n',
        forall|k: int| 0 <= k < before.len() ==> !names_header(#[trigger] before[k], name),
        lowered(written) == lowered(name),
        written.len() > 0,
        !white_space(written[0]),
        blank(a),
        blank(b),
        value.len() > 0,
        !white_space(value[0]),
        !white_space(value.last()),
        !written.contains('\n') && !a.contains('\n') && !value.contains('\n') && !b.contains('\n'),
        !b.contains('\r'),
    ensures
        header_of(
            ended_lines(before) + (written + seq![':'] + a + value + b) + seq!['\r', '\n'] + rest,
            name,
        ) == Some(value),
{
    let line = written + seq![':'] + a + value + b;
    let s = ended_lines(before) + line + seq!['\r', '\n'] + rest;
    let n = ended_lines(before).len() as int;
    let tail = line + seq!['\r', '\n'] + rest;
    assert(s.skip(0) =~= ended_lines(before) + tail);
    lemma_lines_before(s, before, tail, 0);
    lemma_lines_shift(s, n, n);
    assert(s.skip(n) =~= tail);
    lemma_joined_without(written, seq![':'] + a + value + b, '\n');
    lemma_joined_without(seq![':'], a + value + b, '\n');
    lemma_joined_without(a, value + b, '\n');
    lemma_joined_without(value, b, '\n');
    assert(line =~= written + (seq![':'] + a + value + b));
    assert(seq![':'] + a + value + b =~= seq![':'] + (a + value + b));
    assert(a + value + b =~= a + (value + b));
    assert(line.last() != '\r') by {
        if b.len() > 0 {
            assert(line.last() == b.last());
            assert(b.contains(b.last()));
        } else {
            assert(line.last() == value.last());
        }
    }
    law_lines(line, rest);
    let all = lines_of(s);
    let k = before.len() as int;
    assert(all =~= before + (seq![line] + lines_of(rest)));
    assert(all[k] == line);
    lemma_written_header(name, written, a, value, b);
    assert forall|j: int| 0 <= j < k implies !carries(#[trigger] all[j], name) by {
        assert(all[j] == before[j]);
        if carries(before[j], name) {
            lemma_carries_names(before[j], name);
        }
    }
    lemma_first_header(all, name, k);
}

/// What neither of two texts holds, both together do not hold.
proof fn lemma_joined_without(x: Seq<char>, y: Seq<char>, c: char)
    ensures
        !x.contains(c) && !y.contains(c) ==> !(x + y).contains(c),
{
    if (x + y).contains(c) {
        let k = choose|k: int| 0 <= k < (x + y).len() && (x + y)[k] == c;
        if k < x.len() {
            assert(x[k] == c);
        } else {
            assert(y[k - x.len()] == c);
        }
    }
}

/// A header that no line names is not found.
pub proof fn law_header_absent(msg: Seq<char>, name: Seq<char>)
    requires
        forall|k: int|
            0 <= k < lines_of(msg).len() ==> !names_header(#[trigger] lines_of(msg)[k], name),
    ensures
        header_of(msg, name) is None,
{
    lemma_none_carries(lines_of(msg), name);
}

proof fn lemma_none_carries(lines: Seq<Seq<char>>, name: Seq<char>)
    requires
        forall|k: int| 0 <= k < lines.len() ==> !names_header(#[trigger] lines[k], name),
    ensures
        first_header(lines, name) is None,
    decreases lines.len(),
{
    if lines.len() > 0 {
        assert(!names_header(lines[0], name));
        if carries(lines[0], name) {
            lemma_carries_names(lines[0], name);
        }
        assert forall|k: int| 0 <= k < lines.skip(1).len() implies !names_header(
            #[trigger] lines.skip(1)[k],
            name,
        ) by {
            assert(lines.skip(1)[k] == lines[k + 1]);
        }
        lemma_none_carries(lines.skip(1), name);
    }
}

/// The number of a message is the first word of its `CSeq` header.
pub proof fn law_cseq_read(msg: Seq<char>, n: nat, method: Seq<char>)
    requires
        n <= u32::MAX,
        header_of(msg, "CSeq"@) == Some(decimal(n) + seq![' '] + method),
    ensures
        cseq_of(msg) == Some(n),
{
    lemma_plain_number(n);
    let value = decimal(n) + seq![' '] + method;
    assert(Seq::<char>::empty() + decimal(n) + seq![' '] + method =~= value);
    law_words(Seq::empty(), decimal(n), seq![' '], method);
    assert(words_of(value)[0] == decimal(n));
    law_decimal_round_trip(n, u32::MAX as nat);
}

// --- Parameters ---

/// The tag of a header is what follows `tag=`, up to a semicolon, an angle
/// bracket, a comma or white space. An empty tag is none.
pub proof fn law_tag_read(a: Seq<char>, tag: Seq<char>, b: Seq<char>)
    requires
        forall|k: int| 0 <= k < a.len() ==> !occurs_at(a + "tag="@ + (tag + b), "tag="@, k),
        forall|i: int|
            0 <= i < tag.len() ==> #[trigger] tag[i] != ';' && tag[i] != '>' && tag[i] != ','
                && !white_space(tag[i]),
        b.len() > 0 ==> b[0] == ';' || b[0] == '>' || b[0] == ',' || white_space(b[0]),
    ensures
        tag_of(a + "tag="@ + (tag + b)) == (if tag.len() > 0 {
            Some(tag)
        } else {
            None
        }),
{
    reveal_strlit("tag=");
    let s = a + "tag="@ + (tag + b);
    let start: int = a.len() as int + 4;
    law_find(a, "tag="@, tag + b);
    assert(forall|i: int| 0 <= i < tag.len() ==> s[start + i] == tag[i]);
    if b.len() > 0 {
        assert(s[start + tag.len()] == b[0]);
    }
    lemma_tag_end(s, start, start + tag.len());
    assert(s.subrange(start, start + tag.len()) =~= tag);
}

proof fn lemma_tag_end(s: Seq<char>, i: int, j: int)
    requires
        0 <= i <= j <= s.len(),
        forall|k: int| i <= k < j ==> !ends_tag(#[trigger] s[k]),
        j == s.len() || ends_tag(s[j]),
    ensures
        tag_end(s, i) == j,
    decreases j - i,
{
    if i < j {
        assert(!ends_tag(s[i]));
        lemma_tag_end(s, i + 1, j);
    }
}

/// A header in which `tag=` does not occur has no tag.
pub proof fn law_no_tag(s: Seq<char>)
    requires
        forall|k: int| !occurs_at(s, "tag="@, k),
    ensures
        tag_of(s) is None,
{
    lemma_find_from(s, "tag="@, 0);
}

/// The value of a quoted parameter is what stands between the quotes after its
/// name and an equals sign.
pub proof fn law_quoted_param_read(
    a: Seq<char>,
    param: Seq<char>,
    value: Seq<char>,
    b: Seq<char>,
)
    requires
        forall|k: int|
            0 <= k < a.len() ==> !occurs_at(
                a + (param + seq!['=', '"']) + (value + seq!['"'] + b),
                param + seq!['=', '"'],
                k,
            ),
        !value.contains('"'),
    ensures
        quoted_param(a + (param + seq!['=', '"']) + (value + seq!['"'] + b), param) == Some(value),
{
    let mark = param + seq!['=', '"'];
    let s = a + mark + (value + seq!['"'] + b);
    assert(param.push('=').push('"') =~= mark);
    law_find(a, mark, value + seq!['"'] + b);
    let start = (a.len() + mark.len()) as int;
    let end = start + value.len();
    assert forall|k: int| start <= k < end implies s[k] != '"' by {
        assert(s[k] == value[k - start]);
        assert(value.contains(value[k - start]));
    }
    assert(s[end] == '"');
    lemma_next_index_is(s, '"', start, end);
    assert(s.subrange(start, end) =~= value);
}

/// A parameter that does not occur is not found.
pub proof fn law_no_quoted_param(s: Seq<char>, param: Seq<char>)
    requires
        forall|k: int| !occurs_at(s, param + seq!['=', '"'], k),
    ensures
        quoted_param(s, param) is None,
{
    assert(param.push('=').push('"') =~= param + seq!['=', '"']);
    lemma_find_from(s, param + seq!['=', '"'], 0);
}

// --- Bodies ---

/// A body is SDP where a line names the content type, and the type
/// `application/sdp` somewhere after it, in any letter case.
pub proof fn law_sdp_announced(line: Seq<char>, x: Seq<char>, y: Seq<char>)
    ensures
        lowered(trimmed(line)) == "content-type:"@ + x + "application/sdp"@ + y ==> announces_sdp(
            line,
        ),
        announces_sdp(line) ==> names_header(line, "Content-Type"@),
        announces_sdp(line) ==> exists|k: int|
            #[trigger] occurs_at(lowered(trimmed(line)), "application/sdp"@, k),
{
    reveal_strlit("content-type:");
    reveal_strlit("Content-Type");
    let text = lowered(trimmed(line));
    if text == "content-type:"@ + x + "application/sdp"@ + y {
        assert(text.take(13) =~= "content-type:"@);
        law_find("content-type:"@ + x, "application/sdp"@, y);
        lemma_find_from(text, "application/sdp"@, 0);
    }
    lemma_find_from(text, "application/sdp"@, 0);
    assert(lowered("Content-Type"@).push(':') =~= "content-type:"@);
}

/// The body of a message is what follows its first blank line, where a line says
/// that it is SDP and it is not blank itself. Where lines are ended by line feeds
/// alone, the blank line is too.
pub proof fn law_body_read(a: Seq<char>, body: Seq<char>, k: int)
    ensures
        ({
            let msg = a + seq!['\r', '\n', '\r', '\n'] + body;
            &&& 0 <= k < lines_of(msg).len()
            &&& announces_sdp(lines_of(msg)[k])
            &&& forall|i: int|
                0 <= i < a.len() ==> !occurs_at(msg, seq!['\r', '\n', '\r', '\n'], i)
        }) ==> sdp_body(a + seq!['\r', '\n', '\r', '\n'] + body) == (if blank(body) {
            None
        } else {
            Some(body)
        }),
        ({
            let msg = a + seq!['\n', '\n'] + body;
            &&& 0 <= k < lines_of(msg).len()
            &&& announces_sdp(lines_of(msg)[k])
            &&& forall|i: int| !occurs_at(msg, seq!['\r', '\n', '\r', '\n'], i)
            &&& forall|i: int| 0 <= i < a.len() ==> !occurs_at(msg, seq!['\n', '\n'], i)
        }) ==> sdp_body(a + seq!['\n', '\n'] + body) == (if blank(body) {
            None
        } else {
            Some(body)
        }),
{
    reveal_strlit("\r\n\r\n");
    reveal_strlit("\n\n");
    assert("\r\n\r\n"@ =~= seq!['\r', '\n', '\r', '\n']);
    assert("\n\n"@ =~= seq!['\n', '\n']);
    lemma_blank_trimmed(body);
    let msg = a + seq!['\r', '\n', '\r', '\n'] + body;
    law_find(a, seq!['\r', '\n', '\r', '\n'], body);
    assert(msg.skip(a.len() as int + 4) =~= body);
    let other = a + seq!['\n', '\n'] + body;
    law_find(a, seq!['\n', '\n'], body);
    lemma_find_from(other, seq!['\r', '\n', '\r', '\n'], 0);
    assert(other.skip(a.len() as int + 2) =~= body);
}

/// A text is blank where trimming leaves nothing of it.
pub proof fn lemma_blank_trimmed(s: Seq<char>)
    ensures
        blank(s) <==> trimmed(s).len() == 0,
{
    if blank(s) {
        law_trim(s, Seq::empty(), Seq::empty());
        assert(s + Seq::empty() + Seq::empty() =~= s);
    } else {
        let i = choose|i: int| 0 <= i < s.len() && !white_space(#[trigger] s[i]);
        lemma_not_blank(s, i);
    }
}

proof fn lemma_not_blank(s: Seq<char>, i: int)
    requires
        0 <= i < s.len(),
        !white_space(s[i]),
    ensures
        trimmed(s).len() > 0,
    decreases s.len(),
{
    if white_space(s[0]) {
        assert(s.skip(1)[i - 1] == s[i]);
        lemma_not_blank(s.skip(1), i - 1);
    } else {
        crate::read_back::lemma_keeps_start(s);
    }
}

/// A message in which no line names a content type has no SDP body.
pub proof fn law_no_body(msg: Seq<char>)
    requires
        forall|k: int|
            0 <= k < lines_of(msg).len() ==> !names_header(
                #[trigger] lines_of(msg)[k],
                "Content-Type"@,
            ),
    ensures
        sdp_body(msg) is None,
{
    assert forall|k: int| 0 <= k < lines_of(msg).len() implies !announces_sdp(
        #[trigger] lines_of(msg)[k],
    ) by {
        law_sdp_announced(lines_of(msg)[k], Seq::empty(), Seq::empty());
    }
}

// --- By lines, however they are ended ---

/// The status of a response stands in its first line alone: the word after the
/// version, up to a blank or the end of the line.
pub proof fn law_status_in_first_line(msg: Seq<char>, word: Seq<char>, reason: Seq<char>)
    requires
        !word.contains(' '),
        lines_of(msg).len() > 0,
        lines_of(msg)[0] == "SIP/2.0 "@ + word || lines_of(msg)[0] == "SIP/2.0 "@ + word + seq![
            ' ',
        ] + reason,
    ensures
        status_of(msg) == unsigned(word, 65535),
{
    reveal_strlit("SIP/2.0 ");
    let line = lines_of(msg)[0];
    let n = 8 + word.len() as int;
    assert forall|k: int| 8 <= k < n implies line[k] != ' ' by {
        assert(line[k] == word[k - 8]);
        assert(word.contains(word[k - 8]));
    }
    if n < line.len() {
        assert(line[n] == ' ');
    }
    assert(line.take(8) =~= "SIP/2.0 "@);
    lemma_next_index_is(line, ' ', 8, n);
    assert(line.subrange(8, n) =~= word);
}

/// A header is found in whichever line it stands, as long as none before it has
/// the same name. White space around the line and around the value, and the letter
/// case of the name, do not matter.
pub proof fn law_header_in_line(
    msg: Seq<char>,
    k: int,
    name: Seq<char>,
    written: Seq<char>,
    lead: Seq<char>,
    a: Seq<char>,
    value: Seq<char>,
    b: Seq<char>,
)
    requires
        0 <= k < lines_of(msg).len(),
        lines_of(msg)[k] == lead + (written + seq![':'] + a + value + b),
        forall|j: int| 0 <= j < k ==> !names_header(#[trigger] lines_of(msg)[j], name),
        lowered(written) == lowered(name),
        written.len() > 0,
        !white_space(written[0]),
        blank(lead),
        blank(a),
        blank(b),
        value.len() > 0,
        !white_space(value[0]),
        !white_space(value.last()),
    ensures
        header_of(msg, name) == Some(value),
{
    let all = lines_of(msg);
    let line = written + seq![':'] + a + value + b;
    let core = written + seq![':'] + a + value;
    assert(core[0] == written[0] && core.last() == value.last());
    assert(lead + core + b =~= all[k]);
    assert(Seq::<char>::empty() + core + b =~= line);
    law_trim(lead, core, b);
    law_trim(Seq::empty(), core, b);
    lemma_written_header(name, written, a, value, b);
    assert(carries(all[k], name) && value_in(all[k], name) == value);
    assert forall|j: int| 0 <= j < k implies !carries(#[trigger] all[j], name) by {
        if carries(all[j], name) {
            lemma_carries_names(all[j], name);
        }
    }
    lemma_first_header(all, name, k);
}

/// The number of a message is the first word of its `CSeq` header, if that is a
/// number; a message without the header has none.
pub proof fn law_cseq_word(msg: Seq<char>, value: Seq<char>)
    ensures
        header_of(msg, "CSeq"@) is None ==> cseq_of(msg) is None,
        header_of(msg, "CSeq"@) == Some(value) && words_of(value).len() > 0 ==> cseq_of(msg)
            == unsigned(words_of(value)[0], 4294967295),
{
}

} // verus!
