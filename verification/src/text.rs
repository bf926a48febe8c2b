//! Text handling: lines, words, trimming, searching and case folding.
//!
//! Specifications speak of `Seq<char>`, the view of `str` and `String`. The
//! executable functions work on slices of `char`.

use vstd::prelude::*;
use vstd::slice::slice_subrange;
use vstd::utf8::{decode_utf8, valid_utf8};

verus! {

broadcast use vstd::string::group_string_axioms;

/// `String::push` appends the character to the end of the string.
pub assume_specification[ String::push ](s: &mut String, c: char)
    ensures
        final(s)@ == old(s)@.push(c),
;

/// The text that `String::from_utf8_lossy` makes of bytes that are not UTF-8.
pub uninterp spec fn mended(bytes: Seq<u8>) -> Seq<char>;

/// The text of some bytes: UTF-8 as it stands, and other bytes mended.
pub open spec fn utf8_lossy(bytes: Seq<u8>) -> Seq<char> {
    if valid_utf8(bytes) {
        decode_utf8(bytes)
    } else {
        mended(bytes)
    }
}

/// `String::from_utf8_lossy`: UTF-8 is decoded as it stands; in other bytes the
/// invalid parts are replaced, in a way that this contract only names.
#[verifier::external_body]
fn decode_lossy(bytes: &[u8]) -> (text: String)
    ensures
        text@ == (if valid_utf8(bytes@) {
            decode_utf8(bytes@)
        } else {
            mended(bytes@)
        }),
{
    String::from_utf8_lossy(bytes).into_owned()
}

/// Reads bytes as text: UTF-8 as it stands, and other bytes mended.
pub fn from_utf8_lossy(bytes: &[u8]) -> (text: String)
    ensures
        text@ == utf8_lossy(bytes@),
{
    decode_lossy(bytes)
}

/// The characters of `s`.
pub fn chars_of(s: &str) -> (chars: Vec<char>)
    ensures
        chars@ == s@,
{
    let mut chars: Vec<char> = Vec::new();
    for c in it: s.chars()
        invariant
            it.seq() == s@,
            chars@ == s@.take(it.index() as int),
    {
        chars.push(c);
    }
    chars
}

/// The string made of `chars`.
pub fn string_of(chars: &[char]) -> (s: String)
    ensures
        s@ == chars@,
{
    let mut s = String::new();
    let mut i: usize = 0;
    while i < chars.len()
        invariant
            i <= chars@.len(),
            s@ == chars@.take(i as int),
        decreases chars@.len() - i,
    {
        s.push(chars[i]);
        i += 1;
    }
    assert(chars@.take(i as int) =~= chars@);
    s
}

/// Whether two character slices are equal.
pub fn same_chars(a: &[char], b: &[char]) -> (r: bool)
    ensures
        r == (a@ == b@),
{
    if a.len() != b.len() {
        return false;
    }
    let mut i: usize = 0;
    while i < a.len()
        invariant
            i <= a@.len(),
            a@.len() == b@.len(),
            forall|k: int| 0 <= k < i ==> a@[k] == b@[k],
        decreases a@.len() - i,
    {
        if a[i] != b[i] {
            return false;
        }
        i += 1;
    }
    assert(a@ =~= b@);
    true
}

/// Whether two strings are equal.
pub fn same_text(a: &str, b: &str) -> (r: bool)
    ensures
        r == (a@ == b@),
{
    same_chars(chars_of(a).as_slice(), chars_of(b).as_slice())
}

// --- White space ---

/// The characters with the Unicode property `White_Space`.
pub open spec fn white_space(c: char) -> bool {
    let v = c as u32;
    ||| 0x9 <= v <= 0xd
    ||| v == 0x20
    ||| v == 0x85
    ||| v == 0xa0
    ||| v == 0x1680
    ||| 0x2000 <= v <= 0x200a
    ||| v == 0x2028
    ||| v == 0x2029
    ||| v == 0x202f
    ||| v == 0x205f
    ||| v == 0x3000
}

/// Whether `c` is white space.
pub fn is_white_space(c: char) -> (r: bool)
    ensures
        r == white_space(c),
{
    let v: u32 = c as u32;
    (0x9 <= v && v <= 0xd) || v == 0x20 || v == 0x85 || v == 0xa0 || v == 0x1680 || (0x2000 <= v
        && v <= 0x200a) || v == 0x2028 || v == 0x2029 || v == 0x202f || v == 0x205f || v == 0x3000
}

/// `s` without leading white space.
pub open spec fn trim_start(s: Seq<char>) -> Seq<char>
    decreases s.len(),
{
    if s.len() > 0 && white_space(s[0]) {
        trim_start(s.skip(1))
    } else {
        s
    }
}

/// `s` without trailing white space.
pub open spec fn trim_end(s: Seq<char>) -> Seq<char>
    decreases s.len(),
{
    if s.len() > 0 && white_space(s.last()) {
        trim_end(s.drop_last())
    } else {
        s
    }
}

/// `s` without leading and trailing white space.
pub open spec fn trimmed(s: Seq<char>) -> Seq<char> {
    trim_end(trim_start(s))
}

/// The slice without leading and trailing white space.
pub fn trim<'a>(s: &'a [char]) -> (r: &'a [char])
    ensures
        r@ == trimmed(s@),
{
    let mut a: usize = 0;
    assert(s@.skip(0) =~= s@);
    while a < s.len() && is_white_space(s[a])
        invariant
            a <= s@.len(),
            trim_start(s@) == trim_start(s@.skip(a as int)),
        decreases s@.len() - a,
    {
        assert(s@.skip(a as int).skip(1) =~= s@.skip(a + 1));
        a += 1;
    }
    let mut b: usize = s.len();
    assert(s@.skip(a as int) =~= s@.subrange(a as int, b as int));
    assert(trim_start(s@) == s@.skip(a as int));
    while b > a && is_white_space(s[b - 1])
        invariant
            a <= b <= s@.len(),
            trimmed(s@) == trim_end(s@.subrange(a as int, b as int)),
        decreases b,
    {
        assert(s@.subrange(a as int, b as int).drop_last() =~= s@.subrange(a as int, b - 1));
        b -= 1;
    }
    slice_subrange(s, a, b)
}

// --- Searching ---

/// The first index from `i` on at which `s` holds `c`, or the length of `s`.
pub open spec fn next_index(s: Seq<char>, c: char, i: int) -> int
    decreases s.len() - i,
{
    if i >= s.len() {
        s.len() as int
    } else if s[i] == c {
        i
    } else {
        next_index(s, c, i + 1)
    }
}

/// What `next_index` returns lies in range, and nothing before it is `c`.
pub proof fn lemma_next_index(s: Seq<char>, c: char, i: int)
    requires
        0 <= i <= s.len(),
    ensures
        i <= next_index(s, c, i) <= s.len(),
        next_index(s, c, i) < s.len() ==> s[next_index(s, c, i)] == c,
        forall|k: int| i <= k < next_index(s, c, i) ==> s[k] != c,
    decreases s.len() - i,
{
    if i < s.len() && s[i] != c {
        lemma_next_index(s, c, i + 1);
    }
}

/// Finds the next `c` from `i` on.
pub fn index_of(s: &[char], c: char, i: usize) -> (r: usize)
    requires
        i <= s@.len(),
    ensures
        r == next_index(s@, c, i as int),
        i <= r <= s@.len(),
{
    let mut k: usize = i;
    while k < s.len() && s[k] != c
        invariant
            i <= k <= s@.len(),
            next_index(s@, c, i as int) == next_index(s@, c, k as int),
        decreases s@.len() - k,
    {
        k += 1;
    }
    k
}

/// Whether `s` begins with `p`.
pub open spec fn begins_with(s: Seq<char>, p: Seq<char>) -> bool {
    p.len() <= s.len() && s.take(p.len() as int) == p
}

/// Whether the slice begins with `p`.
pub fn starts_with(s: &[char], p: &[char]) -> (r: bool)
    ensures
        r == begins_with(s@, p@),
{
    s.len() >= p.len() && same_chars(slice_subrange(s, 0, p.len()), p)
}

/// Whether `p` occurs in `s` at index `i`.
pub open spec fn occurs_at(s: Seq<char>, p: Seq<char>, i: int) -> bool {
    0 <= i && i + p.len() <= s.len() && s.subrange(i, i + p.len()) == p
}

/// The first index from `i` on at which `p` occurs in `s`.
pub open spec fn find_from(s: Seq<char>, p: Seq<char>, i: int) -> Option<int>
    decreases s.len() + 1 - i,
{
    if i + p.len() > s.len() {
        None
    } else if occurs_at(s, p, i) {
        Some(i)
    } else {
        find_from(s, p, i + 1)
    }
}

/// What `find_from` returns is an occurrence, and the first one.
pub proof fn lemma_find_from(s: Seq<char>, p: Seq<char>, i: int)
    requires
        0 <= i,
    ensures
        match find_from(s, p, i) {
            Some(k) => i <= k && occurs_at(s, p, k) && forall|j: int|
                i <= j < k ==> !occurs_at(s, p, j),
            None => forall|j: int| i <= j ==> !occurs_at(s, p, j),
        },
    decreases s.len() + 1 - i,
{
    if i + p.len() <= s.len() && !occurs_at(s, p, i) {
        lemma_find_from(s, p, i + 1);
    }
}

/// Finds the first occurrence of `p` in `s` from `i` on.
pub fn find(s: &[char], p: &[char], i: usize) -> (r: Option<usize>)
    requires
        i <= s@.len(),
    ensures
        match r {
            Some(k) => find_from(s@, p@, i as int) == Some(k as int) && i <= k && k + p@.len()
                <= s@.len(),
            None => find_from(s@, p@, i as int) is None,
        },
{
    let mut k: usize = i;
    while p.len() <= s.len() && k <= s.len() - p.len()
        invariant
            i <= k <= s@.len(),
            find_from(s@, p@, i as int) == find_from(s@, p@, k as int),
        decreases s@.len() + 1 - k,
    {
        if same_chars(slice_subrange(s, k, k + p.len()), p) {
            return Some(k);
        }
        assert(p@.len() == 0 ==> s@.subrange(k as int, k as int) =~= p@);
        k += 1;
    }
    None
}

// --- Lines, words and pieces ---

/// The contents of a list of slices.
pub open spec fn contents(slices: Seq<&[char]>) -> Seq<Seq<char>> {
    slices.map_values(|x: &[char]| x@)
}

/// `line` without one trailing carriage return.
pub open spec fn chomped(line: Seq<char>) -> Seq<char> {
    if line.len() > 0 && line.last() == '\r' {
        line.drop_last()
    } else {
        line
    }
}

/// The lines of `s` from `i` on. A line ends at a line feed, before which a
/// carriage return is dropped; the last line need not be ended.
pub open spec fn lines_from(s: Seq<char>, i: int) -> Seq<Seq<char>>
    decreases s.len() - i,
    when 0 <= i
    via lines_from_decreases
{
    let j = next_index(s, '\n', i);
    if i >= s.len() {
        seq![]
    } else if j == s.len() {
        seq![s.skip(i)]
    } else {
        seq![chomped(s.subrange(i, j))] + lines_from(s, j + 1)
    }
}

#[via_fn]
proof fn lines_from_decreases(s: Seq<char>, i: int) {
    if i < s.len() {
        lemma_next_index(s, '\n', i);
    }
}

/// The lines of `s`.
pub open spec fn lines_of(s: Seq<char>) -> Seq<Seq<char>> {
    lines_from(s, 0)
}

/// Splits a slice into its lines.
pub fn lines<'a>(s: &'a [char]) -> (r: Vec<&'a [char]>)
    ensures
        contents(r@) == lines_of(s@),
{
    let mut r: Vec<&'a [char]> = Vec::new();
    let mut i: usize = 0;
    assert(contents(r@) + lines_from(s@, 0) =~= lines_from(s@, 0));
    while i < s.len()
        invariant
            i <= s@.len(),
            contents(r@) + lines_from(s@, i as int) == lines_of(s@),
        decreases s@.len() - i,
    {
        let j: usize = index_of(s, '\n', i);
        let ghost before = contents(r@);
        if j == s.len() {
            let line = slice_subrange(s, i, j);
            r.push(line);
            assert(contents(r@) =~= before + seq![line@]);
            assert(lines_from(s@, i as int) =~= seq![line@]);
            i = j;
            assert(lines_from(s@, i as int) =~= seq![]);
            assert(contents(r@) + lines_from(s@, i as int) =~= contents(r@));
        } else {
            let line = if j > i && s[j - 1] == '\r' {
                slice_subrange(s, i, j - 1)
            } else {
                slice_subrange(s, i, j)
            };
            r.push(line);
            assert(line@ =~= chomped(s@.subrange(i as int, j as int)));
            assert(contents(r@) =~= before + seq![line@]);
            assert(before + (seq![line@] + lines_from(s@, j + 1)) =~= contents(r@) + lines_from(
                s@,
                j + 1,
            ));
            i = j + 1;
        }
    }
    assert(contents(r@) + lines_from(s@, i as int) =~= contents(r@));
    r
}

/// The first index from `i` on at which white space begins (or, for `false`,
/// ends), or the length of `s`.
pub open spec fn next_white(s: Seq<char>, white: bool, i: int) -> int
    decreases s.len() - i,
{
    if i >= s.len() {
        s.len() as int
    } else if white_space(s[i]) == white {
        i
    } else {
        next_white(s, white, i + 1)
    }
}

/// What `next_white` returns lies in range and is what it looked for.
pub proof fn lemma_next_white(s: Seq<char>, white: bool, i: int)
    requires
        0 <= i <= s.len(),
    ensures
        i <= next_white(s, white, i) <= s.len(),
        next_white(s, white, i) < s.len() ==> white_space(s[next_white(s, white, i)]) == white,
        forall|k: int| i <= k < next_white(s, white, i) ==> white_space(s[k]) != white,
    decreases s.len() - i,
{
    if i < s.len() && white_space(s[i]) != white {
        lemma_next_white(s, white, i + 1);
    }
}

/// Finds where white space begins, or ends, from `i` on.
fn index_of_white(s: &[char], white: bool, i: usize) -> (r: usize)
    requires
        i <= s@.len(),
    ensures
        r == next_white(s@, white, i as int),
        i <= r <= s@.len(),
{
    let mut k: usize = i;
    while k < s.len() && is_white_space(s[k]) != white
        invariant
            i <= k <= s@.len(),
            next_white(s@, white, i as int) == next_white(s@, white, k as int),
        decreases s@.len() - k,
    {
        k += 1;
    }
    k
}

/// The words of `s` from `i` on: the longest runs free of white space.
pub open spec fn words_from(s: Seq<char>, i: int) -> Seq<Seq<char>>
    decreases s.len() - i,
    when 0 <= i <= s.len()
    via words_from_decreases
{
    let a = next_white(s, false, i);
    let b = next_white(s, true, a);
    if a >= s.len() {
        seq![]
    } else {
        seq![s.subrange(a, b)] + words_from(s, b)
    }
}

#[via_fn]
proof fn words_from_decreases(s: Seq<char>, i: int) {
    lemma_next_white(s, false, i);
    let a = next_white(s, false, i);
    lemma_next_white(s, true, a);
    if a < s.len() {
        assert(next_white(s, true, a) > a);
    }
}

/// The words of `s`.
pub open spec fn words_of(s: Seq<char>) -> Seq<Seq<char>> {
    words_from(s, 0)
}

/// Splits a slice into its words.
pub fn words<'a>(s: &'a [char]) -> (r: Vec<&'a [char]>)
    ensures
        contents(r@) == words_of(s@),
{
    let mut r: Vec<&'a [char]> = Vec::new();
    let mut i: usize = 0;
    assert(contents(r@) + words_from(s@, 0) =~= words_from(s@, 0));
    loop
        invariant
            i <= s@.len(),
            contents(r@) + words_from(s@, i as int) == words_of(s@),
        decreases s@.len() - i,
    {
        let a: usize = index_of_white(s, false, i);
        if a == s.len() {
            assert(contents(r@) + words_from(s@, i as int) =~= contents(r@));
            return r;
        }
        proof {
            lemma_next_white(s@, false, i as int);
            lemma_next_white(s@, true, a as int);
        }
        let b: usize = index_of_white(s, true, a);
        let ghost before = contents(r@);
        let word = slice_subrange(s, a, b);
        r.push(word);
        assert(contents(r@) =~= before + seq![word@]);
        assert(before + (seq![word@] + words_from(s@, b as int)) =~= contents(r@) + words_from(
            s@,
            b as int,
        ));
        i = b;
    }
}

/// The pieces of `s` from `i` on, between occurrences of `c`.
pub open spec fn pieces_from(s: Seq<char>, c: char, i: int) -> Seq<Seq<char>>
    decreases s.len() - i,
    when 0 <= i <= s.len()
    via pieces_from_decreases
{
    let j = next_index(s, c, i);
    if j == s.len() {
        seq![s.skip(i)]
    } else {
        seq![s.subrange(i, j)] + pieces_from(s, c, j + 1)
    }
}

#[via_fn]
proof fn pieces_from_decreases(s: Seq<char>, c: char, i: int) {
    lemma_next_index(s, c, i);
}

/// The pieces of `s` between occurrences of `c`; there is always at least one.
pub open spec fn pieces_of(s: Seq<char>, c: char) -> Seq<Seq<char>> {
    pieces_from(s, c, 0)
}

/// Splits a slice at every `c`.
pub fn pieces<'a>(s: &'a [char], c: char) -> (r: Vec<&'a [char]>)
    ensures
        contents(r@) == pieces_of(s@, c),
{
    let mut r: Vec<&'a [char]> = Vec::new();
    let mut i: usize = 0;
    assert(contents(r@) + pieces_from(s@, c, 0) =~= pieces_from(s@, c, 0));
    loop
        invariant
            i <= s@.len(),
            contents(r@) + pieces_from(s@, c, i as int) == pieces_of(s@, c),
        decreases s@.len() - i,
    {
        let j: usize = index_of(s, c, i);
        let ghost before = contents(r@);
        let piece = slice_subrange(s, i, j);
        r.push(piece);
        assert(contents(r@) =~= before + seq![piece@]);
        if j == s.len() {
            return r;
        }
        assert(before + (seq![piece@] + pieces_from(s@, c, j + 1)) =~= contents(r@) + pieces_from(
            s@,
            c,
            j + 1,
        ));
        i = j + 1;
    }
}

// --- Joining ---

/// `parts` one after another, with `sep` between them.
pub open spec fn joined(parts: Seq<Seq<char>>, sep: Seq<char>) -> Seq<char>
    decreases parts.len(),
{
    if parts.len() == 0 {
        seq![]
    } else if parts.len() == 1 {
        parts[0]
    } else {
        parts[0] + sep + joined(parts.skip(1), sep)
    }
}

/// Joining one more part appends the separator and the part.
pub proof fn lemma_joined_push(parts: Seq<Seq<char>>, p: Seq<char>, sep: Seq<char>)
    requires
        parts.len() >= 1,
    ensures
        joined(parts.push(p), sep) == joined(parts, sep) + sep + p,
    decreases parts.len(),
{
    let all = parts.push(p);
    assert(all.skip(1) =~= parts.skip(1).push(p));
    if parts.len() == 1 {
        assert(all.skip(1) =~= seq![p]);
        assert(joined(all.skip(1), sep) == p);
    } else {
        lemma_joined_push(parts.skip(1), p, sep);
        assert(joined(all, sep) =~= joined(parts, sep) + sep + p);
    }
}

/// The contents of a list of character vectors.
pub open spec fn texts(parts: Seq<Vec<char>>) -> Seq<Seq<char>> {
    parts.map_values(|x: Vec<char>| x@)
}

/// Joins `parts` with `sep` between them.
pub fn join(parts: &Vec<Vec<char>>, sep: &[char]) -> (r: Vec<char>)
    ensures
        r@ == joined(texts(parts@), sep@),
{
    let mut r: Vec<char> = Vec::new();
    let ghost all = texts(parts@);
    assert(all.take(0) =~= seq![]);
    let mut i: usize = 0;
    while i < parts.len()
        invariant
            i <= parts@.len(),
            all == texts(parts@),
            r@ == joined(all.take(i as int), sep@),
        decreases parts@.len() - i,
    {
        if i > 0 {
            push_all(&mut r, sep);
        }
        push_all(&mut r, parts[i].as_slice());
        proof {
            assert(all.take(i + 1) =~= all.take(i as int).push(all[i as int]));
            if i > 0 {
                lemma_joined_push(all.take(i as int), all[i as int], sep@);
            }
        }
        i += 1;
    }
    assert(all.take(i as int) =~= all);
    r
}

/// Appends `src` to `dst`.
pub fn push_all(dst: &mut Vec<char>, src: &[char])
    ensures
        final(dst)@ == old(dst)@ + src@,
{
    let mut i: usize = 0;
    let ghost before = dst@;
    while i < src.len()
        invariant
            i <= src@.len(),
            dst@ == before + src@.take(i as int),
        decreases src@.len() - i,
    {
        dst.push(src[i]);
        i += 1;
        assert(dst@ =~= before + src@.take(i as int));
    }
    assert(src@.take(i as int) =~= src@);
}

/// The contents of a list of strings.
pub open spec fn strings(parts: Seq<String>) -> Seq<Seq<char>> {
    parts.map_values(|x: String| x@)
}

/// `lines` one after another, each ended by a carriage return and a line feed.
pub open spec fn ended_lines(lines: Seq<Seq<char>>) -> Seq<char>
    decreases lines.len(),
{
    if lines.len() == 0 {
        seq![]
    } else {
        lines[0] + seq!['\r', '\n'] + ended_lines(lines.skip(1))
    }
}

/// Ending one more line appends it.
pub proof fn lemma_ended_push(lines: Seq<Seq<char>>, line: Seq<char>)
    ensures
        ended_lines(lines.push(line)) == ended_lines(lines) + line + seq!['\r', '\n'],
    decreases lines.len(),
{
    let all = lines.push(line);
    if lines.len() == 0 {
        assert(all.skip(1) =~= seq![]);
        assert(ended_lines(all.skip(1)) =~= seq![]);
        assert(ended_lines(all) =~= ended_lines(lines) + line + seq!['\r', '\n']);
    } else {
        lemma_ended_push(lines.skip(1), line);
        assert(all.skip(1) =~= lines.skip(1).push(line));
        assert(ended_lines(all) =~= ended_lines(lines) + line + seq!['\r', '\n']);
    }
}

/// Puts `lines` one after another, each ended by a carriage return and a line
/// feed.
pub fn end_lines(lines: &Vec<String>) -> (r: String)
    ensures
        r@ == ended_lines(strings(lines@)),
{
    let mut r = String::new();
    let ghost all = strings(lines@);
    assert(all.take(0) =~= seq![]);
    assert(ended_lines(all.take(0)) =~= r@);
    let mut i: usize = 0;
    while i < lines.len()
        invariant
            i <= lines@.len(),
            all == strings(lines@),
            r@ == ended_lines(all.take(i as int)),
        decreases lines@.len() - i,
    {
        r.append(lines[i].as_str());
        r.push('\r');
        r.push('\n');
        proof {
            assert(all.take(i + 1) =~= all.take(i as int).push(all[i as int]));
            lemma_ended_push(all.take(i as int), all[i as int]);
            assert(r@ =~= ended_lines(all.take(i as int)) + all[i as int] + seq!['\r', '\n']);
        }
        i += 1;
    }
    assert(all.take(i as int) =~= all);
    r
}

/// If nothing from `i` up to `j` is `c`, and `s` ends at `j` or holds `c`
/// there, then the next `c` from `i` on is at `j`.
pub proof fn lemma_next_index_is(s: Seq<char>, c: char, i: int, j: int)
    requires
        0 <= i <= j <= s.len(),
        forall|k: int| i <= k < j ==> s[k] != c,
        j == s.len() || s[j] == c,
    ensures
        next_index(s, c, i) == j,
    decreases j - i,
{
    if i < j {
        lemma_next_index_is(s, c, i + 1, j);
    }
}

/// Splitting at `c` what was joined with `c` gives the parts back, if none of
/// them holds `c`.
pub proof fn lemma_pieces_joined(s: Seq<char>, parts: Seq<Seq<char>>, c: char, i: int)
    requires
        0 <= i <= s.len(),
        parts.len() >= 1,
        forall|k: int, m: int|
            0 <= k < parts.len() && 0 <= m < parts[k].len() ==> #[trigger] parts[k][m] != c,
        s.skip(i) == joined(parts, seq![c]),
    ensures
        pieces_from(s, c, i) == parts,
    decreases parts.len(),
{
    let first = parts[0];
    let j = i + first.len();
    let rest = s.skip(i);
    if parts.len() == 1 {
        assert(forall|k: int| i <= k < j ==> s[k] == rest[k - i]);
        lemma_next_index_is(s, c, i, j);
        assert(pieces_from(s, c, i) =~= parts);
    } else {
        let tail = joined(parts.skip(1), seq![c]);
        assert(rest == first + seq![c] + tail);
        assert(rest.len() == first.len() + 1 + tail.len());
        assert(forall|k: int| i <= k < j ==> s[k] == rest[k - i] && rest[k - i] == first[k - i]);
        assert(s[j] == rest[j - i] && rest[j - i] == c);
        lemma_next_index_is(s, c, i, j);
        assert(s.skip(j + 1) =~= rest.skip(first.len() as int + 1));
        assert(rest.skip(first.len() as int + 1) =~= tail);
        assert forall|k: int, m: int|
            0 <= k < parts.skip(1).len() && 0 <= m < parts.skip(1)[k].len() implies #[trigger] parts.skip(
        1)[k][m] != c by {
            assert(parts.skip(1)[k] == parts[k + 1]);
            assert(parts[k + 1][m] != c);
        }
        lemma_pieces_joined(s, parts.skip(1), c, j + 1);
        assert(s.subrange(i, j) =~= first);
        assert(pieces_from(s, c, i) =~= parts);
    }
}

/// A text without `c` is its only piece.
pub proof fn lemma_single_piece(s: Seq<char>, c: char)
    requires
        forall|k: int| 0 <= k < s.len() ==> s[k] != c,
    ensures
        pieces_of(s, c) == seq![s],
{
    assert(s.skip(0) =~= s);
    lemma_pieces_joined(s, seq![s], c, 0);
}

/// Every character other than the separator is part of some piece.
pub proof fn lemma_in_some_piece(s: Seq<char>, c: char, i: int, p: int)
    requires
        0 <= i <= p < s.len(),
        s[p] != c,
    ensures
        exists|k: int, m: int|
            0 <= k < pieces_from(s, c, i).len() && 0 <= m < pieces_from(s, c, i)[k].len()
                && #[trigger] pieces_from(s, c, i)[k][m] == s[p],
    decreases s.len() - i,
{
    let j = next_index(s, c, i);
    let all = pieces_from(s, c, i);
    lemma_next_index(s, c, i);
    if j == s.len() || p < j {
        assert(all[0][p - i] == s[p]);
    } else {
        let rest = pieces_from(s, c, j + 1);
        lemma_in_some_piece(s, c, j + 1, p);
        let (k, m) = choose|k: int, m: int|
            0 <= k < rest.len() && 0 <= m < rest[k].len() && #[trigger] rest[k][m] == s[p];
        assert(all[k + 1] == rest[k]);
        assert(all[k + 1][m] == s[p]);
    }
}

/// What was put together from ended lines splits into those lines, if none of
/// them holds a line feed.
pub proof fn lemma_lines_ended(s: Seq<char>, lines: Seq<Seq<char>>, i: int)
    requires
        0 <= i <= s.len(),
        s.skip(i) == ended_lines(lines),
        forall|k: int, m: int|
            0 <= k < lines.len() && 0 <= m < lines[k].len() ==> #[trigger] lines[k][m] != '\n',
    ensures
        lines_from(s, i) == lines,
    decreases lines.len(),
{
    let rest = s.skip(i);
    if lines.len() == 0 {
        assert(rest.len() == 0);
        assert(lines_from(s, i) =~= lines);
    } else {
        let first = lines[0];
        let more = lines.skip(1);
        let tail = ended_lines(more);
        let n = first.len() as int;
        let j = i + n + 1;
        assert(rest == first + seq!['\r', '\n'] + tail);
        assert(rest.len() == n + 2 + tail.len());
        assert forall|k: int| i <= k < j implies s[k] != '\n' by {
            assert(s[k] == rest[k - i]);
            if k - i < n {
                assert(rest[k - i] == lines[0][k - i]);
            } else {
                assert(rest[n] == '\r');
            }
        }
        assert(s[j] == rest[n + 1] && rest[n + 1] == '\n');
        lemma_next_index_is(s, '\n', i, j);
        assert(s.subrange(i, j) =~= first.push('\r'));
        assert(first.push('\r').drop_last() =~= first);
        assert(s.skip(j + 1) =~= rest.skip(n + 2));
        assert(rest.skip(n + 2) =~= tail);
        assert forall|k: int, m: int|
            0 <= k < more.len() && 0 <= m < more[k].len() implies #[trigger] more[k][m] != '\n' by {
            assert(more[k] == lines[k + 1]);
            assert(lines[k + 1][m] != '\n');
        }
        lemma_lines_ended(s, more, j + 1);
        assert(lines_from(s, i) =~= lines);
    }
}

/// If the text is `white` (or not) nowhere from `i` up to `j`, and ends at `j`
/// or is so there, then `j` is the next place where it is.
pub proof fn lemma_next_white_is(s: Seq<char>, white: bool, i: int, j: int)
    requires
        0 <= i <= j <= s.len(),
        forall|k: int| i <= k < j ==> white_space(s[k]) != white,
        j == s.len() || white_space(s[j]) == white,
    ensures
        next_white(s, white, i) == j,
    decreases j - i,
{
    if i < j {
        lemma_next_white_is(s, white, i + 1, j);
    }
}

/// Words joined by a blank split into those words.
pub proof fn lemma_words_joined(s: Seq<char>, words: Seq<Seq<char>>, i: int)
    requires
        0 <= i <= s.len(),
        words.len() >= 1,
        s.skip(i) == joined(words, seq![' ']),
        forall|k: int| 0 <= k < words.len() ==> (#[trigger] words[k]).len() >= 1,
        forall|k: int, m: int|
            0 <= k < words.len() && 0 <= m < words[k].len() ==> !white_space(
                #[trigger] words[k][m],
            ),
    ensures
        words_from(s, i) == words,
    decreases words.len(),
{
    let rest = s.skip(i);
    let first = words[0];
    let n = first.len() as int;
    let b = i + n;
    if words.len() == 1 {
        assert(forall|k: int| i <= k < b ==> s[k] == rest[k - i] && s[k] == words[0][k - i]);
        lemma_next_white_is(s, false, i, i);
        lemma_next_white_is(s, true, i, b);
        assert(s.subrange(i, b) =~= first);
        lemma_next_white_is(s, false, b, b);
        assert(words_from(s, b) =~= seq![]);
        assert(words_from(s, i) =~= words);
    } else {
        let more = words.skip(1);
        let tail = joined(more, seq![' ']);
        assert(rest == first + seq![' '] + tail);
        assert(forall|k: int| i <= k < b ==> s[k] == rest[k - i] && s[k] == words[0][k - i]);
        assert(s[b] == rest[n] && rest[n] == ' ');
        lemma_next_white_is(s, false, i, i);
        lemma_next_white_is(s, true, i, b);
        assert(s.subrange(i, b) =~= first);
        assert(s.skip(b + 1) =~= rest.skip(n + 1));
        assert(rest.skip(n + 1) =~= tail);
        assert forall|k: int| 0 <= k < more.len() implies (#[trigger] more[k]).len() >= 1 by {
            assert(more[k] == words[k + 1]);
        }
        assert forall|k: int, m: int|
            0 <= k < more.len() && 0 <= m < more[k].len() implies !white_space(
            #[trigger] more[k][m],
        ) by {
            assert(more[k] == words[k + 1]);
            assert(!white_space(words[k + 1][m]));
        }
        lemma_words_joined(s, more, b + 1);
        assert(next_white(s, false, b) == next_white(s, false, b + 1));
        assert(words_from(s, b) == words_from(s, b + 1));
        assert(words_from(s, i) =~= words);
    }
}

/// A text that neither begins nor ends with white space is left as it is.
pub proof fn lemma_already_trimmed(s: Seq<char>)
    requires
        s.len() > 0,
        !white_space(s[0]),
        !white_space(s.last()),
    ensures
        trimmed(s) == s,
{
}

/// Whether every character of `part` occurs in `s`.
pub open spec fn within(part: Seq<char>, s: Seq<char>) -> bool {
    forall|i: int| 0 <= i < part.len() ==> s.contains(#[trigger] part[i])
}

/// Trimming adds no character.
pub proof fn lemma_trimmed_within(s: Seq<char>)
    ensures
        within(trimmed(s), s),
{
    lemma_trim_start_within(s);
    lemma_trim_end_within(trim_start(s));
    assert forall|i: int| 0 <= i < trimmed(s).len() implies s.contains(#[trigger] trimmed(s)[i]) by {
        assert(trim_start(s).contains(trimmed(s)[i]));
        let k = choose|k: int| 0 <= k < trim_start(s).len() && trim_start(s)[k] == trimmed(s)[i];
        assert(s.contains(trim_start(s)[k]));
    }
}

proof fn lemma_trim_start_within(s: Seq<char>)
    ensures
        within(trim_start(s), s),
    decreases s.len(),
{
    if s.len() > 0 && white_space(s[0]) {
        let rest = s.skip(1);
        lemma_trim_start_within(rest);
        assert forall|i: int| 0 <= i < trim_start(s).len() implies s.contains(
            #[trigger] trim_start(s)[i],
        ) by {
            assert(rest.contains(trim_start(rest)[i]));
            let k = choose|k: int| 0 <= k < rest.len() && rest[k] == trim_start(s)[i];
            assert(s[k + 1] == trim_start(s)[i]);
        }
    }
}

proof fn lemma_trim_end_within(s: Seq<char>)
    ensures
        within(trim_end(s), s),
    decreases s.len(),
{
    if s.len() > 0 && white_space(s.last()) {
        let rest = s.drop_last();
        lemma_trim_end_within(rest);
        assert forall|i: int| 0 <= i < trim_end(s).len() implies s.contains(
            #[trigger] trim_end(s)[i],
        ) by {
            assert(rest.contains(trim_end(rest)[i]));
            let k = choose|k: int| 0 <= k < rest.len() && rest[k] == trim_end(s)[i];
            assert(s[k] == trim_end(s)[i]);
        }
    }
}

/// Ended lines with text after them are split into those lines and the lines of
/// the text.
pub proof fn lemma_lines_before(
    s: Seq<char>,
    lines: Seq<Seq<char>>,
    rest: Seq<char>,
    i: int,
)
    requires
        0 <= i <= s.len(),
        s.skip(i) == ended_lines(lines) + rest,
        forall|k: int, m: int|
            0 <= k < lines.len() && 0 <= m < lines[k].len() ==> #[trigger] lines[k][m] != '\n',
    ensures
        lines_from(s, i) == lines + lines_from(s, i + ended_lines(lines).len()),
    decreases lines.len(),
{
    let text = s.skip(i);
    if lines.len() == 0 {
        assert(lines_from(s, i) =~= lines + lines_from(s, i));
    } else {
        let first = lines[0];
        let more = lines.skip(1);
        let tail = ended_lines(more) + rest;
        let n = first.len() as int;
        let j = i + n + 1;
        assert(text =~= first + seq!['\r', '\n'] + tail);
        assert forall|k: int| i <= k < j implies s[k] != '\n' by {
            assert(s[k] == text[k - i]);
            if k - i < n {
                assert(text[k - i] == lines[0][k - i]);
            } else {
                assert(text[n] == '\r');
            }
        }
        assert(s[j] == text[n + 1] && text[n + 1] == '\n');
        lemma_next_index_is(s, '\n', i, j);
        assert(s.subrange(i, j) =~= first.push('\r'));
        assert(first.push('\r').drop_last() =~= first);
        assert(s.skip(j + 1) =~= text.skip(n + 2));
        assert(text.skip(n + 2) =~= tail);
        assert forall|k: int, m: int|
            0 <= k < more.len() && 0 <= m < more[k].len() implies #[trigger] more[k][m]
            != '\n' by {
            assert(more[k] == lines[k + 1]);
            assert(lines[k + 1][m] != '\n');
        }
        lemma_lines_before(s, more, rest, j + 1);
        assert(seq![first] + more =~= lines);
        assert(lines_from(s, i) =~= lines + lines_from(s, i + ended_lines(lines).len()));
    }
}

/// A search passes over places where there is nothing to find.
pub proof fn lemma_find_skip(s: Seq<char>, p: Seq<char>, i: int, j: int)
    requires
        0 <= i <= j,
        j + p.len() <= s.len(),
        forall|k: int| i <= k < j ==> !occurs_at(s, p, k),
    ensures
        find_from(s, p, i) == find_from(s, p, j),
    decreases j - i,
{
    if i < j {
        assert(!occurs_at(s, p, i));
        lemma_find_skip(s, p, i + 1, j);
    }
}

/// Trimming the end leaves a part from the start.
pub proof fn lemma_trim_end_prefix(s: Seq<char>)
    ensures
        trim_end(s).len() <= s.len(),
        trim_end(s) == s.take(trim_end(s).len() as int),
    decreases s.len(),
{
    if s.len() > 0 && white_space(s.last()) {
        lemma_trim_end_prefix(s.drop_last());
    }
}

/// Splitting into lines adds no character.
pub proof fn lemma_lines_within(s: Seq<char>, i: int)
    requires
        0 <= i,
    ensures
        forall|k: int|
            0 <= k < lines_from(s, i).len() ==> within(#[trigger] lines_from(s, i)[k], s),
    decreases s.len() - i,
{
    if i < s.len() {
        lemma_next_index(s, '\n', i);
        let j = next_index(s, '\n', i);
        let all = lines_from(s, i);
        if j < s.len() {
            lemma_lines_within(s, j + 1);
        }
        assert forall|k: int| 0 <= k < all.len() implies within(#[trigger] all[k], s) by {
            if k == 0 {
                assert forall|m: int| 0 <= m < all[0].len() implies s.contains(
                    #[trigger] all[0][m],
                ) by {
                    assert(s[i + m] == all[0][m]);
                }
            } else {
                assert(all[k] == lines_from(s, j + 1)[k - 1]);
            }
        }
    }
}

/// `s` without the characters `c` at its start.
pub open spec fn after_leading(s: Seq<char>, c: char) -> Seq<char>
    decreases s.len(),
{
    if s.len() > 0 && s[0] == c {
        after_leading(s.skip(1), c)
    } else {
        s
    }
}

/// Removes the characters `c` at the start of `s`.
pub fn strip_leading<'a>(s: &'a [char], c: char) -> (r: &'a [char])
    ensures
        r@ == after_leading(s@, c),
{
    let mut i: usize = 0;
    assert(s@.skip(0) =~= s@);
    while i < s.len() && s[i] == c
        invariant
            i <= s@.len(),
            after_leading(s@, c) == after_leading(s@.skip(i as int), c),
        decreases s@.len() - i,
    {
        assert(s@.skip(i as int).skip(1) =~= s@.skip(i + 1));
        i += 1;
    }
    slice_subrange(s, i, s.len())
}

/// `s` from index `i` on, with every `p` in it, from the left, replaced by `w`.
pub open spec fn replaced_from(s: Seq<char>, p: Seq<char>, w: Seq<char>, i: int) -> Seq<char>
    decreases s.len() - i,
{
    match find_from(s, p, i) {
        Some(k) if p.len() > 0 && i <= k && k + p.len() <= s.len() => s.subrange(i, k) + w
            + replaced_from(s, p, w, k + p.len()),
        _ => s.skip(i),
    }
}

/// `s` with every `p` in it, from the left, replaced by `w`.
pub open spec fn replaced(s: Seq<char>, p: Seq<char>, w: Seq<char>) -> Seq<char> {
    replaced_from(s, p, w, 0)
}

/// Replaces every `p` in `s`, from the left, by `w`.
pub fn replace(s: &[char], p: &[char], w: &[char]) -> (r: Vec<char>)
    requires
        p@.len() > 0,
    ensures
        r@ == replaced(s@, p@, w@),
{
    let len: usize = s.len();
    let mut r: Vec<char> = Vec::new();
    let mut i: usize = 0;
    loop
        invariant
            len == s@.len(),
            p@.len() > 0,
            i <= len,
            r@ + replaced_from(s@, p@, w@, i as int) == replaced(s@, p@, w@),
        decreases len - i,
    {
        proof {
            lemma_find_from(s@, p@, i as int);
        }
        let ghost before = r@;
        match find(s, p, i) {
            Some(k) => {
                let next: usize = k + p.len();
                push_all(&mut r, slice_subrange(s, i, k));
                push_all(&mut r, w);
                let ghost rest = replaced_from(s@, p@, w@, next as int);
                assert(r@ + rest =~= before + (s@.subrange(i as int, k as int) + w@ + rest));
                i = next;
            },
            None => {
                push_all(&mut r, slice_subrange(s, i, len));
                assert(s@.skip(i as int) =~= s@.subrange(i as int, len as int));
                return r;
            },
        }
    }
}

/// A text that holds `p` once has it replaced there; one that does not hold `p`
/// stays as it is.
pub proof fn law_replace(a: Seq<char>, p: Seq<char>, b: Seq<char>, w: Seq<char>)
    requires
        p.len() > 0,
    ensures
        (forall|k: int| k != a.len() ==> !occurs_at(a + p + b, p, k)) ==> replaced(
            a + p + b,
            p,
            w,
        ) == a + w + b,
        (forall|k: int| !occurs_at(a, p, k)) ==> replaced(a, p, w) == a,
{
    let s = a + p + b;
    let n = a.len() as int;
    if forall|k: int| k != n ==> !occurs_at(s, p, k) {
        assert(s.subrange(n, n + p.len()) =~= p);
        assert(occurs_at(s, p, n));
        lemma_find_skip(s, p, 0, n);
        lemma_find_from(s, p, n + p.len());
        assert(find_from(s, p, 0) == Some(n));
        assert(find_from(s, p, n + p.len()) is None);
        assert(replaced_from(s, p, w, n + p.len()) == s.skip(n + p.len()));
        assert(s.subrange(0, n) =~= a);
        assert(s.skip(n + p.len()) =~= b);
    }
    if forall|k: int| !occurs_at(a, p, k) {
        lemma_find_from(a, p, 0);
        assert(a.skip(0) =~= a);
    }
}

/// An optional string as an optional sequence.
pub open spec fn option_text(s: Option<String>) -> Option<Seq<char>> {
    match s {
        Some(s) => Some(s@),
        None => None,
    }
}

// --- Case folding ---

/// `c` in lower case, if it is an ASCII letter.
pub open spec fn lower(c: char) -> char {
    if 'A' <= c <= 'Z' {
        ((c as u8) + 32) as char
    } else {
        c
    }
}

/// `s` with its ASCII letters in lower case.
pub open spec fn lowered(s: Seq<char>) -> Seq<char> {
    s.map_values(|c: char| lower(c))
}

/// `c` in lower case, if it is an ASCII letter.
pub fn to_lower(c: char) -> (r: char)
    ensures
        r == lower(c),
{
    if 'A' <= c && c <= 'Z' {
        ((c as u8) + 32) as char
    } else {
        c
    }
}

/// The characters of `s` with ASCII letters in lower case.
pub fn lowercase(s: &[char]) -> (r: Vec<char>)
    ensures
        r@ == lowered(s@),
{
    let mut r: Vec<char> = Vec::new();
    let mut i: usize = 0;
    while i < s.len()
        invariant
            i <= s@.len(),
            r@ == lowered(s@).take(i as int),
        decreases s@.len() - i,
    {
        r.push(to_lower(s[i]));
        i += 1;
    }
    assert(lowered(s@).take(i as int) =~= lowered(s@));
    r
}

// --- Laws ---

/// Of the ASCII characters, white space is the blank and the five control
/// characters from the tab to the carriage return; beyond ASCII it is the
/// separators of Unicode and the next-line character.
pub proof fn law_white_space(c: char)
    ensures
        (c as u32) < 128 ==> (white_space(c) <==> c == ' ' || 9 <= c as u32 <= 13),
        (c as u32) >= 128 ==> (white_space(c) <==> seq![
            0x85u32,
            0xa0,
            0x1680,
            0x2000,
            0x2001,
            0x2002,
            0x2003,
            0x2004,
            0x2005,
            0x2006,
            0x2007,
            0x2008,
            0x2009,
            0x200a,
            0x2028,
            0x2029,
            0x202f,
            0x205f,
            0x3000,
        ].contains(c as u32)),
{
    let list = seq![
        0x85u32,
        0xa0,
        0x1680,
        0x2000,
        0x2001,
        0x2002,
        0x2003,
        0x2004,
        0x2005,
        0x2006,
        0x2007,
        0x2008,
        0x2009,
        0x200a,
        0x2028,
        0x2029,
        0x202f,
        0x205f,
        0x3000,
    ];
    let v = c as u32;
    assert(list[0] == 0x85 && list[1] == 0xa0 && list[2] == 0x1680);
    assert(list[3] == 0x2000 && list[4] == 0x2001 && list[5] == 0x2002 && list[6] == 0x2003);
    assert(list[7] == 0x2004 && list[8] == 0x2005 && list[9] == 0x2006 && list[10] == 0x2007);
    assert(list[11] == 0x2008 && list[12] == 0x2009 && list[13] == 0x200a);
    assert(list[14] == 0x2028 && list[15] == 0x2029 && list[16] == 0x202f);
    assert(list[17] == 0x205f && list[18] == 0x3000);
}

/// The letters of ASCII have a lower case, 32 places on; nothing else changes.
pub proof fn law_lower_case(c: char)
    ensures
        lower(c) as int == c as int + (if 65 <= c as int <= 90 {
            32int
        } else {
            0
        }),
{
}

/// Whether a text is white space throughout.
pub open spec fn blank(s: Seq<char>) -> bool {
    forall|i: int| 0 <= i < s.len() ==> white_space(#[trigger] s[i])
}

proof fn lemma_trim_start_blank(a: Seq<char>, s: Seq<char>)
    requires
        blank(a),
        s.len() == 0 || !white_space(s[0]),
    ensures
        trim_start(a + s) == s,
    decreases a.len(),
{
    if a.len() == 0 {
        assert(a + s =~= s);
    } else {
        assert(white_space(a[0]));
        assert((a + s)[0] == a[0]);
        assert((a + s).skip(1) =~= a.skip(1) + s);
        assert(blank(a.skip(1))) by {
            assert forall|i: int| 0 <= i < a.skip(1).len() implies white_space(
                #[trigger] a.skip(1)[i],
            ) by {
                assert(a.skip(1)[i] == a[i + 1]);
            }
        }
        lemma_trim_start_blank(a.skip(1), s);
    }
}

proof fn lemma_trim_end_blank(s: Seq<char>, b: Seq<char>)
    requires
        blank(b),
        s.len() == 0 || !white_space(s.last()),
    ensures
        trim_end(s + b) == s,
    decreases b.len(),
{
    if b.len() == 0 {
        assert(s + b =~= s);
    } else {
        assert(white_space(b[b.len() - 1]));
        assert((s + b).last() == b.last());
        assert((s + b).drop_last() =~= s + b.drop_last());
        assert(blank(b.drop_last())) by {
            assert forall|i: int| 0 <= i < b.drop_last().len() implies white_space(
                #[trigger] b.drop_last()[i],
            ) by {
                assert(b.drop_last()[i] == b[i]);
            }
        }
        lemma_trim_end_blank(s, b.drop_last());
    }
}

/// Trimming takes the white space around a text, all of it and nothing else.
pub proof fn law_trim(a: Seq<char>, s: Seq<char>, b: Seq<char>)
    requires
        blank(a),
        blank(b),
        s.len() > 0 ==> !white_space(s[0]) && !white_space(s.last()),
    ensures
        trimmed(a + s + b) == s,
{
    assert(a + s + b =~= a + (s + b));
    if s.len() > 0 {
        assert((s + b)[0] == s[0]);
        lemma_trim_start_blank(a, s + b);
        lemma_trim_end_blank(s, b);
    } else {
        let all = a + s + b;
        assert(blank(all)) by {
            assert forall|i: int| 0 <= i < all.len() implies white_space(#[trigger] all[i]) by {
                if i < a.len() {
                    assert(white_space(a[i]));
                } else {
                    assert(white_space(b[i - a.len()]));
                }
            }
        }
        lemma_trim_start_blank(all, s);
        assert(all + s =~= all);
        assert(trim_start(all) =~= s);
    }
}

/// Searching from inside a text is searching the rest of it.
pub proof fn lemma_next_index_shift(s: Seq<char>, c: char, n: int, i: int)
    requires
        0 <= n <= i <= s.len(),
    ensures
        next_index(s, c, i) == n + next_index(s.skip(n), c, i - n),
    decreases s.len() - i,
{
    if i < s.len() && s[i] != c {
        lemma_next_index_shift(s, c, n, i + 1);
    }
}

/// Lines do not depend on what was before them.
pub proof fn lemma_lines_shift(s: Seq<char>, n: int, i: int)
    requires
        0 <= n <= i <= s.len(),
    ensures
        lines_from(s, i) == lines_from(s.skip(n), i - n),
    decreases s.len() - i,
{
    let t = s.skip(n);
    lemma_next_index_shift(s, '\n', n, i);
    lemma_next_index(s, '\n', i);
    let j = next_index(s, '\n', i);
    if i < s.len() && j < s.len() {
        lemma_lines_shift(s, n, j + 1);
        assert(s.subrange(i, j) =~= t.subrange(i - n, j - n));
    } else if i < s.len() {
        assert(s.skip(i) =~= t.skip(i - n));
    }
}

/// A line ends at a line feed. A carriage return in front of it belongs to the
/// end of the line. What follows is split on its own.
pub proof fn law_lines(line: Seq<char>, rest: Seq<char>)
    requires
        !line.contains('\n'),
        line.len() > 0 ==> line.last() != '\r',
    ensures
        lines_of(line + seq!['\n'] + rest) == seq![line] + lines_of(rest),
        lines_of(line + seq!['\r', '\n'] + rest) == seq![line] + lines_of(rest),
        line.len() > 0 ==> lines_of(line) == seq![line],
        lines_of(Seq::empty()) == Seq::<Seq<char>>::empty(),
{
    let n = line.len() as int;
    assert forall|k: int| 0 <= k < n implies line[k] != '\n' by {
        assert(line.contains(line[k]));
    }
    let a = line + seq!['\n'] + rest;
    assert(a[n] == '\n');
    assert(forall|k: int| 0 <= k < n ==> a[k] == line[k]);
    lemma_next_index_is(a, '\n', 0, n);
    assert(a.subrange(0, n) =~= line);
    lemma_lines_shift(a, n + 1, n + 1);
    assert(a.skip(n + 1) =~= rest);
    let b = line + seq!['\r', '\n'] + rest;
    assert(b[n + 1] == '\n' && b[n] == '\r');
    assert(forall|k: int| 0 <= k < n ==> b[k] == line[k]);
    lemma_next_index_is(b, '\n', 0, n + 1);
    assert(b.subrange(0, n + 1) =~= line.push('\r'));
    assert(line.push('\r').drop_last() =~= line);
    lemma_lines_shift(b, n + 2, n + 2);
    assert(b.skip(n + 2) =~= rest);
    if n > 0 {
        lemma_next_index_is(line, '\n', 0, n);
        assert(line.skip(0) =~= line);
    }
}

proof fn lemma_next_white_shift(s: Seq<char>, white: bool, n: int, i: int)
    requires
        0 <= n <= i <= s.len(),
    ensures
        next_white(s, white, i) == n + next_white(s.skip(n), white, i - n),
    decreases s.len() - i,
{
    if i < s.len() && white_space(s[i]) != white {
        lemma_next_white_shift(s, white, n, i + 1);
    }
}

/// Words do not depend on what was before them.
proof fn lemma_words_shift(s: Seq<char>, n: int, i: int)
    requires
        0 <= n <= i <= s.len(),
    ensures
        words_from(s, i) == words_from(s.skip(n), i - n),
    decreases s.len() - i,
{
    let t = s.skip(n);
    lemma_next_white(s, false, i);
    let a = next_white(s, false, i);
    lemma_next_white_shift(s, false, n, i);
    if a < s.len() {
        lemma_next_white(s, true, a);
        lemma_next_white_shift(s, true, n, a);
        let b = next_white(s, true, a);
        assert(b > a);
        assert(s.subrange(a, b) =~= t.subrange(a - n, b - n));
        lemma_words_shift(s, n, b);
    }
}

/// Words are separated by white space, however much of it there is.
pub proof fn law_words(a: Seq<char>, word: Seq<char>, gap: Seq<char>, rest: Seq<char>)
    requires
        blank(a),
        word.len() > 0,
        forall|i: int| 0 <= i < word.len() ==> !white_space(#[trigger] word[i]),
        blank(gap),
        gap.len() > 0 || rest.len() == 0,
    ensures
        words_of(a + word + gap + rest) == seq![word] + words_of(rest),
        words_of(a) == Seq::<Seq<char>>::empty(),
{
    let s = a + word + gap + rest;
    let i = a.len() as int;
    let j = i + word.len();
    let k = j + gap.len();
    assert forall|p: int| 0 <= p < i implies white_space(s[p]) by {
        assert(s[p] == a[p]);
    }
    assert(s[i] == word[0]);
    lemma_next_white_is(s, false, 0, i);
    assert forall|p: int| i <= p < j implies !white_space(s[p]) by {
        assert(s[p] == word[p - i]);
    }
    if gap.len() > 0 {
        assert(s[j] == gap[0]);
    }
    lemma_next_white_is(s, true, i, j);
    assert(s.subrange(i, j) =~= word);
    assert forall|p: int| j <= p < k implies white_space(s[p]) by {
        assert(s[p] == gap[p - j]);
    }
    lemma_words_over_blank(s, j, k);
    lemma_words_shift(s, k, k);
    assert(s.skip(k) =~= rest);
    lemma_next_white_is(a, false, 0, a.len() as int);
}

/// White space before a word does not matter.
proof fn lemma_words_over_blank(s: Seq<char>, j: int, k: int)
    requires
        0 <= j <= k <= s.len(),
        forall|p: int| j <= p < k ==> white_space(s[p]),
    ensures
        words_from(s, j) == words_from(s, k),
    decreases k - j,
{
    if j < k {
        lemma_words_over_blank(s, j + 1, k);
        assert(next_white(s, false, j) == next_white(s, false, j + 1));
    }
}

/// A text begins with another where it is that text and something after it.
pub proof fn law_begins_with(s: Seq<char>, p: Seq<char>)
    ensures
        begins_with(p + s, p),
        begins_with(s, p) <==> (exists|t: Seq<char>| s == #[trigger] (p + t)),
{
    assert((p + s).take(p.len() as int) =~= p);
    if begins_with(s, p) {
        assert(s =~= p + s.skip(p.len() as int));
    }
    if exists|t: Seq<char>| s == #[trigger] (p + t) {
        let t = choose|t: Seq<char>| s == #[trigger] (p + t);
        assert((p + t).take(p.len() as int) =~= p);
    }
}

/// A text occurs where it stands between what is before and what is after it,
/// and a search finds the first such place.
pub proof fn law_find(a: Seq<char>, p: Seq<char>, b: Seq<char>)
    ensures
        occurs_at(a + p + b, p, a.len() as int),
        (forall|k: int| 0 <= k < a.len() ==> !occurs_at(a + p + b, p, k)) ==> find_from(
            a + p + b,
            p,
            0,
        ) == Some(a.len() as int),
        forall|s: Seq<char>, k: int|
            #[trigger] occurs_at(s, p, k) ==> 0 <= k <= s.len() - p.len() && s == s.take(k) + p
                + s.skip(k + p.len()),
{
    let s = a + p + b;
    let n = a.len() as int;
    assert(s.subrange(n, n + p.len()) =~= p);
    if forall|k: int| 0 <= k < n ==> !occurs_at(s, p, k) {
        lemma_find_skip(s, p, 0, n);
    }
    assert forall|s: Seq<char>, k: int| #[trigger] occurs_at(s, p, k) implies 0 <= k <= s.len()
        - p.len() && s == s.take(k) + p + s.skip(k + p.len()) by {
        assert(s =~= s.take(k) + s.subrange(k, k + p.len()) + s.skip(k + p.len()));
    }
}

/// Leading characters are removed however many there are.
pub proof fn law_after_leading(n: nat, c: char, s: Seq<char>)
    requires
        s.len() > 0 ==> s[0] != c,
    ensures
        after_leading(Seq::new(n, |i: int| c) + s, c) == s,
    decreases n,
{
    let all = Seq::new(n, |i: int| c) + s;
    if n == 0 {
        assert(all =~= s);
    } else {
        law_after_leading((n - 1) as nat, c, s);
        assert(all[0] == c);
        assert(all.skip(1) =~= Seq::new((n - 1) as nat, |i: int| c) + s);
    }
}

proof fn lemma_find_shift(s: Seq<char>, p: Seq<char>, n: int, i: int)
    requires
        0 <= n <= i,
        n <= s.len(),
    ensures
        find_from(s, p, i) == (match find_from(s.skip(n), p, i - n) {
            Some(k) => Some(k + n),
            None => None,
        }),
    decreases s.len() + 1 - i,
{
    let t = s.skip(n);
    if i + p.len() <= s.len() {
        assert(s.subrange(i, i + p.len()) =~= t.subrange(i - n, i - n + p.len()));
        if !occurs_at(s, p, i) {
            lemma_find_shift(s, p, n, i + 1);
        }
    }
}

proof fn lemma_replaced_shift(s: Seq<char>, p: Seq<char>, w: Seq<char>, n: int, i: int)
    requires
        0 <= n <= i <= s.len(),
    ensures
        replaced_from(s, p, w, i) == replaced_from(s.skip(n), p, w, i - n),
    decreases s.len() - i,
{
    let t = s.skip(n);
    lemma_find_shift(s, p, n, i);
    assert(s.skip(i) =~= t.skip(i - n));
    match find_from(s, p, i) {
        Some(k) if p.len() > 0 && i <= k && k + p.len() <= s.len() => {
            lemma_replaced_shift(s, p, w, n, k + p.len());
            assert(s.subrange(i, k) =~= t.subrange(i - n, k - n));
        },
        _ => {},
    }
}

/// Every occurrence is replaced: after the first one, the rest of the text is
/// treated in the same way.
pub proof fn law_replace_all(a: Seq<char>, p: Seq<char>, b: Seq<char>, w: Seq<char>)
    requires
        p.len() > 0,
        forall|k: int| 0 <= k < a.len() ==> !occurs_at(a + p + b, p, k),
    ensures
        replaced(a + p + b, p, w) == a + w + replaced(b, p, w),
{
    let s = a + p + b;
    let n = a.len() as int;
    law_find(a, p, b);
    lemma_replaced_shift(s, p, w, n + p.len(), n + p.len());
    assert(s.skip(n + p.len()) =~= b);
    assert(s.subrange(0, n) =~= a);
}

/// Each of some lines is ended by a carriage return and a line feed.
pub proof fn law_ended_lines(line: Seq<char>, more: Seq<Seq<char>>)
    ensures
        ended_lines(seq![line] + more) == line + seq!['\r', '\n'] + ended_lines(more),
        ended_lines(Seq::empty()) == Seq::<char>::empty(),
{
    assert((seq![line] + more).skip(1) =~= more);
}

/// Joined texts stand one after another, with the separator between each two.
pub proof fn law_joined(first: Seq<char>, more: Seq<Seq<char>>, sep: Seq<char>)
    ensures
        joined(seq![first], sep) == first,
        more.len() > 0 ==> joined(seq![first] + more, sep) == first + sep + joined(more, sep),
        joined(Seq::empty(), sep) == Seq::<char>::empty(),
{
    assert((seq![first] + more).skip(1) =~= more);
}

/// The pieces of a text, joined by what separated them, are the text again.
pub proof fn law_pieces_rejoined(s: Seq<char>, c: char, i: int)
    requires
        0 <= i <= s.len(),
    ensures
        pieces_from(s, c, i).len() >= 1,
        joined(pieces_from(s, c, i), seq![c]) == s.skip(i),
    decreases s.len() - i,
{
    lemma_next_index(s, c, i);
    let j = next_index(s, c, i);
    let all = pieces_from(s, c, i);
    if j < s.len() {
        law_pieces_rejoined(s, c, j + 1);
        let more = pieces_from(s, c, j + 1);
        assert(all.skip(1) =~= more);
        assert(s.skip(i) =~= s.subrange(i, j) + seq![c] + s.skip(j + 1));
    }
}

} // verus!
