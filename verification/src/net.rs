//! IP addresses and socket addresses as plain values, with their text forms.

use crate::numeral::{
    all_decimal, all_hex, decimal, decimal_chars, decimal_value, digit_value, hex, hex_chars,
    hex_value, law_canonical_decimal, lemma_decimal, lemma_hex, parse_digits, value_of_digit,
};
use crate::text::{
    chars_of, contents, find, find_from, law_pieces_rejoined, lemma_find_from, lemma_in_some_piece, lemma_pieces_joined,
    lemma_single_piece, join, joined, occurs_at, pieces, pieces_of, push_all, string_of, texts,
};
use vstd::prelude::*;
use vstd::slice::slice_subrange;

verus! {

broadcast use vstd::string::group_string_axioms;

/// An IPv4 or IPv6 address.
#[derive(Debug, Clone, Copy, PartialEq, Eq)]
pub enum IpAddr {
    /// The four octets of an IPv4 address.
    V4([u8; 4]),
    /// The eight 16-bit groups of an IPv6 address.
    V6([u16; 8]),
}

/// An address as mathematical sequences.
pub enum IpModel {
    V4(Seq<u8>),
    V6(Seq<u16>),
}

impl View for IpAddr {
    type V = IpModel;

    open spec fn view(&self) -> IpModel {
        match self {
            IpAddr::V4(octets) => IpModel::V4(octets@),
            IpAddr::V6(groups) => IpModel::V6(groups@),
        }
    }
}

impl IpModel {
    /// Whether the address has as many parts as its family calls for.
    pub open spec fn well_formed(self) -> bool {
        match self {
            IpModel::V4(octets) => octets.len() == 4,
            IpModel::V6(groups) => groups.len() == 8,
        }
    }

    /// Whether the address is all zeros.
    pub open spec fn unspecified(self) -> bool {
        match self {
            IpModel::V4(octets) => octets =~= seq![0u8, 0, 0, 0],
            IpModel::V6(groups) => groups =~= seq![0u16, 0, 0, 0, 0, 0, 0, 0],
        }
    }
}

/// An IP address and a port.
#[derive(Debug, Clone, Copy, PartialEq, Eq)]
pub struct SocketAddr {
    pub ip: IpAddr,
    pub port: u16,
}

// --- Reading addresses ---

/// Whether `s` is a decimal number from 0 to 255 without leading zeros.
pub open spec fn is_octet(s: Seq<char>) -> bool {
    &&& 1 <= s.len() <= 3
    &&& all_decimal(s)
    &&& s.len() > 1 ==> s[0] != '0'
    &&& decimal_value(s) <= 255
}

/// The octets of a dotted quad.
pub open spec fn ipv4_octets(s: Seq<char>) -> Option<Seq<u8>> {
    let parts = pieces_of(s, '.');
    if parts.len() == 4 && forall|i: int| 0 <= i < 4 ==> is_octet(#[trigger] parts[i]) {
        Some(parts.map_values(|p: Seq<char>| decimal_value(p) as u8))
    } else {
        None
    }
}

/// Whether `s` is one to four hexadecimal digits.
pub open spec fn is_group(s: Seq<char>) -> bool {
    1 <= s.len() <= 4 && all_hex(s)
}

/// The 16-bit groups of colon-separated `parts`.
pub open spec fn plain_groups(parts: Seq<Seq<char>>) -> Option<Seq<u16>> {
    if forall|i: int| 0 <= i < parts.len() ==> is_group(#[trigger] parts[i]) {
        Some(parts.map_values(|p: Seq<char>| hex_value(p) as u16))
    } else {
        None
    }
}

/// The 16-bit groups of colon-separated `parts`, the last of which may be a
/// dotted quad that stands for two groups.
pub open spec fn groups_with_quad(parts: Seq<Seq<char>>) -> Option<Seq<u16>> {
    if parts.len() == 0 {
        Some(seq![])
    } else {
        match (ipv4_octets(parts.last()), plain_groups(parts.drop_last())) {
            (Some(o), Some(front)) => Some(
                front + seq![(256 * o[0] + o[1]) as u16, (256 * o[2] + o[3]) as u16],
            ),
            _ => plain_groups(parts),
        }
    }
}

/// The colon-separated parts of `s`; none if `s` is empty.
pub open spec fn group_texts(s: Seq<char>) -> Seq<Seq<char>> {
    if s.len() == 0 {
        seq![]
    } else {
        pieces_of(s, ':')
    }
}

/// `n` zero groups.
pub open spec fn zero_groups(n: int) -> Seq<u16> {
    Seq::new(n as nat, |i: int| 0u16)
}

/// The groups of an IPv6 address. A double colon stands for one or more zero
/// groups; a dotted quad may stand at the very end.
pub open spec fn ipv6_groups(s: Seq<char>) -> Option<Seq<u16>> {
    match find_from(s, seq![':', ':'], 0) {
        None => match groups_with_quad(pieces_of(s, ':')) {
            Some(all) if all.len() == 8 => Some(all),
            _ => None,
        },
        Some(k) => match (
            plain_groups(group_texts(s.take(k))),
            groups_with_quad(group_texts(s.skip(k + 2))),
        ) {
            (Some(head), Some(tail)) if head.len() + tail.len() <= 7 => Some(
                head + zero_groups(8 - head.len() - tail.len()) + tail,
            ),
            _ => None,
        },
    }
}

/// The address that `s` denotes.
pub open spec fn ip_of_text(s: Seq<char>) -> Option<IpModel> {
    match ipv4_octets(s) {
        Some(octets) => Some(IpModel::V4(octets)),
        None => match ipv6_groups(s) {
            Some(groups) => Some(IpModel::V6(groups)),
            None => None,
        },
    }
}

/// Reads one octet.
fn parse_octet(s: &[char]) -> (r: Option<u8>)
    ensures
        r is Some <==> is_octet(s@),
        r matches Some(v) ==> v == decimal_value(s@),
{
    if s.len() == 0 || s.len() > 3 || (s.len() > 1 && s[0] == '0') {
        return None;
    }
    match parse_digits(s, 255) {
        Some(v) => Some(v as u8),
        None => None,
    }
}

/// Reads a dotted quad.
fn parse_ipv4(s: &[char]) -> (r: Option<[u8; 4]>)
    ensures
        match r {
            Some(octets) => ipv4_octets(s@) == Some(octets@),
            None => ipv4_octets(s@) is None,
        },
{
    let parts = pieces(s, '.');
    let ghost texts = pieces_of(s@, '.');
    if parts.len() != 4 {
        return None;
    }
    assert(forall|i: int| 0 <= i < 4 ==> parts@[i]@ == #[trigger] texts[i]);
    match (
        parse_octet(parts[0]),
        parse_octet(parts[1]),
        parse_octet(parts[2]),
        parse_octet(parts[3]),
    ) {
        (Some(a), Some(b), Some(c), Some(d)) => {
            let octets: [u8; 4] = [a, b, c, d];
            assert(is_octet(texts[0]) && is_octet(texts[1]) && is_octet(texts[2]) && is_octet(
                texts[3],
            ));
            assert(octets@ =~= texts.map_values(|p: Seq<char>| decimal_value(p) as u8));
            Some(octets)
        },
        _ => {
            assert(!(is_octet(texts[0]) && is_octet(texts[1]) && is_octet(texts[2]) && is_octet(
                texts[3],
            )));
            None
        },
    }
}

/// A run of at most four hexadecimal digits denotes a 16-bit number.
proof fn lemma_hex_bound(s: Seq<char>)
    requires
        all_hex(s),
    ensures
        s.len() == 0 ==> hex_value(s) == 0,
        s.len() <= 1 ==> hex_value(s) < 16,
        s.len() <= 2 ==> hex_value(s) < 256,
        s.len() <= 3 ==> hex_value(s) < 4096,
        s.len() <= 4 ==> hex_value(s) < 65536,
    decreases s.len(),
{
    if s.len() > 0 {
        lemma_hex_bound(s.drop_last());
        assert(digit_value(s[s.len() - 1]) < 16);
    }
}

/// Reads one 16-bit group.
fn parse_group(s: &[char]) -> (r: Option<u16>)
    ensures
        r is Some <==> is_group(s@),
        r matches Some(v) ==> v == hex_value(s@),
{
    if s.len() == 0 || s.len() > 4 {
        return None;
    }
    let mut value: u32 = 0;
    let mut i: usize = 0;
    while i < s.len()
        invariant
            i <= s@.len() <= 4,
            all_hex(s@.take(i as int)),
            value == hex_value(s@.take(i as int)),
        decreases s@.len() - i,
    {
        let d: u8 = value_of_digit(s[i]);
        if d >= 16 {
            return None;
        }
        proof {
            lemma_hex_bound(s@.take(i as int));
            assert(s@.take(i + 1).drop_last() =~= s@.take(i as int));
        }
        value = 16 * value + d as u32;
        i += 1;
    }
    proof {
        assert(s@.take(i as int) =~= s@);
        lemma_hex_bound(s@);
    }
    Some(value as u16)
}

/// Reads the first `n` parts as 16-bit groups.
fn parse_groups(parts: &Vec<&[char]>, n: usize) -> (r: Option<Vec<u16>>)
    requires
        n <= parts@.len(),
    ensures
        match r {
            Some(groups) => plain_groups(contents(parts@).take(n as int)) == Some(groups@),
            None => plain_groups(contents(parts@).take(n as int)) is None,
        },
{
    let ghost texts = contents(parts@).take(n as int);
    let mut groups: Vec<u16> = Vec::new();
    let mut i: usize = 0;
    while i < n
        invariant
            i <= n <= parts@.len(),
            texts == contents(parts@).take(n as int),
            groups@.len() == i,
            forall|k: int| 0 <= k < i ==> is_group(#[trigger] texts[k]),
            forall|k: int| 0 <= k < i ==> groups@[k] == hex_value(#[trigger] texts[k]) as u16,
        decreases n - i,
    {
        assert(texts[i as int] == parts@[i as int]@);
        match parse_group(parts[i]) {
            Some(v) => groups.push(v),
            None => {
                return None;
            },
        }
        i += 1;
    }
    assert(groups@ =~= texts.map_values(|p: Seq<char>| hex_value(p) as u16));
    Some(groups)
}

/// Reads parts as 16-bit groups, allowing a dotted quad at the end.
fn parse_groups_with_quad(parts: &Vec<&[char]>) -> (r: Option<Vec<u16>>)
    ensures
        match r {
            Some(groups) => groups_with_quad(contents(parts@)) == Some(groups@),
            None => groups_with_quad(contents(parts@)) is None,
        },
{
    let n: usize = parts.len();
    let ghost texts = contents(parts@);
    if n == 0 {
        let none: Vec<u16> = Vec::new();
        assert(none@ =~= seq![]);
        return Some(none);
    }
    assert(texts.drop_last() =~= texts.take(n - 1));
    assert(texts.take(n as int) =~= texts);
    assert(texts.last() == parts@[n - 1]@);
    match parse_ipv4(parts[n - 1]) {
        Some(o) => match parse_groups(parts, n - 1) {
            Some(mut groups) => {
                let ghost front = groups@;
                groups.push(256 * (o[0] as u16) + o[1] as u16);
                groups.push(256 * (o[2] as u16) + o[3] as u16);
                assert(groups@ =~= front + seq![
                    (256 * o@[0] + o@[1]) as u16,
                    (256 * o@[2] + o@[3]) as u16,
                ]);
                Some(groups)
            },
            None => parse_groups(parts, n),
        },
        None => parse_groups(parts, n),
    }
}

/// Splits a text at colons; the empty text has no parts.
fn group_parts<'a>(s: &'a [char]) -> (r: Vec<&'a [char]>)
    ensures
        contents(r@) == group_texts(s@),
{
    if s.len() == 0 {
        let none: Vec<&'a [char]> = Vec::new();
        assert(contents(none@) =~= seq![]);
        none
    } else {
        pieces(s, ':')
    }
}

/// Eight groups as an array.
fn to_groups(v: &Vec<u16>) -> (r: [u16; 8])
    requires
        v@.len() == 8,
    ensures
        r@ == v@,
{
    let r: [u16; 8] = [v[0], v[1], v[2], v[3], v[4], v[5], v[6], v[7]];
    assert(r@ =~= v@);
    r
}

/// Reads an IPv6 address.
fn parse_ipv6(s: &[char]) -> (r: Option<[u16; 8]>)
    ensures
        match r {
            Some(groups) => ipv6_groups(s@) == Some(groups@),
            None => ipv6_groups(s@) is None,
        },
{
    let double: [char; 2] = [':', ':'];
    let mark = double.as_slice();
    assert(mark@ =~= seq![':', ':']);
    let n: usize = s.len();
    match find(s, mark, 0) {
        None => match parse_groups_with_quad(&pieces(s, ':')) {
            Some(all) => {
                if all.len() == 8 {
                    Some(to_groups(&all))
                } else {
                    None
                }
            },
            None => None,
        },
        Some(k) => {
            let head_parts = group_parts(slice_subrange(s, 0, k));
            let tail_parts = group_parts(slice_subrange(s, k + 2, n));
            let ghost heads = contents(head_parts@);
            assert(heads.take(head_parts@.len() as int) =~= heads);
            match (
                parse_groups(&head_parts, head_parts.len()),
                parse_groups_with_quad(&tail_parts),
            ) {
                (Some(head), Some(tail)) => {
                    if head.len() > 7 || tail.len() > 7 - head.len() {
                        return None;
                    }
                    let ghost h = head@;
                    let mut all: Vec<u16> = head;
                    let gap: usize = 8 - all.len() - tail.len();
                    let mut i: usize = 0;
                    while i < gap
                        invariant
                            i <= gap,
                            all@ == h + zero_groups(i as int),
                        decreases gap - i,
                    {
                        all.push(0);
                        i += 1;
                        assert(all@ =~= h + zero_groups(i as int));
                    }
                    all.extend_from_slice(tail.as_slice());
                    assert(all@ =~= h + zero_groups(gap as int) + tail@);
                    Some(to_groups(&all))
                },
                _ => None,
            }
        },
    }
}

impl IpAddr {
    /// Reads an address from its text form.
    pub fn parse(s: &str) -> (r: Option<IpAddr>)
        ensures
            match r {
                Some(ip) => ip_of_text(s@) == Some(ip@),
                None => ip_of_text(s@) is None,
            },
    {
        let chars = chars_of(s);
        IpAddr::parse_chars(chars.as_slice())
    }

    /// Reads an address from the characters of its text form.
    pub fn parse_chars(s: &[char]) -> (r: Option<IpAddr>)
        ensures
            match r {
                Some(ip) => ip_of_text(s@) == Some(ip@),
                None => ip_of_text(s@) is None,
            },
    {
        match parse_ipv4(s) {
            Some(octets) => Some(IpAddr::V4(octets)),
            None => match parse_ipv6(s) {
                Some(groups) => Some(IpAddr::V6(groups)),
                None => None,
            },
        }
    }

    /// Whether the address is the unspecified address of its family.
    pub fn is_unspecified(&self) -> (r: bool)
        ensures
            r == self@.unspecified(),
    {
        match self {
            IpAddr::V4(o) => o[0] == 0 && o[1] == 0 && o[2] == 0 && o[3] == 0,
            IpAddr::V6(g) => g[0] == 0 && g[1] == 0 && g[2] == 0 && g[3] == 0 && g[4] == 0
                && g[5] == 0 && g[6] == 0 && g[7] == 0,
        }
    }
}

// --- Writing addresses ---

/// The dotted quad of four octets.
pub open spec fn quad_text(octets: Seq<u8>) -> Seq<char> {
    joined(octets.map_values(|o: u8| decimal(o as nat)), seq!['.'])
}

/// Groups in hexadecimal, separated by colons.
pub open spec fn groups_text(groups: Seq<u16>) -> Seq<char> {
    joined(groups.map_values(|g: u16| hex(g as nat)), seq![':'])
}

/// Whether an IPv6 address stands for an IPv4 address.
pub open spec fn v4_mapped(groups: Seq<u16>) -> bool {
    groups[0] == 0 && groups[1] == 0 && groups[2] == 0 && groups[3] == 0 && groups[4] == 0
        && groups[5] == 0xffff
}

/// The octets of the last two groups.
pub open spec fn last_octets(groups: Seq<u16>) -> Seq<u8> {
    seq![
        (groups[6] / 256) as u8,
        (groups[6] % 256) as u8,
        (groups[7] / 256) as u8,
        (groups[7] % 256) as u8,
    ]
}

/// How many zero groups stand in a row from `i` on.
pub open spec fn zero_run(groups: Seq<u16>, i: int) -> int
    decreases groups.len() - i,
{
    if 0 <= i < groups.len() && groups[i] == 0 {
        1 + zero_run(groups, i + 1)
    } else {
        0
    }
}

/// The first of the longest zero runs that begin before `n`.
pub open spec fn longest_run(groups: Seq<u16>, n: int) -> int
    decreases n,
{
    if n <= 1 {
        0
    } else if zero_run(groups, n - 1) > zero_run(groups, longest_run(groups, n - 1)) {
        n - 1
    } else {
        longest_run(groups, n - 1)
    }
}

/// The canonical text of an IPv6 address: a mapped IPv4 address ends in a
/// dotted quad; otherwise the first of the longest runs of two or more zero
/// groups is written as a double colon.
pub open spec fn ipv6_text(groups: Seq<u16>) -> Seq<char> {
    let start = longest_run(groups, 8);
    let len = zero_run(groups, start);
    if v4_mapped(groups) {
        "::ffff:"@ + quad_text(last_octets(groups))
    } else if len > 1 {
        groups_text(groups.take(start)) + "::"@ + groups_text(groups.skip(start + len))
    } else {
        groups_text(groups)
    }
}

/// The canonical text of an address.
pub open spec fn ip_text(ip: IpModel) -> Seq<char> {
    match ip {
        IpModel::V4(octets) => quad_text(octets),
        IpModel::V6(groups) => ipv6_text(groups),
    }
}

/// Writes four octets as a dotted quad.
fn quad_chars(a: u8, b: u8, c: u8, d: u8) -> (r: Vec<char>)
    ensures
        r@ == quad_text(seq![a, b, c, d]),
{
    let mut parts: Vec<Vec<char>> = Vec::new();
    parts.push(decimal_chars(a as u128));
    parts.push(decimal_chars(b as u128));
    parts.push(decimal_chars(c as u128));
    parts.push(decimal_chars(d as u128));
    let dot: [char; 1] = ['.'];
    let sep = dot.as_slice();
    assert(sep@ =~= seq!['.']);
    assert(texts(parts@) =~= seq![a, b, c, d].map_values(|o: u8| decimal(o as nat)));
    join(&parts, sep)
}

/// Writes groups separated by colons.
fn groups_chars(groups: &[u16]) -> (r: Vec<char>)
    ensures
        r@ == groups_text(groups@),
{
    let mut parts: Vec<Vec<char>> = Vec::new();
    let ghost all = groups@.map_values(|g: u16| hex(g as nat));
    let mut i: usize = 0;
    while i < groups.len()
        invariant
            i <= groups@.len(),
            all == groups@.map_values(|g: u16| hex(g as nat)),
            texts(parts@) == all.take(i as int),
        decreases groups@.len() - i,
    {
        let ghost before = texts(parts@);
        parts.push(hex_chars(groups[i] as u64));
        assert(texts(parts@) =~= before.push(all[i as int]));
        assert(all.take(i + 1) =~= all.take(i as int).push(all[i as int]));
        i += 1;
    }
    assert(all.take(i as int) =~= all);
    let colon: [char; 1] = [':'];
    let sep = colon.as_slice();
    assert(sep@ =~= seq![':']);
    join(&parts, sep)
}

/// A run of zero groups ends inside the address.
proof fn lemma_zero_run(groups: Seq<u16>, i: int)
    requires
        0 <= i <= groups.len(),
    ensures
        0 <= zero_run(groups, i) <= groups.len() - i,
        forall|k: int| i <= k < i + zero_run(groups, i) ==> groups[k] == 0,
    decreases groups.len() - i,
{
    if i < groups.len() && groups[i] == 0 {
        lemma_zero_run(groups, i + 1);
    }
}

/// The longest run begins inside the address.
proof fn lemma_longest_run(groups: Seq<u16>, n: int)
    ensures
        0 <= longest_run(groups, n),
        n >= 1 ==> longest_run(groups, n) < n,
    decreases n,
{
    if n > 1 {
        lemma_longest_run(groups, n - 1);
    }
}

/// Counts the zero groups from `i` on.
fn count_zeros(groups: &[u16], i: usize) -> (r: usize)
    requires
        i <= groups@.len(),
    ensures
        r == zero_run(groups@, i as int),
        i + r <= groups@.len(),
    decreases groups@.len() - i,
{
    if i < groups.len() && groups[i] == 0 {
        1 + count_zeros(groups, i + 1)
    } else {
        0
    }
}

/// Writes an IPv6 address.
fn ipv6_chars(g: &[u16; 8]) -> (r: Vec<char>)
    ensures
        r@ == ipv6_text(g@),
{
    if g[0] == 0 && g[1] == 0 && g[2] == 0 && g[3] == 0 && g[4] == 0 && g[5] == 0xffff {
        let mut r = chars_of("::ffff:");
        let quad = quad_chars(
            (g[6] / 256) as u8,
            (g[6] % 256) as u8,
            (g[7] / 256) as u8,
            (g[7] % 256) as u8,
        );
        push_all(&mut r, quad.as_slice());
        return r;
    }
    let groups = g.as_slice();
    let mut start: usize = 0;
    let mut len: usize = count_zeros(groups, 0);
    let mut n: usize = 1;
    while n < 8
        invariant
            1 <= n <= 8,
            groups@.len() == 8,
            start < n,
            start == longest_run(groups@, n as int),
            len == zero_run(groups@, start as int),
        decreases 8 - n,
    {
        let run: usize = count_zeros(groups, n);
        if run > len {
            start = n;
            len = run;
        }
        n += 1;
    }
    if len > 1 {
        proof {
            lemma_zero_run(groups@, start as int);
        }
        let mut r = groups_chars(slice_subrange(groups, 0, start));
        push_all(&mut r, chars_of("::").as_slice());
        let tail = groups_chars(slice_subrange(groups, start + len, 8));
        push_all(&mut r, tail.as_slice());
        r
    } else {
        groups_chars(groups)
    }
}

impl IpAddr {
    /// The canonical text of the address.
    pub fn text(&self) -> (r: String)
        ensures
            r@ == ip_text(self@),
    {
        match self {
            IpAddr::V4(o) => {
                assert(o@ =~= seq![o@[0], o@[1], o@[2], o@[3]]);
                string_of(quad_chars(o[0], o[1], o[2], o[3]).as_slice())
            },
            IpAddr::V6(g) => string_of(ipv6_chars(g).as_slice()),
        }
    }
}

// --- Reading back what was written ---

/// The decimal text of an octet is an octet, and holds neither mark.
proof fn lemma_octet(v: u8)
    ensures
        is_octet(decimal(v as nat)),
        decimal_value(decimal(v as nat)) == v,
        forall|k: int|
            0 <= k < decimal(v as nat).len() ==> decimal(v as nat)[k] != '.' && decimal(
                v as nat,
            )[k] != ':',
{
    let s = decimal(v as nat);
    lemma_decimal(v as nat);
    assert(s.len() <= 3) by {
        reveal_with_fuel(decimal, 3);
    }
    assert forall|k: int| 0 <= k < s.len() implies s[k] != '.' && s[k] != ':' by {
        assert(digit_value(s[k]) < 10);
    }
}

/// A dotted quad is read back as the octets it was written from.
proof fn lemma_quad(octets: Seq<u8>)
    requires
        octets.len() == 4,
    ensures
        ipv4_octets(quad_text(octets)) == Some(octets),
        forall|k: int| 0 <= k < quad_text(octets).len() ==> quad_text(octets)[k] != ':',
{
    let parts = octets.map_values(|o: u8| decimal(o as nat));
    let s = quad_text(octets);
    assert forall|k: int, m: int|
        0 <= k < parts.len() && 0 <= m < parts[k].len() implies #[trigger] parts[k][m] != '.'
        && parts[k][m] != ':' by {
        lemma_octet(octets[k]);
    }
    assert(s.skip(0) =~= s);
    lemma_pieces_joined(s, parts, '.', 0);
    assert forall|k: int| 0 <= k < 4 implies is_octet(#[trigger] parts[k]) && decimal_value(
        parts[k],
    ) == octets[k] by {
        lemma_octet(octets[k]);
    }
    assert(parts.map_values(|p: Seq<char>| decimal_value(p) as u8) =~= octets);
    assert forall|k: int| 0 <= k < s.len() implies s[k] != ':' by {
        if s[k] != '.' {
            lemma_in_some_piece(s, '.', 0, k);
        }
    }
}

/// The hexadecimal text of a group is a group, and holds neither mark.
proof fn lemma_group(g: u16)
    ensures
        is_group(hex(g as nat)),
        hex_value(hex(g as nat)) == g,
        forall|k: int|
            0 <= k < hex(g as nat).len() ==> hex(g as nat)[k] != '.' && hex(g as nat)[k] != ':',
{
    let s = hex(g as nat);
    lemma_hex(g as nat);
    assert forall|k: int| 0 <= k < s.len() implies s[k] != '.' && s[k] != ':' by {
        assert(digit_value(s[k]) < 16);
    }
}

/// Colon-separated groups are read back as the groups they were written from.
proof fn lemma_groups(groups: Seq<u16>)
    ensures
        plain_groups(group_texts(groups_text(groups))) == Some(groups),
        groups_with_quad(group_texts(groups_text(groups))) == Some(groups),
        groups.len() >= 1 ==> groups_text(groups).len() >= 1,
{
    let parts = groups.map_values(|g: u16| hex(g as nat));
    let s = groups_text(groups);
    if groups.len() == 0 {
        assert(group_texts(s) =~= seq![]);
        assert(seq![].map_values(|p: Seq<char>| hex_value(p) as u16) =~= groups);
        assert(groups =~= seq![]);
    } else {
        assert forall|k: int, m: int|
            0 <= k < parts.len() && 0 <= m < parts[k].len() implies #[trigger] parts[k][m] != ':' by {
            lemma_group(groups[k]);
        }
        lemma_group(groups[0]);
        assert(parts[0].len() >= 1);
        assert(s.skip(0) =~= s);
        lemma_pieces_joined(s, parts, ':', 0);
        assert forall|k: int| 0 <= k < parts.len() implies is_group(#[trigger] parts[k])
            && hex_value(parts[k]) == groups[k] by {
            lemma_group(groups[k]);
        }
        assert(parts.map_values(|p: Seq<char>| hex_value(p) as u16) =~= groups);
        let last = groups.len() - 1;
        lemma_group(groups[last]);
        lemma_single_piece(parts.last(), '.');
        assert(ipv4_octets(parts.last()) is None);
    }
}

/// Joined parts that are not empty and hold no colon have no double colon, and
/// neither begin nor end with a colon.
proof fn lemma_no_double_colon(parts: Seq<Seq<char>>)
    requires
        parts.len() >= 1,
        forall|k: int| 0 <= k < parts.len() ==> (#[trigger] parts[k]).len() >= 1,
        forall|k: int, m: int|
            0 <= k < parts.len() && 0 <= m < parts[k].len() ==> #[trigger] parts[k][m] != ':',
    ensures
        ({
            let s = joined(parts, seq![':']);
            &&& s.len() >= 1
            &&& s[0] != ':'
            &&& s.last() != ':'
            &&& forall|i: int| 0 <= i < s.len() - 1 ==> #[trigger] s[i] != ':' || s[i + 1] != ':'
        }),
    decreases parts.len(),
{
    let s = joined(parts, seq![':']);
    let first = parts[0];
    if parts.len() > 1 {
        let more = parts.skip(1);
        assert forall|k: int| 0 <= k < more.len() implies (#[trigger] more[k]).len() >= 1 by {
            assert(more[k] == parts[k + 1]);
        }
        assert forall|k: int, m: int|
            0 <= k < more.len() && 0 <= m < more[k].len() implies #[trigger] more[k][m] != ':' by {
            assert(more[k] == parts[k + 1]);
            assert(parts[k + 1][m] != ':');
        }
        lemma_no_double_colon(more);
        let rest = joined(more, seq![':']);
        assert(s == first + seq![':'] + rest);
        let n = first.len() as int;
        assert forall|i: int| 0 <= i < s.len() - 1 implies #[trigger] s[i] != ':' || s[i + 1]
            != ':' by {
            if i < n {
                assert(s[i] == first[i]);
            } else if i > n {
                assert(s[i] == rest[i - n - 1]);
                assert(s[i + 1] == rest[i - n]);
            } else {
                assert(s[i + 1] == rest[0]);
            }
        }
        assert(s.last() == rest.last());
        assert(s[0] == first[0]);
    } else {
        assert forall|i: int| 0 <= i < s.len() - 1 implies #[trigger] s[i] != ':' || s[i + 1]
            != ':' by {
            assert(s[i] == parts[0][i]);
        }
        assert(s.last() == parts[0][s.len() - 1]);
    }
}

/// Written groups have no double colon, and neither begin nor end with a colon.
proof fn lemma_groups_text_colons(groups: Seq<u16>)
    requires
        groups.len() >= 1,
    ensures
        ({
            let s = groups_text(groups);
            &&& s.len() >= 1
            &&& s[0] != ':'
            &&& s.last() != ':'
            &&& forall|i: int| 0 <= i < s.len() - 1 ==> #[trigger] s[i] != ':' || s[i + 1] != ':'
        }),
{
    let parts = groups.map_values(|g: u16| hex(g as nat));
    assert forall|k: int| 0 <= k < parts.len() implies (#[trigger] parts[k]).len() >= 1 by {
        lemma_group(groups[k]);
    }
    assert forall|k: int, m: int|
        0 <= k < parts.len() && 0 <= m < parts[k].len() implies #[trigger] parts[k][m] != ':' by {
        lemma_group(groups[k]);
    }
    lemma_no_double_colon(parts);
}

/// A text with a colon is no dotted quad.
proof fn lemma_colon_is_no_quad(s: Seq<char>, p: int)
    requires
        0 <= p < s.len(),
        s[p] == ':',
    ensures
        ipv4_octets(s) is None,
{
    lemma_in_some_piece(s, '.', 0, p);
    let parts = pieces_of(s, '.');
    let (k, m) = choose|k: int, m: int|
        0 <= k < parts.len() && 0 <= m < parts[k].len() && #[trigger] parts[k][m] == s[p];
    assert(digit_value(parts[k][m]) == 16);
    assert(!is_octet(parts[k]));
}

/// A mapped IPv4 address is read back.
proof fn lemma_mapped(groups: Seq<u16>)
    requires
        groups.len() == 8,
        v4_mapped(groups),
    ensures
        ipv6_groups(ipv6_text(groups)) == Some(groups),
{
    reveal_strlit("::ffff:");
    let s = ipv6_text(groups);
    let octets = last_octets(groups);
    let quad = quad_text(octets);
    let ffff = seq!['f', 'f', 'f', 'f'];
    let double = seq![':', ':'];
    lemma_quad(octets);
    assert(s.subrange(0, 2) =~= double);
    assert(occurs_at(s, double, 0));
    assert(find_from(s, double, 0) == Some(0int));
    assert(s.take(0) =~= seq![]);
    lemma_groups(seq![]);
    assert(groups_text(seq![]) =~= seq![]);
    let tail = s.skip(2);
    let parts = seq![ffff, quad];
    assert(parts.skip(1) =~= seq![quad]);
    assert(joined(parts.skip(1), seq![':']) == quad);
    assert(tail =~= ffff + seq![':'] + quad);
    assert(tail == joined(parts, seq![':']));
    assert(tail.skip(0) =~= tail);
    lemma_pieces_joined(tail, parts, ':', 0);
    assert(parts.drop_last() =~= seq![ffff]);
    assert(hex_value(ffff) == 65535) by {
        reveal_with_fuel(hex_value, 5);
        assert(ffff.drop_last() =~= seq!['f', 'f', 'f']);
        assert(seq!['f', 'f', 'f'].drop_last() =~= seq!['f', 'f']);
        assert(seq!['f', 'f'].drop_last() =~= seq!['f']);
        assert(seq!['f'].drop_last() =~= seq![]);
    }
    assert(is_group(ffff));
    assert(seq![ffff].map_values(|p: Seq<char>| hex_value(p) as u16) =~= seq![0xffffu16]);
    assert(plain_groups(seq![ffff]) == Some(seq![0xffffu16]));
    assert(seq![0xffffu16] + seq![groups[6], groups[7]] =~= groups.skip(5));
    assert(groups_with_quad(parts) == Some(groups.skip(5)));
    assert(seq![] + zero_groups(5) + groups.skip(5) =~= groups);
}

/// The canonical text of an IPv6 address is read back as the address.
proof fn lemma_ipv6(groups: Seq<u16>)
    requires
        groups.len() == 8,
    ensures
        ipv6_groups(ipv6_text(groups)) == Some(groups),
{
    let s = ipv6_text(groups);
    let double = seq![':', ':'];
    let start = longest_run(groups, 8);
    let len = zero_run(groups, start);
    lemma_longest_run(groups, 8);
    lemma_zero_run(groups, start);
    if v4_mapped(groups) {
        lemma_mapped(groups);
    } else if len > 1 {
        reveal_strlit("::");
        let (head, tail) = (groups.take(start), groups.skip(start + len));
        let (a, b) = (groups_text(head), groups_text(tail));
        let k = a.len() as int;
        lemma_groups(head);
        lemma_groups(tail);
        if head.len() >= 1 {
            lemma_groups_text_colons(head);
        } else {
            assert(a =~= seq![]);
        }
        assert(s.subrange(k, k + 2) =~= double);
        assert(occurs_at(s, double, k));
        lemma_find_from(s, double, 0);
        assert forall|j: int| 0 <= j < k implies !occurs_at(s, double, j) by {
            assert(s[j] == a[j]);
            if j + 1 < k {
                assert(s[j + 1] == a[j + 1]);
            }
            if occurs_at(s, double, j) {
                assert(s.subrange(j, j + 2)[0] == ':');
                assert(s.subrange(j, j + 2)[1] == ':');
            }
        }
        assert(find_from(s, double, 0) == Some(k));
        assert(s.take(k) =~= a);
        assert(s.skip(k + 2) =~= b);
        assert(head + zero_groups(8 - head.len() - tail.len()) + tail =~= groups);
    } else {
        lemma_groups(groups);
        lemma_groups_text_colons(groups);
        lemma_find_from(s, double, 0);
        assert forall|j: int| 0 <= j implies !occurs_at(s, double, j) by {
            if occurs_at(s, double, j) {
                assert(s.subrange(j, j + 2)[0] == s[j]);
                assert(s.subrange(j, j + 2)[1] == s[j + 1]);
            }
        }
        assert(find_from(s, double, 0) is None);
    }
}

/// The canonical text of an IPv6 address holds a colon.
proof fn lemma_ipv6_has_colon(groups: Seq<u16>)
    requires
        groups.len() == 8,
    ensures
        exists|p: int| 0 <= p < ipv6_text(groups).len() && ipv6_text(groups)[p] == ':',
{
    let s = ipv6_text(groups);
    let start = longest_run(groups, 8);
    let len = zero_run(groups, start);
    if v4_mapped(groups) {
        reveal_strlit("::ffff:");
        assert(s[0] == ':');
    } else if len > 1 {
        reveal_strlit("::");
        assert(s[groups_text(groups.take(start)).len() as int] == ':');
    } else {
        let parts = groups.map_values(|g: u16| hex(g as nat));
        assert(s == parts[0] + seq![':'] + joined(parts.skip(1), seq![':']));
        assert(s[parts[0].len() as int] == ':');
    }
}

/// Whether `c` may stand in the text of an address.
pub open spec fn address_char(c: char) -> bool {
    digit_value(c) < 16 || c == '.' || c == ':'
}

/// Joined parts hold only characters of the parts and of the separator.
proof fn lemma_joined_chars(parts: Seq<Seq<char>>, sep: Seq<char>)
    requires
        forall|k: int, m: int|
            0 <= k < parts.len() && 0 <= m < parts[k].len() ==> address_char(
                #[trigger] parts[k][m],
            ),
        forall|m: int| 0 <= m < sep.len() ==> address_char(#[trigger] sep[m]),
    ensures
        forall|i: int|
            0 <= i < joined(parts, sep).len() ==> address_char(#[trigger] joined(parts, sep)[i]),
    decreases parts.len(),
{
    let s = joined(parts, sep);
    if parts.len() == 1 {
        assert forall|i: int| 0 <= i < s.len() implies address_char(#[trigger] s[i]) by {
            assert(s[i] == parts[0][i]);
        }
    } else if parts.len() > 1 {
        let more = parts.skip(1);
        let rest = joined(more, sep);
        assert forall|k: int, m: int|
            0 <= k < more.len() && 0 <= m < more[k].len() implies address_char(
            #[trigger] more[k][m],
        ) by {
            assert(more[k] == parts[k + 1]);
            assert(address_char(parts[k + 1][m]));
        }
        lemma_joined_chars(more, sep);
        let n = parts[0].len() as int;
        assert forall|i: int| 0 <= i < s.len() implies address_char(#[trigger] s[i]) by {
            if i < n {
                assert(s[i] == parts[0][i]);
            } else if i < n + sep.len() {
                assert(s[i] == sep[i - n]);
            } else {
                assert(s[i] == rest[i - n - sep.len()]);
            }
        }
    }
}

/// The text of octets holds only address characters, and is not empty.
proof fn lemma_quad_chars(octets: Seq<u8>)
    requires
        octets.len() == 4,
    ensures
        quad_text(octets).len() >= 1,
        forall|i: int|
            0 <= i < quad_text(octets).len() ==> address_char(#[trigger] quad_text(octets)[i]),
{
    let parts = octets.map_values(|o: u8| decimal(o as nat));
    assert forall|k: int, m: int|
        0 <= k < parts.len() && 0 <= m < parts[k].len() implies address_char(
        #[trigger] parts[k][m],
    ) by {
        lemma_octet(octets[k]);
        assert(digit_value(parts[k][m]) < 10);
    }
    lemma_joined_chars(parts, seq!['.']);
    lemma_octet(octets[0]);
}

/// The text of groups holds only address characters.
proof fn lemma_groups_chars(groups: Seq<u16>)
    ensures
        forall|i: int|
            0 <= i < groups_text(groups).len() ==> address_char(#[trigger] groups_text(groups)[i]),
{
    let parts = groups.map_values(|g: u16| hex(g as nat));
    assert forall|k: int, m: int|
        0 <= k < parts.len() && 0 <= m < parts[k].len() implies address_char(
        #[trigger] parts[k][m],
    ) by {
        lemma_group(groups[k]);
        assert(digit_value(parts[k][m]) < 16);
    }
    lemma_joined_chars(parts, seq![':']);
}

/// The text of an address is not empty and holds only address characters.
pub proof fn lemma_ip_text_chars(ip: IpModel)
    requires
        ip.well_formed(),
    ensures
        ip_text(ip).len() >= 1,
        forall|i: int| 0 <= i < ip_text(ip).len() ==> address_char(#[trigger] ip_text(ip)[i]),
{
    match ip {
        IpModel::V4(octets) => lemma_quad_chars(octets),
        IpModel::V6(groups) => {
            reveal_strlit("::ffff:");
            reveal_strlit("::");
            let start = longest_run(groups, 8);
            let len = zero_run(groups, start);
            lemma_quad_chars(last_octets(groups));
            lemma_groups_chars(groups);
            lemma_groups_chars(groups.take(start));
            lemma_groups_chars(groups.skip(start + len));
            lemma_groups_text_colons(groups);
            let s = ipv6_text(groups);
            let a = groups_text(groups.take(start));
            let b = groups_text(groups.skip(start + len));
            let quad = quad_text(last_octets(groups));
            assert forall|i: int| 0 <= i < s.len() implies address_char(#[trigger] s[i]) by {
                if v4_mapped(groups) {
                    if i >= 7 {
                        assert(s[i] == quad[i - 7]);
                    }
                } else if len > 1 {
                    if i < a.len() {
                        assert(s[i] == a[i]);
                    } else if i >= a.len() + 2 {
                        assert(s[i] == b[i - a.len() - 2]);
                    }
                }
            }
        },
    }
}

/// Reading the canonical text of an address gives the address back.
pub proof fn law_ip_round_trip(ip: IpModel)
    requires
        ip.well_formed(),
    ensures
        ip_of_text(ip_text(ip)) == Some(ip),
{
    match ip {
        IpModel::V4(octets) => lemma_quad(octets),
        IpModel::V6(groups) => {
            let s = ipv6_text(groups);
            lemma_ipv6(groups);
            lemma_ipv6_has_colon(groups);
            let p = choose|p: int| 0 <= p < s.len() && s[p] == ':';
            lemma_colon_is_no_quad(s, p);
        },
    }
}

/// An IPv4 address is written as its four octets in decimal, in order, with dots
/// between them.
pub proof fn law_dotted_quad(a: u8, b: u8, c: u8, d: u8)
    ensures
        ip_text(IpModel::V4(seq![a, b, c, d])) == decimal(a as nat) + seq!['.'] + decimal(b as nat)
            + seq!['.'] + decimal(c as nat) + seq!['.'] + decimal(d as nat),
{
    let octets = seq![a, b, c, d];
    let parts = octets.map_values(|o: u8| decimal(o as nat));
    let (w, x, y, z) = (
        decimal(a as nat),
        decimal(b as nat),
        decimal(c as nat),
        decimal(d as nat),
    );
    assert(parts =~= seq![w, x, y, z]);
    assert(parts.skip(1) =~= seq![x, y, z]);
    assert(parts.skip(1).skip(1) =~= seq![y, z]);
    assert(parts.skip(1).skip(1).skip(1) =~= seq![z]);
    let sep = seq!['.'];
    assert(joined(seq![z], sep) == z);
    assert(joined(seq![y, z], sep) == y + sep + z);
    assert(joined(seq![x, y, z], sep) == x + sep + (y + sep + z));
    assert(joined(parts, sep) == w + sep + (x + sep + (y + sep + z)));
    assert(joined(parts, sep) =~= w + sep + x + sep + y + sep + z);
}

/// A text is read as an IPv4 address only where it is written as that address is:
/// four numbers up to 255, without needless zeros.
pub proof fn law_ipv4_canonical(s: Seq<char>, octets: Seq<u8>)
    requires
        ip_of_text(s) == Some(IpModel::V4(octets)),
    ensures
        octets.len() == 4,
        s == ip_text(IpModel::V4(octets)),
{
    let parts = pieces_of(s, '.');
    law_pieces_rejoined(s, '.', 0);
    assert(s.skip(0) =~= s);
    assert(octets == parts.map_values(|p: Seq<char>| decimal_value(p) as u8));
    let written = octets.map_values(|o: u8| decimal(o as nat));
    assert forall|k: int| 0 <= k < 4 implies #[trigger] written[k] == parts[k] by {
        assert(is_octet(parts[k]));
        law_canonical_decimal(parts[k]);
        assert(octets[k] == decimal_value(parts[k]) as u8);
    }
    assert(written =~= parts);
}

/// The groups of an IPv6 address are written in hexadecimal, in order, with colons
/// between them.
pub proof fn law_groups_text(group: u16, more: Seq<u16>)
    ensures
        groups_text(seq![group]) == hex(group as nat),
        more.len() > 0 ==> groups_text(seq![group] + more) == hex(group as nat) + seq![':']
            + groups_text(more),
        groups_text(Seq::empty()) == Seq::<char>::empty(),
{
    let all = seq![group] + more;
    let parts = all.map_values(|g: u16| hex(g as nat));
    assert(parts.skip(1) =~= more.map_values(|g: u16| hex(g as nat)));
    assert(seq![group].map_values(|g: u16| hex(g as nat)) =~= seq![hex(group as nat)]);
}

/// Eight groups are read as that IPv6 address.
pub proof fn law_ipv6_read(groups: Seq<u16>)
    requires
        groups.len() == 8,
    ensures
        ip_of_text(groups_text(groups)) == Some(IpModel::V6(groups)),
{
    let double = seq![':', ':'];
    let s = groups_text(groups);
    lemma_groups(groups);
    lemma_groups_text_colons(groups);
    lemma_find_from(s, double, 0);
    assert forall|j: int| 0 <= j implies !occurs_at(s, double, j) by {
        if occurs_at(s, double, j) {
            assert(s.subrange(j, j + 2)[0] == s[j]);
            assert(s.subrange(j, j + 2)[1] == s[j + 1]);
        }
    }
    assert(find_from(s, double, 0) is None);
    assert(ipv6_groups(s) == Some(groups));
    let parts = groups.map_values(|g: u16| hex(g as nat));
    assert(s == parts[0] + seq![':'] + joined(parts.skip(1), seq![':']));
    assert(s[parts[0].len() as int] == ':');
    lemma_colon_is_no_quad(s, parts[0].len() as int);
}

/// Written groups hold no double colon, and no colon at their end.
proof fn lemma_no_double_in_groups(head: Seq<u16>, j: int)
    requires
        0 <= j < groups_text(head).len(),
    ensures
        j < groups_text(head).len() - 1 ==> groups_text(head)[j] != ':' || groups_text(head)[j + 1]
            != ':',
        j == groups_text(head).len() - 1 ==> groups_text(head)[j] != ':',
{
    if head.len() >= 1 {
        lemma_groups_text_colons(head);
    } else {
        assert(head =~= Seq::empty());
        assert(groups_text(head) =~= seq![]);
    }
}

/// The first double colon stands behind the groups before it.
proof fn lemma_first_double(head: Seq<u16>, b: Seq<char>)
    ensures
        find_from(groups_text(head) + seq![':', ':'] + b, seq![':', ':'], 0) == Some(
            groups_text(head).len() as int,
        ),
{
    let double = seq![':', ':'];
    let a = groups_text(head);
    let s = a + double + b;
    assert forall|j: int| 0 <= j < a.len() implies !occurs_at(s, double, j) by {
        lemma_no_double_in_groups(head, j);
        assert(s[j] == a[j]);
        if j + 1 < a.len() {
            assert(s[j + 1] == a[j + 1]);
        }
        if occurs_at(s, double, j) {
            assert(s.subrange(j, j + 2)[0] == ':');
            assert(s.subrange(j, j + 2)[1] == ':');
        }
    }
    crate::text::law_find(a, double, b);
}

/// In an IPv6 address a double colon stands for as many zero groups as are missing.
pub proof fn law_ipv6_double_colon(head: Seq<u16>, tail: Seq<u16>)
    requires
        head.len() + tail.len() <= 7,
    ensures
        ip_of_text(groups_text(head) + seq![':', ':'] + groups_text(tail)) == Some(
            IpModel::V6(
                head + Seq::new((8 - head.len() - tail.len()) as nat, |i: int| 0u16) + tail,
            ),
        ),
{
    let (a, b) = (groups_text(head), groups_text(tail));
    let s = a + seq![':', ':'] + b;
    let k = a.len() as int;
    lemma_first_double(head, b);
    lemma_groups(head);
    lemma_groups(tail);
    assert(s.take(k) =~= a);
    assert(s.skip(k + 2) =~= b);
    assert(zero_groups(8 - head.len() - tail.len()) =~= Seq::new(
        (8 - head.len() - tail.len()) as nat,
        |i: int| 0u16,
    ));
    assert(s[k] == ':');
    lemma_colon_is_no_quad(s, k);
}

/// Whether the groups from `i` to `j` are a run of zeros.
pub open spec fn zeros_between(groups: Seq<u16>, i: int, j: int) -> bool {
    0 <= i <= j <= groups.len() && forall|k: int| i <= k < j ==> groups[k] == 0
}

proof fn lemma_run_is_longest(groups: Seq<u16>, i: int, j: int)
    requires
        zeros_between(groups, i, j),
    ensures
        j - i <= zero_run(groups, i),
    decreases j - i,
{
    lemma_zero_run(groups, i);
    if i < j {
        assert(groups[i] == 0);
        assert(zeros_between(groups, i + 1, j));
        lemma_run_is_longest(groups, i + 1, j);
    }
}

proof fn lemma_none_longer(groups: Seq<u16>, n: int, i: int)
    requires
        0 <= i < n <= groups.len(),
    ensures
        zero_run(groups, i) <= zero_run(groups, longest_run(groups, n)),
        i < longest_run(groups, n) ==> zero_run(groups, i) < zero_run(
            groups,
            longest_run(groups, n),
        ),
    decreases n,
{
    if n > 1 {
        if i < n - 1 {
            lemma_none_longer(groups, n - 1, i);
        }
        lemma_longest_run(groups, n - 1);
    }
}

/// In the text of an IPv6 address that stands for no IPv4 address, a double colon
/// takes the place of a run of at least two zero groups. No run is longer, and
/// none before it is as long. Without such a run all groups are written.
pub proof fn law_ipv6_text(groups: Seq<u16>)
    requires
        groups.len() == 8,
        !(zeros_between(groups, 0, 5) && groups[5] == 0xffff),
    ensures
        (forall|i: int| 0 <= i < 7 ==> !(#[trigger] groups[i] == 0 && groups[i + 1] == 0))
            ==> ip_text(IpModel::V6(groups)) == groups_text(groups),
        (exists|i: int| 0 <= i < 7 && #[trigger] groups[i] == 0 && groups[i + 1] == 0)
            ==> exists|i: int, j: int| #[trigger]
            zeros_between(groups, i, j) && j - i >= 2 && ip_text(IpModel::V6(groups))
                == groups_text(groups.take(i)) + seq![':', ':'] + groups_text(groups.skip(j)) && (
            forall|x: int, y: int| #[trigger]
                zeros_between(groups, x, y) ==> y - x <= j - i && (x < i ==> y - x < j - i)),
{
    reveal_strlit("::");
    assert("::"@ =~= seq![':', ':']);
    let start = longest_run(groups, 8);
    let len = zero_run(groups, start);
    lemma_longest_run(groups, 8);
    lemma_zero_run(groups, start);
    assert(!v4_mapped(groups)) by {
        if v4_mapped(groups) {
            assert(zeros_between(groups, 0, 5));
        }
    }
    if forall|i: int| 0 <= i < 7 ==> !(#[trigger] groups[i] == 0 && groups[i + 1] == 0) {
        if len > 1 {
            assert(groups[start] == 0 && groups[start + 1] == 0);
        }
    }
    if exists|i: int| 0 <= i < 7 && #[trigger] groups[i] == 0 && groups[i + 1] == 0 {
        let i = choose|i: int| 0 <= i < 7 && #[trigger] groups[i] == 0 && groups[i + 1] == 0;
        assert(zeros_between(groups, i, i + 2));
        lemma_run_is_longest(groups, i, i + 2);
        lemma_none_longer(groups, 8, i);
        assert(zeros_between(groups, start, start + len));
        assert forall|x: int, y: int| #[trigger] zeros_between(groups, x, y) implies y - x
            <= len && (x < start ==> y - x < len) by {
            lemma_run_is_longest(groups, x, y);
            if x < 8 {
                lemma_none_longer(groups, 8, x);
            }
        }
    }
}

/// An IPv6 address that stands for an IPv4 address ends in that address.
pub proof fn law_mapped_text(a: u8, b: u8, c: u8, d: u8)
    ensures
        ip_text(
            IpModel::V6(
                seq![
                    0u16,
                    0,
                    0,
                    0,
                    0,
                    0xffff,
                    (256 * a + b) as u16,
                    (256 * c + d) as u16,
                ],
            ),
        ) == "::ffff:"@ + ip_text(IpModel::V4(seq![a, b, c, d])),
{
    let groups = seq![0u16, 0, 0, 0, 0, 0xffff, (256 * a + b) as u16, (256 * c + d) as u16];
    assert(last_octets(groups) =~= seq![a, b, c, d]);
}

/// Whether `s` is one to four hexadecimal digits, in either case.
pub open spec fn few_hex_digits(s: Seq<char>) -> bool {
    1 <= s.len() <= 4 && forall|i: int|
        0 <= i < s.len() ==> '0' <= #[trigger] s[i] <= '9' || 'a' <= s[i] <= 'f' || 'A' <= s[i]
            <= 'F'
}

proof fn lemma_few_hex_digits(s: Seq<char>)
    ensures
        few_hex_digits(s) <==> is_group(s),
{
    assert forall|i: int| 0 <= i < s.len() implies (digit_value(#[trigger] s[i]) < 16 <==> ('0'
        <= s[i] <= '9' || 'a' <= s[i] <= 'f' || 'A' <= s[i] <= 'F')) by {}
    if few_hex_digits(s) {
        assert(is_group(s));
    }
    if is_group(s) {
        assert forall|i: int| 0 <= i < s.len() implies '0' <= #[trigger] s[i] <= '9' || 'a' <= s[i]
            <= 'f' || 'A' <= s[i] <= 'F' by {
            assert(digit_value(s[i]) < 16);
        }
    }
}

/// Texts between colons, none of them empty and none with a dot, are an IPv6
/// address if and only if there are eight and each is one to four hexadecimal
/// digits. Leading zeros and the case of letters do not matter.
pub proof fn law_ipv6_groups_read(parts: Seq<Seq<char>>)
    requires
        parts.len() >= 2,
        forall|k: int| 0 <= k < parts.len() ==> (#[trigger] parts[k]).len() >= 1,
        forall|k: int, m: int|
            0 <= k < parts.len() && 0 <= m < parts[k].len() ==> #[trigger] parts[k][m] != ':'
                && parts[k][m] != '.',
    ensures
        ({
            let fine = parts.len() == 8 && forall|k: int|
                0 <= k < 8 ==> few_hex_digits(#[trigger] parts[k]);
            &&& fine ==> ip_of_text(joined(parts, seq![':'])) == Some(
                IpModel::V6(parts.map_values(|p: Seq<char>| hex_value(p) as u16)),
            )
            &&& !fine ==> ip_of_text(joined(parts, seq![':'])) is None
        }),
{
    let double = seq![':', ':'];
    let s = joined(parts, seq![':']);
    lemma_no_double_colon(parts);
    lemma_find_from(s, double, 0);
    assert forall|j: int| 0 <= j implies !occurs_at(s, double, j) by {
        if occurs_at(s, double, j) {
            assert(s.subrange(j, j + 2)[0] == s[j]);
            assert(s.subrange(j, j + 2)[1] == s[j + 1]);
        }
    }
    assert(find_from(s, double, 0) is None);
    assert(s == parts[0] + seq![':'] + joined(parts.skip(1), seq![':']));
    assert(s[parts[0].len() as int] == ':');
    lemma_colon_is_no_quad(s, parts[0].len() as int);
    assert(s.skip(0) =~= s);
    lemma_pieces_joined(s, parts, ':', 0);
    let last = parts.last();
    assert forall|m: int| 0 <= m < last.len() implies last[m] != '.' by {
        assert(parts[parts.len() - 1][m] != '.');
    }
    lemma_single_piece(last, '.');
    assert(ipv4_octets(last) is None);
    assert forall|k: int| 0 <= k < parts.len() implies (few_hex_digits(#[trigger] parts[k])
        <==> is_group(parts[k])) by {
        lemma_few_hex_digits(parts[k]);
    }
    assert(groups_with_quad(parts) == plain_groups(parts));
    if parts.len() == 8 {
        if forall|k: int| 0 <= k < 8 ==> few_hex_digits(#[trigger] parts[k]) {
            assert(plain_groups(parts) is Some);
        } else {
            let k = choose|k: int| 0 <= k < 8 && !few_hex_digits(#[trigger] parts[k]);
            assert(!is_group(parts[k]));
            assert(plain_groups(parts) is None);
        }
    }
}

} // verus!
