//! Unsigned numbers as text, in decimal and in lower-case hexadecimal.

use crate::text::string_of;
use vstd::prelude::*;
use vstd::slice::slice_subrange;

verus! {

broadcast use vstd::string::group_string_axioms;

/// The character of a digit below 16.
pub open spec fn digit_char(d: int) -> char {
    if d < 10 {
        (48 + d) as u8 as char
    } else {
        (87 + d) as u8 as char
    }
}

/// The value of a hexadecimal digit of either case, or 16.
pub open spec fn digit_value(c: char) -> int {
    if '0' <= c <= '9' {
        c as int - 48
    } else if 'a' <= c <= 'f' {
        c as int - 87
    } else if 'A' <= c <= 'F' {
        c as int - 55
    } else {
        16
    }
}

/// The character of a digit below 16.
fn to_digit(d: u8) -> (c: char)
    requires
        d < 16,
    ensures
        c == digit_char(d as int),
{
    if d < 10 {
        (48 + d) as char
    } else {
        (87 + d) as char
    }
}

/// The value of a hexadecimal digit of either case, or 16.
pub fn value_of_digit(c: char) -> (d: u8)
    ensures
        d == digit_value(c),
{
    if '0' <= c && c <= '9' {
        (c as u32 - 48) as u8
    } else if 'a' <= c && c <= 'f' {
        (c as u32 - 87) as u8
    } else if 'A' <= c && c <= 'F' {
        (c as u32 - 55) as u8
    } else {
        16
    }
}

/// A digit character has the value of its digit.
pub proof fn lemma_digit(d: int)
    requires
        0 <= d < 16,
    ensures
        digit_value(digit_char(d)) == d,
        digit_char(d) != '+',
        digit_char(d) != ':',
        digit_char(d) != '.',
{
}

// --- Decimal ---

/// `n` in decimal, without leading zeros.
pub open spec fn decimal(n: nat) -> Seq<char>
    decreases n,
{
    if n < 10 {
        seq![digit_char(n as int)]
    } else {
        decimal(n / 10).push(digit_char((n % 10) as int))
    }
}

/// Whether every character of `s` is a decimal digit.
pub open spec fn all_decimal(s: Seq<char>) -> bool {
    forall|i: int| 0 <= i < s.len() ==> digit_value(#[trigger] s[i]) < 10
}

/// The number that a run of decimal digits denotes.
pub open spec fn decimal_value(s: Seq<char>) -> nat
    decreases s.len(),
{
    if s.len() == 0 {
        0
    } else {
        (10 * decimal_value(s.drop_last()) + digit_value(s.last())) as nat
    }
}

/// The characters of `n` in decimal.
pub fn decimal_chars(n: u128) -> (r: Vec<char>)
    ensures
        r@ == decimal(n as nat),
    decreases n,
{
    if n < 10 {
        let mut r: Vec<char> = Vec::new();
        r.push(to_digit(n as u8));
        assert(r@ =~= decimal(n as nat));
        r
    } else {
        let mut r = decimal_chars(n / 10);
        r.push(to_digit((n % 10) as u8));
        r
    }
}

/// `n` in decimal.
pub fn decimal_string(n: u128) -> (r: String)
    ensures
        r@ == decimal(n as nat),
{
    string_of(decimal_chars(n).as_slice())
}

/// `s` without one leading plus sign.
pub open spec fn after_sign(s: Seq<char>) -> Seq<char> {
    if s.len() > 0 && s[0] == '+' {
        s.skip(1)
    } else {
        s
    }
}

/// The number that `s` denotes, if it is an optional plus sign followed by
/// decimal digits alone, at least one, and the number is at most `max`.
pub open spec fn unsigned(s: Seq<char>, max: nat) -> Option<nat> {
    let digits = after_sign(s);
    if digits.len() > 0 && all_decimal(digits) && decimal_value(digits) <= max {
        Some(decimal_value(digits))
    } else {
        None
    }
}

/// The value of a run of digits is no smaller than that of its beginning.
proof fn lemma_value_grows(s: Seq<char>, n: int)
    requires
        0 <= n <= s.len(),
    ensures
        decimal_value(s.take(n)) <= decimal_value(s),
    decreases s.len() - n,
{
    if n == s.len() {
        assert(s.take(n) =~= s);
    } else {
        lemma_value_grows(s, n + 1);
        assert(s.take(n + 1).drop_last() =~= s.take(n));
    }
}

/// Reads a run of decimal digits as a number of at most `max`.
pub fn parse_digits(s: &[char], max: u32) -> (r: Option<u32>)
    ensures
        r is Some <==> s@.len() > 0 && all_decimal(s@) && decimal_value(s@) <= max,
        r matches Some(n) ==> n == decimal_value(s@),
{
    if s.len() == 0 {
        return None;
    }
    let mut value: u64 = 0;
    let mut i: usize = 0;
    while i < s.len()
        invariant
            i <= s@.len(),
            value <= max,
            value == decimal_value(s@.take(i as int)),
            all_decimal(s@.take(i as int)),
        decreases s@.len() - i,
    {
        let d: u8 = value_of_digit(s[i]);
        if d >= 10 {
            return None;
        }
        assert(s@.take(i + 1).drop_last() =~= s@.take(i as int));
        value = 10 * value + d as u64;
        if value > max as u64 {
            proof {
                lemma_value_grows(s@, i + 1);
            }
            return None;
        }
        i += 1;
    }
    assert(s@.take(i as int) =~= s@);
    Some(value as u32)
}

/// Reads an unsigned number of at most `max`.
pub fn parse_unsigned(s: &[char], max: u32) -> (r: Option<u32>)
    ensures
        match r {
            Some(n) => unsigned(s@, max as nat) == Some(n as nat),
            None => unsigned(s@, max as nat) is None,
        },
{
    if s.len() > 0 && s[0] == '+' {
        parse_digits(slice_subrange(s, 1, s.len()), max)
    } else {
        parse_digits(s, max)
    }
}

/// Why a text is no number of at most `max`.
#[derive(Debug, Clone, Copy, PartialEq, Eq, Structural)]
pub enum NumberFault {
    /// A character is no digit, or there is no digit at all.
    InvalidDigit,
    /// The digits read so far denote a number above the limit.
    TooLarge,
}

impl NumberFault {
    /// The reason in words.
    pub open spec fn reason(self) -> Seq<char> {
        match self {
            NumberFault::InvalidDigit => "invalid digit found in string"@,
            NumberFault::TooLarge => "number too large to fit in target type"@,
        }
    }

    /// The reason in words.
    pub fn message(self) -> (r: &'static str)
        ensures
            r@ == self.reason(),
    {
        match self {
            NumberFault::InvalidDigit => "invalid digit found in string",
            NumberFault::TooLarge => "number too large to fit in target type",
        }
    }
}

/// Whether the first `n` characters are digits that denote a number above `max`.
pub open spec fn exceeds(digits: Seq<char>, n: int, max: nat) -> bool {
    0 <= n <= digits.len() && all_decimal(digits.take(n)) && decimal_value(digits.take(n)) > max
}

/// Why `digits` is no number of at most `max`, for a text that is none: digits
/// are read from the left, and the number is too large as soon as those read so
/// far exceed the limit.
pub open spec fn digits_fault(digits: Seq<char>, max: nat) -> NumberFault {
    if exists|n: int| exceeds(digits, n, max) {
        NumberFault::TooLarge
    } else {
        NumberFault::InvalidDigit
    }
}

/// The digits up to the first other character exceed the limit whenever some
/// beginning of the text does.
proof fn lemma_exceeds(digits: Seq<char>, n: int, m: int, max: nat)
    requires
        exceeds(digits, m, max),
        0 <= n <= digits.len(),
        decimal_value(digits.take(n)) <= max,
    ensures
        n < m,
        n < digits.len() ==> digit_value(digits[n]) < 10,
{
    if n >= m {
        lemma_value_grows(digits.take(n), m);
        assert(digits.take(n).take(m) =~= digits.take(m));
    } else {
        assert(digits.take(m)[n] == digits[n]);
    }
}

/// Finds out why a text is no number.
fn fault_of_digits(digits: &[char], max: u32) -> (r: NumberFault)
    ensures
        r == digits_fault(digits@, max as nat),
{
    let ghost d = digits@;
    let mut value: u64 = 0;
    let mut i: usize = 0;
    while i < digits.len()
        invariant
            i <= digits@.len(),
            d == digits@,
            value <= max,
            value == decimal_value(d.take(i as int)),
            all_decimal(d.take(i as int)),
        decreases digits@.len() - i,
    {
        let v: u8 = value_of_digit(digits[i]);
        if v >= 10 {
            proof {
                if exists|n: int| exceeds(d, n, max as nat) {
                    let n = choose|n: int| exceeds(d, n, max as nat);
                    lemma_exceeds(d, i as int, n, max as nat);
                }
            }
            return NumberFault::InvalidDigit;
        }
        assert(d.take(i + 1).drop_last() =~= d.take(i as int));
        value = 10 * value + v as u64;
        i += 1;
        if value > max as u64 {
            assert(exceeds(d, i as int, max as nat));
            return NumberFault::TooLarge;
        }
    }
    proof {
        if exists|n: int| exceeds(d, n, max as nat) {
            let n = choose|n: int| exceeds(d, n, max as nat);
            lemma_exceeds(d, i as int, n, max as nat);
        }
    }
    NumberFault::InvalidDigit
}

/// Finds out why a text with an optional sign is no number.
pub fn fault_of_number(s: &[char], max: u32) -> (r: NumberFault)
    ensures
        r == digits_fault(after_sign(s@), max as nat),
{
    if s.len() > 0 && s[0] == '+' {
        fault_of_digits(slice_subrange(s, 1, s.len()), max)
    } else {
        fault_of_digits(s, max)
    }
}

/// A number written in decimal is made of digits that denote it, and begins
/// with zero only if it is zero.
pub proof fn lemma_decimal(n: nat)
    ensures
        decimal(n).len() >= 1,
        all_decimal(decimal(n)),
        decimal_value(decimal(n)) == n,
        n > 0 ==> decimal(n)[0] != '0',
        n == 0 ==> decimal(n) == seq!['0'],
        decimal(n)[0] != '+',
    decreases n,
{
    if n < 10 {
        lemma_digit(n as int);
        assert(decimal(n).drop_last() =~= seq![]);
        assert(decimal_value(seq![]) == 0);
        assert(decimal(n).last() == digit_char(n as int));
    } else {
        lemma_decimal(n / 10);
        lemma_digit((n % 10) as int);
        assert(decimal(n).drop_last() =~= decimal(n / 10));
    }
}

/// Reading back a number that was written in decimal gives the number.
pub proof fn law_decimal_round_trip(n: nat, max: nat)
    requires
        n <= max,
    ensures
        unsigned(decimal(n), max) == Some(n),
{
    lemma_decimal(n);
}

// --- Hexadecimal ---

/// `n` in lower-case hexadecimal, without leading zeros.
pub open spec fn hex(n: nat) -> Seq<char>
    decreases n,
{
    if n < 16 {
        seq![digit_char(n as int)]
    } else {
        hex(n / 16).push(digit_char((n % 16) as int))
    }
}

/// Whether every character of `s` is a hexadecimal digit.
pub open spec fn all_hex(s: Seq<char>) -> bool {
    forall|i: int| 0 <= i < s.len() ==> digit_value(#[trigger] s[i]) < 16
}

/// The number that a run of hexadecimal digits denotes.
pub open spec fn hex_value(s: Seq<char>) -> nat
    decreases s.len(),
{
    if s.len() == 0 {
        0
    } else {
        (16 * hex_value(s.drop_last()) + digit_value(s.last())) as nat
    }
}

/// The characters of `n` in hexadecimal.
pub fn hex_chars(n: u64) -> (r: Vec<char>)
    ensures
        r@ == hex(n as nat),
    decreases n,
{
    if n < 16 {
        let mut r: Vec<char> = Vec::new();
        r.push(to_digit(n as u8));
        assert(r@ =~= hex(n as nat));
        r
    } else {
        let mut r = hex_chars(n / 16);
        r.push(to_digit((n % 16) as u8));
        r
    }
}

/// `n` in hexadecimal.
pub fn hex_string(n: u64) -> (r: String)
    ensures
        r@ == hex(n as nat),
{
    string_of(hex_chars(n).as_slice())
}

/// A number written in hexadecimal is made of digits that denote it.
pub proof fn lemma_hex(n: nat)
    ensures
        hex(n).len() >= 1,
        all_hex(hex(n)),
        hex_value(hex(n)) == n,
        n < 65536 ==> hex(n).len() <= 4,
    decreases n,
{
    if n < 16 {
        lemma_digit(n as int);
        assert(hex(n).drop_last() =~= seq![]);
        assert(hex_value(seq![]) == 0);
        assert(hex(n).last() == digit_char(n as int));
    } else {
        lemma_hex(n / 16);
        lemma_digit((n % 16) as int);
        assert(hex(n).drop_last() =~= hex(n / 16));
        lemma_hex_len(n);
    }
}

/// A 16-bit number has at most four hexadecimal digits.
proof fn lemma_hex_len(n: nat)
    ensures
        n < 65536 ==> hex(n).len() <= 4,
{
    reveal_with_fuel(hex, 4);
}

/// Each byte as two hexadecimal digits.
pub open spec fn hex_pairs(bytes: Seq<u8>) -> Seq<char> {
    Seq::new(
        2 * bytes.len(),
        |i: int|
            if i % 2 == 0 {
                digit_char((bytes[i / 2] / 16) as int)
            } else {
                digit_char((bytes[i / 2] % 16) as int)
            },
    )
}

/// Writes each byte as two hexadecimal digits.
pub fn hex_of_bytes(bytes: &[u8]) -> (r: String)
    ensures
        r@ == hex_pairs(bytes@),
{
    let mut r: Vec<char> = Vec::new();
    let mut i: usize = 0;
    while i < bytes.len()
        invariant
            i <= bytes@.len(),
            r@ == hex_pairs(bytes@).take(2 * i),
        decreases bytes@.len() - i,
    {
        r.push(to_digit(bytes[i] / 16));
        r.push(to_digit(bytes[i] % 16));
        i += 1;
    }
    assert(hex_pairs(bytes@).take(2 * i) =~= hex_pairs(bytes@));
    string_of(r.as_slice())
}

// --- Laws ---

/// Digits are those of ASCII: `0` to `9`, and for hexadecimal numbers the letters,
/// written in lower case and read in either.
pub proof fn law_digits(d: int)
    requires
        0 <= d < 16,
    ensures
        d < 10 ==> digit_char(d) as int == 48 + d,
        d >= 10 ==> digit_char(d) as int == 87 + d,
        forall|c: char| #[trigger]
            digit_value(c) == d <==> (d < 10 && c as int == 48 + d) || (d >= 10 && (c as int == 87
                + d || c as int == 55 + d)),
{
}

/// In decimal, a further digit is written behind those of the number without it.
pub proof fn law_decimal_digits(n: nat, d: nat)
    requires
        d < 10,
    ensures
        decimal(d) == seq![digit_char(d as int)],
        n > 0 ==> decimal(10 * n + d) == decimal(n).push(digit_char(d as int)),
{
    if n > 0 {
        assert((10 * n + d) / 10 == n && (10 * n + d) % 10 == d);
    }
}

/// In hexadecimal, a further digit is written behind those of the number without
/// it.
pub proof fn law_hex_digits(n: nat, d: nat)
    requires
        d < 16,
    ensures
        hex(d) == seq![digit_char(d as int)],
        n > 0 ==> hex(16 * n + d) == hex(n).push(digit_char(d as int)),
{
    if n > 0 {
        assert((16 * n + d) / 16 == n && (16 * n + d) % 16 == d);
    }
}

/// Different numbers are written differently.
pub proof fn law_numerals_distinct(m: nat, n: nat)
    ensures
        decimal(m) == decimal(n) ==> m == n,
        hex(m) == hex(n) ==> m == n,
{
    lemma_decimal(m);
    lemma_decimal(n);
    lemma_hex(m);
    lemma_hex(n);
}

/// A number is read digit by digit from the left. A character that is no decimal
/// digit, or a number above the limit, makes the text unreadable.
pub proof fn law_number_read(s: Seq<char>, c: char, max: nat)
    ensures
        !('0' <= c <= '9') ==> unsigned(s.push(c), max) is None,
        '0' <= c <= '9' && s.len() == 0 ==> unsigned(s.push(c), max) == (if c as int - 48 <= max {
            Some((c as int - 48) as nat)
        } else {
            None
        }),
        '0' <= c <= '9' && s.len() > 0 && s != seq!['+'] ==> unsigned(s.push(c), max) == (
        match unsigned(s, max) {
            Some(n) if 10 * n + (c as int - 48) <= max => Some((10 * n + (c as int - 48)) as nat),
            _ => None,
        }),
        unsigned(Seq::empty(), max) is None,
{
    let all = s.push(c);
    if s.len() == 0 {
        if c == '+' {
            assert(after_sign(all) =~= Seq::empty());
        } else {
            assert(after_sign(all) =~= seq![c]);
            assert(seq![c].drop_last() =~= Seq::empty());
            assert(decimal_value(Seq::empty()) == 0);
            assert(seq![c].last() == c);
            assert(decimal_value(seq![c]) == digit_value(c));
            assert(all_decimal(seq![c]) <==> digit_value(seq![c][0]) < 10);
        }
    } else {
        let digits = after_sign(s);
        assert(after_sign(all) =~= digits.push(c));
        assert(digits.push(c).drop_last() =~= digits);
        assert(digits.push(c).last() == c);
        assert(all_decimal(digits.push(c)) <==> all_decimal(digits) && digit_value(c) < 10) by {
            if all_decimal(digits.push(c)) {
                assert(digit_value(digits.push(c)[digits.len() as int]) < 10);
                assert forall|i: int| 0 <= i < digits.len() implies digit_value(
                    #[trigger] digits[i],
                ) < 10 by {
                    assert(digit_value(digits.push(c)[i]) < 10);
                }
            }
        }
        if digits.len() == 0 {
            assert(s =~= seq!['+']);
            assert(digits.push(c) =~= seq![c]);
        }
    }
}

/// One plus sign in front of a number does not matter.
pub proof fn law_plus_sign(s: Seq<char>, max: nat)
    requires
        s.len() > 0,
        s[0] != '+',
    ensures
        unsigned(seq!['+'] + s, max) == unsigned(s, max),
{
    assert((seq!['+'] + s).skip(1) =~= s);
}

/// Digits alone that are no number are one that is too large; a text that does
/// not begin with a digit is no number at all.
pub proof fn law_number_fault(digits: Seq<char>, max: nat)
    ensures
        digits.len() > 0 && all_decimal(digits) && unsigned(digits, max) is None ==> digits_fault(
            digits,
            max,
        ) is TooLarge,
        digits.len() == 0 || !('0' <= digits[0] <= '9') ==> digits_fault(digits, max)
            is InvalidDigit,
{
    if digits.len() > 0 && all_decimal(digits) && unsigned(digits, max) is None {
        assert(digit_value(digits[0]) < 10);
        assert(digits.take(digits.len() as int) =~= digits);
        assert(exceeds(digits, digits.len() as int, max));
    }
    if digits.len() == 0 || !('0' <= digits[0] <= '9') {
        assert forall|n: int| !exceeds(digits, n, max) by {
            if exceeds(digits, n, max) {
                if n > 0 {
                    assert(digit_value(digits.take(n)[0]) < 10);
                } else {
                    assert(digits.take(n) =~= Seq::empty());
                    assert(decimal_value(Seq::empty()) == 0);
                }
            }
        }
    }
}

/// A byte is written as its two hexadecimal digits, the more significant first.
pub proof fn law_hex_pairs(bytes: Seq<u8>, i: int)
    requires
        0 <= i < bytes.len(),
    ensures
        ({
            let text = hex_pairs(bytes);
            let two = seq![text[2 * i], text[2 * i + 1]];
            &&& text.len() == 2 * bytes.len()
            &&& two == (if bytes[i] < 16 {
                seq!['0'] + hex(bytes[i] as nat)
            } else {
                hex(bytes[i] as nat)
            })
        }),
{
    let text = hex_pairs(bytes);
    let b = bytes[i] as nat;
    assert((2 * i) % 2 == 0 && (2 * i) / 2 == i && (2 * i + 1) % 2 == 1 && (2 * i + 1) / 2 == i);
    if b < 16 {
        assert(seq![text[2 * i], text[2 * i + 1]] =~= seq!['0'] + hex(b));
    } else {
        law_hex_digits(b / 16, b % 16);
        law_hex_digits(0, b / 16);
        assert(seq![text[2 * i], text[2 * i + 1]] =~= hex(b));
    }
}

/// A run of digits that does not begin with a needless zero is how its number is
/// written.
pub proof fn law_canonical_decimal(s: Seq<char>)
    requires
        s.len() > 0,
        all_decimal(s),
        s.len() > 1 ==> s[0] != '0',
    ensures
        decimal(decimal_value(s)) == s,
        s[0] != '0' ==> decimal_value(s) > 0,
    decreases s.len(),
{
    let c = s.last();
    let front = s.drop_last();
    assert(digit_value(s[s.len() - 1]) < 10);
    assert(digit_char(digit_value(c)) == c);
    if s.len() == 1 {
        assert(front =~= Seq::empty());
        assert(decimal_value(front) == 0);
        assert(s =~= seq![c]);
        assert(decimal_value(s) == digit_value(c));
    } else {
        assert(all_decimal(front)) by {
            assert forall|i: int| 0 <= i < front.len() implies digit_value(#[trigger] front[i])
                < 10 by {
                assert(front[i] == s[i]);
            }
        }
        assert(front[0] == s[0]);
        law_canonical_decimal(front);
        let (n, d) = (decimal_value(front), digit_value(c) as nat);
        law_decimal_digits(n, d);
        assert(decimal_value(s) == 10 * n + d);
        assert(s =~= front.push(c));
    }
}

/// A hexadecimal number is read digit by digit from the left.
pub proof fn law_hex_value(s: Seq<char>, c: char)
    ensures
        hex_value(Seq::empty()) == 0,
        '0' <= c <= '9' ==> hex_value(s.push(c)) == 16 * hex_value(s) + (c as int - 48),
        'a' <= c <= 'f' ==> hex_value(s.push(c)) == 16 * hex_value(s) + (c as int - 87),
        'A' <= c <= 'F' ==> hex_value(s.push(c)) == 16 * hex_value(s) + (c as int - 55),
{
    assert(s.push(c).drop_last() =~= s);
}

} // verus!
