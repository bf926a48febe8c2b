//! Dial strings as slmodemd sends them.

use crate::text::{chars_of, string_of};
use vstd::prelude::*;
use vstd::slice::slice_subrange;

verus! {

broadcast use vstd::string::group_string_axioms;

/// A checked dial string: not empty, and made of characters that a modem dials.
#[derive(Debug, PartialEq, Eq)]
pub struct DialString(String);

/// Why a text is no dial string.
#[derive(Debug, Clone, PartialEq, Eq)]
pub enum DialError {
    /// Nothing is left after the tone/pulse prefix.
    Empty,
    /// The text after the prefix holds a character that cannot be dialled.
    Unsupported(String),
}

/// Whether `c` selects tone or pulse dialling.
pub open spec fn tone_pulse(c: char) -> bool {
    c == 'T' || c == 't' || c == 'P' || c == 'p'
}

/// `s` without the leading characters that select tone or pulse dialling.
pub open spec fn after_prefix(s: Seq<char>) -> Seq<char>
    decreases s.len(),
{
    if s.len() > 0 && tone_pulse(s[0]) {
        after_prefix(s.skip(1))
    } else {
        s
    }
}

/// Whether `c` may stand in a dial string.
pub open spec fn dial_char(c: char) -> bool {
    ||| '0' <= c <= '9'
    ||| c == '*'
    ||| c == '#'
    ||| c == '+'
    ||| c == ','
    ||| c == 'w'
    ||| c == 'W'
}

/// Whether every character of `s` may stand in a dial string.
pub open spec fn all_dialable(s: Seq<char>) -> bool {
    forall|i: int| 0 <= i < s.len() ==> dial_char(#[trigger] s[i])
}

/// Whether `c` may stand in a dial string.
pub fn is_allowed_dial_char(c: char) -> (r: bool)
    ensures
        r == dial_char(c),
{
    ('0' <= c && c <= '9') || c == '*' || c == '#' || c == '+' || c == ',' || c == 'w' || c == 'W'
}

/// Removes the leading characters that select tone or pulse dialling.
pub fn strip_tone_pulse_prefix<'a>(input: &'a [char]) -> (r: &'a [char])
    ensures
        r@ == after_prefix(input@),
{
    let mut i: usize = 0;
    assert(input@.skip(0) =~= input@);
    while i < input.len() && (input[i] == 'T' || input[i] == 't' || input[i] == 'P' || input[i]
        == 'p')
        invariant
            i <= input@.len(),
            after_prefix(input@) == after_prefix(input@.skip(i as int)),
        decreases input@.len() - i,
    {
        assert(input@.skip(i as int).skip(1) =~= input@.skip(i + 1));
        i += 1;
    }
    slice_subrange(input, i, input.len())
}

impl View for DialString {
    type V = Seq<char>;

    closed spec fn view(&self) -> Seq<char> {
        self.0@
    }
}

impl Clone for DialString {
    fn clone(&self) -> (r: DialString)
        ensures
            r@ == self@,
    {
        proof {
            use_type_invariant(self);
        }
        DialString(self.0.clone())
    }
}

impl DialString {
    #[verifier::type_invariant]
    spec fn valid(self) -> bool {
        self.0@.len() > 0 && all_dialable(self.0@)
    }

    /// Removes the tone/pulse prefix of `input` and checks what is left.
    pub fn parse(input: &str) -> (r: Result<DialString, DialError>)
        ensures
            match r {
                Ok(dial) => {
                    &&& dial@ == after_prefix(input@)
                    &&& dial@.len() > 0
                    &&& all_dialable(dial@)
                },
                Err(DialError::Empty) => after_prefix(input@).len() == 0,
                Err(DialError::Unsupported(text)) => {
                    &&& text@ == after_prefix(input@)
                    &&& text@.len() > 0
                    &&& !all_dialable(text@)
                },
            },
    {
        let chars = chars_of(input);
        let stripped = strip_tone_pulse_prefix(chars.as_slice());
        if stripped.len() == 0 {
            return Err(DialError::Empty);
        }
        let mut i: usize = 0;
        while i < stripped.len()
            invariant
                i <= stripped@.len(),
                stripped@ == after_prefix(input@),
                stripped@.len() > 0,
                forall|k: int| 0 <= k < i ==> dial_char(#[trigger] stripped@[k]),
            decreases stripped@.len() - i,
        {
            if !is_allowed_dial_char(stripped[i]) {
                return Err(DialError::Unsupported(string_of(stripped)));
            }
            i += 1;
        }
        Ok(DialString(string_of(stripped)))
    }

    /// The dial string as text. It is never empty and can always be dialled.
    pub fn as_str(&self) -> (r: &str)
        ensures
            r@ == self@,
            r@.len() > 0,
            all_dialable(r@),
    {
        proof {
            use_type_invariant(self);
        }
        self.0.as_str()
    }
}

impl DialError {
    /// The error in words.
    pub open spec fn text(self) -> Seq<char> {
        match self {
            DialError::Empty => "dial string is empty"@,
            DialError::Unsupported(text) => "dial string contains unsupported characters: "@
                + text@,
        }
    }

    /// The error in words.
    pub fn message(&self) -> (r: String)
        ensures
            r@ == self.text(),
    {
        match self {
            DialError::Empty => String::from_str("dial string is empty"),
            DialError::Unsupported(text) => {
                let mut r = String::from_str("dial string contains unsupported characters: ");
                r.append(text.as_str());
                r
            },
        }
    }
}

/// A dial string that passed the check passes it again unchanged.
pub proof fn law_parse_idempotent(input: Seq<char>)
    requires
        all_dialable(after_prefix(input)),
    ensures
        after_prefix(after_prefix(input)) == after_prefix(input),
{
    let s = after_prefix(input);
    if s.len() > 0 {
        assert(dial_char(s[0]));
    }
}

/// What may be dialled: digits, star and hash, a plus sign, and the pauses.
pub proof fn law_dial_chars(c: char)
    ensures
        dial_char(c) <==> seq![
            '0',
            '1',
            '2',
            '3',
            '4',
            '5',
            '6',
            '7',
            '8',
            '9',
            '*',
            '#',
            '+',
            ',',
            'w',
            'W',
        ].contains(c),
{
    let all = seq![
        '0',
        '1',
        '2',
        '3',
        '4',
        '5',
        '6',
        '7',
        '8',
        '9',
        '*',
        '#',
        '+',
        ',',
        'w',
        'W',
    ];
    assert(all[0] == '0' && all[1] == '1' && all[2] == '2' && all[3] == '3' && all[4] == '4');
    assert(all[5] == '5' && all[6] == '6' && all[7] == '7' && all[8] == '8' && all[9] == '9');
    assert(all[10] == '*' && all[11] == '#' && all[12] == '+' && all[13] == ',');
    assert(all[14] == 'w' && all[15] == 'W');
}

/// All letters in front that choose tone or pulse dialling are taken off, and
/// nothing else.
pub proof fn law_prefix_taken_off(prefix: Seq<char>, number: Seq<char>)
    requires
        forall|i: int|
            0 <= i < prefix.len() ==> #[trigger] prefix[i] == 'T' || prefix[i] == 't' || prefix[i]
                == 'P' || prefix[i] == 'p',
        number.len() > 0 ==> number[0] != 'T' && number[0] != 't' && number[0] != 'P' && number[0]
            != 'p',
    ensures
        after_prefix(prefix + number) == number,
    decreases prefix.len(),
{
    let all = prefix + number;
    if prefix.len() == 0 {
        assert(all =~= number);
    } else {
        assert(all[0] == prefix[0]);
        assert(all.skip(1) =~= prefix.skip(1) + number);
        assert forall|i: int| 0 <= i < prefix.skip(1).len() implies #[trigger] prefix.skip(1)[i]
            == 'T' || prefix.skip(1)[i] == 't' || prefix.skip(1)[i] == 'P' || prefix.skip(1)[i]
            == 'p' by {
            assert(prefix.skip(1)[i] == prefix[i + 1]);
        }
        law_prefix_taken_off(prefix.skip(1), number);
    }
}

/// A text is all dialable where each of its characters may be dialled.
pub proof fn law_all_dialable(s: Seq<char>, t: Seq<char>)
    ensures
        all_dialable(s + t) <==> all_dialable(s) && all_dialable(t),
        all_dialable(Seq::empty()),
        s.len() == 1 ==> (all_dialable(s) <==> dial_char(s[0])),
{
    let all = s + t;
    if all_dialable(all) {
        assert forall|i: int| 0 <= i < s.len() implies dial_char(#[trigger] s[i]) by {
            assert(dial_char(all[i]));
        }
        assert forall|i: int| 0 <= i < t.len() implies dial_char(#[trigger] t[i]) by {
            assert(dial_char(all[i + s.len()]));
        }
    }
}

/// What each error is called; unsupported characters are told with the text that
/// holds them.
pub proof fn law_errors_told(text: String)
    ensures
        DialError::Empty.text() == "dial string is empty"@,
        DialError::Unsupported(text).text() == "dial string contains unsupported characters: "@
            + text@,
{
}

} // verus!
