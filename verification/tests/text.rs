use slmodem_sip_bridge::net::IpAddr;
use slmodem_sip_bridge::numeral::{
    decimal_string, fault_of_number, hex_of_bytes, hex_string, parse_unsigned, NumberFault,
};
use slmodem_sip_bridge::text::{
    chars_of, end_lines, find, from_utf8_lossy, is_white_space, join, lines, lowercase, pieces,
    replace, same_text, string_of, strip_leading, trim, words,
};

fn texts(slices: Vec<&[char]>) -> Vec<String> {
    slices.into_iter().map(string_of).collect()
}

const SAMPLES: [&str; 9] = [
    "",
    "\n",
    "a\r\nb\n\nc",
    "a\r\n",
    "a\r",
    "  x\ty \u{3000}z\u{a0}",
    "\r\r\n\n",
    "no end\r\nlast",
    ",a,,b,",
];

#[test]
fn lines_and_words_are_those_of_std() {
    for sample in SAMPLES {
        let chars = chars_of(sample);
        assert_eq!(texts(lines(&chars)), sample.lines().collect::<Vec<_>>());
        assert_eq!(texts(words(&chars)), sample.split_whitespace().collect::<Vec<_>>());
        assert_eq!(texts(pieces(&chars, ',')), sample.split(',').collect::<Vec<_>>());
        assert_eq!(string_of(trim(&chars)), sample.trim());
    }
}

#[test]
fn white_space_is_that_of_std() {
    for c in '\0'..=char::MAX {
        assert_eq!(is_white_space(c), c.is_whitespace(), "{c:?}");
    }
}

#[test]
fn searching_and_replacing_are_those_of_std() {
    for (s, p) in [("abcabc", "c"), ("aaaa", "aa"), ("abc", "x"), ("", "a"), ("aab", "ab")] {
        let (chars, pattern) = (chars_of(s), chars_of(p));
        assert_eq!(find(&chars, &pattern, 0), s.find(p));
        let replaced = replace(&chars, &pattern, &chars_of("->"));
        assert_eq!(string_of(&replaced), s.replace(p, "->"));
    }
    assert_eq!(find(&chars_of("abab"), &chars_of("ab"), 1), Some(2));
    assert_eq!(string_of(strip_leading(&chars_of("//a/b"), '/')), "a/b");
    assert_eq!(string_of(strip_leading(&chars_of("//"), '/')), "");
}

#[test]
fn small_text_functions() {
    assert_eq!(string_of(&lowercase(&chars_of("AbC\u{c9}z"))), "abc\u{c9}z");
    assert!(same_text("a", "a") && !same_text("a", "ab"));
    let parts = vec![chars_of("a"), chars_of(""), chars_of("b")];
    assert_eq!(string_of(&join(&parts, &[':'])), "a::b");
    assert_eq!(end_lines(&vec!["a".to_string(), String::new()]), "a\r\n\r\n");
}

#[test]
fn lossy_text_is_that_of_std() {
    for bytes in [&b"plain"[..], &b"\xF0\x9F\x98\x80"[..], &b"a\xFFb\xC3"[..], &b""[..]] {
        assert_eq!(from_utf8_lossy(bytes), String::from_utf8_lossy(bytes));
    }
    assert_eq!(from_utf8_lossy(b"a\xFFb"), "a\u{FFFD}b");
}

#[test]
fn numbers() {
    assert_eq!(decimal_string(0), "0");
    assert_eq!(decimal_string(u128::MAX), u128::MAX.to_string());
    assert_eq!(hex_string(0), "0");
    assert_eq!(hex_string(u64::MAX), "ffffffffffffffff");
    assert_eq!(hex_of_bytes(&[0, 0x0A, 0xFF]), "000aff");
    for text in ["0", "007", "+5", "65535", "65536", "", "+", "-1", "1a", "99999999999999999999"] {
        let chars = chars_of(text);
        let parsed = text.parse::<u16>();
        assert_eq!(parse_unsigned(&chars, 65535), parsed.clone().ok().map(u32::from), "{text}");
    }
    assert_eq!(fault_of_number(&chars_of("1a"), 65535), NumberFault::InvalidDigit);
    assert_eq!(fault_of_number(&chars_of("70000"), 65535), NumberFault::TooLarge);
}

#[test]
fn addresses_are_read_and_written() {
    for (text, canonical) in [
        ("10.0.0.1", "10.0.0.1"),
        ("255.255.255.255", "255.255.255.255"),
        ("::", "::"),
        ("::1", "::1"),
        ("1:0:0:2::", "1:0:0:2::"),
        ("1:0:0:2:0:0:0:3", "1:0:0:2::3"),
        ("2001:DB8:0:0:1:0:0:1", "2001:db8::1:0:0:1"),
        ("::ffff:1.2.3.4", "::ffff:1.2.3.4"),
        ("::ffff:102:304", "::ffff:1.2.3.4"),
        ("1:2:3:4:5:6:1.2.3.4", "1:2:3:4:5:6:102:304"),
        ("0:1:0:1:0:1:0:1", "0:1:0:1:0:1:0:1"),
        ("1:2:3:4:5:6:7::", "1:2:3:4:5:6:7:0"),
        ("::2:3:4:5:6:7:8", "0:2:3:4:5:6:7:8"),
        ("::1.2.3.4", "::102:304"),
        ("1::3.4.5.6", "1::304:506"),
        ("0:0:1::", "0:0:1::"),
        ("000a::0Bc", "a::bc"),
    ] {
        let ip = IpAddr::parse(text).unwrap();
        assert_eq!(ip.text(), canonical);
        assert_eq!(IpAddr::parse(canonical), Some(ip));
    }
    for text in ["", "1.2.3", "1.2.3.256", "01.2.3.4", "1.2.3.4.5", ":", ":::", "1::2::3", "g::",
        "12345::", "1:2:3:4:5:6:7", "1:2:3:4:5:6:7:8:9", "1.2.3.4::", " 1.2.3.4",
        "1::2:3:4:5:6:7:8", "1:2:3:4:5:6:7:8::", "::1.2.3.4:5", "1:2:3:4:5:6:7:1.2.3.4", "1..2.3",
        "+1.2.3.4", "::ffff:1.2.3", "fe80::1%eth0", "[::1]", "1:", ":1"]
    {
        assert_eq!(IpAddr::parse(text), None, "{text}");
    }
    assert!(IpAddr::V4([0; 4]).is_unspecified() && IpAddr::V6([0; 8]).is_unspecified());
    assert!(!IpAddr::V4([0, 0, 0, 1]).is_unspecified());
}
