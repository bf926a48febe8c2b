use slmodem_sip_bridge::dial_string::{
    is_allowed_dial_char, strip_tone_pulse_prefix, DialError, DialString,
};

#[test]
fn strips_tone_prefix() {
    let dial = DialString::parse("T18005551212").unwrap();
    assert_eq!(dial.as_str(), "18005551212");
}

#[test]
fn strips_multiple_prefix_chars() {
    let dial = DialString::parse("tPpW123").unwrap();
    assert_eq!(dial.as_str(), "W123");
}

#[test]
fn rejects_empty_after_prefix_strip() {
    let err = DialString::parse("TPtp").expect_err("must reject empty dial string");
    assert!(err.message().contains("empty"));
}

#[test]
fn rejects_invalid_characters() {
    let err = DialString::parse("1800-555-1212").expect_err("must reject '-' characters");
    assert!(err.message().contains("unsupported characters"));
}

#[test]
fn allows_common_modem_dial_chars() {
    let dial = DialString::parse("+15551212,,W9#").unwrap();
    assert_eq!(dial.as_str(), "+15551212,,W9#");
}

#[test]
fn errors_name_what_was_given() {
    assert_eq!(DialString::parse(""), Err(DialError::Empty));
    assert_eq!(
        DialString::parse("p12x"),
        Err(DialError::Unsupported("12x".to_string()))
    );
    assert_eq!(
        DialString::parse("p12x").unwrap_err().message(),
        "dial string contains unsupported characters: 12x"
    );
}

#[test]
fn parsing_again_changes_nothing() {
    let once = DialString::parse("TT*70,w5551212").unwrap();
    let twice = DialString::parse(once.as_str()).unwrap();
    assert_eq!(once, twice);
    assert_eq!(once.clone().as_str(), "*70,w5551212");
}

#[test]
fn dial_characters() {
    let allowed: String = (0..128u8)
        .map(|b| b as char)
        .filter(|c| is_allowed_dial_char(*c))
        .collect();
    assert_eq!(allowed, "#*+,0123456789Ww");
    assert!(!is_allowed_dial_char('\u{0663}'));
    let chars: Vec<char> = "TtPpT9T".chars().collect();
    assert_eq!(strip_tone_pulse_prefix(&chars), ['9', 'T']);
}
