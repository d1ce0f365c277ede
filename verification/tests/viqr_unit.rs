use vnkey_core::viqr::{apply_modifiers, extract_tone};

#[test]
fn test_viqr_tone_sac() {
    let (core, tone) = extract_tone("a'");
    assert_eq!(core, "a");
    assert_eq!(tone, 1);
}

#[test]
fn test_viqr_tone_huyen() {
    let (core, tone) = extract_tone("a`");
    assert_eq!(core, "a");
    assert_eq!(tone, 2);
}

#[test]
fn test_viqr_tone_no_vowel() {
    let (core, tone) = extract_tone("b'");
    assert_eq!(core, "b'");
    assert_eq!(tone, 0);
}

#[test]
fn test_viqr_modifiers() {
    assert_eq!(apply_modifiers("a^"), "â");
    assert_eq!(apply_modifiers("e^"), "ê");
    assert_eq!(apply_modifiers("o+"), "ơ");
    assert_eq!(apply_modifiers("u+"), "ư");
    assert_eq!(apply_modifiers("a("), "ă");
    assert_eq!(apply_modifiers("dd"), "đ");
}
