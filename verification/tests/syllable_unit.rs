use vnkey_core::syllable::{is_modified_vowel, is_vowel, parse, Syllable};

#[test]
fn test_parse_simple() {
    let s = parse("ban", 0);
    assert_eq!(s.onset, "b");
    assert_eq!(s.vowel, "a");
    assert_eq!(s.coda, "n");
}

#[test]
fn test_parse_qu() {
    let s = parse("quan", 0);
    assert_eq!(s.onset, "qu");
    assert_eq!(s.vowel, "a");
    assert_eq!(s.coda, "n");
}

#[test]
fn test_parse_gi() {
    let s = parse("giao", 0);
    assert_eq!(s.onset, "gi");
    assert_eq!(s.vowel, "ao");
    assert_eq!(s.coda, "");
}

#[test]
fn test_parse_gi_alone() {
    let s = parse("gi", 0);
    assert_eq!(s.onset, "g");
    assert_eq!(s.vowel, "i");
}

#[test]
fn test_parse_consonant_only() {
    let s = parse("th", 0);
    assert_eq!(s.onset, "th");
    assert_eq!(s.vowel, "");
}

#[test]
fn test_is_vowel() {
    assert!(is_vowel('a'));
    assert!(is_vowel('ư'));
    assert!(is_vowel('ơ'));
    assert!(!is_vowel('b'));
    assert!(!is_vowel('t'));
}

#[test]
fn test_parse_duplicate_vowel_yy() {
    // "thayy" → vowel="ay", coda="y" (not vowel="ayy")
    let s = parse("thayy", 0);
    assert_eq!(s.onset, "th");
    assert_eq!(s.vowel, "ay");
    assert_eq!(s.coda, "y");
}

#[test]
fn test_parse_duplicate_vowel_aa() {
    // After modifiers, "aa" becomes "â", so this tests raw "aa"
    let s = parse("baa", 0);
    assert_eq!(s.onset, "b");
    assert_eq!(s.vowel, "a");
    assert_eq!(s.coda, "a");
}
