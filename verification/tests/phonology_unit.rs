use vnkey_core::phonology::{is_perfect, is_valid_coda, is_valid_onset, is_valid_spelling, validate_syllable};
use vnkey_core::syllable::Syllable;

#[test]
fn test_onset_validation() {
    assert!(is_valid_onset("ngh", false));
    assert!(is_valid_onset("tr", false));
    assert!(!is_valid_onset("z", false)); // 'z' is not a standard VN onset
    assert!(is_valid_onset("z", true)); // 'z' is valid if allowed
    assert!(is_valid_onset("", false)); // Empty is valid (start with vowel)
}

#[test]
fn test_spelling_rules() {
    // k/gh/ngh rules
    assert!(is_valid_spelling("k", "i"));
    assert!(is_valid_spelling("gh", "ê"));
    assert!(is_valid_spelling("ngh", "e"));
    assert!(!is_valid_spelling("k", "a"));
    assert!(!is_valid_spelling("gh", "o"));
    assert!(!is_valid_spelling("ngh", "u"));

    // c/g/ng rules
    assert!(is_valid_spelling("c", "a"));
    assert!(is_valid_spelling("g", "ô"));
    assert!(is_valid_spelling("ng", "ư"));
    assert!(!is_valid_spelling("c", "i"));
    assert!(!is_valid_spelling("g", "ê"));
    assert!(!is_valid_spelling("ng", "e"));
}

#[test]
fn test_validity_score() {
    let perfect = Syllable {
        onset: "ngh".to_string(),
        vowel: "iê".to_string(),
        coda: "p".to_string(),
        tone: 1,
    };
    assert_eq!(validate_syllable(&perfect, false), 100);

    let typo = Syllable {
        onset: "k".to_string(),
        vowel: "a".to_string(),
        coda: "n".to_string(),
        tone: 0,
    };
    assert_eq!(validate_syllable(&typo, false), 10);

    let invalid_coda = Syllable {
        onset: "b".to_string(),
        vowel: "a".to_string(),
        coda: "z".to_string(),
        tone: 0,
    };
    // P13: Invalid coda now returns 8 (suspicious but not garbage)
    assert_eq!(validate_syllable(&invalid_coda, false), 8);
    assert_eq!(validate_syllable(&invalid_coda, true), 100); // Valid with foreign allow
}
