use vnkey_core::converter::{count_vietnamese_chars, is_vietnamese, remove_diacritics};

const VN_DIACRITICS: &str = "àáảãạâầấẩẫậăằắẳẵặèéẻẽẹêềếểễệìíỉĩịòóỏõọôồốổỗộơờớởỡợùúủũụưừứửữựỳýỷỹỵđ";

#[test]
fn test_remove_diacritics() {
    assert_eq!(remove_diacritics("Tiếng Việt"), "Tieng Viet");
    assert_eq!(remove_diacritics("đường"), "duong");
    assert_eq!(remove_diacritics("Hello"), "Hello");
    assert_eq!(remove_diacritics("Đà Nẵng"), "Da Nang");
}

#[test]
fn test_remove_diacritics_preserves_case() {
    assert_eq!(remove_diacritics("TIẾNG"), "TIENG");
    assert_eq!(remove_diacritics("Đẹp"), "Dep");
}

#[test]
fn test_is_vietnamese() {
    assert!(is_vietnamese("Tiếng Việt"));
    assert!(is_vietnamese("Đà Nẵng"));
    assert!(is_vietnamese("một"));
    assert!(!is_vietnamese("Hello World"));
    assert!(!is_vietnamese("12345"));
}

#[test]
fn test_count_vietnamese_chars() {
    assert_eq!(count_vietnamese_chars("Tiếng Việt"), 2); // ế, ệ
    assert_eq!(count_vietnamese_chars("Hello"), 0);
}

#[test]
fn test_all_vowels_covered() {
    // Verify every Vietnamese diacritical char maps to a base
    for c in VN_DIACRITICS.chars() {
        let result = remove_diacritics(&c.to_string());
        assert!(
            result.chars().all(|r| r.is_ascii_alphabetic()),
            "Character '{}' did not map to ASCII: '{}'", c, result
        );
    }
}
